# confidential_storage

The rules by which a guest agent and its runtime handle confidential storage, as a verified library.

- `initdata`: the frame of measured initialization data, its digest, and the key that it claims
- `declaration`, `plan`: declarations of confidential volumes, and what they make of a container
- `direct_volume`: direct volumes that are mounted at several destinations
- `topology`: mounts that would share plaintext with the host
- `block`, `device`, `multi_layer`, `storage`: from a storage request to a mounted device
- `cleanup`: the release of storages, which can be taken up again after a failure
- `mode`, `ownership`, `walk`: group ownership of a volume
- `logger`: the logger of the shim
- `text`, `text_map`, `path`, `names`, `types`: plain values

Steps that need the outside world are asked for by the library and performed in `app/`, which
reports back what came of them.
