use confidential_storage::declaration::ConfidentialStorageAccess;
use confidential_storage::direct_volume::{
    handle_direct_volume, is_direct_volume, to_volume_type, AttachStep,
    ConfidentialDirectVolumeBinding, DirectVolumeCheck, DirectVolumeError, DirectVolumeMountInfo,
    DirectVolumeType, KATA_DIRECT_VOLUME_TYPE,
};
use confidential_storage::names::KATA_CONFIDENTIAL_STORAGE_FS_TYPE;
use confidential_storage::types::{ConfidentialStorage, Mount, Storage};

struct TestVolume {
    mount: Mount,
    storage: Storage,
}

fn host_mount(destination: &str) -> Mount {
    Mount {
        source: Some("/run/kata/direct-volumes/workspace".to_string()),
        destination: destination.to_string(),
        typ: Some("bind".to_string()),
        options: Some(vec![
            "rbind".to_string(),
            "rprivate".to_string(),
            "rw".to_string(),
        ]),
    }
}

fn manifest() -> ConfidentialStorage {
    ConfidentialStorage {
        manifest_uri: "kbs:///tenant/storage-manifests/workspace-v1".to_string(),
        requested_access: ConfidentialStorageAccess::ReadWrite,
    }
}

fn test_volume() -> TestVolume {
    let mut mount = host_mount("/home/codewire");
    mount.source = Some(
        "/run/kata-containers/shared/containers/passthrough/confidential-test".to_string(),
    );
    TestVolume {
        mount,
        storage: Storage {
            confidential_storage: Some(manifest()),
            ..Default::default()
        },
    }
}

fn test_mount_info() -> DirectVolumeMountInfo {
    DirectVolumeMountInfo {
        volume_type: KATA_DIRECT_VOLUME_TYPE.to_string(),
        device: "/dev/longhorn/workspace".to_string(),
        fs_type: KATA_CONFIDENTIAL_STORAGE_FS_TYPE.to_string(),
        confidential_storage: Some(manifest()),
        ..Default::default()
    }
}

fn bind(volume: TestVolume) -> Result<ConfidentialDirectVolumeBinding, DirectVolumeError> {
    ConfidentialDirectVolumeBinding::new(
        &host_mount("/home/codewire"),
        &"bind".to_string(),
        &test_mount_info(),
        false,
        Ok(vec![volume.mount]),
        Ok(vec![volume.storage]),
    )
}

fn binding() -> ConfidentialDirectVolumeBinding {
    bind(test_volume()).unwrap()
}

fn bind_type() -> String {
    "bind".to_string()
}

#[test]
fn additional_destination_reuses_guest_mount_without_another_storage() {
    let mut binding = binding();
    let alias = binding
        .reuse(
            &host_mount("/workspace"),
            &bind_type(),
            &test_mount_info(),
            false,
        )
        .unwrap();

    assert!(alias.get_storage().is_empty());
    assert_eq!(alias.get_device_id(), None);
    let mounts = alias.get_volume_mount();
    assert_eq!(mounts.len(), 1);
    assert_eq!(mounts[0].destination, "/workspace");
    assert_eq!(
        mounts[0].source.as_deref(),
        Some("/run/kata-containers/shared/containers/passthrough/confidential-test")
    );
}

#[test]
fn additional_destination_contract_changes_fail_closed() {
    let mut changed_source = host_mount("/workspace");
    changed_source.source = Some("/run/kata/direct-volumes/other".to_string());
    assert!(binding()
        .reuse(&changed_source, &bind_type(), &test_mount_info(), false)
        .is_err());

    let mut changed_options = host_mount("/workspace");
    changed_options.options = Some(vec!["rbind".to_string(), "ro".to_string()]);
    assert!(binding()
        .reuse(&changed_options, &bind_type(), &test_mount_info(), true)
        .is_err());

    assert!(binding()
        .reuse(
            &host_mount("/workspace"),
            &bind_type(),
            &test_mount_info(),
            true
        )
        .is_err());
    assert!(binding()
        .reuse(
            &host_mount("/home/codewire"),
            &bind_type(),
            &test_mount_info(),
            false,
        )
        .is_err());

    let mut changed_metadata = test_mount_info();
    changed_metadata
        .metadata
        .insert("fsGroup".to_string(), "0".to_string());
    assert!(binding()
        .reuse(
            &host_mount("/workspace"),
            &bind_type(),
            &changed_metadata,
            false
        )
        .is_err());
}

#[test]
fn binding_requires_one_typed_storage() {
    let mut untyped = test_volume();
    untyped.storage.confidential_storage = None;
    assert!(bind(untyped).is_err());
}

#[test]
fn binding_names_each_fault() {
    let mut sourceless = host_mount("/home/codewire");
    sourceless.source = None;
    let new = |m: &Mount, mounts, storages| {
        ConfidentialDirectVolumeBinding::new(
            m,
            &bind_type(),
            &test_mount_info(),
            false,
            mounts,
            storages,
        )
        .unwrap_err()
    };
    let m = host_mount("/home/codewire");
    assert!(matches!(
        new(&sourceless, Ok(vec![]), Ok(vec![])),
        DirectVolumeError::MissingSource
    ));
    assert_eq!(
        new(&m, Err("gone".to_string()), Ok(vec![])).message(),
        "get confidential direct volume mount: gone"
    );
    assert!(matches!(
        new(&m, Ok(vec![]), Err("gone".to_string())),
        DirectVolumeError::MountCount
    ));
    assert_eq!(
        new(
            &m,
            Ok(vec![host_mount("/guest")]),
            Err("gone".to_string())
        )
        .message(),
        "get confidential direct volume storage: gone"
    );
    assert!(matches!(
        new(&m, Ok(vec![host_mount("/guest")]), Ok(vec![])),
        DirectVolumeError::StorageCount
    ));
}

#[test]
fn reuse_names_each_fault() {
    let m = host_mount("/workspace");
    let info = test_mount_info();
    assert!(matches!(
        binding().reuse(&m, &"none".to_string(), &info, false),
        Err(DirectVolumeError::ChangedType)
    ));
    assert!(matches!(
        binding().reuse(&m, &bind_type(), &info, true),
        Err(DirectVolumeError::ChangedAccess)
    ));
    let mut optionless = host_mount("/workspace");
    optionless.options = None;
    assert!(matches!(
        binding().reuse(&optionless, &bind_type(), &info, false),
        Err(DirectVolumeError::ChangedOptions)
    ));
    let mut sourceless = host_mount("/workspace");
    sourceless.source = None;
    assert!(matches!(
        binding().reuse(&sourceless, &bind_type(), &info, false),
        Err(DirectVolumeError::ChangedSource)
    ));
    let mut info = test_mount_info();
    info.options.push("ro".to_string());
    assert!(matches!(
        binding().reuse(&m, &bind_type(), &info, false),
        Err(DirectVolumeError::ChangedMetadata)
    ));
}

#[test]
fn destinations_are_told_apart_as_paths() {
    let mut binding = binding();
    let mut reuse = |destination: &str| {
        binding
            .reuse(
                &host_mount(destination),
                &bind_type(),
                &test_mount_info(),
                false,
            )
            .is_ok()
    };
    assert!(reuse("/workspace"));
    assert!(!reuse("/workspace/"));
    assert!(!reuse("/home//codewire"));
    assert!(reuse("/workspace/child"));
}

#[test]
fn volume_types_decide_how_a_volume_is_attached() {
    for (volume_type, kind) in [
        ("spdkvol", DirectVolumeType::Spdk),
        ("spoolvol", DirectVolumeType::Spdk),
        ("vfiovol", DirectVolumeType::Vfio),
        ("directvol", DirectVolumeType::RawBlock),
        ("", DirectVolumeType::RawBlock),
    ] {
        assert_eq!(to_volume_type(volume_type), kind);
    }
}

#[test]
fn only_confidential_volumes_are_bound() {
    let info = test_mount_info();
    let mut steps = Vec::new();
    let mut step = handle_direct_volume(&info, true, None);
    while step != AttachStep::Finished {
        steps.push(step);
        step = handle_direct_volume(&info, true, Some(step));
    }
    assert_eq!(
        steps,
        [
            AttachStep::Attach(DirectVolumeType::RawBlock),
            AttachStep::Record,
            AttachStep::Bind
        ]
    );
    assert_eq!(
        handle_direct_volume(&info, false, Some(AttachStep::Record)),
        AttachStep::Finished
    );
}

#[test]
fn direct_volumes_are_directories_of_known_mount_types() {
    for mount_type in ["bind", "directvol", "vfiovol", "spdkvol", "spoolvol"] {
        assert_eq!(is_direct_volume(mount_type, None), DirectVolumeCheck::LookUp);
        assert_eq!(
            is_direct_volume(mount_type, Some(None)),
            DirectVolumeCheck::No
        );
        assert_eq!(
            is_direct_volume(mount_type, Some(Some(0o040755))),
            DirectVolumeCheck::Yes
        );
        for mode in [0o100644, 0o060660, 0o140777, 0o120777] {
            assert_eq!(
                is_direct_volume(mount_type, Some(Some(mode))),
                DirectVolumeCheck::No
            );
        }
    }
    assert_eq!(is_direct_volume("tmpfs", None), DirectVolumeCheck::No);
}
