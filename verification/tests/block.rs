use confidential_storage::block::{
    block_storage_driver_options, block_storage_driver_options_with_claim,
    confidential_storage_driver_options, ensure_block_filesystem, filesystem_outcome,
    get_device_number, handle_block_storage, should_create_block_filesystem, BlockAction,
    BlockError, BlockStorageDriverOptions, ConfidentialStorageDriverOptions, DeviceLookup,
    PmemHandler, ScsiHandler, StorageHandler, VirtioBlkCcwHandler, VirtioBlkMmioHandler,
    VirtioBlkPciHandler, CONFIDENTIAL_STORAGE_ENCRYPTION_KEY, CONFIDENTIAL_STORAGE_FILESYSTEM_KEY,
    CONFIDENTIAL_STORAGE_GROW_KEY, CONFIDENTIAL_STORAGE_KEY_URI_KEY,
    CONFIDENTIAL_STORAGE_KEY_URI_PREFIX, CONFIDENTIAL_STORAGE_SOURCE_KEY,
    EPHEMERAL_ENCRYPTION_DRIVER_OPTION,
};
use confidential_storage::initdata::WorkspaceStorageKey;
use confidential_storage::names::KATA_BLOCK_VOLUME_CREATE_FS;
use confidential_storage::types::Storage;

fn storage_with_driver_options(options: &[&str]) -> Storage {
    Storage {
        driver_options: options.iter().map(|opt| opt.to_string()).collect(),
        ..Default::default()
    }
}

fn no_key() -> WorkspaceStorageKey {
    WorkspaceStorageKey::new()
}

fn measured_key() -> WorkspaceStorageKey {
    let mut key = WorkspaceStorageKey::new();
    key.set(TEST_KEY_ID.to_string()).unwrap();
    key
}

#[test]
fn block_storage_options_allow_normal_existing_storage() {
    let storage = storage_with_driver_options(&[]);

    let options = block_storage_driver_options(&storage, &no_key()).unwrap();

    assert_eq!(
        options,
        BlockStorageDriverOptions {
            has_ephemeral_encryption: false,
            should_create_filesystem: false,
            confidential_storage: None,
        }
    );
}

#[test]
fn block_storage_options_allow_plain_fresh_storage() {
    let storage = storage_with_driver_options(&[KATA_BLOCK_VOLUME_CREATE_FS]);

    let options = block_storage_driver_options(&storage, &no_key()).unwrap();

    assert_eq!(
        options,
        BlockStorageDriverOptions {
            has_ephemeral_encryption: false,
            should_create_filesystem: true,
            confidential_storage: None,
        }
    );
}

#[test]
fn block_storage_options_allow_encrypted_fresh_storage() {
    let storage = storage_with_driver_options(&[
        EPHEMERAL_ENCRYPTION_DRIVER_OPTION,
        KATA_BLOCK_VOLUME_CREATE_FS,
    ]);

    let options = block_storage_driver_options(&storage, &no_key()).unwrap();

    assert_eq!(
        options,
        BlockStorageDriverOptions {
            has_ephemeral_encryption: true,
            should_create_filesystem: true,
            confidential_storage: None,
        }
    );
}

#[test]
fn block_storage_options_reject_encryption_without_filesystem_creation() {
    let storage = storage_with_driver_options(&[EPHEMERAL_ENCRYPTION_DRIVER_OPTION]);

    let err = block_storage_driver_options(&storage, &no_key()).unwrap_err();

    assert!(err.message().contains(KATA_BLOCK_VOLUME_CREATE_FS));
}

const TEST_KEY_ID: &str = "01981234-5678-7abc-8def-0123456789ab";

fn confidential_storage() -> Storage {
    Storage {
        fstype: "ext4".to_string(),
        driver_options: vec![
            format!("{CONFIDENTIAL_STORAGE_ENCRYPTION_KEY}=luks2"),
            format!("{CONFIDENTIAL_STORAGE_SOURCE_KEY}=auto"),
            format!(
                "{CONFIDENTIAL_STORAGE_KEY_URI_KEY}={CONFIDENTIAL_STORAGE_KEY_URI_PREFIX}{TEST_KEY_ID}"
            ),
            format!("{CONFIDENTIAL_STORAGE_FILESYSTEM_KEY}=ext4"),
            format!("{CONFIDENTIAL_STORAGE_GROW_KEY}=true"),
        ],
        ..Default::default()
    }
}

#[test]
fn block_storage_options_allow_confidential_storage_bound_to_initdata() {
    let storage = confidential_storage();

    let options = block_storage_driver_options_with_claim(&storage, Some(TEST_KEY_ID)).unwrap();

    assert_eq!(
        options,
        BlockStorageDriverOptions {
            has_ephemeral_encryption: false,
            should_create_filesystem: false,
            confidential_storage: Some(ConfidentialStorageDriverOptions {
                key_uri: format!("{CONFIDENTIAL_STORAGE_KEY_URI_PREFIX}{TEST_KEY_ID}"),
            }),
        }
    );
}

#[test]
fn block_storage_options_reject_confidential_storage_without_matching_initdata() {
    let storage = confidential_storage();

    assert!(block_storage_driver_options_with_claim(&storage, None).is_err());
    assert!(block_storage_driver_options_with_claim(
        &storage,
        Some("01989999-9999-7999-8999-999999999999")
    )
    .is_err());
}

#[test]
fn block_storage_options_reject_invalid_confidential_contracts() {
    let mut cases = Vec::new();

    let mut missing = confidential_storage();
    missing.driver_options.pop();
    cases.push(missing);

    let mut unknown = confidential_storage();
    unknown
        .driver_options
        .push("io.codewire.storage.unexpected=value".to_string());
    cases.push(unknown);

    let mut duplicate = confidential_storage();
    duplicate
        .driver_options
        .push(format!("{CONFIDENTIAL_STORAGE_GROW_KEY}=true"));
    cases.push(duplicate);

    let mut wrong_value = confidential_storage();
    wrong_value.driver_options[1] = format!("{CONFIDENTIAL_STORAGE_SOURCE_KEY}=empty");
    cases.push(wrong_value);

    let mut wrong_filesystem = confidential_storage();
    wrong_filesystem.fstype = "xfs".to_string();
    cases.push(wrong_filesystem);

    let mut malformed_uri = confidential_storage();
    malformed_uri.driver_options[2] =
        format!("{CONFIDENTIAL_STORAGE_KEY_URI_KEY}=kbs:///default/other/{TEST_KEY_ID}");
    cases.push(malformed_uri);

    let mut mixed_ephemeral = confidential_storage();
    mixed_ephemeral
        .driver_options
        .push(EPHEMERAL_ENCRYPTION_DRIVER_OPTION.to_string());
    cases.push(mixed_ephemeral);

    for storage in cases {
        assert!(block_storage_driver_options_with_claim(&storage, Some(TEST_KEY_ID)).is_err());
    }
}

fn refusal(storage: &Storage, claim: Option<&str>) -> BlockError {
    confidential_storage_driver_options(storage, claim).unwrap_err()
}

#[test]
fn confidential_options_name_each_fault() {
    let claim = Some(TEST_KEY_ID);

    let mut storage = confidential_storage();
    storage
        .driver_options
        .push("io.codewire.storage.grow".to_string());
    assert!(matches!(
        refusal(&storage, claim),
        BlockError::MalformedOption
    ));

    let mut storage = confidential_storage();
    storage
        .driver_options
        .push("io.codewire.storage.=".to_string());
    assert!(matches!(
        refusal(&storage, claim),
        BlockError::UnsupportedOption
    ));

    let mut storage = confidential_storage();
    storage
        .driver_options
        .push(format!("{CONFIDENTIAL_STORAGE_GROW_KEY}=false"));
    assert!(matches!(
        refusal(&storage, claim),
        BlockError::DuplicateOption
    ));

    let mut storage = confidential_storage();
    storage.driver_options.remove(2);
    assert!(matches!(
        refusal(&storage, claim),
        BlockError::IncompleteOptions
    ));

    let mut storage = confidential_storage();
    storage.driver_options[4] = format!("{CONFIDENTIAL_STORAGE_GROW_KEY}=true=");
    assert!(matches!(refusal(&storage, claim), BlockError::InvalidValue));

    let mut storage = confidential_storage();
    storage.driver_options[2] = format!("{CONFIDENTIAL_STORAGE_KEY_URI_KEY}=kbs:///other");
    assert!(matches!(
        refusal(&storage, claim),
        BlockError::InvalidKeyUri
    ));

    let mut storage = confidential_storage();
    storage.driver_options[2] =
        format!("{CONFIDENTIAL_STORAGE_KEY_URI_KEY}={CONFIDENTIAL_STORAGE_KEY_URI_PREFIX}x");
    assert!(matches!(
        refusal(&storage, claim),
        BlockError::InvalidKeyUriUuid
    ));

    let storage = confidential_storage();
    assert!(matches!(refusal(&storage, None), BlockError::MissingClaim));
    assert!(matches!(
        refusal(&storage, Some("01989999-9999-7999-8999-999999999999")),
        BlockError::ClaimMismatch
    ));

    let mut storage = confidential_storage();
    storage
        .driver_options
        .push(KATA_BLOCK_VOLUME_CREATE_FS.to_string());
    let error = block_storage_driver_options_with_claim(&storage, claim).unwrap_err();
    assert!(matches!(error, BlockError::ConflictingOptions));
}

#[test]
fn the_first_faulty_option_decides_the_error() {
    let mut storage = storage_with_driver_options(&[
        "unrelated",
        "io.codewire.storage.other=1",
        "io.codewire.storage.grow",
    ]);
    assert!(matches!(
        refusal(&storage, None),
        BlockError::UnsupportedOption
    ));
    storage.driver_options.remove(1);
    assert!(matches!(
        refusal(&storage, None),
        BlockError::MalformedOption
    ));
}

#[test]
fn device_numbers_are_major_and_minor() {
    assert_eq!(get_device_number(0), "0:0");
    assert_eq!(get_device_number(0x0801), "8:1");
    assert_eq!(get_device_number(253 << 8 | 17), "253:17");
    // The upper bits of both numbers.
    assert_eq!(get_device_number(0xffff_ffff_ffff_ffff), "4294967295:4294967295");
    assert_eq!(get_device_number(1 << 20), "0:256");
    assert_eq!(get_device_number(1 << 44), "4096:0");
}

#[test]
fn different_devices_have_different_numbers() {
    assert_ne!(get_device_number(0x0801), get_device_number(0x0810));
    assert_ne!(get_device_number(1 << 20), get_device_number(1 << 44));
}

#[test]
fn confidential_block_storage_is_mounted_by_the_data_hub() {
    let mut storage = confidential_storage();
    storage.mount_point = "/mnt".to_string();
    let actions = handle_block_storage(&storage, &"8:1".to_string(), &measured_key()).unwrap();
    assert_eq!(actions.len(), 2);
    match &actions[0] {
        BlockAction::ConfidentialMount {
            volume_type,
            device_number,
            mount_point,
            key_uri,
        } => {
            assert_eq!(volume_type, "block-device");
            assert_eq!(device_number, "8:1");
            assert_eq!(mount_point, "/mnt");
            assert_eq!(
                *key_uri,
                format!("{CONFIDENTIAL_STORAGE_KEY_URI_PREFIX}{TEST_KEY_ID}")
            );
        }
        other => panic!("unexpected {other:?}"),
    }
    assert!(matches!(actions[1], BlockAction::SetOwnership));
}

#[test]
fn ephemeral_block_storage_is_encrypted_by_the_data_hub() {
    let mut storage = storage_with_driver_options(&[
        KATA_BLOCK_VOLUME_CREATE_FS,
        EPHEMERAL_ENCRYPTION_DRIVER_OPTION,
    ]);
    storage.mount_point = "/mnt".to_string();
    let actions = handle_block_storage(&storage, &"8:1".to_string(), &no_key()).unwrap();
    assert_eq!(actions.len(), 2);
    match &actions[0] {
        BlockAction::SecureMount {
            volume_type,
            device_number,
            encryption,
            mount_point,
            mkfs_opts,
        } => {
            assert_eq!(volume_type, "block-device");
            assert_eq!(device_number, "8:1");
            assert_eq!(encryption, "luks2");
            assert_eq!(mount_point, "/mnt");
            assert_eq!(mkfs_opts, "-O ^has_journal -m 0 -i 163840 -I 128");
        }
        other => panic!("unexpected {other:?}"),
    }
}

#[test]
fn plain_block_storage_is_formatted_on_request_and_mounted() {
    let mut storage = storage_with_driver_options(&[]);
    storage.source = "/dev/vdb".to_string();
    let actions = handle_block_storage(&storage, &"8:1".to_string(), &no_key()).unwrap();
    assert!(matches!(
        actions.as_slice(),
        [BlockAction::Mount, BlockAction::SetOwnership]
    ));

    storage
        .driver_options
        .push(KATA_BLOCK_VOLUME_CREATE_FS.to_string());
    assert!(should_create_block_filesystem(&storage));
    storage.fstype = "ext4".to_string();
    let actions = handle_block_storage(&storage, &"8:1".to_string(), &no_key()).unwrap();
    assert_eq!(actions.len(), 3);
    match &actions[0] {
        BlockAction::MakeFilesystem { program, arguments } => {
            assert_eq!(program, "mkfs.ext4");
            assert_eq!(
                *arguments,
                [
                    "-F",
                    "-O",
                    "^has_journal",
                    "-m",
                    "0",
                    "-i",
                    "163840",
                    "-I",
                    "128",
                    "/dev/vdb"
                ]
            );
        }
        other => panic!("unexpected {other:?}"),
    }

    storage.fstype = "xfs".to_string();
    let error = handle_block_storage(&storage, &"8:1".to_string(), &no_key()).unwrap_err();
    assert_eq!(
        error.message(),
        "creating filesystem xfs for block storage is unsupported"
    );
    assert!(ensure_block_filesystem(&storage).is_err());
}

#[test]
fn a_failed_filesystem_maker_is_reported() {
    let source = "/dev/vdb".to_string();
    assert!(filesystem_outcome(
        &source,
        true,
        String::new(),
        String::new(),
        String::new()
    )
    .is_ok());
    let error = filesystem_outcome(
        &source,
        false,
        "exit status: 1".to_string(),
        "out".to_string(),
        "err".to_string(),
    )
    .unwrap_err();
    assert_eq!(
        error.message(),
        "mkfs.ext4 failed for /dev/vdb: status=exit status: 1, stdout=out, stderr=err"
    );
}

#[test]
fn handlers_know_their_drivers_and_find_their_devices() {
    let mut storage = storage_with_driver_options(&[]);
    storage.source = "/dev/vda".to_string();

    let mmio = VirtioBlkMmioHandler {};
    assert_eq!(mmio.driver_types(), ["mmioblk"]);
    assert_eq!(mmio.create_device(&storage, true), DeviceLookup::Ready);
    assert_eq!(
        mmio.create_device(&storage, false),
        DeviceLookup::WaitForMmio
    );

    let pci = VirtioBlkPciHandler {};
    assert_eq!(pci.driver_types(), ["blk"]);
    assert_eq!(pci.create_device(&storage, true), DeviceLookup::InspectNode);
    assert!(pci.check_node(&storage.source, 0o060660).is_ok());
    assert_eq!(
        pci.check_node(&storage.source, 0o100644)
            .unwrap_err()
            .message(),
        "Invalid device /dev/vda"
    );
    storage.source = "00/01".to_string();
    assert_eq!(pci.create_device(&storage, false), DeviceLookup::ResolvePci);

    let ccw = VirtioBlkCcwHandler {};
    assert_eq!(ccw.driver_types(), ["blk-ccw"]);
    assert_eq!(ccw.create_device(&storage, false), DeviceLookup::ResolveCcw);

    let scsi = ScsiHandler {};
    assert_eq!(scsi.driver_types(), ["scsi"]);
    assert_eq!(
        scsi.create_device(&storage, false),
        DeviceLookup::ResolveScsi
    );

    let pmem = PmemHandler {};
    assert_eq!(pmem.driver_types(), ["nvdimm"]);
    assert_eq!(
        pmem.create_device(&storage, false),
        DeviceLookup::WaitForPmem
    );
}
