use confidential_storage::initdata::{
    detect_initdata_device, initdata_digest, initdata_frame, initdata_length, initialize_initdata,
    is_canonical_uuid, read_initdata, workspace_storage_key_id_from_initdata, DeviceCheck, InitData,
    InitdataError, WorkspaceStorageKey, AA_CONFIG_KEY, AA_CONFIG_PATH, CDH_CONFIG_KEY,
    CDH_CONFIG_PATH, INITDATA_TOML_PATH, POLICY_KEY, WORKSPACE_STORAGE_KEY_ID_CLAIM,
};

const KEY_ID: &str = "01981234-5678-7abc-8def-0123456789ab";
const PLAINTEXT: &[u8] = b"some content";

// `PLAINTEXT`, compressed with gzip.
const COMPRESSED: [u8; 32] = [
    0x1f, 0x8b, 0x08, 0x00, 0x00, 0x00, 0x00, 0x00, 0x02, 0x03, 0x2b, 0xce, 0xcf, 0x4d, 0x55,
    0x48, 0xce, 0xcf, 0x2b, 0x49, 0xcd, 0x2b, 0x01, 0x00, 0x3f, 0x31, 0x1f, 0x43, 0x0c, 0x00,
    0x00, 0x00,
];

fn image(payload: &[u8]) -> Vec<u8> {
    let mut image = b"initdata".to_vec();
    image.extend_from_slice(&(payload.len() as u64).to_le_bytes());
    image.extend_from_slice(payload);
    image
}

fn hex(bytes: &[u8]) -> String {
    let mut text = String::new();
    for byte in bytes {
        text.push_str(&format!("{byte:02x}"));
    }
    text
}

#[test]
fn parse_initdata() {
    let initdata = read_initdata(&image(&COMPRESSED)).unwrap();
    assert_eq!(initdata, PLAINTEXT);
}

#[test]
fn read_initdata_ignores_what_follows_the_payload() {
    let mut padded = image(&COMPRESSED);
    padded.extend_from_slice(&[0xff; 512]);
    assert_eq!(initdata_frame(&padded).unwrap(), COMPRESSED);
    assert_eq!(read_initdata(&padded).unwrap(), PLAINTEXT);
}

#[test]
fn read_initdata_refuses_a_truncated_device() {
    let whole = image(&COMPRESSED);
    for length in [0, 8, 15, whole.len() - 1] {
        let error = read_initdata(&whole[..length]).unwrap_err();
        assert!(matches!(error, InitdataError::Truncated));
        assert_eq!(error.message(), "early eof");
    }
}

#[test]
fn read_initdata_hands_on_why_decompression_fails() {
    let error = read_initdata(&image(PLAINTEXT)).unwrap_err();
    assert!(matches!(error, InitdataError::Decompression(_)));
    assert_eq!(error.message(), "Invalid gzip header");

    let cut = &COMPRESSED[..COMPRESSED.len() - 1];
    let error = read_initdata(&image(cut)).unwrap_err();
    assert_eq!(error.message(), "unexpected end of file");
}

#[test]
fn initdata_length_is_little_endian() {
    let mut header = b"initdata".to_vec();
    header.extend_from_slice(&[1, 2, 3, 4, 5, 6, 7, 8]);
    assert_eq!(initdata_length(&header), Some(0x0807_0605_0403_0201));
    assert_eq!(initdata_length(&header[..15]), None);
}

#[test]
fn extracts_canonical_workspace_storage_key_id() {
    let mut initdata = InitData::new("sha384", "0.1.0");
    initdata.insert_data(
        WORKSPACE_STORAGE_KEY_ID_CLAIM.to_string(),
        "01981234-5678-7abc-8def-0123456789ab".to_string(),
    );

    assert_eq!(
        workspace_storage_key_id_from_initdata(&initdata).unwrap(),
        Some("01981234-5678-7abc-8def-0123456789ab".to_string())
    );
}

#[test]
fn rejects_noncanonical_workspace_storage_key_id() {
    for key_id in [
        "01981234-5678-7ABC-8def-0123456789ab",
        "not-a-uuid",
        "0198123456787abc8def0123456789ab",
    ] {
        let mut initdata = InitData::new("sha384", "0.1.0");
        initdata.insert_data(
            WORKSPACE_STORAGE_KEY_ID_CLAIM.to_string(),
            key_id.to_string(),
        );

        assert!(workspace_storage_key_id_from_initdata(&initdata).is_err());
    }
}

#[test]
fn initdata_without_a_claim_has_no_key_id() {
    let initdata = InitData::new("sha256", "0.1.0");
    assert_eq!(
        workspace_storage_key_id_from_initdata(&initdata).unwrap(),
        None
    );
}

#[test]
fn canonical_uuids_have_five_groups_of_lower_hex() {
    assert!(is_canonical_uuid(KEY_ID));
    for value in [
        "",
        "----",
        "01981234-5678-7abc-8def",
        "01981234-5678-7abc-8def-0123456789ab-",
        "0198123-45678-7abc-8def-0123456789ab",
        "01981234-5678-7abg-8def-0123456789ab",
        "01981234-5678-7abc-8def-0123456789a\u{e9}",
    ] {
        assert!(!is_canonical_uuid(value));
    }
}

#[test]
fn initdata_device_is_found_step_by_step() {
    let magic = b"initdata".to_vec();
    let other = b"INITDATA".to_vec();
    let short = b"init".to_vec();
    for name in ["vda", "sdb1"] {
        assert_eq!(
            detect_initdata_device(name, None, None),
            DeviceCheck::Inspect
        );
        assert_eq!(
            detect_initdata_device(name, Some(false), None),
            DeviceCheck::Skip
        );
        assert_eq!(
            detect_initdata_device(name, Some(true), None),
            DeviceCheck::ReadMagic
        );
        assert_eq!(
            detect_initdata_device(name, Some(true), Some(None)),
            DeviceCheck::Skip
        );
        assert_eq!(
            detect_initdata_device(name, Some(true), Some(Some(&other))),
            DeviceCheck::Skip
        );
        assert_eq!(
            detect_initdata_device(name, Some(true), Some(Some(&short))),
            DeviceCheck::Skip
        );
        assert_eq!(
            detect_initdata_device(name, Some(true), Some(Some(&magic))),
            DeviceCheck::Found
        );
    }
    assert_eq!(
        detect_initdata_device("nvme0n1", Some(true), Some(Some(&magic))),
        DeviceCheck::Skip
    );
}

#[test]
fn digests_are_those_of_the_named_algorithm() {
    for (algorithm, expected) in [
        (
            "sha256",
            "290f493c44f5d63d06b374d0a5abd292fae38b92cab2fae5efefe1b0e9347f56",
        ),
        (
            "sha384",
            "66b3707eaed3f7f4c6f084e4ba7aaa95f0412c3d9fd91475fc454b93ed8b7cd9d33cc1821e517b52d338f8d8d6908cb9",
        ),
        (
            "sha512",
            "65c256c639bd6dd483be341831c19a3996954901bb2a07f79593f3e3af5692559bdb124d099c2b92ced7e59b7ed02d3b7f42d50740d999bebd91983db2842762",
        ),
    ] {
        let digest = initdata_digest(&algorithm.to_string(), PLAINTEXT).unwrap();
        assert_eq!(hex(&digest), expected);
    }
    let error = initdata_digest(&"md5".to_string(), PLAINTEXT).unwrap_err();
    assert_eq!(error.message(), "Unsupported hash algorithm md5");
}

#[test]
fn initialize_initdata_records_the_claim_and_lists_the_files() {
    let mut initdata = InitData::new("sha256", "0.1.0");
    initdata.insert_data(
        WORKSPACE_STORAGE_KEY_ID_CLAIM.to_string(),
        KEY_ID.to_string(),
    );
    initdata.insert_data(AA_CONFIG_KEY.to_string(), "aa".to_string());
    initdata.insert_data(CDH_CONFIG_KEY.to_string(), "cdh \u{e9}".to_string());
    initdata.insert_data(POLICY_KEY.to_string(), "package policy".to_string());
    let mut key = WorkspaceStorageKey::new();

    let plan = initialize_initdata(&mut key, &initdata, PLAINTEXT, Ok(())).unwrap();

    assert_eq!(key.workspace_storage_key_id(), Some(&KEY_ID.to_string()));
    let writes: Vec<(&str, &[u8])> = plan
        .writes
        .iter()
        .map(|write| (write.path.as_str(), write.contents.as_slice()))
        .collect();
    assert_eq!(
        writes,
        [
            (INITDATA_TOML_PATH, PLAINTEXT),
            (AA_CONFIG_PATH, b"aa".as_slice()),
            (CDH_CONFIG_PATH, "cdh \u{e9}".as_bytes()),
        ]
    );
    let value = plan.outcome.unwrap();
    assert_eq!(value._digest.len(), 32);
    assert_eq!(value._policy, Some("package policy".to_string()));
}

#[test]
fn initialize_initdata_refuses_a_second_claim() {
    let mut initdata = InitData::new("sha256", "0.1.0");
    initdata.insert_data(
        WORKSPACE_STORAGE_KEY_ID_CLAIM.to_string(),
        KEY_ID.to_string(),
    );
    let mut key = WorkspaceStorageKey::new();
    initialize_initdata(&mut key, &initdata, PLAINTEXT, Ok(())).unwrap();
    let error = initialize_initdata(&mut key, &initdata, PLAINTEXT, Ok(())).unwrap_err();
    assert_eq!(
        error.message(),
        "confidential storage key ID claim initialized twice"
    );
}

#[test]
fn initialize_initdata_refuses_invalid_data_before_recording_its_claim() {
    let mut initdata = InitData::new("sha256", "0.1.0");
    initdata.insert_data(
        WORKSPACE_STORAGE_KEY_ID_CLAIM.to_string(),
        KEY_ID.to_string(),
    );
    let mut key = WorkspaceStorageKey::new();
    let error = initialize_initdata(
        &mut key,
        &initdata,
        PLAINTEXT,
        Err("unsupported version".to_string()),
    )
    .unwrap_err();
    assert_eq!(error.message(), "unsupported version");
    assert_eq!(key.workspace_storage_key_id(), None);

    initdata.insert_data(
        WORKSPACE_STORAGE_KEY_ID_CLAIM.to_string(),
        "not-a-uuid".to_string(),
    );
    let error = initialize_initdata(&mut key, &initdata, PLAINTEXT, Ok(())).unwrap_err();
    assert_eq!(error.message(), "invalid confidential storage key ID claim");
    assert_eq!(key.workspace_storage_key_id(), None);
}

#[test]
fn initialize_initdata_keeps_the_document_when_its_algorithm_is_unknown() {
    let mut initdata = InitData::new("md5", "0.1.0");
    initdata.insert_data(AA_CONFIG_KEY.to_string(), "aa".to_string());
    let mut key = WorkspaceStorageKey::new();
    let plan = initialize_initdata(&mut key, &initdata, PLAINTEXT, Ok(())).unwrap();
    assert_eq!(plan.writes.len(), 1);
    assert_eq!(plan.writes[0].path, INITDATA_TOML_PATH);
    assert_eq!(
        plan.outcome.unwrap_err().message(),
        "Unsupported hash algorithm md5"
    );
}
