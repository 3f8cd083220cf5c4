use confidential_storage::names::{
    DRIVER_VIRTIOFS_TYPE, KATA_CONFIDENTIAL_STORAGE_MOUNT_ROOT, KATA_SHAREDFS_GUEST_PREMOUNT_TAG,
};
use confidential_storage::path::{covers, is_clean_absolute_path, paths_equal};
use confidential_storage::topology::{
    storage_exports_confidential_mount_root, validate_confidential_mount_topology,
    MountTopologyEntry,
};
use confidential_storage::types::Storage;

#[test]
fn confidential_mount_topology_accepts_guest_only_ancestors() {
    validate_confidential_mount_topology(&vec![
        MountTopologyEntry {
            mount_point: "/",
            fs_type: "ext4",
            mount_source: Some("/dev/vda1"),
        },
        MountTopologyEntry {
            mount_point: "/run",
            fs_type: "tmpfs",
            mount_source: Some("tmpfs"),
        },
        MountTopologyEntry {
            mount_point: "/mnt/host-share",
            fs_type: "virtiofs",
            mount_source: Some(KATA_SHAREDFS_GUEST_PREMOUNT_TAG),
        },
    ])
    .unwrap();
}

#[test]
fn confidential_mount_topology_rejects_host_shared_ancestors() {
    for (mount_point, fs_type, mount_source) in [
        (
            "/run/kata-containers/shared",
            "virtiofs",
            Some(KATA_SHAREDFS_GUEST_PREMOUNT_TAG),
        ),
        (
            "/run/kata-containers/shared/containers",
            "fuse.virtiofs",
            Some("inline-share"),
        ),
        (
            KATA_CONFIDENTIAL_STORAGE_MOUNT_ROOT,
            "9p",
            Some("host-passthrough"),
        ),
        ("/run", "ext4", Some(KATA_SHAREDFS_GUEST_PREMOUNT_TAG)),
    ] {
        let error = validate_confidential_mount_topology(&vec![
            MountTopologyEntry {
                mount_point: "/",
                fs_type: "ext4",
                mount_source: Some("/dev/vda1"),
            },
            MountTopologyEntry {
                mount_point,
                fs_type,
                mount_source,
            },
        ])
        .unwrap_err();
        assert!(error.message().contains("host-shared mount"));
    }
}

#[test]
fn confidential_mount_topology_rejects_missing_ancestor_evidence() {
    let error = validate_confidential_mount_topology(&vec![MountTopologyEntry {
        mount_point: "/mnt/unrelated",
        fs_type: "tmpfs",
        mount_source: Some("tmpfs"),
    }])
    .unwrap_err();
    assert!(error.message().contains("topology is ambiguous"));
}

#[test]
fn topology_error_quotes_the_mount() {
    let error = validate_confidential_mount_topology(&vec![MountTopologyEntry {
        mount_point: "/run",
        fs_type: "9p",
        mount_source: None,
    }])
    .unwrap_err();
    assert_eq!(
        error.message(),
        "confidential storage plaintext root is covered by host-shared mount \"/run\" (type \"9p\", source None)"
    );
    let error = validate_confidential_mount_topology(&vec![MountTopologyEntry {
        mount_point: "/run",
        fs_type: "virtiofs",
        mount_source: Some("a\"b"),
    }])
    .unwrap_err();
    assert_eq!(
        error.message(),
        "confidential storage plaintext root is covered by host-shared mount \"/run\" (type \"virtiofs\", source Some(\"a\\\"b\"))"
    );
}

#[test]
fn classifies_only_host_shares_that_cover_the_plaintext_root() {
    for storage in [
        Storage {
            driver: DRIVER_VIRTIOFS_TYPE.to_string(),
            mount_point: "/run/kata-containers/shared/containers".to_string(),
            ..Default::default()
        },
        Storage {
            fstype: "9p".to_string(),
            mount_point: KATA_CONFIDENTIAL_STORAGE_MOUNT_ROOT.to_string(),
            ..Default::default()
        },
        Storage {
            source: KATA_SHAREDFS_GUEST_PREMOUNT_TAG.to_string(),
            mount_point: "/run".to_string(),
            ..Default::default()
        },
    ] {
        assert!(storage_exports_confidential_mount_root(&storage));
    }

    for storage in [
        Storage {
            fstype: "tmpfs".to_string(),
            mount_point: "/run".to_string(),
            ..Default::default()
        },
        Storage {
            driver: DRIVER_VIRTIOFS_TYPE.to_string(),
            mount_point: "/mnt/unrelated".to_string(),
            ..Default::default()
        },
        Storage {
            driver: DRIVER_VIRTIOFS_TYPE.to_string(),
            mount_point: format!("{KATA_CONFIDENTIAL_STORAGE_MOUNT_ROOT}/child"),
            ..Default::default()
        },
    ] {
        assert!(!storage_exports_confidential_mount_root(&storage));
    }
}

#[test]
fn paths_are_compared_by_their_components() {
    assert!(covers("/", "/run"));
    assert!(covers("/run/", "/run/./kata"));
    assert!(covers("/run", "/run"));
    assert!(!covers("/ru", "/run"));
    assert!(!covers("run", "/run"));
    assert!(!covers("/run/kata", "/run"));
    assert!(covers("", "run"));
    assert!(paths_equal("/a//b/", "/a/./b"));
    assert!(!paths_equal("/a/b", "a/b"));
    assert!(!paths_equal("/a/../b", "/b"));
    assert!(!paths_equal("./a", "a"));
}

#[test]
fn path_covering_is_transitive_on_an_example() {
    assert!(covers("/run", "/run/kata") && covers("/run/kata", "/run/kata/shared"));
    assert!(covers("/run", "/run/kata/shared"));
}

#[test]
fn clean_absolute_paths_have_no_detours() {
    for clean in ["/home", "/home/workspace", "/a/..b"] {
        assert!(is_clean_absolute_path(clean));
    }
    for unclean in ["", "home", "/home/", "/home//workspace", "/home/../workspace", "/"] {
        assert!(!is_clean_absolute_path(unclean));
    }
}
