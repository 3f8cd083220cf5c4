//! Names and values that the runtime and the agent agree on.

use vstd::prelude::*;

verus! {

/// Source tag of the shared filesystem that is mounted before the agent starts.
pub const KATA_SHAREDFS_GUEST_PREMOUNT_TAG: &'static str = "kataShared";

/// Guest directory below which confidential volumes are mounted in plaintext.
pub const KATA_CONFIDENTIAL_STORAGE_MOUNT_ROOT: &'static str =
    "/run/kata-containers/shared/containers/confidential";

/// Filesystem type of a confidential volume.
pub const KATA_CONFIDENTIAL_STORAGE_FS_TYPE: &'static str = "confidential";

/// Annotation that holds the confidential volume declarations.
pub const KATA_ANNO_CONFIDENTIAL_VOLUME: &'static str =
    "io.katacontainers.volume.confidential";

/// Driver option that asks for a filesystem on a fresh block device.
pub const KATA_BLOCK_VOLUME_CREATE_FS: &'static str = "create_filesystem=true";

pub const DRIVER_BLK_PCI_TYPE: &'static str = "blk";

pub const DRIVER_BLK_MMIO_TYPE: &'static str = "mmioblk";

pub const DRIVER_BLK_CCW_TYPE: &'static str = "blk-ccw";

pub const DRIVER_SCSI_TYPE: &'static str = "scsi";

pub const DRIVER_NVDIMM_TYPE: &'static str = "nvdimm";

pub const DRIVER_VIRTIOFS_TYPE: &'static str = "virtio-fs";

} // verus!
