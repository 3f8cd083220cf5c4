//! Keeps the plaintext of confidential volumes off filesystems that the host can read.

use vstd::prelude::*;

use crate::names::{
    DRIVER_VIRTIOFS_TYPE, KATA_CONFIDENTIAL_STORAGE_MOUNT_ROOT, KATA_SHAREDFS_GUEST_PREMOUNT_TAG,
};
use crate::path::{covers, path_covers};
use crate::text::{quote, quoted, same_text};
use crate::types::Storage;

verus! {

/// One entry of the mount table.
#[derive(Clone, Copy, Debug)]
pub struct MountTopologyEntry<'a> {
    pub mount_point: &'a str,
    pub fs_type: &'a str,
    pub mount_source: Option<&'a str>,
}

/// Why the mount table rules out confidential storage.
#[derive(Debug)]
pub enum TopologyError {
    /// A mount that covers the plaintext root is shared with the host.
    HostShared { mount_point: String, fs_type: String, mount_source: Option<String> },
    /// No mount covers the plaintext root.
    Ambiguous,
}

/// How a message shows an optional text.
pub open spec fn quoted_option(text: Option<String>) -> Seq<char> {
    match text {
        Some(text) => "Some("@ + quoted(text@) + ")"@,
        None => "None"@,
    }
}

fn quote_option(text: &Option<String>) -> (result: String)
    ensures
        result@ == quoted_option(*text),
{
    match text {
        Some(text) => {
            let mut result = "Some(".to_owned();
            result.append(quote(text.as_str()).as_str());
            result.append(")");
            result
        },
        None => "None".to_owned(),
    }
}

impl TopologyError {
    /// The text of the message for this error.
    pub open spec fn text(&self) -> Seq<char> {
        match self {
            TopologyError::HostShared { mount_point, fs_type, mount_source } =>
                "confidential storage plaintext root is covered by host-shared mount "@ + quoted(
                mount_point@,
            ) + " (type "@ + quoted(fs_type@) + ", source "@ + quoted_option(*mount_source) + ")"@,
            TopologyError::Ambiguous =>
                "confidential storage plaintext mount topology is ambiguous"@,
        }
    }

    /// The message for this error.
    pub fn message(&self) -> (message: String)
        ensures
            message@ == self.text(),
    {
        match self {
            TopologyError::HostShared { mount_point, fs_type, mount_source } => {
                let mut text =
                    "confidential storage plaintext root is covered by host-shared mount ".to_owned();
                text.append(quote(mount_point.as_str()).as_str());
                text.append(" (type ");
                text.append(quote(fs_type.as_str()).as_str());
                text.append(", source ");
                text.append(quote_option(mount_source).as_str());
                text.append(")");
                text
            },
            TopologyError::Ambiguous => {
                "confidential storage plaintext mount topology is ambiguous".to_owned()
            },
        }
    }
}

/// The filesystem types that are backed by the host.
pub open spec fn is_host_filesystem(fs_type: Seq<char>) -> bool {
    fs_type == "virtiofs"@ || fs_type == "fuse.virtiofs"@ || fs_type == "9p"@
}

fn host_filesystem(fs_type: &str) -> (result: bool)
    ensures
        result == is_host_filesystem(fs_type@),
{
    same_text(fs_type, "virtiofs") || same_text(fs_type, "fuse.virtiofs") || same_text(
        fs_type,
        "9p",
    )
}

/// Whether a mount lies at or above the plaintext root.
pub open spec fn covers_plaintext(entry: MountTopologyEntry<'_>) -> bool {
    path_covers(entry.mount_point@, KATA_CONFIDENTIAL_STORAGE_MOUNT_ROOT@)
}

/// Whether a mount lies at or above the plaintext root and is shared with the host.
pub open spec fn exposes_plaintext(entry: MountTopologyEntry<'_>) -> bool {
    &&& covers_plaintext(entry)
    &&& is_host_filesystem(entry.fs_type@) || (entry.mount_source matches Some(source) && source@
        == KATA_SHAREDFS_GUEST_PREMOUNT_TAG@)
}

/// Whether an error names the mount `entry`.
pub open spec fn names_mount(error: TopologyError, entry: MountTopologyEntry<'_>) -> bool {
    &&& error matches TopologyError::HostShared { mount_point, fs_type, mount_source }
    &&& mount_point@ == entry.mount_point@
    &&& fs_type@ == entry.fs_type@
    &&& match entry.mount_source {
        Some(source) => mount_source is Some && mount_source->0@ == source@,
        None => mount_source is None,
    }
}

/// Whether `mounts[i]` is the first mount that exposes the plaintext root.
pub open spec fn is_first_exposure(mounts: Seq<MountTopologyEntry<'_>>, i: int) -> bool {
    &&& 0 <= i < mounts.len()
    &&& exposes_plaintext(mounts[i])
    &&& forall|j: int| 0 <= j < i ==> !exposes_plaintext(#[trigger] mounts[j])
}

/// Checks that the plaintext root is covered, and by no mount that is shared with the host.
pub fn validate_confidential_mount_topology(mounts: &Vec<MountTopologyEntry<'_>>) -> (result: Result<
    (),
    TopologyError,
>)
    ensures
        result is Ok <==> {
            &&& exists|i: int| 0 <= i < mounts@.len() && covers_plaintext(#[trigger] mounts@[i])
            &&& forall|i: int| 0 <= i < mounts@.len() ==> !exposes_plaintext(#[trigger] mounts@[i])
        },
        result matches Err(error) ==> match error {
            TopologyError::HostShared { .. } => exists|i: int| #[trigger]
                is_first_exposure(mounts@, i) && names_mount(error, mounts@[i]),
            TopologyError::Ambiguous => forall|i: int|
                0 <= i < mounts@.len() ==> !covers_plaintext(#[trigger] mounts@[i]),
        },
{
    let mut covering_mount_seen = false;
    let mut i: usize = 0;
    while i < mounts.len()
        invariant
            i <= mounts.len(),
            forall|j: int| 0 <= j < i ==> !exposes_plaintext(#[trigger] mounts@[j]),
            covering_mount_seen == exists|j: int|
                0 <= j < i && covers_plaintext(#[trigger] mounts@[j]),
        decreases mounts.len() - i,
    {
        let mount = mounts[i];
        if covers(mount.mount_point, KATA_CONFIDENTIAL_STORAGE_MOUNT_ROOT) {
            assert(covers_plaintext(mounts@[i as int]));
            covering_mount_seen = true;
            let tagged = match mount.mount_source {
                Some(source) => same_text(source, KATA_SHAREDFS_GUEST_PREMOUNT_TAG),
                None => false,
            };
            if host_filesystem(mount.fs_type) || tagged {
                let mount_source = match mount.mount_source {
                    Some(source) => Some(source.to_owned()),
                    None => None,
                };
                assert(is_first_exposure(mounts@, i as int));
                return Err(
                    TopologyError::HostShared {
                        mount_point: mount.mount_point.to_owned(),
                        fs_type: mount.fs_type.to_owned(),
                        mount_source,
                    },
                );
            }
        }
        i = i + 1;
    }
    if !covering_mount_seen {
        return Err(TopologyError::Ambiguous);
    }
    Ok(())
}

/// Whether a storage request mounts a host share at or above the plaintext root.
pub open spec fn exports_plaintext(storage: Storage) -> bool {
    &&& path_covers(storage.mount_point@, KATA_CONFIDENTIAL_STORAGE_MOUNT_ROOT@)
    &&& {
        ||| storage.driver@ == DRIVER_VIRTIOFS_TYPE@
        ||| is_host_filesystem(storage.fstype@)
        ||| storage.source@ == KATA_SHAREDFS_GUEST_PREMOUNT_TAG@
    }
}

/// Whether a storage request mounts a host share at or above the plaintext root.
pub fn storage_exports_confidential_mount_root(storage: &Storage) -> (result: bool)
    ensures
        result == exports_plaintext(*storage),
{
    covers(storage.mount_point.as_str(), KATA_CONFIDENTIAL_STORAGE_MOUNT_ROOT) && (same_text(
        storage.driver.as_str(),
        DRIVER_VIRTIOFS_TYPE,
    ) || host_filesystem(storage.fstype.as_str()) || same_text(
        storage.source.as_str(),
        KATA_SHAREDFS_GUEST_PREMOUNT_TAG,
    ))
}

/// Whether a mount lies at or above the directory below which confidential volumes are mounted in
/// plaintext.
pub open spec fn lies_over_the_plaintext(mount: MountTopologyEntry<'_>) -> bool {
    path_covers(mount.mount_point@, "/run/kata-containers/shared/containers/confidential"@)
}

/// Whether a mount is backed by the host: by the type of its filesystem, or by its source.
pub open spec fn is_of_the_host(mount: MountTopologyEntry<'_>) -> bool {
    ||| mount.fs_type@ == "virtiofs"@
    ||| mount.fs_type@ == "fuse.virtiofs"@
    ||| mount.fs_type@ == "9p"@
    ||| mount.mount_source is Some && mount.mount_source->0@ == "kataShared"@
}

/// The mounts of the guest are in order exactly where one lies over the plaintext and none that does
/// is of the host. Where one is, the error names the first of them. Where none lies over the
/// plaintext, the error says so.
pub proof fn law_plaintext_lies_on_no_mount_of_the_host(
    mounts: Vec<MountTopologyEntry<'_>>,
    result: Result<(), TopologyError>,
)
    requires
        call_ensures(validate_confidential_mount_topology, (&mounts,), result),
    ensures
        result is Ok <==> {
            &&& exists|i: int|
                0 <= i < mounts@.len() && lies_over_the_plaintext(#[trigger] mounts@[i])
            &&& forall|i: int|
                0 <= i < mounts@.len() && lies_over_the_plaintext(#[trigger] mounts@[i])
                    ==> !is_of_the_host(mounts@[i])
        },
        result is Err ==> match result->Err_0 {
            TopologyError::Ambiguous => forall|i: int|
                0 <= i < mounts@.len() ==> !lies_over_the_plaintext(#[trigger] mounts@[i]),
            TopologyError::HostShared { mount_point, fs_type, mount_source } => exists|i: int|
                #![trigger mounts@[i]]
                {
                    &&& 0 <= i < mounts@.len()
                    &&& lies_over_the_plaintext(mounts@[i])
                    &&& is_of_the_host(mounts@[i])
                    &&& forall|j: int|
                        0 <= j < i ==> !(lies_over_the_plaintext(#[trigger] mounts@[j])
                            && is_of_the_host(mounts@[j]))
                    &&& mount_point@ == mounts@[i].mount_point@
                    &&& fs_type@ == mounts@[i].fs_type@
                    &&& mount_source is Some <==> mounts@[i].mount_source is Some
                    &&& mount_source is Some ==> mount_source->0@
                        == mounts@[i].mount_source->0@
                },
        },
{
    assert forall|i: int| 0 <= i < mounts@.len() implies (covers_plaintext(#[trigger] mounts@[i])
        <==> lies_over_the_plaintext(mounts@[i])) && (exposes_plaintext(mounts@[i]) <==> (
    lies_over_the_plaintext(mounts@[i]) && is_of_the_host(mounts@[i]))) by {}
    if result is Err && result->Err_0 is HostShared {
        let error = result->Err_0;
        let i = choose|i: int| #[trigger]
            is_first_exposure(mounts@, i) && names_mount(error, mounts@[i]);
        assert(lies_over_the_plaintext(mounts@[i]) && is_of_the_host(mounts@[i]));
    }
    if exists|i: int| 0 <= i < mounts@.len() && lies_over_the_plaintext(#[trigger] mounts@[i]) {
        let i = choose|i: int|
            0 <= i < mounts@.len() && lies_over_the_plaintext(#[trigger] mounts@[i]);
        assert(covers_plaintext(mounts@[i]));
    }
    if result is Ok {
        let i = choose|i: int| 0 <= i < mounts@.len() && covers_plaintext(#[trigger] mounts@[i]);
        assert(lies_over_the_plaintext(mounts@[i]));
    }
}

/// A storage shares the plaintext root with the host exactly where it is mounted at or above it and
/// comes from the host: by its driver, by its filesystem, or by its source.
pub proof fn law_host_shares_over_the_plaintext_are_recognized(storage: Storage, shares: bool)
    requires
        call_ensures(storage_exports_confidential_mount_root, (&storage,), shares),
    ensures
        shares <==> {
            &&& path_covers(
                storage.mount_point@,
                "/run/kata-containers/shared/containers/confidential"@,
            )
            &&& {
                ||| storage.driver@ == "virtio-fs"@
                ||| storage.fstype@ == "virtiofs"@
                ||| storage.fstype@ == "fuse.virtiofs"@
                ||| storage.fstype@ == "9p"@
                ||| storage.source@ == "kataShared"@
            }
        },
{
}

/// What is said of a mount of the host over the plaintext quotes where it is, its type and its source.
pub proof fn law_topology_messages_quote_the_mount(
    error: TopologyError,
    message: String,
)
    requires
        call_ensures(TopologyError::message, (&error,), message),
    ensures
        message@ == match error {
            TopologyError::HostShared { mount_point, fs_type, mount_source } =>
                "confidential storage plaintext root is covered by host-shared mount "@
                    + quoted(mount_point@) + " (type "@ + quoted(fs_type@) + ", source "@
                    + match mount_source {
                    Some(source) => "Some("@ + quoted(source@) + ")"@,
                    None => "None"@,
                } + ")"@,
            TopologyError::Ambiguous =>
                "confidential storage plaintext mount topology is ambiguous"@,
        },
{
}

} // verus!
