//! Plain values of storage requests, devices, mounts and container specifications.

use vstd::prelude::*;

use crate::declaration::ConfidentialStorageAccess;
use crate::text::texts;
use crate::text_map::TextMap;

verus! {

/// When a group ownership change is applied.
#[derive(Clone, Copy, Debug, PartialEq, Eq, Structural)]
pub enum FSGroupChangePolicy {
    /// Always.
    Always,
    /// Only when the root directory does not already match.
    OnRootMismatch,
}

/// The group that is to own a filesystem.
#[derive(Clone, Copy, Debug, PartialEq, Eq, Structural)]
pub struct FSGroup {
    pub group_id: u32,
    pub group_change_policy: FSGroupChangePolicy,
}

/// The typed part of a confidential storage request.
#[derive(Debug)]
pub struct ConfidentialStorage {
    pub manifest_uri: String,
    pub requested_access: ConfidentialStorageAccess,
}

/// A storage request to the guest agent.
#[derive(Debug)]
pub struct Storage {
    pub driver: String,
    pub driver_options: Vec<String>,
    pub source: String,
    pub fstype: String,
    pub fs_group: Option<FSGroup>,
    pub options: Vec<String>,
    pub mount_point: String,
    pub shared: bool,
    pub confidential_storage: Option<ConfidentialStorage>,
}

/// The contents of a [`ConfidentialStorage`].
#[verifier::ext_equal]
pub struct ConfidentialStorageView {
    pub manifest_uri: Seq<char>,
    pub requested_access: ConfidentialStorageAccess,
}

/// The contents of a [`Storage`].
#[verifier::ext_equal]
pub struct StorageView {
    pub driver: Seq<char>,
    pub driver_options: Seq<Seq<char>>,
    pub source: Seq<char>,
    pub fstype: Seq<char>,
    pub fs_group: Option<FSGroup>,
    pub options: Seq<Seq<char>>,
    pub mount_point: Seq<char>,
    pub shared: bool,
    pub confidential_storage: Option<ConfidentialStorageView>,
}

impl View for ConfidentialStorage {
    type V = ConfidentialStorageView;

    open spec fn view(&self) -> ConfidentialStorageView {
        ConfidentialStorageView {
            manifest_uri: self.manifest_uri@,
            requested_access: self.requested_access,
        }
    }
}

impl View for Storage {
    type V = StorageView;

    open spec fn view(&self) -> StorageView {
        StorageView {
            driver: self.driver@,
            driver_options: texts(self.driver_options@),
            source: self.source@,
            fstype: self.fstype@,
            fs_group: self.fs_group,
            options: texts(self.options@),
            mount_point: self.mount_point@,
            shared: self.shared,
            confidential_storage: match self.confidential_storage {
                Some(storage) => Some(storage@),
                None => None,
            },
        }
    }
}

/// The contents of a storage request that asks for nothing.
pub open spec fn empty_storage() -> StorageView {
    StorageView {
        driver: Seq::empty(),
        driver_options: Seq::empty(),
        source: Seq::empty(),
        fstype: Seq::empty(),
        fs_group: None,
        options: Seq::empty(),
        mount_point: Seq::empty(),
        shared: false,
        confidential_storage: None,
    }
}

impl Default for Storage {
    fn default() -> (storage: Self)
        ensures
            storage@ == empty_storage(),
    {
        let storage = Storage {
            driver: String::new(),
            driver_options: Vec::new(),
            source: String::new(),
            fstype: String::new(),
            fs_group: None,
            options: Vec::new(),
            mount_point: String::new(),
            shared: false,
            confidential_storage: None,
        };
        assert(storage@ =~= empty_storage());
        storage
    }
}

/// A mount of a container.
#[derive(Debug)]
pub struct Mount {
    pub destination: String,
    pub typ: Option<String>,
    pub source: Option<String>,
    pub options: Option<Vec<String>>,
}

/// The contents of a [`Mount`].
#[verifier::ext_equal]
pub struct MountView {
    pub destination: Seq<char>,
    pub typ: Option<Seq<char>>,
    pub source: Option<Seq<char>>,
    pub options: Option<Seq<Seq<char>>>,
}

/// The contents of an optional string.
pub open spec fn optional_text(text: Option<String>) -> Option<Seq<char>> {
    match text {
        Some(text) => Some(text@),
        None => None,
    }
}

/// The contents of an optional list of strings.
pub open spec fn optional_texts(list: Option<Vec<String>>) -> Option<Seq<Seq<char>>> {
    match list {
        Some(list) => Some(texts(list@)),
        None => None,
    }
}

impl View for Mount {
    type V = MountView;

    open spec fn view(&self) -> MountView {
        MountView {
            destination: self.destination@,
            typ: optional_text(self.typ),
            source: optional_text(self.source),
            options: optional_texts(self.options),
        }
    }
}

/// A device that the guest is to see.
#[derive(Debug)]
pub struct Device {
    pub id: String,
    pub field_type: String,
    pub vm_path: String,
    pub container_path: String,
    pub options: Vec<String>,
}

/// The contents of a [`Device`].
#[verifier::ext_equal]
pub struct DeviceView {
    pub id: Seq<char>,
    pub field_type: Seq<char>,
    pub vm_path: Seq<char>,
    pub container_path: Seq<char>,
    pub options: Seq<Seq<char>>,
}

impl View for Device {
    type V = DeviceView;

    open spec fn view(&self) -> DeviceView {
        DeviceView {
            id: self.id@,
            field_type: self.field_type@,
            vm_path: self.vm_path@,
            container_path: self.container_path@,
            options: texts(self.options@),
        }
    }
}

/// A device of a container, with what else is known of it.
#[derive(Debug)]
pub struct ContainerDevice<I> {
    pub device_info: Option<I>,
    pub device: Device,
}

/// The kind of a device node.
#[derive(Clone, Copy, Debug, PartialEq, Eq, Structural)]
pub enum LinuxDeviceType {
    /// Any kind.
    A,
    /// Block device.
    B,
    /// Character device.
    C,
    /// Unbuffered character device.
    U,
    /// FIFO.
    P,
}

/// A device node of a container specification.
#[derive(Debug)]
pub struct LinuxDevice {
    pub path: String,
    pub typ: LinuxDeviceType,
    pub major: i64,
    pub minor: i64,
    pub file_mode: Option<u32>,
    pub uid: Option<u32>,
    pub gid: Option<u32>,
}

/// The Linux part of a container specification.
#[derive(Debug)]
pub struct Linux {
    pub devices: Option<Vec<LinuxDevice>>,
}

/// The parts of a container specification that confidential volumes concern.
#[derive(Debug)]
pub struct Spec {
    pub annotations: Option<TextMap<String>>,
    pub mounts: Option<Vec<Mount>>,
    pub linux: Option<Linux>,
}

/// The filesystem sharing of a hypervisor.
#[derive(Debug)]
pub struct SharedFsInfo {
    pub shared_fs: Option<String>,
}

/// A storage request that nothing is known of asks for nothing.
pub proof fn law_default_storage_asks_for_nothing(storage: Storage)
    requires
        call_ensures(<Storage as Default>::default, (), storage),
    ensures
        storage.driver@.len() == 0,
        storage.driver_options@.len() == 0,
        storage.source@.len() == 0,
        storage.fstype@.len() == 0,
        storage.fs_group is None,
        storage.options@.len() == 0,
        storage.mount_point@.len() == 0,
        !storage.shared,
        storage.confidential_storage is None,
{
    assert(storage@.driver_options.len() == storage.driver_options@.len());
    assert(storage@.options.len() == storage.options@.len());
}

} // verus!
