//! Converts opted-in Kubernetes raw block devices into typed guest-confidential storage.

use vstd::prelude::*;

use crate::declaration::{
    annotation_problem, parse_confidential_volume_declarations, ConfidentialFSGroupChangePolicy,
    ConfidentialStorageAccess, ConfidentialVolumeDeclaration, ConfidentialVolumeDeclarations,
    DeclarationError,
};
use crate::names::{
    DRIVER_BLK_PCI_TYPE, DRIVER_SCSI_TYPE, KATA_ANNO_CONFIDENTIAL_VOLUME,
    KATA_CONFIDENTIAL_STORAGE_FS_TYPE, KATA_CONFIDENTIAL_STORAGE_MOUNT_ROOT,
};
use crate::path::{paths_equal, same_path};
use crate::text::{
    concat3, copy_texts, has_prefix, quote, quoted, same_text, same_texts, starts_with, texts,
};
use crate::text_map::TextMap;
use crate::types::{
    empty_storage, ConfidentialStorage, ConfidentialStorageView, ContainerDevice, Device,
    DeviceView, FSGroup, FSGroupChangePolicy, Linux, LinuxDevice, LinuxDeviceType, Mount,
    MountView, SharedFsInfo, Spec, Storage, StorageView,
};

verus! {

pub const CONFIDENTIAL_MAPPER_PREFIX: &'static str = "/dev/mapper/coco-pv-";

/// Why no plan is built, or why devices are not consumed.
#[derive(Debug)]
pub enum PlanError {
    /// The selected hypervisor shares a filesystem with the host.
    SharedFsEnabled(String),
    /// No hypervisor is selected.
    NoSelectedHypervisor,
    /// The annotation is refused.
    Declaration(DeclarationError),
    /// A container that the volume does not name sees its raw device.
    UndeclaredContainer { volume: String, container: String },
    /// The device path does not stand for exactly one device.
    DeviceCount { volume: String, path: String },
    /// The device is not a plain guest block device.
    InvalidIdentity { volume: String },
    /// Another device request has the same source.
    AliasedDevice { volume: String },
    /// The specification has no Linux part.
    MissingLinux,
    /// The device path does not stand for exactly one OCI block device.
    OciDevice { volume: String },
    /// Another OCI device has the same number.
    AliasedOciDevice { volume: String },
    /// A destination is in use.
    MountCollision { volume: String, destination: String },
    /// The manifest URI yields no mount name, for a reason.
    MountName(String),
    /// The manifest URI was not looked up.
    NameNotLookedUp(String),
    /// A consumed device is not there exactly once.
    DeviceNotConsumedOnce,
    /// A consumed OCI device is not there exactly once.
    OciDeviceNotConsumedOnce,
}

impl PlanError {
    /// The text of the message for this error.
    pub open spec fn text(&self) -> Seq<char> {
        match self {
            PlanError::SharedFsEnabled(name) => "confidential storage requires shared_fs=none; selected hypervisor uses Some("@
                + quoted(name@) + ")"@,
            PlanError::NoSelectedHypervisor =>
                "confidential storage requires an unambiguous selected hypervisor with shared_fs=none"@,
            PlanError::Declaration(error) => "parse confidential volume annotation: "@
                + error.text(),
            PlanError::UndeclaredContainer { volume, container } => "confidential volume "@
                + quoted(volume@) + " exposes its raw device to undeclared container "@
                + quoted(container@),
            PlanError::DeviceCount { volume, path } => "confidential volume "@ + quoted(volume@)
                + " must resolve exactly one raw block device at "@ + quoted(path@),
            PlanError::InvalidIdentity { volume } => "confidential volume "@ + quoted(volume@)
                + " resolved an invalid guest block device identity"@,
            PlanError::AliasedDevice { volume } => "confidential volume "@ + quoted(volume@)
                + " block identity is aliased by another device request"@,
            PlanError::MissingLinux => "OCI spec missing linux field"@,
            PlanError::OciDevice { volume } => "confidential volume "@ + quoted(volume@)
                + " must identify exactly one OCI block device"@,
            PlanError::AliasedOciDevice { volume } => "confidential volume "@ + quoted(volume@)
                + " block identity is aliased by another OCI device"@,
            PlanError::MountCollision { volume, destination } => "confidential volume "@
                + quoted(volume@) + " collides with existing mount destination "@
                + quoted(destination@),
            PlanError::MountName(reason) => reason@,
            PlanError::NameNotLookedUp(uri) => "confidential manifest URI "@ + quoted(uri@)
                + " was not looked up"@,
            PlanError::DeviceNotConsumedOnce =>
                "confidential device identity must be consumed exactly once"@,
            PlanError::OciDeviceNotConsumedOnce =>
                "confidential OCI block identity must be consumed exactly once"@,
        }
    }

    /// The message for this error.
    pub fn message(&self) -> (message: String)
        ensures
            message@ == self.text(),
    {
        match self {
            PlanError::SharedFsEnabled(name) => {
                let mut text = "confidential storage requires shared_fs=none; selected hypervisor uses Some(".to_owned();
                text.append(quote(name.as_str()).as_str());
                text.append(")");
                text
            },
            PlanError::NoSelectedHypervisor => {
                "confidential storage requires an unambiguous selected hypervisor with shared_fs=none".to_owned()
            },
            PlanError::Declaration(error) => {
                let mut text = "parse confidential volume annotation: ".to_owned();
                text.append(error.message().as_str());
                text
            },
            PlanError::UndeclaredContainer { volume, container } => {
                let mut text = "confidential volume ".to_owned();
                text.append(quote(volume.as_str()).as_str());
                text.append(" exposes its raw device to undeclared container ");
                text.append(quote(container.as_str()).as_str());
                text
            },
            PlanError::DeviceCount { volume, path } => {
                let mut text = "confidential volume ".to_owned();
                text.append(quote(volume.as_str()).as_str());
                text.append(" must resolve exactly one raw block device at ");
                text.append(quote(path.as_str()).as_str());
                text
            },
            PlanError::InvalidIdentity { volume } => {
                let mut text = "confidential volume ".to_owned();
                text.append(quote(volume.as_str()).as_str());
                text.append(" resolved an invalid guest block device identity");
                text
            },
            PlanError::AliasedDevice { volume } => {
                let mut text = "confidential volume ".to_owned();
                text.append(quote(volume.as_str()).as_str());
                text.append(" block identity is aliased by another device request");
                text
            },
            PlanError::MissingLinux => "OCI spec missing linux field".to_owned(),
            PlanError::OciDevice { volume } => {
                let mut text = "confidential volume ".to_owned();
                text.append(quote(volume.as_str()).as_str());
                text.append(" must identify exactly one OCI block device");
                text
            },
            PlanError::AliasedOciDevice { volume } => {
                let mut text = "confidential volume ".to_owned();
                text.append(quote(volume.as_str()).as_str());
                text.append(" block identity is aliased by another OCI device");
                text
            },
            PlanError::MountCollision { volume, destination } => {
                let mut text = "confidential volume ".to_owned();
                text.append(quote(volume.as_str()).as_str());
                text.append(" collides with existing mount destination ");
                text.append(quote(destination.as_str()).as_str());
                text
            },
            PlanError::MountName(reason) => reason.clone(),
            PlanError::NameNotLookedUp(uri) => {
                let mut text = "confidential manifest URI ".to_owned();
                text.append(quote(uri.as_str()).as_str());
                text.append(" was not looked up");
                text
            },
            PlanError::DeviceNotConsumedOnce => {
                "confidential device identity must be consumed exactly once".to_owned()
            },
            PlanError::OciDeviceNotConsumedOnce => {
                "confidential OCI block identity must be consumed exactly once".to_owned()
            },
        }
    }
}

/// The agent device that a confidential volume takes over.
#[derive(Debug)]
pub struct ConsumedDeviceIdentity {
    pub id: String,
    pub field_type: String,
    pub vm_path: String,
    pub container_path: String,
    pub options: Vec<String>,
}

impl View for ConsumedDeviceIdentity {
    type V = DeviceView;

    open spec fn view(&self) -> DeviceView {
        DeviceView {
            id: self.id@,
            field_type: self.field_type@,
            vm_path: self.vm_path@,
            container_path: self.container_path@,
            options: texts(self.options@),
        }
    }
}

/// Whether two devices have the same source: the same address on the same bus, or the same guest
/// path.
pub open spec fn same_device_source(left: DeviceView, right: DeviceView) -> bool {
    ||| left.field_type == right.field_type && left.id == right.id
    ||| left.vm_path.len() > 0 && left.vm_path == right.vm_path
}

impl ConsumedDeviceIdentity {
    /// The identity of a device.
    pub fn from(device: &Device) -> (identity: Self)
        ensures
            identity@ == device@,
    {
        ConsumedDeviceIdentity {
            id: device.id.clone(),
            field_type: device.field_type.clone(),
            vm_path: device.vm_path.clone(),
            container_path: device.container_path.clone(),
            options: copy_texts(&device.options),
        }
    }

    /// Whether `device` has this identity.
    pub fn matches(&self, device: &Device) -> (same: bool)
        ensures
            same == (self@ == device@),
    {
        same_text(self.id.as_str(), device.id.as_str()) && same_text(
            self.field_type.as_str(),
            device.field_type.as_str(),
        ) && same_text(self.vm_path.as_str(), device.vm_path.as_str()) && same_text(
            self.container_path.as_str(),
            device.container_path.as_str(),
        ) && same_texts(&self.options, &device.options)
    }

    /// Whether `device` has the source of this identity.
    pub fn same_source(&self, device: &Device) -> (same: bool)
        ensures
            same == same_device_source(self@, device@),
    {
        (same_text(self.field_type.as_str(), device.field_type.as_str()) && same_text(
            self.id.as_str(),
            device.id.as_str(),
        )) || (!self.vm_path.as_str().is_empty() && same_text(
            self.vm_path.as_str(),
            device.vm_path.as_str(),
        ))
    }
}

/// The OCI block device that a confidential volume takes over.
#[derive(Debug)]
pub struct ConsumedOciBlockIdentity {
    pub path: String,
    pub major: i64,
    pub minor: i64,
}

/// The contents of a [`ConsumedOciBlockIdentity`].
#[verifier::ext_equal]
pub struct BlockView {
    pub path: Seq<char>,
    pub major: i64,
    pub minor: i64,
}

impl View for ConsumedOciBlockIdentity {
    type V = BlockView;

    open spec fn view(&self) -> BlockView {
        BlockView { path: self.path@, major: self.major, minor: self.minor }
    }
}

/// Whether `device` is the block device with the number of `identity`.
pub open spec fn has_number(identity: BlockView, device: LinuxDevice) -> bool {
    device.typ == LinuxDeviceType::B && device.major == identity.major && device.minor
        == identity.minor
}

/// Whether `device` is the block device with the path and the number of `identity`.
pub open spec fn is_block(identity: BlockView, device: LinuxDevice) -> bool {
    has_number(identity, device) && same_path(device.path@, identity.path)
}

impl ConsumedOciBlockIdentity {
    /// Whether `device` has this identity.
    pub fn matches(&self, device: &LinuxDevice) -> (same: bool)
        ensures
            same == is_block(self@, *device),
    {
        self.same_device(device) && paths_equal(device.path.as_str(), self.path.as_str())
    }

    /// Whether `device` is the same block device, under any path.
    pub fn same_device(&self, device: &LinuxDevice) -> (same: bool)
        ensures
            same == has_number(self@, *device),
    {
        device.typ == LinuxDeviceType::B && device.major == self.major && device.minor
            == self.minor
    }
}

/// Container-local result of consuming confidential raw block devices.
#[derive(Debug)]
pub struct ConfidentialVolumePlan {
    pub storages: Vec<Storage>,
    pub mounts: Vec<Mount>,
    pub consumed_devices: Vec<ConsumedDeviceIdentity>,
    pub consumed_oci_devices: Vec<ConsumedOciBlockIdentity>,
}

/// The contents of a [`ConfidentialVolumePlan`].
#[verifier::ext_equal]
pub struct PlanView {
    pub storages: Seq<StorageView>,
    pub mounts: Seq<MountView>,
    pub consumed_devices: Seq<DeviceView>,
    pub consumed_oci_devices: Seq<BlockView>,
}

impl View for ConfidentialVolumePlan {
    type V = PlanView;

    open spec fn view(&self) -> PlanView {
        PlanView {
            storages: Seq::new(self.storages@.len(), |i: int| self.storages@[i]@),
            mounts: mount_views(self.mounts@),
            consumed_devices: Seq::new(
                self.consumed_devices@.len(),
                |i: int| self.consumed_devices@[i]@,
            ),
            consumed_oci_devices: Seq::new(
                self.consumed_oci_devices@.len(),
                |i: int| self.consumed_oci_devices@[i]@,
            ),
        }
    }
}

/// The contents of a list of mounts.
pub open spec fn mount_views(mounts: Seq<Mount>) -> Seq<MountView> {
    Seq::new(mounts.len(), |i: int| mounts[i]@)
}

/// The contents of a list of devices.
pub open spec fn device_views<I>(devices: Seq<ContainerDevice<I>>) -> Seq<DeviceView> {
    Seq::new(devices.len(), |i: int| devices[i].device@)
}

/// The plan that consumes nothing.
pub open spec fn empty_plan() -> PlanView {
    PlanView {
        storages: Seq::empty(),
        mounts: Seq::empty(),
        consumed_devices: Seq::empty(),
        consumed_oci_devices: Seq::empty(),
    }
}

impl Default for ConfidentialVolumePlan {
    fn default() -> (plan: Self)
        ensures
            plan@ == empty_plan(),
    {
        let plan = ConfidentialVolumePlan {
            storages: Vec::new(),
            mounts: Vec::new(),
            consumed_devices: Vec::new(),
            consumed_oci_devices: Vec::new(),
        };
        assert(plan@ =~= empty_plan());
        plan
    }
}

/// The places below `count` at which `holds` is true, in order.
pub open spec fn places(count: nat, holds: spec_fn(int) -> bool) -> Seq<int>
    decreases count,
{
    if count == 0 {
        Seq::empty()
    } else {
        let before = places((count - 1) as nat, holds);
        if holds(count - 1) {
            before.push(count - 1)
        } else {
            before
        }
    }
}

pub proof fn lemma_places(count: nat, holds: spec_fn(int) -> bool)
    ensures
        forall|i: int|
            0 <= i < places(count, holds).len() ==> 0 <= #[trigger] places(count, holds)[i] < count
                && holds(places(count, holds)[i]),
        forall|j: int| 0 <= j < count && #[trigger] holds(j) ==> places(count, holds).contains(j),
    decreases count,
{
    if count > 0 {
        let before = places((count - 1) as nat, holds);
        lemma_places((count - 1) as nat, holds);
        assert forall|j: int| 0 <= j < count && #[trigger] holds(j) implies places(
            count,
            holds,
        ).contains(j) by {
            if j < count - 1 {
                assert(before.contains(j));
                let k = choose|k: int| 0 <= k < before.len() && before[k] == j;
                assert(places(count, holds)[k] == j);
            } else {
                assert(places(count, holds)[before.len() as int] == j);
            }
        }
    }
}

/// Where exactly one place is found, it is the only one.
pub proof fn lemma_only_place(count: nat, holds: spec_fn(int) -> bool, i: int, j: int)
    requires
        places(count, holds).len() == 1,
        0 <= i < count,
        0 <= j < count,
        holds(i),
        holds(j),
    ensures
        i == j,
        places(count, holds)[0] == i,
{
    lemma_places(count, holds);
    assert(places(count, holds).contains(i));
    assert(places(count, holds).contains(j));
}

/// Where exactly one place holds, exactly one is found.
pub proof fn lemma_single_place(count: nat, holds: spec_fn(int) -> bool, i: int)
    requires
        0 <= i < count,
        holds(i),
        forall|j: int| 0 <= j < count && #[trigger] holds(j) ==> j == i,
    ensures
        places(count, holds) == seq![i],
    decreases count,
{
    let before = places((count - 1) as nat, holds);
    if i == count - 1 {
        lemma_places((count - 1) as nat, holds);
        if before.len() > 0 {
            assert(holds(before[0]));
        }
        assert(before =~= Seq::empty());
        assert(before.push(i) =~= seq![i]);
    } else {
        lemma_single_place((count - 1) as nat, holds, i);
        assert(!holds(count - 1));
    }
}

/// The places of the devices that a container sees at `path`.
pub open spec fn devices_at(devices: Seq<DeviceView>, path: Seq<char>) -> Seq<int> {
    places(devices.len(), |i: int| devices[i].container_path == path)
}

/// The places of the OCI devices at `path`.
pub open spec fn oci_devices_at(devices: Seq<LinuxDevice>, path: Seq<char>) -> Seq<int> {
    places(devices.len(), |i: int| same_path(devices[i].path@, path))
}

/// Whether a device is a plain guest block device: addressed on a PCI or SCSI bus, without
/// options, and not itself a mapping of a confidential volume.
pub open spec fn is_plain_block_device(device: DeviceView) -> bool {
    &&& device.id.len() > 0
    &&& device.field_type == DRIVER_BLK_PCI_TYPE@ || device.field_type == DRIVER_SCSI_TYPE@
    &&& !has_prefix(device.vm_path, CONFIDENTIAL_MAPPER_PREFIX@)
    &&& device.options.len() == 0
}

/// Whether a device that the container sees elsewhere has the source of `device`.
pub open spec fn is_aliased(devices: Seq<DeviceView>, device: DeviceView) -> bool {
    exists|i: int|
        0 <= i < devices.len() && (#[trigger] devices[i]).container_path != device.container_path
            && same_device_source(device, devices[i])
}

/// Whether an OCI device at another path has the number of `identity`.
pub open spec fn is_aliased_block(devices: Seq<LinuxDevice>, identity: BlockView) -> bool {
    exists|i: int|
        0 <= i < devices.len() && !same_path((#[trigger] devices[i]).path@, identity.path)
            && has_number(identity, devices[i])
}

/// Whether a mount has the destination `path`.
pub open spec fn is_mounted_at(mounts: Seq<MountView>, path: Seq<char>) -> bool {
    exists|i: int| 0 <= i < mounts.len() && same_path((#[trigger] mounts[i]).destination, path)
}

/// The first destination, from `d` on, that a mount in `existing` or `planned` has already.
pub open spec fn first_collision(
    list: Seq<String>,
    d: int,
    existing: Seq<MountView>,
    planned: Seq<MountView>,
) -> Option<String>
    decreases list.len() - d,
{
    if d >= list.len() {
        None
    } else if is_mounted_at(existing, list[d]@) || is_mounted_at(planned, list[d]@) {
        Some(list[d])
    } else {
        first_collision(list, d + 1, existing, planned)
    }
}

/// The group ownership that a declaration asks for.
pub open spec fn declared_group(declaration: ConfidentialVolumeDeclaration) -> Option<FSGroup> {
    match declaration.fs_group {
        Some(group_id) => Some(
            FSGroup {
                group_id,
                group_change_policy: match declaration.fs_group_change_policy {
                    Some(
                        ConfidentialFSGroupChangePolicy::OnRootMismatch,
                    ) => FSGroupChangePolicy::OnRootMismatch,
                    _ => FSGroupChangePolicy::Always,
                },
            },
        ),
        None => None,
    }
}

/// The guest path at which a confidential volume with the mount name `name` is mounted.
pub open spec fn guest_mount_point(name: Seq<char>) -> Seq<char> {
    KATA_CONFIDENTIAL_STORAGE_MOUNT_ROOT@ + "/"@ + name
}

/// The storage request for a declared volume on `device`.
pub open spec fn confidential_request(
    declaration: ConfidentialVolumeDeclaration,
    device: DeviceView,
    mount_point: Seq<char>,
) -> StorageView {
    StorageView {
        driver: device.field_type,
        source: device.id,
        fstype: KATA_CONFIDENTIAL_STORAGE_FS_TYPE@,
        fs_group: declared_group(declaration),
        mount_point,
        confidential_storage: Some(
            ConfidentialStorageView {
                manifest_uri: declaration.manifest_uri@,
                requested_access: ConfidentialStorageAccess::ReadWrite,
            },
        ),
        ..empty_storage()
    }
}

/// The mount that shows the volume at `mount_point` to the container at `destination`.
pub open spec fn volume_mount(destination: Seq<char>, mount_point: Seq<char>) -> MountView {
    MountView {
        destination,
        typ: Some("bind"@),
        source: Some(mount_point),
        options: Some(seq!["rbind"@, "rprivate"@, "rw"@]),
    }
}

/// What the planning of every volume of a container reads.
pub struct PlanInput {
    pub container: String,
    pub devices: Seq<DeviceView>,
    pub linux: Option<Seq<LinuxDevice>>,
    pub existing: Seq<MountView>,
    pub names: Map<Seq<char>, Result<String, String>>,
}

/// What one volume adds to a plan.
#[verifier::ext_equal]
pub struct VolumeView {
    pub storage: StorageView,
    pub mounts: Seq<MountView>,
    pub device: DeviceView,
    pub block: BlockView,
}

/// What a volume adds to a plan that has the mounts `planned` so far: nothing for a container
/// that neither declares nor sees it.
pub open spec fn plan_of_volume(
    input: PlanInput,
    volume: String,
    declaration: ConfidentialVolumeDeclaration,
    planned: Seq<MountView>,
) -> Result<Option<VolumeView>, PlanError> {
    let path = declaration.device_path;
    let found = devices_at(input.devices, path@);
    if !declaration.mounts.0@.dom().contains(input.container@) {
        if found.len() > 0 {
            Err(PlanError::UndeclaredContainer { volume, container: input.container })
        } else {
            Ok(None)
        }
    } else if found.len() != 1 {
        Err(PlanError::DeviceCount { volume, path })
    } else {
        let device = input.devices[found[0]];
        if !is_plain_block_device(device) {
            Err(PlanError::InvalidIdentity { volume })
        } else if is_aliased(input.devices, device) {
            Err(PlanError::AliasedDevice { volume })
        } else {
            match input.linux {
                None => Err(PlanError::MissingLinux),
                Some(oci_devices) => {
                    let found_oci = oci_devices_at(oci_devices, path@);
                    let oci_device = oci_devices[found_oci[0]];
                    let block = BlockView {
                        path: oci_device.path@,
                        major: oci_device.major,
                        minor: oci_device.minor,
                    };
                    let list = declaration.mounts.0@[input.container@]@;
                    if found_oci.len() != 1 || oci_device.typ != LinuxDeviceType::B {
                        Err(PlanError::OciDevice { volume })
                    } else if is_aliased_block(oci_devices, block) {
                        Err(PlanError::AliasedOciDevice { volume })
                    } else if first_collision(list, 0, input.existing, planned) is Some {
                        Err(
                            PlanError::MountCollision {
                                volume,
                                destination: first_collision(list, 0, input.existing, planned)->0,
                            },
                        )
                    } else if !input.names.dom().contains(declaration.manifest_uri@) {
                        Err(PlanError::NameNotLookedUp(declaration.manifest_uri))
                    } else if input.names[declaration.manifest_uri@] is Err {
                        Err(PlanError::MountName(input.names[declaration.manifest_uri@]->Err_0))
                    } else {
                        let mount_point = guest_mount_point(
                            input.names[declaration.manifest_uri@]->Ok_0@,
                        );
                        Ok(
                            Some(
                                VolumeView {
                                    storage: confidential_request(
                                        declaration,
                                        device,
                                        mount_point,
                                    ),
                                    mounts: Seq::new(
                                        list.len(),
                                        |d: int| volume_mount(list[d]@, mount_point),
                                    ),
                                    device,
                                    block,
                                },
                            ),
                        )
                    }
                },
            }
        }
    }
}

/// A plan with one more volume.
pub open spec fn with_volume(plan: PlanView, volume: VolumeView) -> PlanView {
    PlanView {
        storages: plan.storages.push(volume.storage),
        mounts: plan.mounts + volume.mounts,
        consumed_devices: plan.consumed_devices.push(volume.device),
        consumed_oci_devices: plan.consumed_oci_devices.push(volume.block),
    }
}

/// The plan that the volumes from `v` on complete, in the order of their names.
pub open spec fn plan_of_volumes(
    input: PlanInput,
    volumes: Seq<(String, ConfidentialVolumeDeclaration)>,
    v: int,
    plan: PlanView,
) -> Result<PlanView, PlanError>
    decreases volumes.len() - v,
{
    if v >= volumes.len() {
        Ok(plan)
    } else {
        match plan_of_volume(input, volumes[v].0, volumes[v].1, plan.mounts) {
            Err(error) => Err(error),
            Ok(None) => plan_of_volumes(input, volumes, v + 1, plan),
            Ok(Some(volume)) => plan_of_volumes(input, volumes, v + 1, with_volume(plan, volume)),
        }
    }
}

/// What one volume adds to a plan.
struct VolumeParts {
    storage: Storage,
    mounts: Vec<Mount>,
    device: ConsumedDeviceIdentity,
    block: ConsumedOciBlockIdentity,
}

impl View for VolumeParts {
    type V = VolumeView;

    closed spec fn view(&self) -> VolumeView {
        VolumeView {
            storage: self.storage@,
            mounts: mount_views(self.mounts@),
            device: self.device@,
            block: self.block@,
        }
    }
}

/// The places of the devices that a container sees at `path`.
fn find_devices<I>(devices: &Vec<ContainerDevice<I>>, path: &str) -> (found: Vec<usize>)
    ensures
        found@.len() == devices_at(device_views(devices@), path@).len(),
        forall|i: int|
            0 <= i < found@.len() ==> #[trigger] found@[i] == devices_at(
                device_views(devices@),
                path@,
            )[i] && found@[i] < devices@.len(),
{
    let ghost views = device_views(devices@);
    let ghost holds = |i: int| views[i].container_path == path@;
    let mut found: Vec<usize> = Vec::new();
    let mut i: usize = 0;
    while i < devices.len()
        invariant
            i <= devices.len(),
            views == device_views(devices@),
            holds == (|i: int| views[i].container_path == path@),
            found@.len() == places(i as nat, holds).len(),
            forall|k: int|
                0 <= k < found@.len() ==> #[trigger] found@[k] == places(i as nat, holds)[k]
                    && found@[k] < i,
        decreases devices.len() - i,
    {
        if same_text(devices[i].device.container_path.as_str(), path) {
            found.push(i);
        }
        i = i + 1;
    }
    assert(devices_at(views, path@) == places(views.len(), holds));
    found
}

/// The places of the OCI devices at `path`.
fn find_oci_devices(devices: &Vec<LinuxDevice>, path: &str) -> (found: Vec<usize>)
    ensures
        found@.len() == oci_devices_at(devices@, path@).len(),
        forall|i: int|
            0 <= i < found@.len() ==> #[trigger] found@[i] == oci_devices_at(devices@, path@)[i]
                && found@[i] < devices@.len(),
{
    let ghost holds = |i: int| same_path(devices@[i].path@, path@);
    let mut found: Vec<usize> = Vec::new();
    let mut i: usize = 0;
    while i < devices.len()
        invariant
            i <= devices.len(),
            holds == (|i: int| same_path(devices@[i].path@, path@)),
            found@.len() == places(i as nat, holds).len(),
            forall|k: int|
                0 <= k < found@.len() ==> #[trigger] found@[k] == places(i as nat, holds)[k]
                    && found@[k] < i,
        decreases devices.len() - i,
    {
        if paths_equal(devices[i].path.as_str(), path) {
            found.push(i);
        }
        i = i + 1;
    }
    assert(oci_devices_at(devices@, path@) == places(devices@.len(), holds));
    found
}

fn plain_block_device(device: &Device) -> (plain: bool)
    ensures
        plain == is_plain_block_device(device@),
{
    !device.id.as_str().is_empty() && (same_text(device.field_type.as_str(), DRIVER_BLK_PCI_TYPE)
        || same_text(device.field_type.as_str(), DRIVER_SCSI_TYPE)) && !starts_with(
        device.vm_path.as_str(),
        CONFIDENTIAL_MAPPER_PREFIX,
    ) && device.options.len() == 0
}

fn aliased<I>(devices: &Vec<ContainerDevice<I>>, identity: &ConsumedDeviceIdentity) -> (found: bool)
    ensures
        found == is_aliased(device_views(devices@), identity@),
{
    let ghost views = device_views(devices@);
    let mut i: usize = 0;
    while i < devices.len()
        invariant
            i <= devices.len(),
            views == device_views(devices@),
            forall|k: int|
                0 <= k < i ==> (#[trigger] views[k]).container_path == identity@.container_path
                    || !same_device_source(identity@, views[k]),
        decreases devices.len() - i,
    {
        assert(views[i as int] == devices@[i as int].device@);
        if !same_text(
            devices[i].device.container_path.as_str(),
            identity.container_path.as_str(),
        ) && identity.same_source(&devices[i].device) {
            return true;
        }
        i = i + 1;
    }
    false
}

fn aliased_block(devices: &Vec<LinuxDevice>, identity: &ConsumedOciBlockIdentity) -> (found: bool)
    ensures
        found == is_aliased_block(devices@, identity@),
{
    let mut i: usize = 0;
    while i < devices.len()
        invariant
            i <= devices.len(),
            forall|k: int|
                0 <= k < i ==> same_path((#[trigger] devices@[k]).path@, identity@.path)
                    || !has_number(identity@, devices@[k]),
        decreases devices.len() - i,
    {
        if !paths_equal(devices[i].path.as_str(), identity.path.as_str())
            && identity.same_device(&devices[i]) {
            assert(has_number(identity@, devices@[i as int]));
            return true;
        }
        i = i + 1;
    }
    false
}

fn mounted_at(mounts: &Vec<Mount>, path: &str) -> (found: bool)
    ensures
        found == is_mounted_at(mount_views(mounts@), path@),
{
    let ghost views = mount_views(mounts@);
    let mut i: usize = 0;
    while i < mounts.len()
        invariant
            i <= mounts.len(),
            views == mount_views(mounts@),
            forall|k: int| 0 <= k < i ==> !same_path((#[trigger] views[k]).destination, path@),
        decreases mounts.len() - i,
    {
        assert(views[i as int] == mounts@[i as int]@);
        if paths_equal(mounts[i].destination.as_str(), path) {
            return true;
        }
        i = i + 1;
    }
    false
}

fn find_collision(list: &Vec<String>, existing: &Vec<Mount>, planned: &Vec<Mount>) -> (found: Option<
    String,
>)
    ensures
        found == first_collision(list@, 0, mount_views(existing@), mount_views(planned@)),
{
    let mut d: usize = 0;
    while d < list.len()
        invariant
            d <= list.len(),
            first_collision(list@, 0, mount_views(existing@), mount_views(planned@))
                == first_collision(
                list@,
                d as int,
                mount_views(existing@),
                mount_views(planned@),
            ),
        decreases list.len() - d,
    {
        if mounted_at(existing, list[d].as_str()) || mounted_at(planned, list[d].as_str()) {
            return Some(list[d].clone());
        }
        d = d + 1;
    }
    None
}

fn group_of(declaration: &ConfidentialVolumeDeclaration) -> (group: Option<FSGroup>)
    ensures
        group == declared_group(*declaration),
{
    match declaration.fs_group {
        Some(group_id) => {
            let group_change_policy = match declaration.fs_group_change_policy {
                Some(ConfidentialFSGroupChangePolicy::OnRootMismatch) => {
                    FSGroupChangePolicy::OnRootMismatch
                },
                _ => FSGroupChangePolicy::Always,
            };
            Some(FSGroup { group_id, group_change_policy })
        },
        None => None,
    }
}

fn mounts_of(list: &Vec<String>, mount_point: &String) -> (mounts: Vec<Mount>)
    ensures
        mount_views(mounts@) == Seq::new(
            list@.len(),
            |d: int| volume_mount(list@[d]@, mount_point@),
        ),
{
    let mut mounts: Vec<Mount> = Vec::new();
    let mut d: usize = 0;
    while d < list.len()
        invariant
            d <= list.len(),
            mounts@.len() == d,
            forall|k: int|
                0 <= k < d ==> (#[trigger] mounts@[k])@ == volume_mount(list@[k]@, mount_point@),
        decreases list.len() - d,
    {
        let mut options: Vec<String> = Vec::new();
        options.push("rbind".to_owned());
        options.push("rprivate".to_owned());
        options.push("rw".to_owned());
        assert(texts(options@) =~= seq!["rbind"@, "rprivate"@, "rw"@]);
        mounts.push(
            Mount {
                destination: list[d].clone(),
                typ: Some("bind".to_owned()),
                source: Some(mount_point.clone()),
                options: Some(options),
            },
        );
        d = d + 1;
    }
    assert(mount_views(mounts@) =~= Seq::new(
        list@.len(),
        |d: int| volume_mount(list@[d]@, mount_point@),
    ));
    mounts
}

/// The planning input that arguments stand for.
pub open spec fn plan_input<I>(
    container: String,
    devices: Seq<ContainerDevice<I>>,
    linux: Option<Linux>,
    existing: Seq<Mount>,
    names: Map<Seq<char>, Result<String, String>>,
) -> PlanInput {
    PlanInput {
        container,
        devices: device_views(devices),
        linux: match linux {
            Some(linux) => Some(linux_devices(linux)),
            None => None,
        },
        existing: mount_views(existing),
        names,
    }
}

/// The devices of the Linux part of a specification.
pub open spec fn linux_devices(linux: Linux) -> Seq<LinuxDevice> {
    match linux.devices {
        Some(devices) => devices@,
        None => Seq::empty(),
    }
}

/// Plans one volume.
fn plan_volume<I>(
    volume: &String,
    declaration: &ConfidentialVolumeDeclaration,
    container: &String,
    devices: &Vec<ContainerDevice<I>>,
    linux: &Option<Linux>,
    existing: &Vec<Mount>,
    planned: &Vec<Mount>,
    names: &TextMap<Result<String, String>>,
) -> (result: Result<Option<VolumeParts>, PlanError>)
    ensures
        match result {
            Ok(Some(parts)) => plan_of_volume(
                plan_input(*container, devices@, *linux, existing@, names@),
                *volume,
                *declaration,
                mount_views(planned@),
            ) == Ok::<_, PlanError>(Some(parts@)),
            Ok(None) => plan_of_volume(
                plan_input(*container, devices@, *linux, existing@, names@),
                *volume,
                *declaration,
                mount_views(planned@),
            ) == Ok::<Option<VolumeView>, PlanError>(None),
            Err(error) => plan_of_volume(
                plan_input(*container, devices@, *linux, existing@, names@),
                *volume,
                *declaration,
                mount_views(planned@),
            ) == Err::<Option<VolumeView>, _>(error),
        },
{
    let found = find_devices(devices, declaration.device_path.as_str());
    let list = match declaration.mounts.0.get(container.as_str()) {
        Some(list) => list,
        None => {
            if found.len() != 0 {
                return Err(
                    PlanError::UndeclaredContainer {
                        volume: volume.clone(),
                        container: container.clone(),
                    },
                );
            }
            return Ok(None);
        },
    };
    if found.len() != 1 {
        return Err(
            PlanError::DeviceCount {
                volume: volume.clone(),
                path: declaration.device_path.clone(),
            },
        );
    }
    let device = &devices[found[0]].device;
    assert(device_views(devices@)[found@[0] as int] == device@);
    if !plain_block_device(device) {
        return Err(PlanError::InvalidIdentity { volume: volume.clone() });
    }
    let identity = ConsumedDeviceIdentity::from(device);
    if aliased(devices, &identity) {
        return Err(PlanError::AliasedDevice { volume: volume.clone() });
    }
    let linux = match linux {
        Some(linux) => linux,
        None => {
            return Err(PlanError::MissingLinux);
        },
    };
    let none: Vec<LinuxDevice> = Vec::new();
    let oci_devices = match &linux.devices {
        Some(oci_devices) => oci_devices,
        None => &none,
    };
    assert(oci_devices@ =~= linux_devices(*linux));
    let found_oci = find_oci_devices(oci_devices, declaration.device_path.as_str());
    if found_oci.len() != 1 || oci_devices[found_oci[0]].typ != LinuxDeviceType::B {
        return Err(PlanError::OciDevice { volume: volume.clone() });
    }
    let oci_device = &oci_devices[found_oci[0]];
    let block = ConsumedOciBlockIdentity {
        path: oci_device.path.clone(),
        major: oci_device.major,
        minor: oci_device.minor,
    };
    if aliased_block(oci_devices, &block) {
        return Err(PlanError::AliasedOciDevice { volume: volume.clone() });
    }
    if let Some(destination) = find_collision(list, existing, planned) {
        return Err(PlanError::MountCollision { volume: volume.clone(), destination });
    }
    let name = match names.get(declaration.manifest_uri.as_str()) {
        Some(Ok(name)) => name,
        Some(Err(reason)) => {
            return Err(PlanError::MountName(reason.clone()));
        },
        None => {
            return Err(PlanError::NameNotLookedUp(declaration.manifest_uri.clone()));
        },
    };
    let mount_point = concat3(KATA_CONFIDENTIAL_STORAGE_MOUNT_ROOT, "/", name.as_str());
    let mounts = mounts_of(list, &mount_point);
    let storage = Storage {
        driver: device.field_type.clone(),
        driver_options: Vec::new(),
        source: device.id.clone(),
        fstype: KATA_CONFIDENTIAL_STORAGE_FS_TYPE.to_owned(),
        fs_group: group_of(declaration),
        options: Vec::new(),
        mount_point,
        shared: false,
        confidential_storage: Some(
            ConfidentialStorage {
                manifest_uri: declaration.manifest_uri.clone(),
                requested_access: ConfidentialStorageAccess::ReadWrite,
            },
        ),
    };
    assert(storage@ =~= confidential_request(*declaration, device@, mount_point@));
    Ok(Some(VolumeParts { storage, mounts, device: identity, block }))
}

/// The declaration annotation of a specification.
pub open spec fn declared_annotation(spec: Spec) -> Option<String> {
    match spec.annotations {
        Some(annotations) => if annotations@.dom().contains(KATA_ANNO_CONFIDENTIAL_VOLUME@) {
            Some(annotations@[KATA_ANNO_CONFIDENTIAL_VOLUME@])
        } else {
            None
        },
        None => None,
    }
}

/// The mounts of a specification.
pub open spec fn spec_mounts(spec: Spec) -> Seq<Mount> {
    match spec.mounts {
        Some(mounts) => mounts@,
        None => Seq::empty(),
    }
}

/// Why the filesystem sharing of the selected hypervisor rules out confidential storage.
pub open spec fn sharing_problem(selected: Option<&SharedFsInfo>) -> Option<PlanError> {
    match selected {
        Some(info) => match info.shared_fs {
            Some(name) => Some(PlanError::SharedFsEnabled(name)),
            None => None,
        },
        None => Some(PlanError::NoSelectedHypervisor),
    }
}

/// Whether `after` is `before` without the declaration annotation.
pub open spec fn annotation_dropped(before: Spec, after: Spec) -> bool {
    &&& after.mounts == before.mounts
    &&& after.linux == before.linux
    &&& before.annotations is Some
    &&& after.annotations is Some
    &&& after.annotations->0@ == before.annotations->0@.remove(KATA_ANNO_CONFIDENTIAL_VOLUME@)
}

/// The plan for a container whose annotation `raw` decodes to `decoded`.
pub open spec fn plan_outcome(
    input: PlanInput,
    sharing: Option<PlanError>,
    raw: Seq<char>,
    decoded: Result<ConfidentialVolumeDeclarations, DeclarationError>,
    refused: Map<Seq<char>, String>,
) -> Result<PlanView, PlanError> {
    match sharing {
        Some(problem) => Err(problem),
        None => match annotation_problem(raw, decoded, refused) {
            Some(problem) => Err(PlanError::Declaration(problem)),
            None => plan_of_volumes(input, decoded->Ok_0.0.entries(), 0, empty_plan()),
        },
    }
}

/// The contents of a planning result.
pub open spec fn result_view(result: Result<ConfidentialVolumePlan, PlanError>) -> Result<
    PlanView,
    PlanError,
> {
    match result {
        Ok(plan) => Ok(plan@),
        Err(error) => Err(error),
    }
}

/// Builds the typed storage and filesystem mounts for the current Kubernetes container.
///
/// `decoded` is what the annotation decodes to, `refused` holds the manifest URIs that the
/// manifest policy refuses, and `names` holds what each
/// manifest URI was looked up to be: its mount name, or why it has none.
pub fn build_confidential_volume_plan<I>(
    spec: &mut Spec,
    devices: &Vec<ContainerDevice<I>>,
    selected_shared_fs: Option<&SharedFsInfo>,
    container_name: &String,
    decoded: Result<ConfidentialVolumeDeclarations, DeclarationError>,
    refused: &TextMap<String>,
    names: &TextMap<Result<String, String>>,
) -> (result: Result<ConfidentialVolumePlan, PlanError>)
    ensures
        declared_annotation(*old(spec)) is None ==> result_view(result) == Ok::<_, PlanError>(
            empty_plan(),
        ) && *final(spec) == *old(spec),
        declared_annotation(*old(spec)) matches Some(raw) ==> {
            let input = plan_input(
                *container_name,
                devices@,
                old(spec).linux,
                spec_mounts(*old(spec)),
                names@,
            );
            let sharing = sharing_problem(selected_shared_fs);
            &&& result_view(result) == plan_outcome(input, sharing, raw@, decoded, refused@)
            &&& if sharing is None && annotation_problem(raw@, decoded, refused@) is None {
                annotation_dropped(*old(spec), *final(spec))
            } else {
                *final(spec) == *old(spec)
            }
        },
{
    let raw = match &spec.annotations {
        Some(annotations) => match annotations.get(KATA_ANNO_CONFIDENTIAL_VOLUME) {
            Some(raw) => raw.clone(),
            None => {
                return Ok(ConfidentialVolumePlan::default());
            },
        },
        None => {
            return Ok(ConfidentialVolumePlan::default());
        },
    };
    match selected_shared_fs {
        Some(info) => {
            if let Some(name) = &info.shared_fs {
                return Err(PlanError::SharedFsEnabled(name.clone()));
            }
        },
        None => {
            return Err(PlanError::NoSelectedHypervisor);
        },
    }
    let declarations = match parse_confidential_volume_declarations(
        raw.as_str(),
        decoded,
        refused,
    ) {
        Ok(declarations) => declarations,
        Err(error) => {
            return Err(PlanError::Declaration(error));
        },
    };
    match spec.annotations.take() {
        Some(annotations) => {
            let mut annotations = annotations;
            annotations.remove(KATA_ANNO_CONFIDENTIAL_VOLUME);
            spec.annotations = Some(annotations);
        },
        None => {},
    }
    let none: Vec<Mount> = Vec::new();
    let existing = match &spec.mounts {
        Some(mounts) => mounts,
        None => &none,
    };
    assert(existing@ =~= spec_mounts(*old(spec)));
    let ghost input = plan_input(
        *container_name,
        devices@,
        old(spec).linux,
        spec_mounts(*old(spec)),
        names@,
    );
    let volumes = &declarations.0;
    let mut plan = ConfidentialVolumePlan::default();
    let mut v: usize = 0;
    while v < volumes.len()
        invariant
            v <= volumes.entries().len(),
            input == plan_input(*container_name, devices@, spec.linux, existing@, names@),
            annotation_dropped(*old(spec), *spec),
            declared_annotation(*old(spec)) == Some(raw),
            sharing_problem(selected_shared_fs) is None,
            annotation_problem(raw@, decoded, refused@) is None,
            input == plan_input(
                *container_name,
                devices@,
                old(spec).linux,
                spec_mounts(*old(spec)),
                names@,
            ),
            plan_outcome(input, None, raw@, decoded, refused@) == plan_of_volumes(
                input,
                volumes.entries(),
                v as int,
                plan@,
            ),
        decreases volumes.entries().len() - v,
    {
        let ghost before = plan@;
        match plan_volume(
            volumes.key_at(v),
            volumes.value_at(v),
            container_name,
            devices,
            &spec.linux,
            existing,
            &plan.mounts,
            names,
        )? {
            Some(parts) => {
                let VolumeParts { storage, mounts, device, block } = parts;
                let ghost added = VolumeView {
                    storage: storage@,
                    mounts: mount_views(mounts@),
                    device: device@,
                    block: block@,
                };
                let mut mounts = mounts;
                plan.storages.push(storage);
                plan.mounts.append(&mut mounts);
                plan.consumed_devices.push(device);
                plan.consumed_oci_devices.push(block);
                assert(plan@ =~= with_volume(before, added));
            },
            None => {},
        }
        v = v + 1;
    }
    Ok(plan)
}

/// Whether `identity` occurs exactly once among `devices`.
pub open spec fn occurs_once(devices: Seq<DeviceView>, identity: DeviceView) -> bool {
    places(devices.len(), stands_at(devices, identity)).len() == 1
}

/// Where `identity` stands among `devices`.
pub open spec fn stands_at(devices: Seq<DeviceView>, identity: DeviceView) -> spec_fn(int) -> bool {
    |i: int| devices[i] == identity
}

/// Whether `identity` stands for exactly one of the OCI devices.
pub open spec fn block_occurs_once(devices: Seq<LinuxDevice>, identity: BlockView) -> bool {
    places(devices.len(), |i: int| is_block(identity, devices[i])).len() == 1
}

/// The devices that no consumed identity stands for.
pub open spec fn unconsumed<I>(devices: Seq<ContainerDevice<I>>, consumed: Seq<DeviceView>) -> Seq<
    ContainerDevice<I>,
> {
    devices.filter(|device: ContainerDevice<I>| !consumed.contains(device.device@))
}

/// Whether a consumed identity stands for an OCI device.
pub open spec fn is_consumed_block(device: LinuxDevice, consumed: Seq<BlockView>) -> bool {
    exists|i: int| 0 <= i < consumed.len() && is_block(#[trigger] consumed[i], device)
}

/// The OCI devices that no consumed identity stands for.
pub open spec fn unconsumed_blocks(devices: Seq<LinuxDevice>, consumed: Seq<BlockView>) -> Seq<
    LinuxDevice,
> {
    devices.filter(|device: LinuxDevice| !is_consumed_block(device, consumed))
}

/// Why a plan cannot be applied to the devices of a container.
pub open spec fn consumption_problem(
    plan: PlanView,
    linux: Option<Linux>,
    devices: Seq<DeviceView>,
) -> Option<PlanError> {
    if exists|c: int|
        0 <= c < plan.consumed_devices.len() && !occurs_once(
            devices,
            #[trigger] plan.consumed_devices[c],
        ) {
        Some(PlanError::DeviceNotConsumedOnce)
    } else {
        match linux {
            None => Some(PlanError::MissingLinux),
            Some(linux) => if exists|c: int|
                0 <= c < plan.consumed_oci_devices.len() && !block_occurs_once(
                    linux_devices(linux),
                    #[trigger] plan.consumed_oci_devices[c],
                ) {
                Some(PlanError::OciDeviceNotConsumedOnce)
            } else {
                None
            },
        }
    }
}

/// Whether `after` is `before` without the OCI devices that `plan` consumes.
pub open spec fn blocks_dropped(before: Spec, after: Spec, plan: PlanView) -> bool {
    &&& after.annotations == before.annotations
    &&& after.mounts == before.mounts
    &&& after.linux is Some
    &&& linux_devices(after.linux->0) == unconsumed_blocks(
        linux_devices(before.linux->0),
        plan.consumed_oci_devices,
    )
    &&& after.linux->0.devices is Some ==> after.linux->0.devices->0@.len() > 0
}

impl ConfidentialVolumePlan {
    fn device_occurs_once<I>(&self, c: usize, devices: &Vec<ContainerDevice<I>>) -> (once: bool)
        requires
            c < self.consumed_devices@.len(),
        ensures
            once == occurs_once(device_views(devices@), self@.consumed_devices[c as int]),
    {
        let consumed = &self.consumed_devices[c];
        let ghost views = device_views(devices@);
        let ghost identity = consumed@;
        let ghost holds = stands_at(views, identity);
        let mut count: usize = 0;
        let mut i: usize = 0;
        while i < devices.len()
            invariant
                i <= devices.len(),
                views == device_views(devices@),
                identity == consumed@,
                holds == stands_at(views, identity),
                count == places(i as nat, holds).len(),
                count <= i,
            decreases devices.len() - i,
        {
            assert(views[i as int] == devices@[i as int].device@);
            if consumed.matches(&devices[i].device) {
                count = count + 1;
            }
            i = i + 1;
        }
        assert(self@.consumed_devices[c as int] == identity);
        count == 1
    }

    fn block_occurs_once(&self, c: usize, devices: &Vec<LinuxDevice>) -> (once: bool)
        requires
            c < self.consumed_oci_devices@.len(),
        ensures
            once == block_occurs_once(devices@, self@.consumed_oci_devices[c as int]),
    {
        let consumed = &self.consumed_oci_devices[c];
        let ghost identity = consumed@;
        let ghost holds = |i: int| is_block(identity, devices@[i]);
        let mut count: usize = 0;
        let mut i: usize = 0;
        while i < devices.len()
            invariant
                i <= devices.len(),
                identity == consumed@,
                holds == (|i: int| is_block(identity, devices@[i])),
                count == places(i as nat, holds).len(),
                count <= i,
            decreases devices.len() - i,
        {
            if consumed.matches(&devices[i]) {
                count = count + 1;
            }
            i = i + 1;
        }
        count == 1
    }

    fn consumes(&self, device: &Device) -> (consumed: bool)
        ensures
            consumed == self@.consumed_devices.contains(device@),
    {
        let mut c: usize = 0;
        while c < self.consumed_devices.len()
            invariant
                c <= self.consumed_devices.len(),
                forall|k: int| 0 <= k < c ==> (#[trigger] self.consumed_devices@[k])@ != device@,
            decreases self.consumed_devices.len() - c,
        {
            if self.consumed_devices[c].matches(device) {
                assert(self@.consumed_devices[c as int] == device@);
                return true;
            }
            c = c + 1;
        }
        assert forall|k: int| 0 <= k < self@.consumed_devices.len() implies
            #[trigger] self@.consumed_devices[k] != device@ by {
            assert(self.consumed_devices@[k]@ != device@);
        }
        false
    }

    fn consumes_block(&self, device: &LinuxDevice) -> (consumed: bool)
        ensures
            consumed == is_consumed_block(*device, self@.consumed_oci_devices),
    {
        let mut c: usize = 0;
        while c < self.consumed_oci_devices.len()
            invariant
                c <= self.consumed_oci_devices.len(),
                forall|k: int|
                    0 <= k < c ==> !is_block((#[trigger] self.consumed_oci_devices@[k])@, *device),
            decreases self.consumed_oci_devices.len() - c,
        {
            if self.consumed_oci_devices[c].matches(device) {
                assert(is_block(self@.consumed_oci_devices[c as int], *device));
                return true;
            }
            c = c + 1;
        }
        assert forall|k: int| 0 <= k < self@.consumed_oci_devices.len() implies !is_block(
            #[trigger] self@.consumed_oci_devices[k],
            *device,
        ) by {
            assert(!is_block(self.consumed_oci_devices@[k]@, *device));
        }
        false
    }

    fn keep_devices<I>(&self, devices: Vec<ContainerDevice<I>>) -> (kept: Vec<ContainerDevice<I>>)
        ensures
            kept@ == unconsumed(devices@, self@.consumed_devices),
    {
        let ghost all = devices@;
        let ghost keep = |device: ContainerDevice<I>|
            !self@.consumed_devices.contains(device.device@);
        let mut devices = devices;
        let mut kept: Vec<ContainerDevice<I>> = Vec::new();
        let ghost mut done: int = 0;
        assert(all.skip(0) =~= all);
        assert(all.take(0).filter(keep) =~= Seq::empty()) by {
            reveal(Seq::filter);
        }
        while devices.len() > 0
            invariant
                0 <= done <= all.len(),
                devices@ == all.skip(done),
                keep == (|device: ContainerDevice<I>|
                    !self@.consumed_devices.contains(device.device@)),
                kept@ == all.take(done).filter(keep),
            decreases devices.len(),
        {
            let device = devices.remove(0);
            assert(device == all[done]);
            assert(devices@ =~= all.skip(done + 1));
            let consumed = self.consumes(&device.device);
            proof {
                reveal(Seq::filter);
                assert(all.take(done + 1).drop_last() =~= all.take(done));
            }
            if !consumed {
                kept.push(device);
            }
            proof {
                done = done + 1;
            }
        }
        assert(all.take(done) =~= all);
        kept
    }

    fn keep_blocks(&self, devices: Vec<LinuxDevice>) -> (kept: Vec<LinuxDevice>)
        ensures
            kept@ == unconsumed_blocks(devices@, self@.consumed_oci_devices),
    {
        let ghost all = devices@;
        let ghost keep = |device: LinuxDevice|
            !is_consumed_block(device, self@.consumed_oci_devices);
        let mut devices = devices;
        let mut kept: Vec<LinuxDevice> = Vec::new();
        let ghost mut done: int = 0;
        assert(all.skip(0) =~= all);
        assert(all.take(0).filter(keep) =~= Seq::empty()) by {
            reveal(Seq::filter);
        }
        while devices.len() > 0
            invariant
                0 <= done <= all.len(),
                devices@ == all.skip(done),
                keep == (|device: LinuxDevice|
                    !is_consumed_block(device, self@.consumed_oci_devices)),
                kept@ == all.take(done).filter(keep),
            decreases devices.len(),
        {
            let device = devices.remove(0);
            assert(device == all[done]);
            assert(devices@ =~= all.skip(done + 1));
            let consumed = self.consumes_block(&device);
            proof {
                reveal(Seq::filter);
                assert(all.take(done + 1).drop_last() =~= all.take(done));
            }
            if !consumed {
                kept.push(device);
            }
            proof {
                done = done + 1;
            }
        }
        assert(all.take(done) =~= all);
        kept
    }

    /// Removes consumed block devices from the agent device list and from the OCI devices.
    pub fn consume_devices<I>(&self, spec: &mut Spec, devices: Vec<ContainerDevice<I>>) -> (result:
        Result<Vec<ContainerDevice<I>>, PlanError>)
        ensures
            self@.consumed_devices.len() == 0 ==> result == Ok::<_, PlanError>(devices)
                && *final(spec) == *old(spec),
            self@.consumed_devices.len() > 0 ==> match consumption_problem(
                self@,
                old(spec).linux,
                device_views(devices@),
            ) {
                Some(problem) => result == Err::<Vec<ContainerDevice<I>>, _>(problem)
                    && *final(spec) == *old(spec),
                None => {
                    &&& result matches Ok(remaining)
                    &&& remaining@ == unconsumed(devices@, self@.consumed_devices)
                    &&& blocks_dropped(*old(spec), *final(spec), self@)
                },
            },
    {
        if self.consumed_devices.len() == 0 {
            return Ok(devices);
        }
        let mut c: usize = 0;
        while c < self.consumed_devices.len()
            invariant
                *spec == *old(spec),
                c <= self.consumed_devices.len(),
                self@.consumed_devices.len() == self.consumed_devices@.len(),
                self@.consumed_devices.len() > 0,
                forall|k: int|
                    0 <= k < c ==> occurs_once(
                        device_views(devices@),
                        #[trigger] self@.consumed_devices[k],
                    ),
            decreases self.consumed_devices.len() - c,
        {
            if !self.device_occurs_once(c, &devices) {
                return Err(PlanError::DeviceNotConsumedOnce);
            }
            c = c + 1;
        }
        let linux = match spec.linux.take() {
            Some(linux) => linux,
            None => {
                return Err(PlanError::MissingLinux);
            },
        };
        let none: Vec<LinuxDevice> = Vec::new();
        let oci_devices = match &linux.devices {
            Some(oci_devices) => oci_devices,
            None => &none,
        };
        assert(oci_devices@ =~= linux_devices(linux));
        let mut consumable = true;
        let mut b: usize = 0;
        while b < self.consumed_oci_devices.len() && consumable
            invariant
                b <= self.consumed_oci_devices.len(),
                self@.consumed_oci_devices.len() == self.consumed_oci_devices@.len(),
                consumable ==> forall|k: int|
                    0 <= k < b ==> block_occurs_once(
                        oci_devices@,
                        #[trigger] self@.consumed_oci_devices[k],
                    ),
                !consumable ==> exists|k: int|
                    0 <= k < self@.consumed_oci_devices.len() && !block_occurs_once(
                        oci_devices@,
                        #[trigger] self@.consumed_oci_devices[k],
                    ),
            decreases
                self.consumed_oci_devices.len() - b,
                if consumable {
                    1int
                } else {
                    0int
                },
        {
            if self.block_occurs_once(b, oci_devices) {
                b = b + 1;
            } else {
                consumable = false;
            }
        }
        if !consumable {
            spec.linux = Some(linux);
            return Err(PlanError::OciDeviceNotConsumedOnce);
        }
        let remaining = self.keep_devices(devices);
        let Linux { devices: oci_devices } = linux;
        let oci_devices = match oci_devices {
            Some(oci_devices) => oci_devices,
            None => Vec::new(),
        };
        let kept = self.keep_blocks(oci_devices);
        if kept.len() == 0 {
            assert(kept@ =~= Seq::empty());
            spec.linux = Some(Linux { devices: None });
        } else {
            spec.linux = Some(Linux { devices: Some(kept) });
        }
        Ok(remaining)
    }
}

/// What holds of every plan: each volume has one storage request, one consumed device and one
/// consumed OCI device; each consumed device is there exactly once; each request is mounted where
/// its manifest URI says; each mount shows a requested volume at a destination that was free.
pub open spec fn is_sound_plan(input: PlanInput, plan: PlanView) -> bool {
    &&& plan.consumed_devices.len() == plan.storages.len()
    &&& plan.consumed_oci_devices.len() == plan.storages.len()
    &&& plan.storages.len() > 0 ==> input.linux is Some
    &&& forall|k: int|
        0 <= k < plan.storages.len() ==> is_sound_volume(
            input,
            #[trigger] plan.storages[k],
            plan.consumed_devices[k],
            plan.consumed_oci_devices[k],
        )
    &&& forall|m: int|
        0 <= m < plan.mounts.len() ==> is_sound_mount(input, plan, #[trigger] plan.mounts[m])
}

/// What holds of the parts of one planned volume.
pub open spec fn is_sound_volume(
    input: PlanInput,
    storage: StorageView,
    device: DeviceView,
    block: BlockView,
) -> bool {
    &&& occurs_once(input.devices, device)
    &&& is_plain_block_device(device)
    &&& !is_aliased(input.devices, device)
    &&& block_occurs_once(input.linux->0, block)
    &&& !is_aliased_block(input.linux->0, block)
    &&& storage.driver == device.field_type
    &&& storage.source == device.id
    &&& storage.confidential_storage is Some
    &&& input.names.dom().contains(storage.confidential_storage->0.manifest_uri)
    &&& input.names[storage.confidential_storage->0.manifest_uri] is Ok
    &&& storage.mount_point == guest_mount_point(
        input.names[storage.confidential_storage->0.manifest_uri]->Ok_0@,
    )
}

/// Whether a mount shows a requested volume at a destination that was free.
pub open spec fn is_sound_mount(input: PlanInput, plan: PlanView, mount: MountView) -> bool {
    &&& !is_mounted_at(input.existing, mount.destination)
    &&& exists|k: int|
        0 <= k < plan.storages.len() && mount == volume_mount(
            mount.destination,
            (#[trigger] plan.storages[k]).mount_point,
        )
}

proof fn lemma_no_collision(
    list: Seq<String>,
    d: int,
    existing: Seq<MountView>,
    planned: Seq<MountView>,
)
    requires
        first_collision(list, d, existing, planned) is None,
    ensures
        forall|e: int|
            d <= e < list.len() ==> !is_mounted_at(existing, (#[trigger] list[e])@)
                && !is_mounted_at(planned, list[e]@),
    decreases list.len() - d,
{
    if d < list.len() {
        lemma_no_collision(list, d + 1, existing, planned);
    }
}

proof fn lemma_volume_is_sound(
    input: PlanInput,
    name: String,
    declaration: ConfidentialVolumeDeclaration,
    planned: Seq<MountView>,
    volume: VolumeView,
)
    requires
        plan_of_volume(input, name, declaration, planned) == Ok::<_, PlanError>(Some(volume)),
    ensures
        input.linux is Some,
        is_sound_volume(input, volume.storage, volume.device, volume.block),
        forall|i: int|
            0 <= i < input.devices.len() && (#[trigger] input.devices[i]).container_path
                == declaration.device_path@ ==> input.devices[i] == volume.device,
        forall|m: int|
            0 <= m < volume.mounts.len() ==> !is_mounted_at(
                input.existing,
                (#[trigger] volume.mounts[m]).destination,
            ) && volume.mounts[m] == volume_mount(
                volume.mounts[m].destination,
                volume.storage.mount_point,
            ),
{
    let path = declaration.device_path@;
    let devices = input.devices;
    let holds = |i: int| devices[i].container_path == path;
    let found = devices_at(devices, path);
    assert(found == places(devices.len(), holds));
    lemma_places(devices.len(), holds);
    let at = found[0];
    assert(holds(at));
    assert forall|i: int| 0 <= i < devices.len() && (#[trigger] devices[i]).container_path == path implies
        devices[i] == volume.device by {
        assert(holds(i));
        lemma_only_place(devices.len(), holds, at, i);
    }
    let same = stands_at(devices, volume.device);
    assert forall|j: int| 0 <= j < devices.len() && #[trigger] same(j) implies j == at by {
        assert(holds(j));
        lemma_only_place(devices.len(), holds, at, j);
    }
    assert(same(at));
    lemma_single_place(devices.len(), same, at);
    let oci_devices = input.linux->0;
    let oci_holds = |i: int| same_path(oci_devices[i].path@, path);
    let found_oci = oci_devices_at(oci_devices, path);
    assert(found_oci == places(oci_devices.len(), oci_holds));
    lemma_places(oci_devices.len(), oci_holds);
    let oci_at = found_oci[0];
    assert(oci_holds(oci_at));
    let block = volume.block;
    let oci_same = |i: int| is_block(block, oci_devices[i]);
    assert forall|j: int| 0 <= j < oci_devices.len() && #[trigger] oci_same(j) implies j == oci_at by {
        assert(oci_holds(j));
        lemma_only_place(oci_devices.len(), oci_holds, oci_at, j);
    }
    assert(oci_same(oci_at));
    lemma_single_place(oci_devices.len(), oci_same, oci_at);
    assert(block_occurs_once(oci_devices, block));
    lemma_no_collision(declaration.mounts.0@[input.container@]@, 0, input.existing, planned);
}

proof fn lemma_plan_stays_sound(
    input: PlanInput,
    volumes: Seq<(String, ConfidentialVolumeDeclaration)>,
    v: int,
    plan: PlanView,
    complete: PlanView,
)
    requires
        0 <= v <= volumes.len(),
        is_sound_plan(input, plan),
        plan_of_volumes(input, volumes, v, plan) == Ok::<_, PlanError>(complete),
    ensures
        is_sound_plan(input, complete),
        forall|k: int|
            0 <= k < plan.consumed_devices.len() ==> complete.consumed_devices.contains(
                #[trigger] plan.consumed_devices[k],
            ),
        forall|u: int, i: int|
            v <= u < volumes.len() && 0 <= i < input.devices.len() && (
            #[trigger] input.devices[i]).container_path == (
            #[trigger] volumes[u]).1.device_path@ ==> complete.consumed_devices.contains(
                input.devices[i],
            ),
    decreases volumes.len() - v,
{
    if v >= volumes.len() {
    } else {
        let name = volumes[v].0;
        let declaration = volumes[v].1;
        match plan_of_volume(input, name, declaration, plan.mounts) {
            Err(_) => {},
            Ok(None) => {
                lemma_plan_stays_sound(input, volumes, v + 1, plan, complete);
                let path = declaration.device_path@;
                let devices = input.devices;
                let holds = |i: int| devices[i].container_path == path;
                assert(devices_at(devices, path) == places(devices.len(), holds));
                lemma_places(devices.len(), holds);
                assert forall|i: int| 0 <= i < devices.len() implies (
                #[trigger] devices[i]).container_path != path by {
                    if devices[i].container_path == path {
                        assert(holds(i));
                    }
                }
            },
            Ok(Some(volume)) => {
                lemma_volume_is_sound(input, name, declaration, plan.mounts, volume);
                let next = with_volume(plan, volume);
                assert forall|k: int| 0 <= k < next.storages.len() implies is_sound_volume(
                    input,
                    #[trigger] next.storages[k],
                    next.consumed_devices[k],
                    next.consumed_oci_devices[k],
                ) by {
                    if k < plan.storages.len() {
                        assert(next.storages[k] == plan.storages[k]);
                    }
                }
                assert forall|m: int| 0 <= m < next.mounts.len() implies is_sound_mount(
                    input,
                    next,
                    #[trigger] next.mounts[m],
                ) by {
                    let mount = next.mounts[m];
                    if m < plan.mounts.len() {
                        assert(is_sound_mount(input, plan, plan.mounts[m]));
                        let k = choose|k: int|
                            0 <= k < plan.storages.len() && mount == volume_mount(
                                mount.destination,
                                (#[trigger] plan.storages[k]).mount_point,
                            );
                        assert(next.storages[k] == plan.storages[k]);
                    } else {
                        assert(mount == volume.mounts[m - plan.mounts.len()]);
                        assert(next.storages[plan.storages.len() as int] == volume.storage);
                    }
                }
                lemma_plan_stays_sound(input, volumes, v + 1, next, complete);
                assert forall|k: int| 0 <= k < plan.consumed_devices.len() implies
                    complete.consumed_devices.contains(#[trigger] plan.consumed_devices[k]) by {
                    assert(next.consumed_devices[k] == plan.consumed_devices[k]);
                }
                assert(next.consumed_devices[plan.consumed_devices.len() as int] == volume.device);
            },
        }
    }
}

/// Every plan is sound.
pub proof fn law_plans_are_sound(
    input: PlanInput,
    volumes: Seq<(String, ConfidentialVolumeDeclaration)>,
    plan: PlanView,
)
    requires
        plan_of_volumes(input, volumes, 0, empty_plan()) == Ok::<_, PlanError>(plan),
    ensures
        is_sound_plan(input, plan),
{
    lemma_plan_stays_sound(input, volumes, 0, empty_plan(), plan);
}

/// A plan that consumes something can be applied to the devices that it was built from.
pub proof fn law_plan_is_consumable(
    input: PlanInput,
    volumes: Seq<(String, ConfidentialVolumeDeclaration)>,
    plan: PlanView,
    linux: Linux,
)
    requires
        plan_of_volumes(input, volumes, 0, empty_plan()) == Ok::<_, PlanError>(plan),
        input.linux == Some(linux_devices(linux)),
    ensures
        consumption_problem(plan, Some(linux), input.devices) is None,
{
    lemma_plan_stays_sound(input, volumes, 0, empty_plan(), plan);
    assert forall|c: int| 0 <= c < plan.consumed_devices.len() implies occurs_once(
        input.devices,
        #[trigger] plan.consumed_devices[c],
    ) by {
        assert(is_sound_volume(
            input,
            plan.storages[c],
            plan.consumed_devices[c],
            plan.consumed_oci_devices[c],
        ));
    }
    assert forall|c: int| 0 <= c < plan.consumed_oci_devices.len() implies block_occurs_once(
        linux_devices(linux),
        #[trigger] plan.consumed_oci_devices[c],
    ) by {
        assert(is_sound_volume(
            input,
            plan.storages[c],
            plan.consumed_devices[c],
            plan.consumed_oci_devices[c],
        ));
    }
}

/// Once a plan is applied, the container sees no raw device at the path of a declared volume.
pub proof fn law_no_raw_device_survives<I>(
    input: PlanInput,
    volumes: Seq<(String, ConfidentialVolumeDeclaration)>,
    plan: PlanView,
    devices: Seq<ContainerDevice<I>>,
    v: int,
    r: int,
)
    requires
        plan_of_volumes(input, volumes, 0, empty_plan()) == Ok::<_, PlanError>(plan),
        input.devices == device_views(devices),
        0 <= v < volumes.len(),
        0 <= r < unconsumed(devices, plan.consumed_devices).len(),
    ensures
        unconsumed(devices, plan.consumed_devices)[r].device@.container_path
            != volumes[v].1.device_path@,
{
    lemma_plan_stays_sound(input, volumes, 0, empty_plan(), plan);
    let keep = |device: ContainerDevice<I>| !plan.consumed_devices.contains(device.device@);
    let rest = unconsumed(devices, plan.consumed_devices);
    assert(rest == devices.filter(keep));
    devices.lemma_filter_pred(keep, r);
    devices.lemma_filter_contains_rev(keep, rest[r]);
    let i = choose|i: int| 0 <= i < devices.len() && devices[i] == rest[r];
    assert(input.devices[i] == rest[r].device@);
    if rest[r].device@.container_path == volumes[v].1.device_path@ {
        assert(plan.consumed_devices.contains(input.devices[i]));
    }
}

/// Once a plan is applied, no block device with the number of a consumed one is left to the
/// container.
pub proof fn law_no_consumed_block_survives(
    input: PlanInput,
    volumes: Seq<(String, ConfidentialVolumeDeclaration)>,
    plan: PlanView,
    oci_devices: Seq<LinuxDevice>,
    k: int,
    r: int,
)
    requires
        plan_of_volumes(input, volumes, 0, empty_plan()) == Ok::<_, PlanError>(plan),
        input.linux == Some(oci_devices),
        0 <= k < plan.consumed_oci_devices.len(),
        0 <= r < unconsumed_blocks(oci_devices, plan.consumed_oci_devices).len(),
    ensures
        !has_number(
            plan.consumed_oci_devices[k],
            unconsumed_blocks(oci_devices, plan.consumed_oci_devices)[r],
        ),
{
    lemma_plan_stays_sound(input, volumes, 0, empty_plan(), plan);
    let block = plan.consumed_oci_devices[k];
    assert(is_sound_volume(input, plan.storages[k], plan.consumed_devices[k], block));
    let keep = |device: LinuxDevice| !is_consumed_block(device, plan.consumed_oci_devices);
    let rest = unconsumed_blocks(oci_devices, plan.consumed_oci_devices);
    assert(rest == oci_devices.filter(keep));
    oci_devices.lemma_filter_pred(keep, r);
    oci_devices.lemma_filter_contains_rev(keep, rest[r]);
    let i = choose|i: int| 0 <= i < oci_devices.len() && oci_devices[i] == rest[r];
    if has_number(block, rest[r]) {
        if same_path(oci_devices[i].path@, block.path) {
            assert(is_block(block, rest[r]));
        } else {
            assert(is_aliased_block(oci_devices, block));
        }
    }
}

/// Plans that agree on the mount names request the same guest path for the same manifest URI, so
/// that containers of one pod can share one activation.
pub proof fn law_shared_volume_has_one_mount_point(
    left: PlanInput,
    left_volumes: Seq<(String, ConfidentialVolumeDeclaration)>,
    left_plan: PlanView,
    right: PlanInput,
    right_volumes: Seq<(String, ConfidentialVolumeDeclaration)>,
    right_plan: PlanView,
    l: int,
    r: int,
)
    requires
        plan_of_volumes(left, left_volumes, 0, empty_plan()) == Ok::<_, PlanError>(left_plan),
        plan_of_volumes(right, right_volumes, 0, empty_plan()) == Ok::<_, PlanError>(right_plan),
        left.names == right.names,
        0 <= l < left_plan.storages.len(),
        0 <= r < right_plan.storages.len(),
        left_plan.storages[l].confidential_storage == right_plan.storages[r].confidential_storage,
    ensures
        left_plan.storages[l].mount_point == right_plan.storages[r].mount_point,
{
    law_plans_are_sound(left, left_volumes, left_plan);
    law_plans_are_sound(right, right_volumes, right_plan);
    assert(is_sound_volume(
        left,
        left_plan.storages[l],
        left_plan.consumed_devices[l],
        left_plan.consumed_oci_devices[l],
    ));
    assert(is_sound_volume(
        right,
        right_plan.storages[r],
        right_plan.consumed_devices[r],
        right_plan.consumed_oci_devices[r],
    ));
}

/// Whether the device at a place is the only one that a container sees at a path.
pub open spec fn is_only_device_at<I>(
    devices: Seq<ContainerDevice<I>>,
    path: Seq<char>,
    i: int,
) -> bool {
    &&& 0 <= i < devices.len()
    &&& devices[i].device.container_path@ == path
    &&& forall|j: int|
        0 <= j < devices.len() && (#[trigger] devices[j]).device.container_path@ == path ==> j == i
}

/// Whether the device node at a place is the only one at a path.
pub open spec fn is_only_node_at(nodes: Seq<LinuxDevice>, path: Seq<char>, i: int) -> bool {
    &&& 0 <= i < nodes.len()
    &&& same_path(nodes[i].path@, path)
    &&& forall|j: int|
        0 <= j < nodes.len() && same_path((#[trigger] nodes[j]).path@, path) ==> j == i
}

/// Whether a device can carry a confidential volume: it has an address on a PCI or SCSI bus, has no
/// options, and is not itself what a confidential volume is mapped to.
pub open spec fn can_carry_a_volume(device: Device) -> bool {
    &&& device.id@.len() > 0
    &&& device.field_type@ == "blk"@ || device.field_type@ == "scsi"@
    &&& !has_prefix(device.vm_path@, "/dev/mapper/coco-pv-"@)
    &&& device.options@.len() == 0
}

/// Whether two devices have the same address on the same bus, or the same guest path.
pub open spec fn have_one_source(left: Device, right: Device) -> bool {
    ||| left.field_type@ == right.field_type@ && left.id@ == right.id@
    ||| left.vm_path@.len() > 0 && left.vm_path@ == right.vm_path@
}

/// The device nodes of the Linux part of a specification.
pub open spec fn nodes_of(linux: Option<Linux>) -> Seq<LinuxDevice> {
    if linux is Some && linux->0.devices is Some {
        linux->0.devices->0@
    } else {
        Seq::empty()
    }
}

/// The mounts that a specification has.
pub open spec fn mounts_in(spec: Spec) -> Seq<Mount> {
    if spec.mounts is Some {
        spec.mounts->0@
    } else {
        Seq::empty()
    }
}

/// Whether a volume is declared for a container.
pub open spec fn is_declared_for(
    declaration: ConfidentialVolumeDeclaration,
    container: Seq<char>,
) -> bool {
    declaration.mounts.0@.dom().contains(container)
}

/// The destinations of a volume in a container.
pub open spec fn destinations_in(
    declaration: ConfidentialVolumeDeclaration,
    container: Seq<char>,
) -> Seq<String> {
    declaration.mounts.0@[container]@
}

/// Whether the raw device of a volume is there, alone at its path, fit to carry the volume, and
/// reachable in no other way.
pub open spec fn device_is_fit<I>(
    devices: Seq<ContainerDevice<I>>,
    declaration: ConfidentialVolumeDeclaration,
) -> bool {
    exists|i: int| #[trigger]
        is_only_device_at(devices, declaration.device_path@, i) && can_carry_a_volume(
            devices[i].device,
        ) && forall|j: int|
            0 <= j < devices.len() && (#[trigger] devices[j]).device.container_path@
                != declaration.device_path@ ==> !have_one_source(
                devices[i].device,
                devices[j].device,
            )
}

/// Whether the block device node of a volume is there, alone at its path, and under no other path.
pub open spec fn node_is_fit(
    nodes: Seq<LinuxDevice>,
    declaration: ConfidentialVolumeDeclaration,
) -> bool {
    exists|i: int| #[trigger]
        is_only_node_at(nodes, declaration.device_path@, i) && nodes[i].typ is B && forall|j: int|
            0 <= j < nodes.len() && !same_path((#[trigger] nodes[j]).path@, nodes[i].path@) ==> !(
            nodes[j].typ is B && nodes[j].major == nodes[i].major && nodes[j].minor
                == nodes[i].minor)
}

/// Whether the destinations of a volume in a container are free: no mount has them, and no volume
/// before it in the order of names does.
pub open spec fn destinations_are_free(
    existing: Seq<Mount>,
    container: Seq<char>,
    volumes: Seq<(String, ConfidentialVolumeDeclaration)>,
    v: int,
) -> bool {
    let list = destinations_in(volumes[v].1, container);
    &&& forall|d: int, m: int|
        0 <= d < list.len() && 0 <= m < existing.len() ==> !same_path(
            (#[trigger] existing[m]).destination@,
            (#[trigger] list[d])@,
        )
    &&& forall|d: int, u: int, e: int|
        0 <= d < list.len() && 0 <= u < v && is_declared_for(volumes[u].1, container) && 0 <= e
            < destinations_in(volumes[u].1, container).len() ==> !same_path(
            (#[trigger] destinations_in(volumes[u].1, container)[e])@,
            (#[trigger] list[d])@,
        )
}

/// Whether a destination is taken: by a mount, or by a volume before another in the order of names.
pub open spec fn destination_is_taken(
    existing: Seq<Mount>,
    container: Seq<char>,
    volumes: Seq<(String, ConfidentialVolumeDeclaration)>,
    v: int,
    destination: Seq<char>,
) -> bool {
    ||| exists|m: int|
        0 <= m < existing.len() && same_path((#[trigger] existing[m]).destination@, destination)
    ||| exists|u: int, e: int|
        0 <= u < v && is_declared_for(volumes[u].1, container) && 0 <= e < destinations_in(
            volumes[u].1,
            container,
        ).len() && same_path(
            (#[trigger] destinations_in(volumes[u].1, container)[e])@,
            destination,
        )
}

/// Whether a volume can be planned for a container, after those before it. One that is not declared
/// for the container must not be seen by it. One that is must have a fit device, a fit device node,
/// free destinations, and a manifest that has a mount name.
pub open spec fn can_be_planned<I>(
    devices: Seq<ContainerDevice<I>>,
    linux: Option<Linux>,
    existing: Seq<Mount>,
    names: Map<Seq<char>, Result<String, String>>,
    container: Seq<char>,
    volumes: Seq<(String, ConfidentialVolumeDeclaration)>,
    v: int,
) -> bool {
    let declaration = volumes[v].1;
    if is_declared_for(declaration, container) {
        &&& device_is_fit(devices, declaration)
        &&& linux is Some
        &&& node_is_fit(nodes_of(linux), declaration)
        &&& destinations_are_free(existing, container, volumes, v)
        &&& names.dom().contains(declaration.manifest_uri@)
        &&& names[declaration.manifest_uri@] is Ok
    } else {
        forall|j: int|
            0 <= j < devices.len() ==> (#[trigger] devices[j]).device.container_path@
                != declaration.device_path@
    }
}

/// The guest path of a volume: that of its mount name below the directory for the plaintext of
/// confidential volumes.
pub open spec fn guest_path_of(
    names: Map<Seq<char>, Result<String, String>>,
    declaration: ConfidentialVolumeDeclaration,
) -> Seq<char> {
    "/run/kata-containers/shared/containers/confidential"@ + "/"@
        + names[declaration.manifest_uri@]->Ok_0@
}

/// The volumes that are declared for a container, in the order of their names.
pub open spec fn volumes_for(
    volumes: Seq<(String, ConfidentialVolumeDeclaration)>,
    container: Seq<char>,
) -> Seq<(String, ConfidentialVolumeDeclaration)>
    decreases volumes.len(),
{
    if volumes.len() == 0 {
        Seq::empty()
    } else if is_declared_for(volumes.last().1, container) {
        volumes_for(volumes.drop_last(), container).push(volumes.last())
    } else {
        volumes_for(volumes.drop_last(), container)
    }
}

/// What a container is shown of volumes that are declared for it: at each destination, one volume
/// after the other, the guest path of the volume.
pub open spec fn shown_to(
    planned: Seq<(String, ConfidentialVolumeDeclaration)>,
    names: Map<Seq<char>, Result<String, String>>,
    container: Seq<char>,
) -> Seq<(Seq<char>, Seq<char>)>
    decreases planned.len(),
{
    if planned.len() == 0 {
        Seq::empty()
    } else {
        let declaration = planned.last().1;
        let list = destinations_in(declaration, container);
        shown_to(planned.drop_last(), names, container) + Seq::new(
            list.len(),
            |d: int| (list[d]@, guest_path_of(names, declaration)),
        )
    }
}

proof fn lemma_devices_at<I>(devices: Seq<ContainerDevice<I>>, path: Seq<char>)
    ensures
        ({
            let found = devices_at(device_views(devices), path);
            &&& found.len() == 0 <==> forall|j: int|
                0 <= j < devices.len() ==> (#[trigger] devices[j]).device.container_path@ != path
            &&& found.len() == 1 ==> is_only_device_at(devices, path, found[0])
            &&& forall|i: int| #[trigger]
                is_only_device_at(devices, path, i) ==> found.len() == 1 && found[0] == i
        }),
{
    let views = device_views(devices);
    let holds = |i: int| views[i].container_path == path;
    let found = devices_at(views, path);
    assert(found == places(views.len(), holds));
    lemma_places(views.len(), holds);
    assert forall|j: int| 0 <= j < devices.len() implies (holds(j) <==> (
    #[trigger] devices[j]).device.container_path@ == path) by {}
    if found.len() == 0 {
        assert forall|j: int| 0 <= j < devices.len() implies (
        #[trigger] devices[j]).device.container_path@ != path by {
            if devices[j].device.container_path@ == path {
                assert(holds(j));
                assert(found.contains(j));
            }
        }
    } else {
        assert(holds(found[0]));
        assert(devices[found[0]].device.container_path@ == path);
    }
    if found.len() == 1 {
        assert forall|j: int|
            0 <= j < devices.len() && (#[trigger] devices[j]).device.container_path@
                == path implies j == found[0] by {
            assert(holds(j) && holds(found[0]));
            lemma_only_place(views.len(), holds, j, found[0]);
        }
    }
    assert forall|i: int| #[trigger] is_only_device_at(devices, path, i) implies found.len() == 1
        && found[0] == i by {
        assert(holds(i));
        assert forall|j: int| 0 <= j < views.len() && #[trigger] holds(j) implies j == i by {
            assert(devices[j].device.container_path@ == path);
        }
        lemma_single_place(views.len(), holds, i);
    }
}

proof fn lemma_nodes_at(nodes: Seq<LinuxDevice>, path: Seq<char>)
    ensures
        ({
            let found = oci_devices_at(nodes, path);
            &&& found.len() == 1 ==> is_only_node_at(nodes, path, found[0])
            &&& forall|i: int| #[trigger]
                is_only_node_at(nodes, path, i) ==> found.len() == 1 && found[0] == i
        }),
{
    let holds = |i: int| same_path(nodes[i].path@, path);
    let found = oci_devices_at(nodes, path);
    assert(found == places(nodes.len(), holds));
    lemma_places(nodes.len(), holds);
    if found.len() == 1 {
        assert(holds(found[0]));
        assert forall|j: int|
            0 <= j < nodes.len() && same_path((#[trigger] nodes[j]).path@, path) implies j
            == found[0] by {
            assert(holds(j) && holds(found[0]));
            lemma_only_place(nodes.len(), holds, j, found[0]);
        }
    }
    assert forall|i: int| #[trigger] is_only_node_at(nodes, path, i) implies found.len() == 1
        && found[0] == i by {
        assert(holds(i));
        assert forall|j: int| 0 <= j < nodes.len() && #[trigger] holds(j) implies j == i by {
            assert(same_path(nodes[j].path@, path));
        }
        lemma_single_place(nodes.len(), holds, i);
    }
}

proof fn lemma_fit_device<I>(
    devices: Seq<ContainerDevice<I>>,
    declaration: ConfidentialVolumeDeclaration,
)
    ensures
        ({
            let views = device_views(devices);
            let found = devices_at(views, declaration.device_path@);
            device_is_fit(devices, declaration) <==> found.len() == 1 && is_plain_block_device(
                views[found[0]],
            ) && !is_aliased(views, views[found[0]])
        }),
{
    let views = device_views(devices);
    let path = declaration.device_path@;
    let found = devices_at(views, path);
    lemma_devices_at(devices, path);
    assert forall|j: int| 0 <= j < devices.len() implies views[j] == (
    #[trigger] devices[j]).device@ by {}
    if device_is_fit(devices, declaration) {
        let i = choose|i: int| #[trigger]
            is_only_device_at(devices, path, i) && can_carry_a_volume(devices[i].device) && forall|
                j: int,
            |
                0 <= j < devices.len() && (#[trigger] devices[j]).device.container_path@ != path
                    ==> !have_one_source(devices[i].device, devices[j].device);
        assert(found[0] == i);
        assert(views[i].options.len() == 0);
        assert forall|j: int| 0 <= j < views.len() implies (#[trigger] views[j]).container_path
            == views[i].container_path || !same_device_source(views[i], views[j]) by {
            if views[j].container_path != views[i].container_path {
                assert(devices[j].device.container_path@ != path);
            }
        }
    }
    if found.len() == 1 && is_plain_block_device(views[found[0]]) && !is_aliased(
        views,
        views[found[0]],
    ) {
        let i = found[0];
        assert(views[i].options.len() == devices[i].device.options@.len());
        assert forall|j: int|
            0 <= j < devices.len() && (#[trigger] devices[j]).device.container_path@
                != path implies !have_one_source(devices[i].device, devices[j].device) by {
            assert(views[j].container_path != views[i].container_path);
        }
        assert(is_only_device_at(devices, path, i));
    }
}

proof fn lemma_fit_node(nodes: Seq<LinuxDevice>, declaration: ConfidentialVolumeDeclaration)
    ensures
        ({
            let found = oci_devices_at(nodes, declaration.device_path@);
            let block = BlockView {
                path: nodes[found[0]].path@,
                major: nodes[found[0]].major,
                minor: nodes[found[0]].minor,
            };
            node_is_fit(nodes, declaration) <==> found.len() == 1 && nodes[found[0]].typ
                == LinuxDeviceType::B && !is_aliased_block(nodes, block)
        }),
{
    let path = declaration.device_path@;
    let found = oci_devices_at(nodes, path);
    lemma_nodes_at(nodes, path);
    let block = BlockView {
        path: nodes[found[0]].path@,
        major: nodes[found[0]].major,
        minor: nodes[found[0]].minor,
    };
    if node_is_fit(nodes, declaration) {
        let i = choose|i: int| #[trigger]
            is_only_node_at(nodes, path, i) && nodes[i].typ is B && forall|j: int|
                0 <= j < nodes.len() && !same_path((#[trigger] nodes[j]).path@, nodes[i].path@)
                    ==> !(nodes[j].typ is B && nodes[j].major == nodes[i].major && nodes[j].minor
                    == nodes[i].minor);
        assert(found[0] == i);
    }
    if found.len() == 1 && nodes[found[0]].typ == LinuxDeviceType::B && !is_aliased_block(
        nodes,
        block,
    ) {
        assert(is_only_node_at(nodes, path, found[0]));
        assert forall|j: int|
            0 <= j < nodes.len() && !same_path(
                (#[trigger] nodes[j]).path@,
                nodes[found[0]].path@,
            ) implies !(nodes[j].typ is B && nodes[j].major == nodes[found[0]].major
            && nodes[j].minor == nodes[found[0]].minor) by {
            assert(!has_number(block, nodes[j]));
        }
    }
}

/// The mounts that volumes which are declared for a container add to its plan.
spec fn planned_mounts(
    planned: Seq<(String, ConfidentialVolumeDeclaration)>,
    names: Map<Seq<char>, Result<String, String>>,
    container: Seq<char>,
) -> Seq<MountView> {
    let shown = shown_to(planned, names, container);
    Seq::new(shown.len(), |m: int| volume_mount(shown[m].0, shown[m].1))
}

proof fn lemma_shown(
    planned: Seq<(String, ConfidentialVolumeDeclaration)>,
    names: Map<Seq<char>, Result<String, String>>,
    container: Seq<char>,
    path: Seq<char>,
)
    ensures
        is_mounted_at(planned_mounts(planned, names, container), path) <==> exists|k: int, e: int|
            0 <= k < planned.len() && 0 <= e < destinations_in(planned[k].1, container).len()
                && same_path(
                (#[trigger] destinations_in(planned[k].1, container)[e])@,
                path,
            ),
    decreases planned.len(),
{
    let mounts = planned_mounts(planned, names, container);
    if planned.len() > 0 {
        let before = planned.drop_last();
        let declaration = planned.last().1;
        let list = destinations_in(declaration, container);
        let shown = shown_to(before, names, container);
        lemma_shown(before, names, container, path);
        let old_mounts = planned_mounts(before, names, container);
        assert forall|m: int| 0 <= m < old_mounts.len() implies #[trigger] mounts[m]
            == old_mounts[m] by {}
        assert forall|d: int| 0 <= d < list.len() implies mounts[shown.len() + d].destination == (
        #[trigger] list[d])@ by {}
        if is_mounted_at(mounts, path) {
            let m = choose|m: int|
                0 <= m < mounts.len() && same_path((#[trigger] mounts[m]).destination, path);
            if m < shown.len() {
                assert(same_path(old_mounts[m].destination, path));
                let (k, e) = choose|k: int, e: int|
                    0 <= k < before.len() && 0 <= e < destinations_in(
                        before[k].1,
                        container,
                    ).len() && same_path(
                        (#[trigger] destinations_in(before[k].1, container)[e])@,
                        path,
                    );
                assert(same_path(destinations_in(planned[k].1, container)[e]@, path));
            } else {
                let d = m - shown.len();
                assert(mounts[shown.len() + d].destination == list[d]@);
                assert(same_path(
                    destinations_in(planned[planned.len() - 1].1, container)[d]@,
                    path,
                ));
            }
        }
        if exists|k: int, e: int|
            0 <= k < planned.len() && 0 <= e < destinations_in(planned[k].1, container).len()
                && same_path((#[trigger] destinations_in(planned[k].1, container)[e])@, path) {
            let (k, e) = choose|k: int, e: int|
                0 <= k < planned.len() && 0 <= e < destinations_in(planned[k].1, container).len()
                    && same_path(
                    (#[trigger] destinations_in(planned[k].1, container)[e])@,
                    path,
                );
            if k < before.len() {
                assert(same_path(destinations_in(before[k].1, container)[e]@, path));
                let m = choose|m: int|
                    0 <= m < old_mounts.len() && same_path(
                        (#[trigger] old_mounts[m]).destination,
                        path,
                    );
                assert(same_path(mounts[m].destination, path));
            } else {
                assert(mounts[shown.len() + e].destination == list[e]@);
                assert(same_path(mounts[shown.len() + e].destination, path));
            }
        }
    }
}

proof fn lemma_volumes_for(
    volumes: Seq<(String, ConfidentialVolumeDeclaration)>,
    container: Seq<char>,
)
    ensures
        forall|k: int|
            0 <= k < volumes_for(volumes, container).len() ==> exists|u: int|
                0 <= u < volumes.len() && is_declared_for((#[trigger] volumes[u]).1, container)
                    && volumes[u] == #[trigger] volumes_for(volumes, container)[k],
        forall|u: int|
            0 <= u < volumes.len() && is_declared_for((#[trigger] volumes[u]).1, container)
                ==> volumes_for(volumes, container).contains(volumes[u]),
    decreases volumes.len(),
{
    let planned = volumes_for(volumes, container);
    if volumes.len() > 0 {
        let before = volumes.drop_last();
        let earlier = volumes_for(before, container);
        lemma_volumes_for(before, container);
        assert forall|k: int| 0 <= k < planned.len() implies exists|u: int|
            0 <= u < volumes.len() && is_declared_for((#[trigger] volumes[u]).1, container)
                && volumes[u] == #[trigger] planned[k] by {
            if k < earlier.len() {
                assert(planned[k] == earlier[k]);
                let u = choose|u: int|
                    0 <= u < before.len() && is_declared_for((#[trigger] before[u]).1, container)
                        && before[u] == earlier[k];
                assert(volumes[u] == planned[k]);
            } else {
                assert(volumes[volumes.len() - 1] == planned[k]);
            }
        }
        assert forall|u: int|
            0 <= u < volumes.len() && is_declared_for(
                (#[trigger] volumes[u]).1,
                container,
            ) implies planned.contains(volumes[u]) by {
            if u < before.len() {
                assert(before[u] == volumes[u]);
                assert(earlier.contains(before[u]));
                let k = choose|k: int| 0 <= k < earlier.len() && earlier[k] == before[u];
                assert(planned[k] == volumes[u]);
            } else {
                assert(planned[planned.len() - 1] == volumes[u]);
            }
        }
    }
}

proof fn lemma_free_destinations(
    existing: Seq<Mount>,
    container: Seq<char>,
    names: Map<Seq<char>, Result<String, String>>,
    volumes: Seq<(String, ConfidentialVolumeDeclaration)>,
    v: int,
)
    requires
        0 <= v < volumes.len(),
        is_declared_for(volumes[v].1, container),
    ensures
        first_collision(
            destinations_in(volumes[v].1, container),
            0,
            mount_views(existing),
            planned_mounts(volumes_for(volumes.take(v), container), names, container),
        ) is None <==> destinations_are_free(existing, container, volumes, v),
        forall|d: int|
            0 <= d < destinations_in(volumes[v].1, container).len() ==> (destination_is_taken(
                existing,
                container,
                volumes,
                v,
                (#[trigger] destinations_in(volumes[v].1, container)[d])@,
            ) <==> is_mounted_at(
                mount_views(existing),
                destinations_in(volumes[v].1, container)[d]@,
            ) || is_mounted_at(
                planned_mounts(volumes_for(volumes.take(v), container), names, container),
                destinations_in(volumes[v].1, container)[d]@,
            )),
{
    let list = destinations_in(volumes[v].1, container);
    let views = mount_views(existing);
    let planned = volumes_for(volumes.take(v), container);
    let mounts = planned_mounts(planned, names, container);
    lemma_volumes_for(volumes.take(v), container);
    lemma_first_collision(list, 0, views, mounts);
    assert forall|m: int| 0 <= m < existing.len() implies views[m].destination == (
    #[trigger] existing[m]).destination@ by {}
    assert forall|d: int| 0 <= d < list.len() implies (is_mounted_at(mounts, (#[trigger] list[d])@)
        <==> exists|u: int, e: int|
        0 <= u < v && is_declared_for(volumes[u].1, container) && 0 <= e < destinations_in(
            volumes[u].1,
            container,
        ).len() && same_path(
            (#[trigger] destinations_in(volumes[u].1, container)[e])@,
            list[d]@,
        )) by {
        let path = list[d]@;
        lemma_shown(planned, names, container, path);
        if is_mounted_at(mounts, path) {
            let (k, e) = choose|k: int, e: int|
                0 <= k < planned.len() && 0 <= e < destinations_in(planned[k].1, container).len()
                    && same_path(
                    (#[trigger] destinations_in(planned[k].1, container)[e])@,
                    path,
                );
            let u = choose|u: int|
                0 <= u < volumes.take(v).len() && is_declared_for(
                    (#[trigger] volumes.take(v)[u]).1,
                    container,
                ) && volumes.take(v)[u] == planned[k];
            assert(volumes[u] == planned[k]);
            assert(same_path(destinations_in(volumes[u].1, container)[e]@, path));
        }
        if exists|u: int, e: int|
            0 <= u < v && is_declared_for(volumes[u].1, container) && 0 <= e < destinations_in(
                volumes[u].1,
                container,
            ).len() && same_path(
                (#[trigger] destinations_in(volumes[u].1, container)[e])@,
                path,
            ) {
            let (u, e) = choose|u: int, e: int|
                0 <= u < v && is_declared_for(volumes[u].1, container) && 0 <= e
                    < destinations_in(volumes[u].1, container).len() && same_path(
                    (#[trigger] destinations_in(volumes[u].1, container)[e])@,
                    path,
                );
            assert(volumes.take(v)[u] == volumes[u]);
            assert(planned.contains(volumes[u]));
            let k = choose|k: int| 0 <= k < planned.len() && planned[k] == volumes[u];
            assert(same_path(destinations_in(planned[k].1, container)[e]@, path));
        }
    }
    assert forall|d: int| 0 <= d < list.len() implies (is_mounted_at(views, (#[trigger] list[d])@)
        <==> exists|m: int|
        0 <= m < existing.len() && same_path((#[trigger] existing[m]).destination@, list[d]@)) by {
        if is_mounted_at(views, list[d]@) {
            let m = choose|m: int|
                0 <= m < views.len() && same_path((#[trigger] views[m]).destination, list[d]@);
            assert(same_path(existing[m].destination@, list[d]@));
        }
        if exists|m: int|
            0 <= m < existing.len() && same_path(
                (#[trigger] existing[m]).destination@,
                list[d]@,
            ) {
            let m = choose|m: int|
                0 <= m < existing.len() && same_path(
                    (#[trigger] existing[m]).destination@,
                    list[d]@,
                );
            assert(same_path(views[m].destination, list[d]@));
        }
    }
    if first_collision(list, 0, views, mounts) is None {
        assert forall|d: int, m: int|
            0 <= d < list.len() && 0 <= m < existing.len() implies !same_path(
            (#[trigger] existing[m]).destination@,
            (#[trigger] list[d])@,
        ) by {
            assert(!is_mounted_at(views, list[d]@));
            assert(!same_path(views[m].destination, list[d]@));
        }
    }
    if destinations_are_free(existing, container, volumes, v) {
        assert forall|d: int| 0 <= d < list.len() implies !is_mounted_at(
            views,
            (#[trigger] list[d])@,
        ) by {
            if is_mounted_at(views, list[d]@) {
                let m = choose|m: int|
                    0 <= m < views.len() && same_path(
                        (#[trigger] views[m]).destination,
                        list[d]@,
                    );
                assert(!same_path(existing[m].destination@, list[d]@));
            }
        }
    }
}

proof fn lemma_first_collision(
    list: Seq<String>,
    from: int,
    existing: Seq<MountView>,
    planned: Seq<MountView>,
)
    requires
        0 <= from <= list.len(),
    ensures
        first_collision(list, from, existing, planned) is None <==> forall|d: int|
            from <= d < list.len() ==> !is_mounted_at(existing, (#[trigger] list[d])@)
                && !is_mounted_at(planned, list[d]@),
        first_collision(list, from, existing, planned) is Some ==> exists|d: int|
            from <= d < list.len() && (#[trigger] list[d]) == first_collision(
                list,
                from,
                existing,
                planned,
            )->0 && (is_mounted_at(existing, list[d]@) || is_mounted_at(planned, list[d]@))
                && forall|e: int|
                from <= e < d ==> !is_mounted_at(existing, (#[trigger] list[e])@)
                    && !is_mounted_at(planned, list[e]@),
    decreases list.len() - from,
{
    if from < list.len() {
        lemma_first_collision(list, from + 1, existing, planned);
        if is_mounted_at(existing, list[from]@) || is_mounted_at(planned, list[from]@) {
            assert(list[from] == first_collision(list, from, existing, planned)->0);
        } else if first_collision(list, from, existing, planned) is Some {
            let found = first_collision(list, from, existing, planned)->0;
            let d = choose|d: int|
                from + 1 <= d < list.len() && (#[trigger] list[d]) == found && (is_mounted_at(
                    existing,
                    list[d]@,
                ) || is_mounted_at(planned, list[d]@)) && forall|e: int|
                    from + 1 <= e < d ==> !is_mounted_at(existing, (#[trigger] list[e])@)
                        && !is_mounted_at(planned, list[e]@);
            assert(list[d] == found);
        }
    }
}

/// Whether the parts of a plan are those of a declared volume: its request is for the device at its
/// path, and that device and its node are consumed.
spec fn is_planned<I>(
    devices: Seq<ContainerDevice<I>>,
    nodes: Seq<LinuxDevice>,
    names: Map<Seq<char>, Result<String, String>>,
    declaration: ConfidentialVolumeDeclaration,
    storage: StorageView,
    device: DeviceView,
    block: BlockView,
) -> bool {
    let found = devices_at(device_views(devices), declaration.device_path@);
    let found_nodes = oci_devices_at(nodes, declaration.device_path@);
    &&& is_only_device_at(devices, declaration.device_path@, found[0])
    &&& is_only_node_at(nodes, declaration.device_path@, found_nodes[0])
    &&& nodes[found_nodes[0]].typ is B
    &&& device == devices[found[0]].device@
    &&& block == BlockView {
        path: nodes[found_nodes[0]].path@,
        major: nodes[found_nodes[0]].major,
        minor: nodes[found_nodes[0]].minor,
    }
    &&& storage == confidential_request(declaration, device, guest_path_of(names, declaration))
}

/// Whether a plan is that of volumes which are declared for a container.
spec fn is_plan_of<I>(
    devices: Seq<ContainerDevice<I>>,
    nodes: Seq<LinuxDevice>,
    names: Map<Seq<char>, Result<String, String>>,
    container: Seq<char>,
    planned: Seq<(String, ConfidentialVolumeDeclaration)>,
    plan: PlanView,
) -> bool {
    &&& plan.mounts == planned_mounts(planned, names, container)
    &&& plan.storages.len() == planned.len()
    &&& plan.consumed_devices.len() == planned.len()
    &&& plan.consumed_oci_devices.len() == planned.len()
    &&& forall|k: int|
        0 <= k < planned.len() ==> is_planned(
            devices,
            nodes,
            names,
            (#[trigger] planned[k]).1,
            plan.storages[k],
            plan.consumed_devices[k],
            plan.consumed_oci_devices[k],
        )
}

proof fn lemma_plan_step<I>(
    devices: Seq<ContainerDevice<I>>,
    linux: Option<Linux>,
    existing: Seq<Mount>,
    names: Map<Seq<char>, Result<String, String>>,
    container: String,
    volumes: Seq<(String, ConfidentialVolumeDeclaration)>,
    v: int,
    plan: PlanView,
)
    requires
        0 <= v < volumes.len(),
        is_plan_of(
            devices,
            nodes_of(linux),
            names,
            container@,
            volumes_for(volumes.take(v), container@),
            plan,
        ),
    ensures
        ({
            let input = plan_input(container, devices, linux, existing, names);
            let step = plan_of_volume(input, volumes[v].0, volumes[v].1, plan.mounts);
            let planned = volumes_for(volumes.take(v + 1), container@);
            &&& step is Ok <==> can_be_planned(
                devices,
                linux,
                existing,
                names,
                container@,
                volumes,
                v,
            )
            &&& step is Ok ==> (step->Ok_0 is Some <==> is_declared_for(
                volumes[v].1,
                container@,
            ))
            &&& step is Ok && step->Ok_0 is Some ==> is_plan_of(
                devices,
                nodes_of(linux),
                names,
                container@,
                planned,
                with_volume(plan, step->Ok_0->0),
            )
            &&& step is Ok && step->Ok_0 is None ==> is_plan_of(
                devices,
                nodes_of(linux),
                names,
                container@,
                planned,
                plan,
            )
        }),
{
    let input = plan_input(container, devices, linux, existing, names);
    let declaration = volumes[v].1;
    let path = declaration.device_path@;
    let nodes = nodes_of(linux);
    let earlier = volumes_for(volumes.take(v), container@);
    let planned = volumes_for(volumes.take(v + 1), container@);
    let step = plan_of_volume(input, volumes[v].0, declaration, plan.mounts);
    assert(volumes.take(v + 1).drop_last() =~= volumes.take(v));
    assert(volumes.take(v + 1).last() == volumes[v]);
    lemma_devices_at(devices, path);
    lemma_fit_device(devices, declaration);
    if is_declared_for(declaration, container@) {
        lemma_free_destinations(existing, container@, names, volumes, v);
        if linux is Some {
            assert(linux_devices(linux->0) =~= nodes);
            lemma_fit_node(nodes, declaration);
            lemma_nodes_at(nodes, path);
        }
        if step is Ok {
            let volume = step->Ok_0->0;
            let next = with_volume(plan, volume);
            assert(planned =~= earlier.push(volumes[v]));
            assert(planned.drop_last() =~= earlier);
            let list = destinations_in(declaration, container@);
            assert(next.mounts =~= planned_mounts(planned, names, container@));
            assert forall|k: int| 0 <= k < planned.len() implies is_planned(
                devices,
                nodes,
                names,
                (#[trigger] planned[k]).1,
                next.storages[k],
                next.consumed_devices[k],
                next.consumed_oci_devices[k],
            ) by {
                if k < earlier.len() {
                    assert(planned[k] == earlier[k]);
                } else {
                    let found = devices_at(device_views(devices), path);
                    assert(device_views(devices)[found[0]] == devices[found[0]].device@);
                }
            }
        }
    }
}

proof fn lemma_plan_completes<I>(
    devices: Seq<ContainerDevice<I>>,
    linux: Option<Linux>,
    existing: Seq<Mount>,
    names: Map<Seq<char>, Result<String, String>>,
    container: String,
    volumes: Seq<(String, ConfidentialVolumeDeclaration)>,
    v: int,
    plan: PlanView,
)
    requires
        0 <= v <= volumes.len(),
        is_plan_of(
            devices,
            nodes_of(linux),
            names,
            container@,
            volumes_for(volumes.take(v), container@),
            plan,
        ),
    ensures
        ({
            let input = plan_input(container, devices, linux, existing, names);
            let outcome = plan_of_volumes(input, volumes, v, plan);
            &&& outcome is Ok <==> forall|w: int|
                v <= w < volumes.len() ==> #[trigger] can_be_planned(
                    devices,
                    linux,
                    existing,
                    names,
                    container@,
                    volumes,
                    w,
                )
            &&& outcome is Ok ==> is_plan_of(
                devices,
                nodes_of(linux),
                names,
                container@,
                volumes_for(volumes, container@),
                outcome->Ok_0,
            )
            &&& outcome is Err ==> exists|w: int|
                v <= w < volumes.len() && #[trigger] is_first_refused(
                    devices,
                    linux,
                    existing,
                    names,
                    container,
                    volumes,
                    v,
                    w,
                    outcome->Err_0,
                )
        }),
    decreases volumes.len() - v,
{
    let input = plan_input(container, devices, linux, existing, names);
    let outcome = plan_of_volumes(input, volumes, v, plan);
    if v == volumes.len() {
        assert(volumes.take(v) =~= volumes);
    } else {
        lemma_plan_step(devices, linux, existing, names, container, volumes, v, plan);
        let step = plan_of_volume(input, volumes[v].0, volumes[v].1, plan.mounts);
        if step is Err {
            assert(!can_be_planned(devices, linux, existing, names, container@, volumes, v));
            assert(is_first_refused(
                devices,
                linux,
                existing,
                names,
                container,
                volumes,
                v,
                v,
                outcome->Err_0,
            ));
        } else {
            let next = match step->Ok_0 {
                Some(volume) => with_volume(plan, volume),
                None => plan,
            };
            lemma_plan_completes(
                devices,
                linux,
                existing,
                names,
                container,
                volumes,
                v + 1,
                next,
            );
            if outcome is Ok {
                assert forall|w: int| v <= w < volumes.len() implies #[trigger] can_be_planned(
                    devices,
                    linux,
                    existing,
                    names,
                    container@,
                    volumes,
                    w,
                ) by {
                    if w > v {
                        assert(v + 1 <= w);
                    }
                }
            } else {
                let w = choose|w: int|
                    v + 1 <= w < volumes.len() && #[trigger] is_first_refused(
                        devices,
                        linux,
                        existing,
                        names,
                        container,
                        volumes,
                        v + 1,
                        w,
                        outcome->Err_0,
                    );
                assert forall|u: int| v <= u < w implies #[trigger] can_be_planned(
                    devices,
                    linux,
                    existing,
                    names,
                    container@,
                    volumes,
                    u,
                ) by {
                    if u > v {
                        assert(v + 1 <= u);
                    }
                }
                assert(is_first_refused(
                    devices,
                    linux,
                    existing,
                    names,
                    container,
                    volumes,
                    v,
                    w,
                    outcome->Err_0,
                ));
            }
        }
    }
}

/// Whether a volume is the first, from a place on, that cannot be planned, for a reason.
spec fn is_first_refused<I>(
    devices: Seq<ContainerDevice<I>>,
    linux: Option<Linux>,
    existing: Seq<Mount>,
    names: Map<Seq<char>, Result<String, String>>,
    container: String,
    volumes: Seq<(String, ConfidentialVolumeDeclaration)>,
    from: int,
    w: int,
    error: PlanError,
) -> bool {
    let mounts = planned_mounts(volumes_for(volumes.take(w), container@), names, container@);
    &&& !can_be_planned(devices, linux, existing, names, container@, volumes, w)
    &&& forall|u: int|
        from <= u < w ==> #[trigger] can_be_planned(
            devices,
            linux,
            existing,
            names,
            container@,
            volumes,
            u,
        )
    &&& plan_of_volume(
        plan_input(container, devices, linux, existing, names),
        volumes[w].0,
        volumes[w].1,
        mounts,
    ) == Err::<Option<VolumeView>, _>(error)
}

proof fn lemma_plan_starts<I>(
    devices: Seq<ContainerDevice<I>>,
    nodes: Seq<LinuxDevice>,
    names: Map<Seq<char>, Result<String, String>>,
    container: Seq<char>,
    volumes: Seq<(String, ConfidentialVolumeDeclaration)>,
)
    ensures
        is_plan_of(
            devices,
            nodes,
            names,
            container,
            volumes_for(volumes.take(0), container),
            empty_plan(),
        ),
{
    let planned = volumes_for(volumes.take(0), container);
    assert(planned =~= Seq::empty());
    assert(planned_mounts(planned, names, container) =~= Seq::<MountView>::empty());
}

/// Whether a storage request is the one for a declared volume on a device: addressed as the device
/// is, mounted at the guest path of the volume as a confidential filesystem that only this container
/// uses, with the manifest of the volume, for reading and writing, owned by the group that the
/// volume asks for, and without options of any kind.
pub open spec fn requests_the_volume(
    storage: Storage,
    declaration: ConfidentialVolumeDeclaration,
    device: Device,
    guest_path: Seq<char>,
) -> bool {
    &&& storage.driver@ == device.field_type@
    &&& storage.source@ == device.id@
    &&& storage.mount_point@ == guest_path
    &&& storage.fstype@ == "confidential"@
    &&& storage.driver_options@.len() == 0
    &&& storage.options@.len() == 0
    &&& !storage.shared
    &&& storage.confidential_storage is Some
    &&& storage.confidential_storage->0.manifest_uri@ == declaration.manifest_uri@
    &&& storage.confidential_storage->0.requested_access is ReadWrite
    &&& storage.fs_group is Some <==> declaration.fs_group is Some
    &&& storage.fs_group is Some ==> {
        &&& storage.fs_group->0.group_id == declaration.fs_group->0
        &&& storage.fs_group->0.group_change_policy is OnRootMismatch <==> {
            &&& declaration.fs_group_change_policy is Some
            &&& declaration.fs_group_change_policy->0 is OnRootMismatch
        }
    }
}

/// Whether a mount shows a guest path at a destination as a writable, private bind: of type `bind`,
/// with the options `rbind`, `rprivate` and `rw`, and no other.
pub open spec fn is_writable_private_bind(
    mount: Mount,
    destination: Seq<char>,
    guest_path: Seq<char>,
) -> bool {
    &&& mount.destination@ == destination
    &&& mount.typ is Some
    &&& mount.typ->0@ == "bind"@
    &&& mount.source is Some
    &&& mount.source->0@ == guest_path
    &&& mount.options is Some
    &&& mount.options->0@.len() == 3
    &&& mount.options->0@[0]@ == "rbind"@
    &&& mount.options->0@[1]@ == "rprivate"@
    &&& mount.options->0@[2]@ == "rw"@
}

/// Whether an identity is that of a device, field by field.
pub open spec fn is_identity_of(identity: ConsumedDeviceIdentity, device: Device) -> bool {
    &&& identity.id@ == device.id@
    &&& identity.field_type@ == device.field_type@
    &&& identity.vm_path@ == device.vm_path@
    &&& identity.container_path@ == device.container_path@
    &&& texts(identity.options@) == texts(device.options@)
}

/// Every mount of a plan is a writable, private bind of its volume, one for each destination of each
/// volume that is declared for the container, in the order of the volumes' names and of their
/// destinations, and there is no other mount.
pub proof fn law_planned_mounts_are_writable_private_binds<I>(
    spec: &mut Spec,
    devices: Vec<ContainerDevice<I>>,
    selected_shared_fs: Option<&SharedFsInfo>,
    container: String,
    declarations: ConfidentialVolumeDeclarations,
    refused: TextMap<String>,
    names: TextMap<Result<String, String>>,
    plan: ConfidentialVolumePlan,
)
    requires
        call_ensures(
            build_confidential_volume_plan::<I>,
            (
                spec,
                &devices,
                selected_shared_fs,
                &container,
                Ok(declarations),
                &refused,
                &names,
            ),
            Ok(plan),
        ),
        old(spec).annotations is Some,
        old(spec).annotations->0@.dom().contains("io.katacontainers.volume.confidential"@),
    ensures
        ({
            let planned = volumes_for(declarations.0.entries(), container@);
            let shown = shown_to(planned, names@, container@);
            &&& plan.mounts@.len() == shown.len()
            &&& forall|m: int|
                0 <= m < plan.mounts@.len() ==> is_writable_private_bind(
                    #[trigger] plan.mounts@[m],
                    shown[m].0,
                    shown[m].1,
                )
        }),
        forall|m: int|
            #![trigger plan.mounts@[m]]
            0 <= m < plan.mounts@.len() ==> {
                let mount = plan.mounts@[m];
                &&& mount.typ is Some
                &&& mount.typ->0@ == "bind"@
                &&& mount.options is Some
                &&& texts(mount.options->0@) == seq!["rbind"@, "rprivate"@, "rw"@]
                &&& texts(mount.options->0@).contains("rw"@)
                &&& !texts(mount.options->0@).contains("ro"@)
            },
{
    let volumes = declarations.0.entries();
    let linux = old(spec).linux;
    let existing = spec_mounts(*old(spec));
    lemma_plan_starts(devices@, nodes_of(linux), names@, container@, volumes);
    lemma_plan_completes(devices@, linux, existing, names@, container, volumes, 0, empty_plan());
    let planned = volumes_for(volumes, container@);
    let shown = shown_to(planned, names@, container@);
    assert(plan@.mounts.len() == plan.mounts@.len());
    reveal_strlit("rbind");
    reveal_strlit("rprivate");
    reveal_strlit("rw");
    reveal_strlit("ro");
    assert("rw"@[1] != "ro"@[1]);
    assert forall|m: int| 0 <= m < plan.mounts@.len() implies is_writable_private_bind(
        #[trigger] plan.mounts@[m],
        shown[m].0,
        shown[m].1,
    ) by {
        let mount = plan.mounts@[m];
        assert(mount@ == plan@.mounts[m]);
        let options = texts(mount.options->0@);
        assert(options.len() == mount.options->0@.len());
        assert(options[0] == mount.options->0@[0]@);
        assert(options[1] == mount.options->0@[1]@);
        assert(options[2] == mount.options->0@[2]@);
    }
    assert forall|m: int| #![trigger plan.mounts@[m]] 0 <= m < plan.mounts@.len() implies {
        let mount = plan.mounts@[m];
        &&& mount.typ is Some
        &&& mount.typ->0@ == "bind"@
        &&& mount.options is Some
        &&& texts(mount.options->0@) == seq!["rbind"@, "rprivate"@, "rw"@]
        &&& texts(mount.options->0@).contains("rw"@)
        &&& !texts(mount.options->0@).contains("ro"@)
    } by {
        let mount = plan.mounts@[m];
        assert(is_writable_private_bind(mount, shown[m].0, shown[m].1));
        let options = texts(mount.options->0@);
        assert(options =~= seq!["rbind"@, "rprivate"@, "rw"@]);
        assert(options[2] == "rw"@);
        assert("rbind"@.len() == 5 && "rprivate"@.len() == 8 && "ro"@.len() == 2);
    }
}

/// A plan requests each volume that is declared for the container, once, on the device that the
/// container sees at the path of the volume, and consumes exactly that device and the block device
/// node at that path.
pub proof fn law_plan_requests_each_declared_volume_once<I>(
    spec: &mut Spec,
    devices: Vec<ContainerDevice<I>>,
    selected_shared_fs: Option<&SharedFsInfo>,
    container: String,
    declarations: ConfidentialVolumeDeclarations,
    refused: TextMap<String>,
    names: TextMap<Result<String, String>>,
    plan: ConfidentialVolumePlan,
    k: int,
)
    requires
        call_ensures(
            build_confidential_volume_plan::<I>,
            (
                spec,
                &devices,
                selected_shared_fs,
                &container,
                Ok(declarations),
                &refused,
                &names,
            ),
            Ok(plan),
        ),
        old(spec).annotations is Some,
        old(spec).annotations->0@.dom().contains("io.katacontainers.volume.confidential"@),
    ensures
        ({
            let planned = volumes_for(declarations.0.entries(), container@);
            &&& plan.storages@.len() == planned.len()
            &&& plan.consumed_devices@.len() == planned.len()
            &&& plan.consumed_oci_devices@.len() == planned.len()
            &&& 0 <= k < planned.len() ==> {
                let declaration = planned[k].1;
                &&& exists|i: int| #[trigger]
                    is_only_device_at(devices@, declaration.device_path@, i)
                        && requests_the_volume(
                        plan.storages@[k],
                        declaration,
                        devices@[i].device,
                        guest_path_of(names@, declaration),
                    ) && is_identity_of(plan.consumed_devices@[k], devices@[i].device)
                &&& exists|o: int| #[trigger]
                    is_only_node_at(nodes_of(old(spec).linux), declaration.device_path@, o)
                        && nodes_of(old(spec).linux)[o].typ is B
                        && plan.consumed_oci_devices@[k].path@ == nodes_of(
                        old(spec).linux,
                    )[o].path@ && plan.consumed_oci_devices@[k].major == nodes_of(
                        old(spec).linux,
                    )[o].major && plan.consumed_oci_devices@[k].minor == nodes_of(
                        old(spec).linux,
                    )[o].minor
            }
        }),
{
    let volumes = declarations.0.entries();
    let linux = old(spec).linux;
    let nodes = nodes_of(linux);
    let existing = spec_mounts(*old(spec));
    lemma_plan_starts(devices@, nodes, names@, container@, volumes);
    lemma_plan_completes(devices@, linux, existing, names@, container, volumes, 0, empty_plan());
    let planned = volumes_for(volumes, container@);
    if 0 <= k < planned.len() {
        let declaration = planned[k].1;
        let i = devices_at(device_views(devices@), declaration.device_path@)[0];
        let o = oci_devices_at(nodes, declaration.device_path@)[0];
        assert(is_planned(
            devices@,
            nodes,
            names@,
            declaration,
            plan@.storages[k],
            plan@.consumed_devices[k],
            plan@.consumed_oci_devices[k],
        ));
        let storage = plan.storages@[k];
        assert(storage@ == plan@.storages[k]);
        assert(storage@.driver_options.len() == storage.driver_options@.len());
        assert(storage@.options.len() == storage.options@.len());
        assert(plan.consumed_devices@[k]@ == plan@.consumed_devices[k]);
        assert(plan.consumed_oci_devices@[k]@ == plan@.consumed_oci_devices[k]);
        assert(is_only_device_at(devices@, declaration.device_path@, i));
        assert(is_only_node_at(nodes, declaration.device_path@, o));
        assert(requests_the_volume(
            storage,
            declaration,
            devices@[i].device,
            guest_path_of(names@, declaration),
        ));
    }
}

/// A container gets a plan exactly where no filesystem is shared with the host, its declaration is
/// accepted, and each declared volume can be planned. What rules a plan out is reported: the sharing
/// first, then what is wrong with the declaration.
pub proof fn law_plan_is_made_where_every_volume_can_be_planned<I>(
    spec: &mut Spec,
    devices: Vec<ContainerDevice<I>>,
    selected_shared_fs: Option<&SharedFsInfo>,
    container: String,
    decoded: Result<ConfidentialVolumeDeclarations, DeclarationError>,
    refused: TextMap<String>,
    names: TextMap<Result<String, String>>,
    result: Result<ConfidentialVolumePlan, PlanError>,
    raw: &str,
    parsed: Result<ConfidentialVolumeDeclarations, DeclarationError>,
)
    requires
        call_ensures(
            build_confidential_volume_plan::<I>,
            (spec, &devices, selected_shared_fs, &container, decoded, &refused, &names),
            result,
        ),
        old(spec).annotations is Some,
        old(spec).annotations->0@.dom().contains("io.katacontainers.volume.confidential"@),
        raw@ == old(spec).annotations->0@["io.katacontainers.volume.confidential"@]@,
        call_ensures(parse_confidential_volume_declarations, (raw, decoded, &refused), parsed),
    ensures
        ({
            let unshared = selected_shared_fs is Some && selected_shared_fs->0.shared_fs is None;
            let volumes = parsed->Ok_0.0.entries();
            let existing = mounts_in(*old(spec));
            &&& result is Ok <==> unshared && parsed is Ok && forall|v: int|
                0 <= v < volumes.len() ==> #[trigger] can_be_planned(
                    devices@,
                    old(spec).linux,
                    existing,
                    names@,
                    container@,
                    volumes,
                    v,
                )
            &&& selected_shared_fs is None ==> result is Err
                && result->Err_0 is NoSelectedHypervisor
            &&& selected_shared_fs is Some && !unshared ==> result is Err && result->Err_0
                == PlanError::SharedFsEnabled(selected_shared_fs->0.shared_fs->0)
            &&& unshared && parsed is Err ==> result is Err && result->Err_0
                == PlanError::Declaration(parsed->Err_0)
            &&& unshared && parsed is Ok && result is Err ==> exists|v: int|
                0 <= v < volumes.len() && !can_be_planned(
                    devices@,
                    old(spec).linux,
                    existing,
                    names@,
                    container@,
                    volumes,
                    v,
                ) && (forall|u: int|
                    0 <= u < v ==> #[trigger] can_be_planned(
                        devices@,
                        old(spec).linux,
                        existing,
                        names@,
                        container@,
                        volumes,
                        u,
                    )) && #[trigger] is_reason_against(
                    result->Err_0,
                    devices@,
                    old(spec).linux,
                    existing,
                    names@,
                    container,
                    volumes,
                    v,
                )
        }),
{
    let linux = old(spec).linux;
    let existing = mounts_in(*old(spec));
    assert(existing =~= spec_mounts(*old(spec)));
    if selected_shared_fs is Some && selected_shared_fs->0.shared_fs is None && parsed is Ok {
        let volumes = parsed->Ok_0.0.entries();
        lemma_plan_starts(devices@, nodes_of(linux), names@, container@, volumes);
        lemma_plan_completes(
            devices@,
            linux,
            existing,
            names@,
            container,
            volumes,
            0,
            empty_plan(),
        );
        if result is Err {
            let error = result->Err_0;
            let v = choose|w: int|
                0 <= w < volumes.len() && #[trigger] is_first_refused(
                    devices@,
                    linux,
                    existing,
                    names@,
                    container,
                    volumes,
                    0,
                    w,
                    error,
                );
            lemma_reason(devices@, linux, existing, names@, container, volumes, v, error);
            assert(is_reason_against(
                error,
                devices@,
                linux,
                existing,
                names@,
                container,
                volumes,
                v,
            ));
        }
    }
}

/// Whether an error says what is wrong with a volume that cannot be planned: the first thing, in the
/// order of device, device node, destinations and mount name.
pub open spec fn is_reason_against<I>(
    error: PlanError,
    devices: Seq<ContainerDevice<I>>,
    linux: Option<Linux>,
    existing: Seq<Mount>,
    names: Map<Seq<char>, Result<String, String>>,
    container: String,
    volumes: Seq<(String, ConfidentialVolumeDeclaration)>,
    v: int,
) -> bool {
    let (name, declaration) = volumes[v];
    let path = declaration.device_path@;
    let declared = is_declared_for(declaration, container@);
    let nodes = nodes_of(linux);
    let list = destinations_in(declaration, container@);
    match error {
        PlanError::UndeclaredContainer { volume, container: seen_by } => {
            &&& volume == name
            &&& seen_by == container
            &&& !declared
            &&& exists|j: int|
                0 <= j < devices.len() && (#[trigger] devices[j]).device.container_path@ == path
        },
        PlanError::DeviceCount { volume, path: missing } => {
            &&& volume == name
            &&& missing == declaration.device_path
            &&& declared
            &&& forall|i: int| !#[trigger] is_only_device_at(devices, path, i)
        },
        PlanError::InvalidIdentity { volume } => {
            &&& volume == name
            &&& declared
            &&& exists|i: int| #[trigger]
                is_only_device_at(devices, path, i) && !can_carry_a_volume(devices[i].device)
        },
        PlanError::AliasedDevice { volume } => {
            &&& volume == name
            &&& declared
            &&& !device_is_fit(devices, declaration)
            &&& exists|i: int| #[trigger]
                is_only_device_at(devices, path, i) && can_carry_a_volume(devices[i].device)
        },
        PlanError::MissingLinux => declared && device_is_fit(devices, declaration)
            && linux is None,
        PlanError::OciDevice { volume } => {
            &&& volume == name
            &&& declared
            &&& device_is_fit(devices, declaration)
            &&& linux is Some
            &&& forall|i: int| #[trigger]
                is_only_node_at(nodes, path, i) ==> !(nodes[i].typ is B)
        },
        PlanError::AliasedOciDevice { volume } => {
            &&& volume == name
            &&& declared
            &&& device_is_fit(devices, declaration)
            &&& linux is Some
            &&& !node_is_fit(nodes, declaration)
            &&& exists|i: int| #[trigger] is_only_node_at(nodes, path, i) && nodes[i].typ is B
        },
        PlanError::MountCollision { volume, destination } => {
            &&& volume == name
            &&& declared
            &&& device_is_fit(devices, declaration)
            &&& linux is Some
            &&& node_is_fit(nodes, declaration)
            &&& exists|d: int|
                0 <= d < list.len() && (#[trigger] list[d]) == destination && destination_is_taken(
                    existing,
                    container@,
                    volumes,
                    v,
                    list[d]@,
                ) && forall|e: int|
                    0 <= e < d ==> !destination_is_taken(
                        existing,
                        container@,
                        volumes,
                        v,
                        (#[trigger] list[e])@,
                    )
        },
        PlanError::MountName(reason) => {
            &&& declared
            &&& device_is_fit(devices, declaration)
            &&& linux is Some
            &&& node_is_fit(nodes, declaration)
            &&& destinations_are_free(existing, container@, volumes, v)
            &&& names.dom().contains(declaration.manifest_uri@)
            &&& names[declaration.manifest_uri@] == Err::<String, _>(reason)
        },
        PlanError::NameNotLookedUp(uri) => {
            &&& declared
            &&& device_is_fit(devices, declaration)
            &&& linux is Some
            &&& node_is_fit(nodes, declaration)
            &&& destinations_are_free(existing, container@, volumes, v)
            &&& uri == declaration.manifest_uri
            &&& !names.dom().contains(uri@)
        },
        _ => false,
    }
}

proof fn lemma_reason<I>(
    devices: Seq<ContainerDevice<I>>,
    linux: Option<Linux>,
    existing: Seq<Mount>,
    names: Map<Seq<char>, Result<String, String>>,
    container: String,
    volumes: Seq<(String, ConfidentialVolumeDeclaration)>,
    v: int,
    error: PlanError,
)
    requires
        0 <= v < volumes.len(),
        is_first_refused(devices, linux, existing, names, container, volumes, 0, v, error),
    ensures
        is_reason_against(error, devices, linux, existing, names, container, volumes, v),
{
    let (name, declaration) = volumes[v];
    let path = declaration.device_path@;
    let nodes = nodes_of(linux);
    let views = device_views(devices);
    let found = devices_at(views, path);
    lemma_devices_at(devices, path);
    lemma_fit_device(devices, declaration);
    if found.len() == 1 {
        let i = found[0];
        assert(is_only_device_at(devices, path, i));
        assert(views[i] == devices[i].device@);
        assert(views[i].options.len() == devices[i].device.options@.len());
    }
    if is_declared_for(declaration, container@) && linux is Some {
        assert(linux_devices(linux->0) =~= nodes);
        lemma_nodes_at(nodes, path);
        lemma_fit_node(nodes, declaration);
        let found_nodes = oci_devices_at(nodes, path);
        if found_nodes.len() == 1 {
            assert(is_only_node_at(nodes, path, found_nodes[0]));
        }
        lemma_free_destinations(existing, container@, names, volumes, v);
        let list = destinations_in(declaration, container@);
        let mounts = planned_mounts(volumes_for(volumes.take(v), container@), names, container@);
        lemma_first_collision(list, 0, mount_views(existing), mounts);
        if error is MountCollision {
            let destination = error->MountCollision_destination;
            let d = choose|d: int|
                0 <= d < list.len() && (#[trigger] list[d]) == destination && (is_mounted_at(
                    mount_views(existing),
                    list[d]@,
                ) || is_mounted_at(mounts, list[d]@)) && forall|e: int|
                    0 <= e < d ==> !is_mounted_at(mount_views(existing), (#[trigger] list[e])@)
                        && !is_mounted_at(mounts, list[e]@);
            assert(list[d] == destination);
        }
    }
}

/// Planning takes the declaration off the specification and changes nothing else of it, wherever the
/// declaration is accepted and no filesystem is shared with the host. Else it changes nothing. A
/// container without a declaration gets an empty plan.
pub proof fn law_planning_takes_the_declaration_off<I>(
    spec: &mut Spec,
    devices: Vec<ContainerDevice<I>>,
    selected_shared_fs: Option<&SharedFsInfo>,
    container: String,
    decoded: Result<ConfidentialVolumeDeclarations, DeclarationError>,
    refused: TextMap<String>,
    names: TextMap<Result<String, String>>,
    result: Result<ConfidentialVolumePlan, PlanError>,
    raw: &str,
    parsed: Result<ConfidentialVolumeDeclarations, DeclarationError>,
)
    requires
        call_ensures(
            build_confidential_volume_plan::<I>,
            (spec, &devices, selected_shared_fs, &container, decoded, &refused, &names),
            result,
        ),
        call_ensures(parse_confidential_volume_declarations, (raw, decoded, &refused), parsed),
    ensures
        ({
            let key = "io.katacontainers.volume.confidential"@;
            let declared = old(spec).annotations is Some
                && old(spec).annotations->0@.dom().contains(key);
            let unshared = selected_shared_fs is Some && selected_shared_fs->0.shared_fs is None;
            &&& final(spec).mounts == old(spec).mounts
            &&& final(spec).linux == old(spec).linux
            &&& !declared ==> {
                &&& *final(spec) == *old(spec)
                &&& result is Ok
                &&& result->Ok_0.storages@.len() == 0
                &&& result->Ok_0.mounts@.len() == 0
                &&& result->Ok_0.consumed_devices@.len() == 0
                &&& result->Ok_0.consumed_oci_devices@.len() == 0
            }
            &&& declared && raw@ == old(spec).annotations->0@[key]@ ==> if unshared
                && parsed is Ok {
                &&& final(spec).annotations is Some
                &&& final(spec).annotations->0@ == old(spec).annotations->0@.remove(key)
            } else {
                *final(spec) == *old(spec)
            }
        }),
{
    if !(old(spec).annotations is Some && old(spec).annotations->0@.dom().contains(
        "io.katacontainers.volume.confidential"@,
    )) {
        assert(result->Ok_0@.storages.len() == result->Ok_0.storages@.len());
        assert(result->Ok_0@.mounts.len() == result->Ok_0.mounts@.len());
        assert(result->Ok_0@.consumed_devices.len() == result->Ok_0.consumed_devices@.len());
        assert(result->Ok_0@.consumed_oci_devices.len()
            == result->Ok_0.consumed_oci_devices@.len());
    }
}

/// Whether an identity is that of a block device node: the same number, at the same path.
pub open spec fn is_node_of(identity: ConsumedOciBlockIdentity, node: LinuxDevice) -> bool {
    &&& node.typ is B
    &&& node.major == identity.major
    &&& node.minor == identity.minor
    &&& same_path(node.path@, identity.path@)
}

/// Whether a plan consumes a device.
pub open spec fn is_consumed(plan: ConfidentialVolumePlan, device: Device) -> bool {
    exists|c: int|
        0 <= c < plan.consumed_devices@.len() && is_identity_of(
            #[trigger] plan.consumed_devices@[c],
            device,
        )
}

/// Whether a plan consumes a block device node.
pub open spec fn is_consumed_node(plan: ConfidentialVolumePlan, node: LinuxDevice) -> bool {
    exists|c: int|
        0 <= c < plan.consumed_oci_devices@.len() && is_node_of(
            #[trigger] plan.consumed_oci_devices@[c],
            node,
        )
}

/// Whether an identity is that of exactly one of the devices of a container.
pub open spec fn has_one_device<I>(
    identity: ConsumedDeviceIdentity,
    devices: Seq<ContainerDevice<I>>,
) -> bool {
    exists|i: int|
        #![trigger devices[i]]
        0 <= i < devices.len() && is_identity_of(identity, devices[i].device) && forall|j: int|
            0 <= j < devices.len() && is_identity_of(identity, (#[trigger] devices[j]).device)
                ==> j == i
}

/// Whether an identity is that of exactly one of the device nodes.
pub open spec fn has_one_node(
    identity: ConsumedOciBlockIdentity,
    nodes: Seq<LinuxDevice>,
) -> bool {
    exists|i: int|
        #![trigger nodes[i]]
        0 <= i < nodes.len() && is_node_of(identity, nodes[i]) && forall|j: int|
            0 <= j < nodes.len() && is_node_of(identity, #[trigger] nodes[j]) ==> j == i
}

proof fn lemma_one_device<I>(
    identity: ConsumedDeviceIdentity,
    devices: Seq<ContainerDevice<I>>,
)
    ensures
        occurs_once(device_views(devices), identity@) <==> has_one_device(identity, devices),
{
    let views = device_views(devices);
    let holds = stands_at(views, identity@);
    lemma_places(views.len(), holds);
    assert forall|j: int| 0 <= j < devices.len() implies (holds(j) <==> is_identity_of(
        identity,
        (#[trigger] devices[j]).device,
    )) by {
        assert(views[j] == devices[j].device@);
        if is_identity_of(identity, devices[j].device) {
            assert(views[j] =~= identity@);
        }
    }
    if occurs_once(views, identity@) {
        let i = places(views.len(), holds)[0];
        assert(holds(i));
        assert(is_identity_of(identity, devices[i].device));
        assert forall|j: int|
            0 <= j < devices.len() && is_identity_of(
                identity,
                (#[trigger] devices[j]).device,
            ) implies j == i by {
            assert(holds(j));
            lemma_only_place(views.len(), holds, i, j);
        }
    }
    if has_one_device(identity, devices) {
        let i = choose|i: int|
            #![trigger devices[i]]
            0 <= i < devices.len() && is_identity_of(identity, devices[i].device) && forall|j: int|
                0 <= j < devices.len() && is_identity_of(identity, (#[trigger] devices[j]).device)
                    ==> j == i;
        assert(holds(i));
        assert forall|j: int| 0 <= j < views.len() && #[trigger] holds(j) implies j == i by {
            assert(is_identity_of(identity, devices[j].device));
        }
        lemma_single_place(views.len(), holds, i);
    }
}

proof fn lemma_one_node(identity: ConsumedOciBlockIdentity, nodes: Seq<LinuxDevice>)
    ensures
        block_occurs_once(nodes, identity@) <==> has_one_node(identity, nodes),
{
    let holds = |i: int| is_block(identity@, nodes[i]);
    lemma_places(nodes.len(), holds);
    assert forall|j: int| 0 <= j < nodes.len() implies (holds(j) <==> is_node_of(
        identity,
        #[trigger] nodes[j],
    )) by {}
    if block_occurs_once(nodes, identity@) {
        let i = places(nodes.len(), holds)[0];
        assert(holds(i));
        assert(is_node_of(identity, nodes[i]));
        assert forall|j: int|
            0 <= j < nodes.len() && is_node_of(identity, #[trigger] nodes[j]) implies j == i by {
            assert(holds(j));
            lemma_only_place(nodes.len(), holds, i, j);
        }
    }
    if has_one_node(identity, nodes) {
        let i = choose|i: int|
            #![trigger nodes[i]]
            0 <= i < nodes.len() && is_node_of(identity, nodes[i]) && forall|j: int|
                0 <= j < nodes.len() && is_node_of(identity, #[trigger] nodes[j]) ==> j == i;
        assert(holds(i));
        assert forall|j: int| 0 <= j < nodes.len() && #[trigger] holds(j) implies j == i by {
            assert(is_node_of(identity, nodes[j]));
        }
        lemma_single_place(nodes.len(), holds, i);
    }
}

/// A plan that consumes something is applied exactly where each consumed identity is that of one
/// device and each consumed node that of one device node. Then the consumed devices and nodes are
/// taken away and all others stay, in order, with everything else of the specification. Else nothing
/// changes. A plan that consumes nothing changes nothing.
pub proof fn law_consumption_takes_away_what_is_consumed<I>(
    plan: ConfidentialVolumePlan,
    spec: &mut Spec,
    devices: Vec<ContainerDevice<I>>,
    result: Result<Vec<ContainerDevice<I>>, PlanError>,
)
    requires
        call_ensures(
            ConfidentialVolumePlan::consume_devices::<I>,
            (&plan, spec, devices),
            result,
        ),
    ensures
        plan.consumed_devices@.len() == 0 ==> {
            &&& result is Ok
            &&& result->Ok_0@ == devices@
            &&& *final(spec) == *old(spec)
        },
        plan.consumed_devices@.len() > 0 ==> {
            let each_device = forall|c: int|
                0 <= c < plan.consumed_devices@.len() ==> has_one_device(
                    #[trigger] plan.consumed_devices@[c],
                    devices@,
                );
            let each_node = forall|c: int|
                0 <= c < plan.consumed_oci_devices@.len() ==> has_one_node(
                    #[trigger] plan.consumed_oci_devices@[c],
                    nodes_of(old(spec).linux),
                );
            &&& result is Ok <==> each_device && old(spec).linux is Some && each_node
            &&& result is Err ==> *final(spec) == *old(spec) && match result->Err_0 {
                PlanError::DeviceNotConsumedOnce => !each_device,
                PlanError::MissingLinux => each_device && old(spec).linux is None,
                PlanError::OciDeviceNotConsumedOnce => each_device && old(spec).linux is Some
                    && !each_node,
                _ => false,
            }
            &&& result is Ok ==> {
                &&& result->Ok_0@ == devices@.filter(
                    |device: ContainerDevice<I>| !is_consumed(plan, device.device),
                )
                &&& final(spec).linux is Some
                &&& nodes_of(final(spec).linux) == nodes_of(old(spec).linux).filter(
                    |node: LinuxDevice| !is_consumed_node(plan, node),
                )
                &&& final(spec).linux->0.devices is Some ==> nodes_of(final(spec).linux).len() > 0
                &&& final(spec).annotations == old(spec).annotations
                &&& final(spec).mounts == old(spec).mounts
            }
        },
{
    let views = plan@.consumed_devices;
    let blocks = plan@.consumed_oci_devices;
    assert(views.len() == plan.consumed_devices@.len());
    assert(blocks.len() == plan.consumed_oci_devices@.len());
    assert forall|c: int| 0 <= c < views.len() implies (occurs_once(
        device_views(devices@),
        #[trigger] views[c],
    ) <==> has_one_device(plan.consumed_devices@[c], devices@)) by {
        assert(views[c] == plan.consumed_devices@[c]@);
        lemma_one_device(plan.consumed_devices@[c], devices@);
    }
    assert forall|c: int| 0 <= c < plan.consumed_devices@.len() implies (#[trigger] has_one_device(
        plan.consumed_devices@[c],
        devices@,
    ) <==> occurs_once(device_views(devices@), views[c])) by {
        assert(views[c] == views[c]);
    }
    let nodes = nodes_of(old(spec).linux);
    if old(spec).linux is Some {
        assert(linux_devices(old(spec).linux->0) =~= nodes);
    }
    assert forall|c: int| 0 <= c < blocks.len() implies (block_occurs_once(
        nodes,
        #[trigger] blocks[c],
    ) <==> has_one_node(plan.consumed_oci_devices@[c], nodes)) by {
        assert(blocks[c] == plan.consumed_oci_devices@[c]@);
        lemma_one_node(plan.consumed_oci_devices@[c], nodes);
    }
    if exists|c: int|
        0 <= c < views.len() && !occurs_once(device_views(devices@), #[trigger] views[c]) {
        let c = choose|c: int|
            0 <= c < views.len() && !occurs_once(device_views(devices@), #[trigger] views[c]);
        assert(!has_one_device(plan.consumed_devices@[c], devices@));
    } else {
        assert forall|c: int| 0 <= c < plan.consumed_devices@.len() implies has_one_device(
            #[trigger] plan.consumed_devices@[c],
            devices@,
        ) by {
            assert(occurs_once(device_views(devices@), views[c]));
        }
    }
    if exists|c: int| 0 <= c < blocks.len() && !block_occurs_once(nodes, #[trigger] blocks[c]) {
        let c = choose|c: int|
            0 <= c < blocks.len() && !block_occurs_once(nodes, #[trigger] blocks[c]);
        assert(!has_one_node(plan.consumed_oci_devices@[c], nodes));
    } else {
        assert forall|c: int| 0 <= c < plan.consumed_oci_devices@.len() implies has_one_node(
            #[trigger] plan.consumed_oci_devices@[c],
            nodes,
        ) by {
            assert(block_occurs_once(nodes, blocks[c]));
        }
    }
    let keep = |device: ContainerDevice<I>| !views.contains(device.device@);
    let stay = |device: ContainerDevice<I>| !is_consumed(plan, device.device);
    assert forall|device: ContainerDevice<I>| keep(device) == #[trigger] stay(device) by {
        if views.contains(device.device@) {
            let c = choose|c: int| 0 <= c < views.len() && views[c] == device.device@;
            assert(views[c] == plan.consumed_devices@[c]@);
            assert(is_identity_of(plan.consumed_devices@[c], device.device));
        }
        if is_consumed(plan, device.device) {
            let c = choose|c: int|
                0 <= c < plan.consumed_devices@.len() && is_identity_of(
                    #[trigger] plan.consumed_devices@[c],
                    device.device,
                );
            assert(views[c] =~= device.device@);
        }
    }
    assert(keep =~= stay);
    let keep_node = |node: LinuxDevice| !is_consumed_block(node, blocks);
    let stay_node = |node: LinuxDevice| !is_consumed_node(plan, node);
    assert forall|node: LinuxDevice| keep_node(node) == #[trigger] stay_node(node) by {
        if is_consumed_block(node, blocks) {
            let c = choose|c: int| 0 <= c < blocks.len() && is_block(#[trigger] blocks[c], node);
            assert(blocks[c] == plan.consumed_oci_devices@[c]@);
            assert(is_node_of(plan.consumed_oci_devices@[c], node));
        }
        if is_consumed_node(plan, node) {
            let c = choose|c: int|
                0 <= c < plan.consumed_oci_devices@.len() && is_node_of(
                    #[trigger] plan.consumed_oci_devices@[c],
                    node,
                );
            assert(is_block(blocks[c], node));
        }
    }
    assert(keep_node =~= stay_node);
    if final(spec).linux is Some {
        assert(linux_devices(final(spec).linux->0) =~= nodes_of(final(spec).linux));
    }
}

/// An identity recognizes the device that it was taken from, in all of its fields, and a device of
/// the same source even where other fields differ. A block identity recognizes the node at its path,
/// and its device under any path.
pub proof fn law_identities_recognize_their_devices(
    device: Device,
    identity: ConsumedDeviceIdentity,
    other: Device,
    same: bool,
    one_source: bool,
    block: ConsumedOciBlockIdentity,
    node: LinuxDevice,
    same_node: bool,
    one_device: bool,
)
    requires
        call_ensures(ConsumedDeviceIdentity::from, (&device,), identity),
        call_ensures(ConsumedDeviceIdentity::matches, (&identity, &other), same),
        call_ensures(ConsumedDeviceIdentity::same_source, (&identity, &other), one_source),
        call_ensures(ConsumedOciBlockIdentity::matches, (&block, &node), same_node),
        call_ensures(ConsumedOciBlockIdentity::same_device, (&block, &node), one_device),
    ensures
        is_identity_of(identity, device),
        same <==> is_identity_of(identity, other),
        one_source <==> have_one_source(device, other),
        same_node <==> is_node_of(block, node),
        one_device <==> node.typ is B && node.major == block.major && node.minor == block.minor,
{
    if is_identity_of(identity, other) {
        assert(identity@ =~= other@);
    }
}

/// What is said of a plan that cannot be made quotes the volume that it fails for, and hands on what is
/// said of a refused declaration.
pub proof fn law_plan_messages_quote_the_volume(
    error: PlanError,
    message: String,
    inner: String,
)
    requires
        call_ensures(PlanError::message, (&error,), message),
        error matches PlanError::Declaration(declared) ==> call_ensures(
            DeclarationError::message,
            (&declared,),
            inner,
        ),
    ensures
        message@ == match error {
            PlanError::SharedFsEnabled(name) => "confidential storage requires shared_fs=none; selected hypervisor uses Some("@
                + quoted(name@) + ")"@,
            PlanError::NoSelectedHypervisor =>
                "confidential storage requires an unambiguous selected hypervisor with shared_fs=none"@,
            PlanError::Declaration(_) => "parse confidential volume annotation: "@ + inner@,
            PlanError::UndeclaredContainer { volume, container } => "confidential volume "@
                + quoted(volume@) + " exposes its raw device to undeclared container "@
                + quoted(container@),
            PlanError::DeviceCount { volume, path } => "confidential volume "@ + quoted(volume@)
                + " must resolve exactly one raw block device at "@ + quoted(path@),
            PlanError::InvalidIdentity { volume } => "confidential volume "@ + quoted(volume@)
                + " resolved an invalid guest block device identity"@,
            PlanError::AliasedDevice { volume } => "confidential volume "@ + quoted(volume@)
                + " block identity is aliased by another device request"@,
            PlanError::MissingLinux => "OCI spec missing linux field"@,
            PlanError::OciDevice { volume } => "confidential volume "@ + quoted(volume@)
                + " must identify exactly one OCI block device"@,
            PlanError::AliasedOciDevice { volume } => "confidential volume "@ + quoted(volume@)
                + " block identity is aliased by another OCI device"@,
            PlanError::MountCollision { volume, destination } => "confidential volume "@
                + quoted(volume@) + " collides with existing mount destination "@
                + quoted(destination@),
            PlanError::MountName(reason) => reason@,
            PlanError::NameNotLookedUp(uri) => "confidential manifest URI "@ + quoted(uri@)
                + " was not looked up"@,
            PlanError::DeviceNotConsumedOnce =>
                "confidential device identity must be consumed exactly once"@,
            PlanError::OciDeviceNotConsumedOnce =>
                "confidential OCI block identity must be consumed exactly once"@,
        },
{
}

} // verus!
