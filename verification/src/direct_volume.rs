//! Direct volumes of the runtime: their kinds, and confidential ones that are mounted at several
//! destinations.

use vstd::prelude::*;

use crate::mode::{file_type, S_IFDIR, S_IFMT};
use crate::path::{paths_equal, same_path};
use crate::text::{copy_texts, same_text, same_texts, texts};
use crate::text_map::{text_contents, TextMap};
use crate::types::{
    optional_text, optional_texts, ConfidentialStorage, ConfidentialStorageView, Mount, MountView,
    Storage,
};

verus! {

pub const KATA_DIRECT_VOLUME_TYPE: &'static str = "directvol";

pub const KATA_VFIO_VOLUME_TYPE: &'static str = "vfiovol";

pub const KATA_SPDK_VOLUME_TYPE: &'static str = "spdkvol";

pub const KATA_SPOOL_VOLUME_TYPE: &'static str = "spoolvol";

pub const KATA_MOUNT_BIND_TYPE: &'static str = "bind";

/// How a direct volume is attached.
#[derive(Clone, Copy, Debug, PartialEq, Eq, Structural)]
pub enum DirectVolumeType {
    RawBlock,
    Spdk,
    Vfio,
}

/// What is recorded of the mount of a direct volume.
#[derive(Debug)]
pub struct DirectVolumeMountInfo {
    pub volume_type: String,
    pub device: String,
    pub fs_type: String,
    pub metadata: TextMap<String>,
    pub options: Vec<String>,
    pub confidential_storage: Option<ConfidentialStorage>,
}

/// The contents of a [`DirectVolumeMountInfo`].
#[verifier::ext_equal]
pub struct MountInfoView {
    pub volume_type: Seq<char>,
    pub device: Seq<char>,
    pub fs_type: Seq<char>,
    pub metadata: Map<Seq<char>, Seq<char>>,
    pub options: Seq<Seq<char>>,
    pub confidential_storage: Option<ConfidentialStorageView>,
}

impl View for DirectVolumeMountInfo {
    type V = MountInfoView;

    open spec fn view(&self) -> MountInfoView {
        MountInfoView {
            volume_type: self.volume_type@,
            device: self.device@,
            fs_type: self.fs_type@,
            metadata: text_contents(self.metadata@),
            options: texts(self.options@),
            confidential_storage: match self.confidential_storage {
                Some(storage) => Some(storage@),
                None => None,
            },
        }
    }
}

impl Default for DirectVolumeMountInfo {
    fn default() -> (info: Self)
        ensures
            info@ == (MountInfoView {
                volume_type: Seq::empty(),
                device: Seq::empty(),
                fs_type: Seq::empty(),
                metadata: Map::empty(),
                options: Seq::empty(),
                confidential_storage: None,
            }),
    {
        let info = DirectVolumeMountInfo {
            volume_type: String::new(),
            device: String::new(),
            fs_type: String::new(),
            metadata: TextMap::new(),
            options: Vec::new(),
            confidential_storage: None,
        };
        assert(info@.metadata =~= Map::<Seq<char>, Seq<char>>::empty());
        assert(info@.options =~= Seq::<Seq<char>>::empty());
        info
    }
}

fn copy_confidential_storage(storage: &Option<ConfidentialStorage>) -> (copy: Option<
    ConfidentialStorage,
>)
    ensures
        copy == *storage,
{
    match storage {
        Some(storage) => Some(
            ConfidentialStorage {
                manifest_uri: storage.manifest_uri.clone(),
                requested_access: storage.requested_access,
            },
        ),
        None => None,
    }
}

impl DirectVolumeMountInfo {
    /// A copy.
    pub fn copy(&self) -> (copy: Self)
        ensures
            copy@ == self@,
    {
        let copy = DirectVolumeMountInfo {
            volume_type: self.volume_type.clone(),
            device: self.device.clone(),
            fs_type: self.fs_type.clone(),
            metadata: self.metadata.copy(),
            options: copy_texts(&self.options),
            confidential_storage: copy_confidential_storage(&self.confidential_storage),
        };
        assert(copy@ =~= self@);
        copy
    }

    /// Whether two records have the same contents.
    pub fn same(&self, other: &Self) -> (same: bool)
        ensures
            same == (self@ == other@),
    {
        same_text(self.volume_type.as_str(), other.volume_type.as_str()) && same_text(
            self.device.as_str(),
            other.device.as_str(),
        ) && same_text(self.fs_type.as_str(), other.fs_type.as_str())
            && self.metadata.same_contents(&other.metadata) && same_texts(
            &self.options,
            &other.options,
        ) && same_confidential_storage(&self.confidential_storage, &other.confidential_storage)
    }
}

fn same_confidential_storage(
    left: &Option<ConfidentialStorage>,
    right: &Option<ConfidentialStorage>,
) -> (same: bool)
    ensures
        same == match (*left, *right) {
            (Some(left), Some(right)) => left@ == right@,
            (None, None) => true,
            _ => false,
        },
{
    match left {
        Some(left) => match right {
            Some(right) => same_text(left.manifest_uri.as_str(), right.manifest_uri.as_str())
                && left.requested_access == right.requested_access,
            None => false,
        },
        None => right.is_none(),
    }
}

/// Why a confidential direct volume is refused.
#[derive(Debug)]
pub enum DirectVolumeError {
    /// The mount has no source.
    MissingSource,
    /// The volume has no mount.
    GetMount(String),
    /// The volume has not exactly one mount.
    MountCount,
    /// The volume has no storage request.
    GetStorage(String),
    /// The volume has not exactly one storage request that is confidential.
    StorageCount,
    /// A later mount has another record.
    ChangedMetadata,
    /// A later mount has another source.
    ChangedSource,
    /// A later mount is of another type.
    ChangedType,
    /// A later mount has other options.
    ChangedOptions,
    /// A later mount is for another access.
    ChangedAccess,
    /// A later mount has a destination that was there before.
    DuplicateDestination,
}

impl DirectVolumeError {
    /// The text of the message for this error.
    pub open spec fn text(&self) -> Seq<char> {
        match self {
            DirectVolumeError::MissingSource =>
                "confidential direct volume mount source is missing"@,
            DirectVolumeError::GetMount(reason) => "get confidential direct volume mount: "@
                + reason@,
            DirectVolumeError::MountCount =>
                "confidential direct volume must produce exactly one initial mount"@,
            DirectVolumeError::GetStorage(reason) => "get confidential direct volume storage: "@
                + reason@,
            DirectVolumeError::StorageCount =>
                "confidential direct volume must produce exactly one typed Storage request"@,
            DirectVolumeError::ChangedMetadata =>
                "confidential direct volume aliases must preserve typed mount metadata"@,
            DirectVolumeError::ChangedSource =>
                "confidential direct volume aliases must preserve the host source"@,
            DirectVolumeError::ChangedType =>
                "confidential direct volume aliases must preserve the mount type"@,
            DirectVolumeError::ChangedOptions =>
                "confidential direct volume aliases must preserve mount options"@,
            DirectVolumeError::ChangedAccess =>
                "confidential direct volume aliases must preserve access intent"@,
            DirectVolumeError::DuplicateDestination =>
                "confidential direct volume contains a duplicate destination"@,
        }
    }

    /// The message for this error.
    pub fn message(&self) -> (message: String)
        ensures
            message@ == self.text(),
    {
        match self {
            DirectVolumeError::MissingSource => {
                "confidential direct volume mount source is missing".to_owned()
            },
            DirectVolumeError::GetMount(reason) => {
                let mut text = "get confidential direct volume mount: ".to_owned();
                text.append(reason.as_str());
                text
            },
            DirectVolumeError::MountCount => {
                "confidential direct volume must produce exactly one initial mount".to_owned()
            },
            DirectVolumeError::GetStorage(reason) => {
                let mut text = "get confidential direct volume storage: ".to_owned();
                text.append(reason.as_str());
                text
            },
            DirectVolumeError::StorageCount => {
                "confidential direct volume must produce exactly one typed Storage request".to_owned()
            },
            DirectVolumeError::ChangedMetadata => {
                "confidential direct volume aliases must preserve typed mount metadata".to_owned()
            },
            DirectVolumeError::ChangedSource => {
                "confidential direct volume aliases must preserve the host source".to_owned()
            },
            DirectVolumeError::ChangedType => {
                "confidential direct volume aliases must preserve the mount type".to_owned()
            },
            DirectVolumeError::ChangedOptions => {
                "confidential direct volume aliases must preserve mount options".to_owned()
            },
            DirectVolumeError::ChangedAccess => {
                "confidential direct volume aliases must preserve access intent".to_owned()
            },
            DirectVolumeError::DuplicateDestination => {
                "confidential direct volume contains a duplicate destination".to_owned()
            },
        }
    }
}

/// One confidential direct volume can be mounted at several destinations in a
/// container. The first mount owns the single agent Storage request; later
/// mounts reuse its guest path without attaching or activating the device
/// again.
#[derive(Debug)]
pub struct ConfidentialDirectVolumeBinding {
    mount_info: DirectVolumeMountInfo,
    host_source: String,
    mount_type: String,
    mount_options: Option<Vec<String>>,
    read_only: bool,
    guest_mount: Mount,
    destinations: Vec<String>,
}

/// The contents of a [`ConfidentialDirectVolumeBinding`].
#[verifier::ext_equal]
pub struct BindingView {
    pub mount_info: MountInfoView,
    pub host_source: Seq<char>,
    pub mount_type: Seq<char>,
    pub mount_options: Option<Seq<Seq<char>>>,
    pub read_only: bool,
    pub guest_mount: MountView,
    pub destinations: Seq<Seq<char>>,
}

impl View for ConfidentialDirectVolumeBinding {
    type V = BindingView;

    closed spec fn view(&self) -> BindingView {
        BindingView {
            mount_info: self.mount_info@,
            host_source: self.host_source@,
            mount_type: self.mount_type@,
            mount_options: optional_texts(self.mount_options),
            read_only: self.read_only,
            guest_mount: self.guest_mount@,
            destinations: texts(self.destinations@),
        }
    }
}

fn copy_optional_texts(list: &Option<Vec<String>>) -> (copy: Option<Vec<String>>)
    ensures
        optional_texts(copy) == optional_texts(*list),
{
    match list {
        Some(list) => Some(copy_texts(list)),
        None => None,
    }
}

fn same_optional_texts(left: &Option<Vec<String>>, right: &Option<Vec<String>>) -> (same: bool)
    ensures
        same == (optional_texts(*left) == optional_texts(*right)),
{
    match left {
        Some(left) => match right {
            Some(right) => same_texts(left, right),
            None => false,
        },
        None => right.is_none(),
    }
}

fn copy_optional_text(text: &Option<String>) -> (copy: Option<String>)
    ensures
        copy == *text,
{
    match text {
        Some(text) => Some(text.clone()),
        None => None,
    }
}

/// Why a volume cannot be bound: what its mounts and its storage requests turned out to be.
pub open spec fn binding_fault(
    source: Option<Seq<char>>,
    mounts: Result<Vec<Mount>, String>,
    storages: Result<Vec<Storage>, String>,
) -> Option<DirectVolumeError> {
    if source is None {
        Some(DirectVolumeError::MissingSource)
    } else {
        match mounts {
            Err(reason) => Some(DirectVolumeError::GetMount(reason)),
            Ok(mounts) => if mounts@.len() != 1 {
                Some(DirectVolumeError::MountCount)
            } else {
                match storages {
                    Err(reason) => Some(DirectVolumeError::GetStorage(reason)),
                    Ok(storages) => if storages@.len() != 1
                        || storages@[0].confidential_storage is None {
                        Some(DirectVolumeError::StorageCount)
                    } else {
                        None
                    },
                }
            },
        }
    }
}

/// Why a later mount cannot reuse a volume.
pub open spec fn reuse_fault(
    binding: BindingView,
    m: Mount,
    mount_type: Seq<char>,
    mount_info: MountInfoView,
    read_only: bool,
) -> Option<DirectVolumeError> {
    if mount_info != binding.mount_info {
        Some(DirectVolumeError::ChangedMetadata)
    } else if !(optional_text(m.source) is Some && same_path(
        optional_text(m.source)->0,
        binding.host_source,
    )) {
        Some(DirectVolumeError::ChangedSource)
    } else if mount_type != binding.mount_type {
        Some(DirectVolumeError::ChangedType)
    } else if optional_texts(m.options) != binding.mount_options {
        Some(DirectVolumeError::ChangedOptions)
    } else if read_only != binding.read_only {
        Some(DirectVolumeError::ChangedAccess)
    } else if lists_path(binding.destinations, m.destination@) {
        Some(DirectVolumeError::DuplicateDestination)
    } else {
        None
    }
}

/// Whether a list holds a path, however it is written.
pub open spec fn lists_path(list: Seq<Seq<char>>, path: Seq<char>) -> bool {
    exists|i: int| 0 <= i < list.len() && same_path(#[trigger] list[i], path)
}

fn contains_path(list: &Vec<String>, path: &str) -> (found: bool)
    ensures
        found == lists_path(texts(list@), path@),
{
    let mut i: usize = 0;
    while i < list.len()
        invariant
            i <= list.len(),
            forall|j: int| 0 <= j < i ==> !same_path(#[trigger] texts(list@)[j], path@),
        decreases list.len() - i,
    {
        assert(texts(list@)[i as int] == list@[i as int]@);
        if paths_equal(list[i].as_str(), path) {
            return true;
        }
        i = i + 1;
    }
    false
}

impl ConfidentialDirectVolumeBinding {
    /// Binds a confidential direct volume to its first mount. `mounts` and `storages` are what the
    /// volume asks for, and `mount_type` is the type of the mount.
    pub fn new(
        m: &Mount,
        mount_type: &String,
        mount_info: &DirectVolumeMountInfo,
        read_only: bool,
        mounts: Result<Vec<Mount>, String>,
        storages: Result<Vec<Storage>, String>,
    ) -> (result: Result<Self, DirectVolumeError>)
        ensures
            match binding_fault(optional_text(m.source), mounts, storages) {
                Some(error) => result == Err::<Self, _>(error),
                None => result matches Ok(binding) && binding@ == (BindingView {
                    mount_info: mount_info@,
                    host_source: optional_text(m.source)->0,
                    mount_type: mount_type@,
                    mount_options: optional_texts(m.options),
                    read_only,
                    guest_mount: mounts->Ok_0@[0]@,
                    destinations: seq![m.destination@],
                }),
            },
    {
        let host_source = match &m.source {
            Some(source) => source.clone(),
            None => {
                return Err(DirectVolumeError::MissingSource);
            },
        };
        let mut mounts = match mounts {
            Ok(mounts) => mounts,
            Err(reason) => {
                return Err(DirectVolumeError::GetMount(reason));
            },
        };
        if mounts.len() != 1 {
            return Err(DirectVolumeError::MountCount);
        }
        match &storages {
            Ok(storages) => {
                if storages.len() != 1 || storages[0].confidential_storage.is_none() {
                    return Err(DirectVolumeError::StorageCount);
                }
            },
            Err(reason) => {
                return Err(DirectVolumeError::GetStorage(reason.clone()));
            },
        }
        let guest_mount = mounts.remove(0);
        let mut destinations: Vec<String> = Vec::new();
        destinations.push(m.destination.clone());
        assert(texts(destinations@) =~= seq![m.destination@]);
        Ok(
            ConfidentialDirectVolumeBinding {
                mount_info: mount_info.copy(),
                host_source,
                mount_type: mount_type.clone(),
                mount_options: copy_optional_texts(&m.options),
                read_only,
                guest_mount,
                destinations,
            },
        )
    }

    /// Mounts the volume at one more destination. `mount_type` is the type of the mount.
    pub fn reuse(
        &mut self,
        m: &Mount,
        mount_type: &String,
        mount_info: &DirectVolumeMountInfo,
        read_only: bool,
    ) -> (result: Result<ConfidentialDirectVolumeAlias, DirectVolumeError>)
        ensures
            match reuse_fault(old(self)@, *m, mount_type@, mount_info@, read_only) {
                Some(error) => {
                    &&& result == Err::<ConfidentialDirectVolumeAlias, _>(error)
                    &&& final(self)@ == old(self)@
                },
                None => {
                    &&& result matches Ok(alias)
                    &&& alias@ == (MountView {
                        destination: m.destination@,
                        ..old(self)@.guest_mount
                    })
                    &&& final(self)@ == (BindingView {
                        destinations: old(self)@.destinations.push(m.destination@),
                        ..old(self)@
                    })
                },
            },
    {
        if !mount_info.same(&self.mount_info) {
            return Err(DirectVolumeError::ChangedMetadata);
        }
        let same_source = match &m.source {
            Some(source) => paths_equal(source.as_str(), self.host_source.as_str()),
            None => false,
        };
        if !same_source {
            return Err(DirectVolumeError::ChangedSource);
        }
        if !same_text(mount_type.as_str(), self.mount_type.as_str()) {
            return Err(DirectVolumeError::ChangedType);
        }
        if !same_optional_texts(&m.options, &self.mount_options) {
            return Err(DirectVolumeError::ChangedOptions);
        }
        if read_only != self.read_only {
            return Err(DirectVolumeError::ChangedAccess);
        }
        if contains_path(&self.destinations, m.destination.as_str()) {
            return Err(DirectVolumeError::DuplicateDestination);
        }
        self.destinations.push(m.destination.clone());
        assert(texts(self.destinations@) =~= old(self)@.destinations.push(m.destination@));
        let mount = Mount {
            destination: m.destination.clone(),
            typ: copy_optional_text(&self.guest_mount.typ),
            source: copy_optional_text(&self.guest_mount.source),
            options: copy_optional_texts(&self.guest_mount.options),
        };
        Ok(ConfidentialDirectVolumeAlias { mount })
    }
}

/// A further mount of a confidential direct volume.
#[derive(Debug)]
pub struct ConfidentialDirectVolumeAlias {
    mount: Mount,
}

impl View for ConfidentialDirectVolumeAlias {
    type V = MountView;

    closed spec fn view(&self) -> MountView {
        self.mount@
    }
}

impl ConfidentialDirectVolumeAlias {
    /// The mounts of the alias: one.
    pub fn get_volume_mount(&self) -> (mounts: Vec<Mount>)
        ensures
            mounts@.len() == 1,
            mounts@[0]@ == self@,
    {
        let mut mounts: Vec<Mount> = Vec::new();
        mounts.push(
            Mount {
                destination: self.mount.destination.clone(),
                typ: copy_optional_text(&self.mount.typ),
                source: copy_optional_text(&self.mount.source),
                options: copy_optional_texts(&self.mount.options),
            },
        );
        mounts
    }

    /// The storage requests of the alias: none.
    pub fn get_storage(&self) -> (storages: Vec<Storage>)
        ensures
            storages@.len() == 0,
    {
        Vec::new()
    }

    /// The device of the alias: none.
    pub fn get_device_id(&self) -> (id: Option<String>)
        ensures
            id is None,
    {
        None
    }
}

/// What holds of a binding at all times: its destinations all differ.
pub open spec fn destinations_differ(binding: BindingView) -> bool {
    forall|i: int, j: int|
        0 <= i < j < binding.destinations.len() ==> !same_path(
            #[trigger] binding.destinations[i],
            #[trigger] binding.destinations[j],
        )
}

/// No two mounts of a confidential direct volume have the same destination: a later mount that is
/// accepted keeps the destinations apart, and leaves everything else of the binding as it is.
pub proof fn law_destinations_stay_apart(
    binding: BindingView,
    m: Mount,
    mount_type: Seq<char>,
    mount_info: MountInfoView,
    read_only: bool,
)
    requires
        destinations_differ(binding),
        reuse_fault(binding, m, mount_type, mount_info, read_only) is None,
    ensures
        destinations_differ(
            BindingView {
                destinations: binding.destinations.push(m.destination@),
                ..binding
            },
        ),
        mount_info == binding.mount_info,
        read_only == binding.read_only,
{
}

/// How the volume type of a record is attached.
pub open spec fn volume_type_of(volume_type: Seq<char>) -> DirectVolumeType {
    if volume_type == KATA_SPDK_VOLUME_TYPE@ || volume_type == KATA_SPOOL_VOLUME_TYPE@ {
        DirectVolumeType::Spdk
    } else if volume_type == KATA_VFIO_VOLUME_TYPE@ {
        DirectVolumeType::Vfio
    } else {
        DirectVolumeType::RawBlock
    }
}

/// How the volume type of a record is attached.
pub fn to_volume_type(volume_type: &str) -> (kind: DirectVolumeType)
    ensures
        kind == volume_type_of(volume_type@),
{
    if same_text(volume_type, KATA_SPDK_VOLUME_TYPE) || same_text(
        volume_type,
        KATA_SPOOL_VOLUME_TYPE,
    ) {
        DirectVolumeType::Spdk
    } else if same_text(volume_type, KATA_VFIO_VOLUME_TYPE) {
        DirectVolumeType::Vfio
    } else {
        DirectVolumeType::RawBlock
    }
}

/// A step of attaching a direct volume.
#[derive(Clone, Copy, Debug, PartialEq, Eq, Structural)]
pub enum AttachStep {
    /// Attach the volume.
    Attach(DirectVolumeType),
    /// Record that the volume is used by the sandbox.
    Record,
    /// Bind the volume to its mount, for further destinations.
    Bind,
    /// Nothing: the volume is attached.
    Finished,
}

/// The step of attaching a direct volume after another. The first is that after none.
pub open spec fn attach_after(
    volume_type: Seq<char>,
    confidential: bool,
    done: Option<AttachStep>,
) -> AttachStep {
    match done {
        None => AttachStep::Attach(volume_type_of(volume_type)),
        Some(AttachStep::Attach(_)) => AttachStep::Record,
        Some(AttachStep::Record) => if confidential {
            AttachStep::Bind
        } else {
            AttachStep::Finished
        },
        Some(AttachStep::Bind) => AttachStep::Finished,
        Some(AttachStep::Finished) => AttachStep::Finished,
    }
}

/// Decides the steps of attaching a direct volume, until one fails. Only a confidential volume is
/// bound for further destinations.
pub fn handle_direct_volume(
    mount_info: &DirectVolumeMountInfo,
    confidential: bool,
    done: Option<AttachStep>,
) -> (next: AttachStep)
    ensures
        next == attach_after(mount_info.volume_type@, confidential, done),
{
    match done {
        None => AttachStep::Attach(to_volume_type(mount_info.volume_type.as_str())),
        Some(AttachStep::Attach(_)) => AttachStep::Record,
        Some(AttachStep::Record) => if confidential {
            AttachStep::Bind
        } else {
            AttachStep::Finished
        },
        Some(AttachStep::Bind) => AttachStep::Finished,
        Some(AttachStep::Finished) => AttachStep::Finished,
    }
}

/// Whether a mount is that of a direct volume, or what has to be found out first.
#[derive(Clone, Copy, Debug, PartialEq, Eq, Structural)]
pub enum DirectVolumeCheck {
    Yes,
    No,
    /// Look for a direct volume at the source of the mount.
    LookUp,
}

/// Whether a mount type can be that of a direct volume.
pub open spec fn may_be_direct(mount_type: Seq<char>) -> bool {
    ||| mount_type == KATA_MOUNT_BIND_TYPE@
    ||| mount_type == KATA_DIRECT_VOLUME_TYPE@
    ||| mount_type == KATA_VFIO_VOLUME_TYPE@
    ||| mount_type == KATA_SPDK_VOLUME_TYPE@
    ||| mount_type == KATA_SPOOL_VOLUME_TYPE@
}

/// Decides whether a mount of a given type is that of a direct volume. `found` is, once it has been
/// looked for, the mode of what is recorded for its source, if anything is.
pub fn is_direct_volume(mount_type: &str, found: Option<Option<u32>>) -> (check: DirectVolumeCheck)
    ensures
        check == if !may_be_direct(mount_type@) {
            DirectVolumeCheck::No
        } else {
            match found {
                None => DirectVolumeCheck::LookUp,
                Some(None) => DirectVolumeCheck::No,
                Some(Some(mode)) => if mode & S_IFMT == S_IFDIR {
                    DirectVolumeCheck::Yes
                } else {
                    DirectVolumeCheck::No
                },
            }
        },
{
    let direct = same_text(mount_type, KATA_MOUNT_BIND_TYPE) || same_text(
        mount_type,
        KATA_DIRECT_VOLUME_TYPE,
    ) || same_text(mount_type, KATA_VFIO_VOLUME_TYPE) || same_text(
        mount_type,
        KATA_SPDK_VOLUME_TYPE,
    ) || same_text(mount_type, KATA_SPOOL_VOLUME_TYPE);
    if !direct {
        return DirectVolumeCheck::No;
    }
    match found {
        None => DirectVolumeCheck::LookUp,
        Some(None) => DirectVolumeCheck::No,
        Some(Some(mode)) => {
            if file_type(mode) == S_IFDIR {
                DirectVolumeCheck::Yes
            } else {
                DirectVolumeCheck::No
            }
        },
    }
}

/// How a volume is first attached follows from its type alone: a VFIO volume as VFIO, a volume of
/// SPDK or of its pool as SPDK, and every other volume as a raw block device.
pub proof fn law_first_step_attaches_by_volume_type(
    mount_info: DirectVolumeMountInfo,
    confidential: bool,
    first: AttachStep,
    volume_type: &str,
    kind: DirectVolumeType,
)
    requires
        call_ensures(handle_direct_volume, (&mount_info, confidential, None), first),
        call_ensures(to_volume_type, (volume_type,), kind),
        volume_type@ == mount_info.volume_type@,
    ensures
        mount_info.volume_type@ == "vfiovol"@ ==> first == AttachStep::Attach(
            DirectVolumeType::Vfio,
        ),
        mount_info.volume_type@ == "spdkvol"@ ==> first == AttachStep::Attach(
            DirectVolumeType::Spdk,
        ),
        mount_info.volume_type@ == "spoolvol"@ ==> first == AttachStep::Attach(
            DirectVolumeType::Spdk,
        ),
        mount_info.volume_type@ != "vfiovol"@ && mount_info.volume_type@ != "spdkvol"@
            && mount_info.volume_type@ != "spoolvol"@ ==> first == AttachStep::Attach(
            DirectVolumeType::RawBlock,
        ),
        first == AttachStep::Attach(kind),
{
    reveal_strlit("vfiovol");
    reveal_strlit("spdkvol");
    reveal_strlit("spoolvol");
    assert("vfiovol"@[0] != "spdkvol"@[0]);
    assert("vfiovol"@[0] != "spoolvol"@[0]);
}

/// Attaching goes through its steps in order, each once: the volume is attached, its use is
/// recorded, a confidential volume and no other is bound for further destinations, and that is all.
pub proof fn law_attaching_goes_step_by_step(
    mount_info: DirectVolumeMountInfo,
    confidential: bool,
    first: AttachStep,
    second: AttachStep,
    third: AttachStep,
    fourth: AttachStep,
)
    requires
        call_ensures(handle_direct_volume, (&mount_info, confidential, None), first),
        call_ensures(handle_direct_volume, (&mount_info, confidential, Some(first)), second),
        call_ensures(handle_direct_volume, (&mount_info, confidential, Some(second)), third),
        call_ensures(handle_direct_volume, (&mount_info, confidential, Some(third)), fourth),
    ensures
        first is Attach,
        second is Record,
        confidential ==> third is Bind,
        !confidential ==> third is Finished,
        fourth is Finished,
{
}

/// A mount is that of a direct volume exactly where its type allows it and a directory is recorded
/// for its source. What is recorded is looked up only where the type allows it.
pub proof fn law_direct_volumes_are_recorded_directories(
    mount_type: &str,
    before: DirectVolumeCheck,
    found: Option<u32>,
    after: DirectVolumeCheck,
)
    requires
        call_ensures(is_direct_volume, (mount_type, None), before),
        call_ensures(is_direct_volume, (mount_type, Some(found)), after),
    ensures
        before is LookUp <==> {
            ||| mount_type@ == "bind"@
            ||| mount_type@ == "directvol"@
            ||| mount_type@ == "vfiovol"@
            ||| mount_type@ == "spdkvol"@
            ||| mount_type@ == "spoolvol"@
        },
        before is LookUp || before is No,
        after is Yes <==> before is LookUp && found is Some && found->0 & 0o170000 == 0o040000,
        after is Yes || after is No,
{
}

/// A volume is bound exactly where its mount has a source, and it asks for one mount and for one
/// storage, which is confidential. What is wrong is said of the first of these that fails.
pub proof fn law_binding_needs_one_mount_and_one_confidential_storage(
    m: Mount,
    mount_type: String,
    mount_info: DirectVolumeMountInfo,
    read_only: bool,
    mounts: Result<Vec<Mount>, String>,
    storages: Result<Vec<Storage>, String>,
    result: Result<ConfidentialDirectVolumeBinding, DirectVolumeError>,
)
    requires
        call_ensures(
            ConfidentialDirectVolumeBinding::new,
            (&m, &mount_type, &mount_info, read_only, mounts, storages),
            result,
        ),
    ensures
        result is Ok <==> {
            &&& m.source is Some
            &&& mounts is Ok
            &&& mounts->Ok_0@.len() == 1
            &&& storages is Ok
            &&& storages->Ok_0@.len() == 1
            &&& storages->Ok_0@[0].confidential_storage is Some
        },
        result is Err ==> match result->Err_0 {
            DirectVolumeError::MissingSource => m.source is None,
            DirectVolumeError::GetMount(reason) => {
                &&& m.source is Some
                &&& mounts == Err::<Vec<Mount>, _>(reason)
            },
            DirectVolumeError::MountCount => {
                &&& m.source is Some
                &&& mounts is Ok
                &&& mounts->Ok_0@.len() != 1
            },
            DirectVolumeError::GetStorage(reason) => {
                &&& m.source is Some
                &&& mounts is Ok
                &&& mounts->Ok_0@.len() == 1
                &&& storages == Err::<Vec<Storage>, _>(reason)
            },
            DirectVolumeError::StorageCount => {
                &&& m.source is Some
                &&& mounts is Ok
                &&& mounts->Ok_0@.len() == 1
                &&& storages is Ok
                &&& storages->Ok_0@.len() != 1 || storages->Ok_0@[0].confidential_storage is None
            },
            _ => false,
        },
{
}

/// Whether two records of direct volumes say the same, field by field.
pub open spec fn records_agree(left: DirectVolumeMountInfo, right: DirectVolumeMountInfo) -> bool {
    &&& left.volume_type@ == right.volume_type@
    &&& left.device@ == right.device@
    &&& left.fs_type@ == right.fs_type@
    &&& text_contents(left.metadata@) == text_contents(right.metadata@)
    &&& texts(left.options@) == texts(right.options@)
    &&& left.confidential_storage is Some <==> right.confidential_storage is Some
    &&& left.confidential_storage is Some ==> {
        &&& left.confidential_storage->0.manifest_uri@
            == right.confidential_storage->0.manifest_uri@
        &&& left.confidential_storage->0.requested_access
            == right.confidential_storage->0.requested_access
    }
}

/// Whether two optional lists of options say the same.
pub open spec fn options_agree(left: Option<Vec<String>>, right: Option<Vec<String>>) -> bool {
    &&& left is Some <==> right is Some
    &&& left is Some ==> texts(left->0@) == texts(right->0@)
}

/// A later mount reuses a volume exactly where it agrees with the first mount in everything but the
/// destination: record, source, type, options and access, and has another destination. What is
/// reported otherwise is the first of these, in this order, that does not hold. What it shows is
/// what the first mount showed, at the new destination. Nothing is attached or requested for it
/// again.
pub proof fn law_later_mounts_show_the_volume_of_the_first(
    first: Mount,
    later: Mount,
    mount_type: String,
    later_type: String,
    mount_info: DirectVolumeMountInfo,
    later_info: DirectVolumeMountInfo,
    read_only: bool,
    later_read_only: bool,
    mounts: Vec<Mount>,
    storages: Result<Vec<Storage>, String>,
    binding: &mut ConfidentialDirectVolumeBinding,
    result: Result<ConfidentialDirectVolumeAlias, DirectVolumeError>,
)
    requires
        call_ensures(
            ConfidentialDirectVolumeBinding::new,
            (&first, &mount_type, &mount_info, read_only, Ok(mounts), storages),
            Ok(*old(binding)),
        ),
        call_ensures(
            ConfidentialDirectVolumeBinding::reuse,
            (binding, &later, &later_type, &later_info, later_read_only),
            result,
        ),
    ensures
        result is Ok <==> {
            &&& records_agree(later_info, mount_info)
            &&& later.source is Some
            &&& same_path(later.source->0@, first.source->0@)
            &&& later_type@ == mount_type@
            &&& options_agree(later.options, first.options)
            &&& later_read_only == read_only
            &&& !same_path(first.destination@, later.destination@)
        },
        result is Err ==> match result->Err_0 {
            DirectVolumeError::ChangedMetadata => !records_agree(later_info, mount_info),
            DirectVolumeError::ChangedSource => {
                &&& records_agree(later_info, mount_info)
                &&& later.source is None || !same_path(later.source->0@, first.source->0@)
            },
            DirectVolumeError::ChangedType => {
                &&& records_agree(later_info, mount_info)
                &&& later.source is Some
                &&& same_path(later.source->0@, first.source->0@)
                &&& later_type@ != mount_type@
            },
            DirectVolumeError::ChangedOptions => {
                &&& records_agree(later_info, mount_info)
                &&& later.source is Some
                &&& same_path(later.source->0@, first.source->0@)
                &&& later_type@ == mount_type@
                &&& !options_agree(later.options, first.options)
            },
            DirectVolumeError::ChangedAccess => {
                &&& records_agree(later_info, mount_info)
                &&& later.source is Some
                &&& same_path(later.source->0@, first.source->0@)
                &&& later_type@ == mount_type@
                &&& options_agree(later.options, first.options)
                &&& later_read_only != read_only
            },
            DirectVolumeError::DuplicateDestination => {
                &&& records_agree(later_info, mount_info)
                &&& later.source is Some
                &&& same_path(later.source->0@, first.source->0@)
                &&& later_type@ == mount_type@
                &&& options_agree(later.options, first.options)
                &&& later_read_only == read_only
                &&& same_path(first.destination@, later.destination@)
            },
            _ => false,
        },
        result is Ok ==> forall|shown: Vec<Mount>, requested: Vec<Storage>, device: Option<String>|
            #![trigger call_ensures(
                ConfidentialDirectVolumeAlias::get_volume_mount,
                (&result->Ok_0,),
                shown,
            ), call_ensures(
                ConfidentialDirectVolumeAlias::get_storage,
                (&result->Ok_0,),
                requested,
            ), call_ensures(
                ConfidentialDirectVolumeAlias::get_device_id,
                (&result->Ok_0,),
                device,
            )]
            {
                &&& call_ensures(
                    ConfidentialDirectVolumeAlias::get_volume_mount,
                    (&result->Ok_0,),
                    shown,
                )
                &&& call_ensures(
                    ConfidentialDirectVolumeAlias::get_storage,
                    (&result->Ok_0,),
                    requested,
                )
                &&& call_ensures(
                    ConfidentialDirectVolumeAlias::get_device_id,
                    (&result->Ok_0,),
                    device,
                )
            } ==> {
                &&& shown@.len() == 1
                &&& shown@[0].destination@ == later.destination@
                &&& optional_text(shown@[0].source) == optional_text(mounts@[0].source)
                &&& optional_text(shown@[0].typ) == optional_text(mounts@[0].typ)
                &&& options_agree(shown@[0].options, mounts@[0].options)
                &&& requested@.len() == 0
                &&& device is None
            },
{
    let destinations = old(binding)@.destinations;
    assert(destinations =~= seq![first.destination@]);
    if same_path(first.destination@, later.destination@) {
        assert(same_path(destinations[0], later.destination@));
    }
    assert(records_agree(later_info, mount_info) <==> later_info@ == mount_info@) by {
        if records_agree(later_info, mount_info) {
            assert(later_info@ =~= mount_info@);
        }
    }
}

/// Every mount of a volume has a destination of its own. One that is accepted takes its destination
/// for good, so that no mount after it can have the same path. One that is refused leaves the
/// binding as it is.
pub proof fn law_no_destination_is_taken_twice(
    binding: &mut ConfidentialDirectVolumeBinding,
    afterwards: &mut ConfidentialDirectVolumeBinding,
    m: Mount,
    mount_type: String,
    mount_info: DirectVolumeMountInfo,
    read_only: bool,
    result: Result<ConfidentialDirectVolumeAlias, DirectVolumeError>,
    next: Mount,
    next_type: String,
    next_info: DirectVolumeMountInfo,
    next_read_only: bool,
    next_result: Result<ConfidentialDirectVolumeAlias, DirectVolumeError>,
)
    requires
        call_ensures(
            ConfidentialDirectVolumeBinding::reuse,
            (binding, &m, &mount_type, &mount_info, read_only),
            result,
        ),
        *old(afterwards) == *final(binding),
        call_ensures(
            ConfidentialDirectVolumeBinding::reuse,
            (afterwards, &next, &next_type, &next_info, next_read_only),
            next_result,
        ),
    ensures
        result is Ok && same_path(m.destination@, next.destination@) ==> next_result is Err,
        forall|i: int|
            0 <= i < old(binding)@.destinations.len() && same_path(
                #[trigger] old(binding)@.destinations[i],
                next.destination@,
            ) ==> next_result is Err,
        result is Err ==> final(binding)@ == old(binding)@,
{
    let taken = final(binding)@.destinations;
    if result is Ok {
        assert(taken.last() == m.destination@);
        assert(taken[taken.len() - 1] == m.destination@);
        assert forall|i: int| 0 <= i < old(binding)@.destinations.len() implies taken[i]
            == #[trigger] old(binding)@.destinations[i] by {}
    }
}

/// A copy of a record says the same as the record, and two records are the same exactly where they
/// agree in every field. A record that nothing is known of is empty.
pub proof fn law_records_are_compared_field_by_field(
    record: DirectVolumeMountInfo,
    copy: DirectVolumeMountInfo,
    other: DirectVolumeMountInfo,
    same: bool,
    none: DirectVolumeMountInfo,
)
    requires
        call_ensures(DirectVolumeMountInfo::copy, (&record,), copy),
        call_ensures(DirectVolumeMountInfo::same, (&record, &other), same),
        call_ensures(<DirectVolumeMountInfo as Default>::default, (), none),
    ensures
        records_agree(copy, record),
        same <==> records_agree(record, other),
        none.volume_type@.len() == 0,
        none.device@.len() == 0,
        none.fs_type@.len() == 0,
        none.metadata@.dom() == Set::<Seq<char>>::empty(),
        none.options@.len() == 0,
        none.confidential_storage is None,
{
    if records_agree(record, other) {
        assert(record@ =~= other@);
    }
    assert(none@.options.len() == none.options@.len());
    assert forall|key: Seq<char>| !none.metadata@.dom().contains(key) by {
        assert(text_contents(none.metadata@).dom().contains(key) <==> none.metadata@.dom().contains(
            key,
        ));
    }
    assert(none.metadata@.dom() =~= Set::<Seq<char>>::empty());
}

/// What is said of a refused direct volume: what it must give or keep, and the reason where there is one.
pub proof fn law_direct_volume_messages_tell_what_must_be_kept(
    error: DirectVolumeError,
    message: String,
)
    requires
        call_ensures(DirectVolumeError::message, (&error,), message),
    ensures
        message@ == match error {
            DirectVolumeError::MissingSource =>
                "confidential direct volume mount source is missing"@,
            DirectVolumeError::GetMount(reason) => "get confidential direct volume mount: "@
                + reason@,
            DirectVolumeError::MountCount =>
                "confidential direct volume must produce exactly one initial mount"@,
            DirectVolumeError::GetStorage(reason) => "get confidential direct volume storage: "@
                + reason@,
            DirectVolumeError::StorageCount =>
                "confidential direct volume must produce exactly one typed Storage request"@,
            DirectVolumeError::ChangedMetadata =>
                "confidential direct volume aliases must preserve typed mount metadata"@,
            DirectVolumeError::ChangedSource =>
                "confidential direct volume aliases must preserve the host source"@,
            DirectVolumeError::ChangedType =>
                "confidential direct volume aliases must preserve the mount type"@,
            DirectVolumeError::ChangedOptions =>
                "confidential direct volume aliases must preserve mount options"@,
            DirectVolumeError::ChangedAccess =>
                "confidential direct volume aliases must preserve access intent"@,
            DirectVolumeError::DuplicateDestination =>
                "confidential direct volume contains a duplicate destination"@,
        },
{
}

} // verus!
