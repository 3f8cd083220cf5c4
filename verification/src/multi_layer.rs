//! Groups of storages that are mounted together as the layers of one filesystem.

use vstd::prelude::*;

use crate::device::StorageError;
use crate::text::{
    lemma_lists_text_is_contains, list_contains, lists_text, same_text, same_texts, texts,
};
use crate::types::Storage;

verus! {

/// A storage request, and whether it is a layer of a multi-layer filesystem.
#[derive(Debug)]
pub struct ClassifiedStorage {
    pub storage: Storage,
    pub multi_layer: bool,
}

/// The mount points of the multi-layer storages among a list, each once, in order of appearance.
pub open spec fn group_mount_points(storages: Seq<ClassifiedStorage>) -> Seq<Seq<char>>
    decreases storages.len(),
{
    if storages.len() == 0 {
        Seq::empty()
    } else {
        let before = group_mount_points(storages.drop_last());
        let mount_point = storages.last().storage.mount_point@;
        if storages.last().multi_layer && !before.contains(mount_point) {
            before.push(mount_point)
        } else {
            before
        }
    }
}

/// Whether the first storage at a mount point, from a place on, is shared.
pub open spec fn shared_at(
    storages: Seq<ClassifiedStorage>,
    mount_point: Seq<char>,
    from: int,
) -> bool
    decreases storages.len() - from,
{
    if from < 0 || from >= storages.len() {
        false
    } else if storages[from].storage.mount_point@ == mount_point {
        storages[from].storage.shared
    } else {
        shared_at(storages, mount_point, from + 1)
    }
}

/// The filesystem that was mounted for a group.
#[derive(Debug)]
pub struct ErofsGroup {
    pub mount_point: String,
    pub processed_mount_points: Vec<String>,
    pub temp_mount_points: Vec<String>,
    pub verity_devices: Vec<String>,
}

/// Result of multi-layer storage handling
#[derive(Debug)]
pub struct MultiLayerProcessResult {
    /// The path of the primary device.
    pub path: Option<String>,
    /// All mount points that were processed as part of this group
    pub processed_mount_points: Vec<String>,
    /// Temporary mount points (upper/lower) backing the overlay, needed for
    /// container-scoped cleanup.
    pub temp_mount_points: Vec<String>,
    /// dm-verity device paths that need to be destroyed during cleanup
    pub verity_devices: Vec<String>,
}

/// How far the handling of a group has come.
#[derive(Debug)]
pub enum GroupPhase {
    /// The storages are claimed in order.
    Claiming,
    /// All storages are initialized by others, and are waited for in order. The path is that of
    /// the first.
    Waiting { ready: usize, path: Option<String> },
    /// All storages are to be initialized here: the filesystem is mounted.
    Building,
    /// The device is installed for the storages in order.
    Installing { built: ErofsGroup, installed: usize },
    /// The claims are to be marked as failed.
    Failing(StorageError),
    /// The group was mounted by others.
    Reused { path: Option<String> },
    /// The group has been mounted.
    Mounted(ErofsGroup),
    /// The handling has failed.
    Failed(StorageError),
}

/// What the handling of a group asks to be done next.
#[derive(Debug)]
pub enum GroupAction {
    /// Claim the storage at a mount point.
    Claim { mount_point: String, shared: bool },
    /// Wait until the claimed storage at a place of the group is ready.
    WaitUntilReady { place: usize },
    /// Mount the filesystem of the group.
    Build,
    /// Install a device with a path for the claimed storage at a place of the group.
    InstallDevice { place: usize, mount_point: String, path: String },
    /// Mark all claims as failed.
    FailClaims { reason: String },
    /// Nothing: the handling has come to an end.
    Finished,
}

/// What came of an action.
#[derive(Debug)]
pub enum GroupEvent {
    /// The storage is claimed, to be initialized here or by another owner.
    Claimed { initializer: bool },
    /// The storage is ready, with a device that may have a path.
    Ready { path: Option<String> },
    /// The filesystem is mounted.
    Built(ErofsGroup),
    /// The device is installed.
    Installed,
    /// The claims are marked as failed.
    ClaimsFailed,
    /// The action failed.
    Failed(String),
}

/// The handling of a group of multi-layer storages.
#[derive(Debug)]
pub struct MultiLayerGroup {
    mount_points: Vec<String>,
    shared: Vec<bool>,
    initializers: Vec<bool>,
    phase: GroupPhase,
}

/// The contents of a [`MultiLayerGroup`]: the mount points of the group and whether each is
/// shared, whether each claimed storage is to be initialized here, and the phase.
#[verifier::ext_equal]
pub struct GroupView {
    pub mount_points: Seq<Seq<char>>,
    pub shared: Seq<bool>,
    pub initializers: Seq<bool>,
    pub phase: GroupPhase,
}

impl View for MultiLayerGroup {
    type V = GroupView;

    closed spec fn view(&self) -> GroupView {
        GroupView {
            mount_points: texts(self.mount_points@),
            shared: self.shared@,
            initializers: self.initializers@,
            phase: self.phase,
        }
    }
}

/// Whether all claimed storages are to be initialized here.
pub open spec fn all_initializers(initializers: Seq<bool>) -> bool {
    forall|i: int| 0 <= i < initializers.len() ==> #[trigger] initializers[i]
}

/// Whether all claimed storages are initialized by others.
pub open spec fn no_initializers(initializers: Seq<bool>) -> bool {
    forall|i: int| 0 <= i < initializers.len() ==> !#[trigger] initializers[i]
}

/// What holds of a group at all times: the filesystem is mounted only where every storage has been
/// claimed to be initialized here, others are waited for only where none has, and what is
/// installed is the group that was claimed.
pub open spec fn group_fits(group: GroupView) -> bool {
    let count = group.mount_points.len();
    let claimed = group.initializers.len() == count;
    &&& group.shared.len() == count
    &&& match group.phase {
        GroupPhase::Claiming => group.initializers.len() < count,
        GroupPhase::Waiting { ready, .. } => ready < count && claimed && no_initializers(
            group.initializers,
        ),
        GroupPhase::Building => count > 0 && claimed && all_initializers(group.initializers),
        GroupPhase::Installing { built, installed } => {
            &&& installed < count
            &&& claimed
            &&& all_initializers(group.initializers)
            &&& texts(built.processed_mount_points@) == group.mount_points
        },
        GroupPhase::Reused { .. } => claimed && no_initializers(group.initializers),
        GroupPhase::Mounted(built) => {
            &&& claimed
            &&& all_initializers(group.initializers)
            &&& texts(built.processed_mount_points@) == group.mount_points
        },
        GroupPhase::Failing(error) => claimed,
        GroupPhase::Failed(_) => true,
    }
}

/// The phase that follows once all storages are claimed.
pub open spec fn phase_once_claimed(initializers: Seq<bool>) -> GroupPhase {
    if no_initializers(initializers) {
        GroupPhase::Waiting { ready: 0, path: None }
    } else if all_initializers(initializers) {
        GroupPhase::Building
    } else {
        GroupPhase::Failing(StorageError::MixedOwnership)
    }
}

/// A group as it is first seen among the storages of a request.
pub open spec fn group_of(storages: Seq<ClassifiedStorage>) -> GroupView {
    let mount_points = group_mount_points(storages);
    GroupView {
        mount_points,
        shared: Seq::new(
            mount_points.len(),
            |i: int| shared_at(storages, mount_points[i], 0),
        ),
        initializers: Seq::empty(),
        phase: if mount_points.len() == 0 {
            GroupPhase::Failed(StorageError::EmptyGroup)
        } else {
            GroupPhase::Claiming
        },
    }
}

/// The path of the primary device, from that of one more device that became ready.
pub open spec fn primary_path(
    ready: usize,
    path: Option<String>,
    next: Option<String>,
) -> Option<String> {
    if ready == 0 {
        next
    } else {
        path
    }
}

/// A group after an event. An event that was not asked for changes nothing. `mount_points` are
/// those of the group.
pub open spec fn group_after(
    group: GroupView,
    mount_points: Seq<String>,
    event: GroupEvent,
) -> GroupView {
    let count = group.mount_points.len();
    match (group.phase, event) {
        (GroupPhase::Claiming, GroupEvent::Claimed { initializer }) => {
            let initializers = group.initializers.push(initializer);
            GroupView {
                initializers,
                phase: if initializers.len() < count {
                    GroupPhase::Claiming
                } else {
                    phase_once_claimed(initializers)
                },
                ..group
            }
        },
        (GroupPhase::Claiming, GroupEvent::Failed(reason)) => GroupView {
            phase: GroupPhase::Failed(StorageError::Outside(reason)),
            ..group
        },
        (GroupPhase::Waiting { ready, path }, GroupEvent::Ready { path: next }) => GroupView {
            phase: if ready + 1 < count {
                GroupPhase::Waiting {
                    ready: (ready + 1) as usize,
                    path: primary_path(ready, path, next),
                }
            } else {
                GroupPhase::Reused { path: primary_path(ready, path, next) }
            },
            ..group
        },
        (GroupPhase::Waiting { ready, .. }, GroupEvent::Failed(reason)) => GroupView {
            phase: GroupPhase::Failed(
                StorageError::WaitGroup { mount_point: mount_points[ready as int], reason },
            ),
            ..group
        },
        (GroupPhase::Building, GroupEvent::Built(built)) => GroupView {
            phase: if texts(built.processed_mount_points@) != group.mount_points {
                GroupPhase::Failing(StorageError::GroupChanged)
            } else {
                GroupPhase::Installing { built, installed: 0 }
            },
            ..group
        },
        (GroupPhase::Building, GroupEvent::Failed(reason)) => GroupView {
            phase: GroupPhase::Failing(StorageError::Outside(reason)),
            ..group
        },
        (GroupPhase::Installing { built, installed }, GroupEvent::Installed) => GroupView {
            phase: if installed + 1 < count {
                GroupPhase::Installing { built, installed: (installed + 1) as usize }
            } else {
                GroupPhase::Mounted(built)
            },
            ..group
        },
        (GroupPhase::Installing { .. }, GroupEvent::Failed(reason)) => GroupView {
            phase: GroupPhase::Failed(StorageError::Outside(reason)),
            ..group
        },
        (GroupPhase::Failing(error), GroupEvent::ClaimsFailed) => GroupView {
            phase: GroupPhase::Failed(error),
            ..group
        },
        _ => group,
    }
}

/// Whether an action is what a group asks for. `mount_points` are those of the group.
pub open spec fn is_group_action(
    group: GroupView,
    mount_points: Seq<String>,
    action: GroupAction,
) -> bool {
    match group.phase {
        GroupPhase::Claiming => action == (GroupAction::Claim {
            mount_point: mount_points[group.initializers.len() as int],
            shared: group.shared[group.initializers.len() as int],
        }),
        GroupPhase::Waiting { ready, .. } => action == (GroupAction::WaitUntilReady {
            place: ready,
        }),
        GroupPhase::Building => action == GroupAction::Build,
        GroupPhase::Installing { built, installed } => action == (GroupAction::InstallDevice {
            place: installed,
            mount_point: mount_points[installed as int],
            path: built.mount_point,
        }),
        GroupPhase::Failing(error) => action matches GroupAction::FailClaims { reason }
            && reason@ == error.text(),
        GroupPhase::Reused { .. } => action == GroupAction::Finished,
        GroupPhase::Mounted(_) => action == GroupAction::Finished,
        GroupPhase::Failed(_) => action == GroupAction::Finished,
    }
}

/// Collects the mount points of the multi-layer storages among a list.
fn collect_mount_points(storages: &Vec<ClassifiedStorage>) -> (mount_points: Vec<String>)
    ensures
        texts(mount_points@) == group_mount_points(storages@),
{
    let mut mount_points: Vec<String> = Vec::new();
    let mut i: usize = 0;
    assert(storages@.take(0) =~= Seq::<ClassifiedStorage>::empty());
    assert(texts(mount_points@) =~= group_mount_points(storages@.take(0)));
    while i < storages.len()
        invariant
            i <= storages.len(),
            texts(mount_points@) == group_mount_points(storages@.take(i as int)),
        decreases storages.len() - i,
    {
        let ghost before = group_mount_points(storages@.take(i as int));
        let mount_point = &storages[i].storage.mount_point;
        proof {
            assert(storages@.take(i + 1).drop_last() =~= storages@.take(i as int));
            lemma_lists_text_is_contains(mount_points@, mount_point@);
        }
        if storages[i].multi_layer && !list_contains(&mount_points, mount_point.as_str()) {
            mount_points.push(mount_point.clone());
            assert(texts(mount_points@) =~= before.push(mount_point@));
        }
        i = i + 1;
    }
    assert(storages@.take(storages@.len() as int) =~= storages@);
    mount_points
}

/// Whether the first storage at a mount point is shared.
fn find_shared(storages: &Vec<ClassifiedStorage>, mount_point: &str) -> (shared: bool)
    ensures
        shared == shared_at(storages@, mount_point@, 0),
{
    let mut i: usize = 0;
    while i < storages.len()
        invariant
            i <= storages.len(),
            shared_at(storages@, mount_point@, 0) == shared_at(
                storages@,
                mount_point@,
                i as int,
            ),
        decreases storages.len() - i,
    {
        if same_text(storages[i].storage.mount_point.as_str(), mount_point) {
            return storages[i].storage.shared;
        }
        i = i + 1;
    }
    false
}

impl MultiLayerGroup {
    #[verifier::type_invariant]
    closed spec fn wf(&self) -> bool {
        group_fits(self@)
    }

    /// The mount points of the group.
    pub closed spec fn mount_points(&self) -> Seq<String> {
        self.mount_points@
    }

    /// Starts to handle the group of multi-layer storages of a request.
    pub fn start(storages: &Vec<ClassifiedStorage>) -> (group: Self)
        ensures
            group@ == group_of(storages@),
            texts(group.mount_points()) == group@.mount_points,
    {
        let mount_points = collect_mount_points(storages);
        let mut shared: Vec<bool> = Vec::new();
        let mut i: usize = 0;
        while i < mount_points.len()
            invariant
                i <= mount_points.len(),
                shared@.len() == i,
                texts(mount_points@) == group_mount_points(storages@),
                forall|j: int|
                    0 <= j < i ==> #[trigger] shared@[j] == shared_at(
                        storages@,
                        group_mount_points(storages@)[j],
                        0,
                    ),
            decreases mount_points.len() - i,
        {
            assert(texts(mount_points@)[i as int] == mount_points@[i as int]@);
            shared.push(find_shared(storages, mount_points[i].as_str()));
            i = i + 1;
        }
        let phase = if mount_points.len() == 0 {
            GroupPhase::Failed(StorageError::EmptyGroup)
        } else {
            GroupPhase::Claiming
        };
        assert(shared@ =~= group_of(storages@).shared);
        let group = MultiLayerGroup { mount_points, shared, initializers: Vec::new(), phase };
        assert(group@ =~= group_of(storages@));
        group
    }

    /// What is to be done next.
    pub fn action(&self) -> (action: GroupAction)
        ensures
            is_group_action(self@, self.mount_points(), action),
    {
        proof {
            use_type_invariant(self);
        }
        match &self.phase {
            GroupPhase::Claiming => {
                let place = self.initializers.len();
                GroupAction::Claim {
                    mount_point: self.mount_points[place].clone(),
                    shared: self.shared[place],
                }
            },
            GroupPhase::Waiting { ready, .. } => GroupAction::WaitUntilReady { place: *ready },
            GroupPhase::Building => GroupAction::Build,
            GroupPhase::Installing { built, installed } => GroupAction::InstallDevice {
                place: *installed,
                mount_point: self.mount_points[*installed].clone(),
                path: built.mount_point.clone(),
            },
            GroupPhase::Failing(error) => GroupAction::FailClaims { reason: error.message() },
            GroupPhase::Reused { .. } => GroupAction::Finished,
            GroupPhase::Mounted(_) => GroupAction::Finished,
            GroupPhase::Failed(_) => GroupAction::Finished,
        }
    }

    /// Takes note of what came of the action.
    pub fn report(self, event: GroupEvent) -> (next: Self)
        ensures
            next@ == group_after(self@, self.mount_points(), event),
            next.mount_points() == self.mount_points(),
    {
        proof {
            use_type_invariant(&self);
        }
        let MultiLayerGroup { mount_points, shared, initializers, phase } = self;
        let mut initializers = initializers;
        let count = mount_points.len();
        let phase = match phase {
            GroupPhase::Claiming => match event {
                GroupEvent::Claimed { initializer } => {
                    initializers.push(initializer);
                    if initializers.len() < count {
                        GroupPhase::Claiming
                    } else {
                        decide_ownership(&initializers)
                    }
                },
                GroupEvent::Failed(reason) => GroupPhase::Failed(StorageError::Outside(reason)),
                _ => GroupPhase::Claiming,
            },
            GroupPhase::Waiting { ready, path } => match event {
                GroupEvent::Ready { path: next } => {
                    let path = if ready == 0 {
                        next
                    } else {
                        path
                    };
                    if ready + 1 < count {
                        GroupPhase::Waiting { ready: ready + 1, path }
                    } else {
                        GroupPhase::Reused { path }
                    }
                },
                GroupEvent::Failed(reason) => GroupPhase::Failed(
                    StorageError::WaitGroup { mount_point: mount_points[ready].clone(), reason },
                ),
                _ => GroupPhase::Waiting { ready, path },
            },
            GroupPhase::Building => match event {
                GroupEvent::Built(built) => {
                    if same_texts(&built.processed_mount_points, &mount_points) {
                        GroupPhase::Installing { built, installed: 0 }
                    } else {
                        GroupPhase::Failing(StorageError::GroupChanged)
                    }
                },
                GroupEvent::Failed(reason) => GroupPhase::Failing(StorageError::Outside(reason)),
                _ => GroupPhase::Building,
            },
            GroupPhase::Installing { built, installed } => match event {
                GroupEvent::Installed => {
                    if installed + 1 < count {
                        GroupPhase::Installing { built, installed: installed + 1 }
                    } else {
                        GroupPhase::Mounted(built)
                    }
                },
                GroupEvent::Failed(reason) => GroupPhase::Failed(StorageError::Outside(reason)),
                _ => GroupPhase::Installing { built, installed },
            },
            GroupPhase::Failing(error) => match event {
                GroupEvent::ClaimsFailed => GroupPhase::Failed(error),
                _ => GroupPhase::Failing(error),
            },
            GroupPhase::Reused { path } => GroupPhase::Reused { path },
            GroupPhase::Mounted(built) => GroupPhase::Mounted(built),
            GroupPhase::Failed(error) => GroupPhase::Failed(error),
        };
        MultiLayerGroup { mount_points, shared, initializers, phase }
    }

    /// What the handling amounts to, once it has come to an end.
    pub fn finish(self) -> (outcome: Option<Result<MultiLayerProcessResult, StorageError>>)
        ensures
            match self@.phase {
                GroupPhase::Reused { path } => {
                    &&& outcome matches Some(Ok(result))
                    &&& result.path == path
                    &&& texts(result.processed_mount_points@) == self@.mount_points
                    &&& result.temp_mount_points@.len() == 0
                    &&& result.verity_devices@.len() == 0
                },
                GroupPhase::Mounted(built) => {
                    &&& outcome matches Some(Ok(result))
                    &&& result.path == Some(built.mount_point)
                    &&& result.processed_mount_points == built.processed_mount_points
                    &&& result.temp_mount_points == built.temp_mount_points
                    &&& result.verity_devices == built.verity_devices
                },
                GroupPhase::Failed(error) => outcome == Some(
                    Err::<MultiLayerProcessResult, _>(error),
                ),
                _ => outcome is None,
            },
    {
        let MultiLayerGroup { mount_points, shared, initializers, phase } = self;
        match phase {
            GroupPhase::Reused { path } => Some(
                Ok(
                    MultiLayerProcessResult {
                        path,
                        processed_mount_points: mount_points,
                        temp_mount_points: Vec::new(),
                        verity_devices: Vec::new(),
                    },
                ),
            ),
            GroupPhase::Mounted(built) => Some(
                Ok(
                    MultiLayerProcessResult {
                        path: Some(built.mount_point),
                        processed_mount_points: built.processed_mount_points,
                        temp_mount_points: built.temp_mount_points,
                        verity_devices: built.verity_devices,
                    },
                ),
            ),
            GroupPhase::Failed(error) => Some(Err(error)),
            _ => None,
        }
    }
}

/// Decides what to do with a group whose storages are all claimed.
fn decide_ownership(initializers: &Vec<bool>) -> (phase: GroupPhase)
    ensures
        phase == phase_once_claimed(initializers@),
{
    let mut any = false;
    let mut all = true;
    let mut i: usize = 0;
    while i < initializers.len()
        invariant
            i <= initializers.len(),
            any == exists|j: int| 0 <= j < i && #[trigger] initializers@[j],
            all == forall|j: int| 0 <= j < i ==> #[trigger] initializers@[j],
        decreases initializers.len() - i,
    {
        if initializers[i] {
            any = true;
        } else {
            all = false;
        }
        i = i + 1;
    }
    if !any {
        GroupPhase::Waiting { ready: 0, path: None }
    } else if all {
        GroupPhase::Building
    } else {
        GroupPhase::Failing(StorageError::MixedOwnership)
    }
}

/// Whether a storage starts the handling of its group: it is a layer, and its group has not been
/// handled yet.
pub open spec fn starts_group(storage: ClassifiedStorage, processed: Seq<String>) -> bool {
    storage.multi_layer && !lists_text(processed, storage.storage.mount_point@)
}

/// Starts to handle the multi-layer group of the storage at a place. There is nothing to handle
/// where the storage is no layer, or where it was handled as part of a previous group.
pub fn handle_multi_layer_storage(
    storages: &Vec<ClassifiedStorage>,
    place: usize,
    processed_mount_points: &Vec<String>,
) -> (group: Option<MultiLayerGroup>)
    requires
        place < storages.len(),
    ensures
        match group {
            Some(group) => {
                &&& starts_group(storages@[place as int], processed_mount_points@)
                &&& group@ == group_of(storages@)
                &&& texts(group.mount_points()) == group@.mount_points
                &&& group@.phase is Claiming
                &&& group@.mount_points.contains(storages@[place as int].storage.mount_point@)
            },
            None => !starts_group(storages@[place as int], processed_mount_points@),
        },
{
    let storage = &storages[place];
    if !storage.multi_layer {
        return None;
    }
    if list_contains(processed_mount_points, storage.storage.mount_point.as_str()) {
        return None;
    }
    proof {
        law_group_is_the_multi_layer_storages(storages@, place as int);
    }
    Some(MultiLayerGroup::start(storages))
}

/// The group of a request is made of the mount points of its multi-layer storages, each once: it
/// holds that of every multi-layer storage, and no other.
pub proof fn law_group_is_the_multi_layer_storages(storages: Seq<ClassifiedStorage>, place: int)
    requires
        0 <= place < storages.len(),
    ensures
        storages[place].multi_layer ==> group_mount_points(storages).contains(
            storages[place].storage.mount_point@,
        ),
        forall|mount_point: Seq<char>| #[trigger]
            group_mount_points(storages).contains(mount_point) ==> exists|i: int|
                0 <= i < storages.len() && #[trigger] storages[i].multi_layer
                    && storages[i].storage.mount_point@ == mount_point,
        group_mount_points(storages).no_duplicates(),
    decreases storages.len(),
{
    let shorter = storages.drop_last();
    let before = group_mount_points(shorter);
    let last = storages.last();
    let all = group_mount_points(storages);
    if shorter.len() > 0 {
        law_group_is_the_multi_layer_storages(
            shorter,
            if place < shorter.len() {
                place
            } else {
                0
            },
        );
    } else {
        assert(before =~= Seq::<Seq<char>>::empty());
    }
    if last.multi_layer && !before.contains(last.storage.mount_point@) {
        assert(all =~= before.push(last.storage.mount_point@));
        assert(all[all.len() - 1] == last.storage.mount_point@);
        if place < shorter.len() && storages[place].multi_layer {
            let mount_point = storages[place].storage.mount_point@;
            let i = choose|i: int| 0 <= i < before.len() && before[i] == mount_point;
            assert(all[i] == mount_point);
        }
    }
    assert forall|mount_point: Seq<char>| #[trigger] all.contains(mount_point) implies exists|
        i: int,
    |
        0 <= i < storages.len() && #[trigger] storages[i].multi_layer
            && storages[i].storage.mount_point@ == mount_point by {
        if before.contains(mount_point) {
            let i = choose|i: int|
                0 <= i < shorter.len() && #[trigger] shorter[i].multi_layer
                    && shorter[i].storage.mount_point@ == mount_point;
            assert(storages[i].multi_layer);
        } else {
            let k = choose|k: int| 0 <= k < all.len() && all[k] == mount_point;
            assert(k == all.len() - 1) by {
                if k < before.len() {
                    assert(before[k] == mount_point);
                }
            }
            assert(storages[storages.len() - 1].multi_layer);
        }
    }
}

/// What holds of a group at all times holds when its handling starts and after every event.
pub proof fn law_group_keeps_fitting(
    storages: Seq<ClassifiedStorage>,
    group: GroupView,
    mount_points: Seq<String>,
    event: GroupEvent,
)
    ensures
        group_fits(group_of(storages)),
        group_fits(group) ==> group_fits(group_after(group, mount_points, event)),
{
}

/// A group whose storages are partly initialized by others is neither mounted nor waited for: once
/// the last storage is claimed, all claims are marked as failed, and the handling ends in an error.
pub proof fn law_mixed_ownership_is_refused(
    group: GroupView,
    mount_points: Seq<String>,
    initializer: bool,
)
    requires
        group_fits(group),
        group.phase is Claiming,
        group.initializers.len() + 1 == group.mount_points.len(),
        !all_initializers(group.initializers.push(initializer)),
        !no_initializers(group.initializers.push(initializer)),
    ensures
        ({
            let claimed = group_after(
                group,
                mount_points,
                GroupEvent::Claimed { initializer },
            );
            let ended = group_after(claimed, mount_points, GroupEvent::ClaimsFailed);
            &&& claimed.phase == GroupPhase::Failing(StorageError::MixedOwnership)
            &&& ended.phase == GroupPhase::Failed(StorageError::MixedOwnership)
        }),
{
}

/// How many steps of the handling of a group are left at most.
pub open spec fn group_steps_left(group: GroupView) -> int {
    let count = group.mount_points.len() as int;
    match group.phase {
        GroupPhase::Claiming => count - group.initializers.len() + count + 2,
        GroupPhase::Waiting { ready, .. } => count - ready,
        GroupPhase::Building => count + 1,
        GroupPhase::Installing { installed, .. } => count - installed,
        GroupPhase::Failing(_) => 1,
        GroupPhase::Reused { .. } => 0,
        GroupPhase::Mounted(_) => 0,
        GroupPhase::Failed(_) => 0,
    }
}

/// The handling of a group comes to an end: every event that was asked for leaves fewer steps, and
/// none are left if and only if there is an outcome.
pub proof fn law_group_comes_to_an_end(
    group: GroupView,
    mount_points: Seq<String>,
    event: GroupEvent,
)
    requires
        group_fits(group),
        group.mount_points.len() <= usize::MAX,
    ensures
        ({
            let next = group_after(group, mount_points, event);
            next == group || 0 <= group_steps_left(next) < group_steps_left(group)
        }),
        group_steps_left(group) == 0 <==> (group.phase is Reused || group.phase is Mounted
            || group.phase is Failed),
{
}

/// The mount points of a group stand in the order in which the request names them first: more
/// storages at the end of a request add mount points at the end.
pub proof fn law_group_is_in_order_of_appearance(storages: Seq<ClassifiedStorage>, count: int)
    requires
        0 <= count <= storages.len(),
    ensures
        group_mount_points(storages.take(count)).is_prefix_of(group_mount_points(storages)),
    decreases storages.len(),
{
    if count == storages.len() {
        assert(storages.take(count) =~= storages);
    } else {
        let shorter = storages.drop_last();
        law_group_is_in_order_of_appearance(shorter, count);
        assert(shorter.take(count) =~= storages.take(count));
        assert(group_mount_points(shorter).is_prefix_of(group_mount_points(storages)));
    }
}

proof fn lemma_shared_at(
    storages: Seq<ClassifiedStorage>,
    mount_point: Seq<char>,
    from: int,
    first: int,
)
    requires
        0 <= from <= first < storages.len(),
        storages[first].storage.mount_point@ == mount_point,
        forall|i: int|
            from <= i < first ==> (#[trigger] storages[i]).storage.mount_point@ != mount_point,
    ensures
        shared_at(storages, mount_point, from) == storages[first].storage.shared,
    decreases first - from,
{
    if from < first {
        assert(storages[from].storage.mount_point@ != mount_point);
        lemma_shared_at(storages, mount_point, from + 1, first);
    }
}

/// The handling of a group starts at the first of its storages that comes up, and only there: it is
/// a layer, and was not handled with a group before. It asks to claim the mount points of the group
/// in their order, each as shared as the first storage of the request at that mount point.
pub proof fn law_a_group_is_claimed_layer_by_layer(
    storages: Vec<ClassifiedStorage>,
    place: usize,
    processed: Vec<String>,
    start: Option<MultiLayerGroup>,
    action: GroupAction,
    first: int,
)
    requires
        place < storages@.len(),
        call_ensures(handle_multi_layer_storage, (&storages, place, &processed), start),
        start is Some ==> call_ensures(MultiLayerGroup::action, (&start->0,), action),
    ensures
        start is Some <==> storages@[place as int].multi_layer && !lists_text(
            processed@,
            storages@[place as int].storage.mount_point@,
        ),
        start is Some ==> {
            let group = start->0;
            &&& texts(group.mount_points()) == group_mount_points(storages@)
            &&& group_fits(group@)
            &&& group@.mount_points == texts(group.mount_points())
            &&& group@.initializers.len() == 0
            &&& action is Claim
            &&& action->Claim_mount_point == group.mount_points()[0]
            &&& forall|i: int|
                0 <= i < group@.mount_points.len() && 0 <= first < storages@.len() && storages@[
                first].storage.mount_point@ == group@.mount_points[i] && (forall|j: int|
                    0 <= j < first ==> (#[trigger] storages@[j]).storage.mount_point@
                        != group@.mount_points[i]) ==> #[trigger] group@.shared[i]
                    == storages@[first].storage.shared
        },
{
    if start is Some {
        let group = start->0;
        let mount_points = group@.mount_points;
        assert forall|i: int|
            0 <= i < mount_points.len() && 0 <= first < storages@.len() && storages@[
            first].storage.mount_point@ == mount_points[i] && (forall|j: int|
                0 <= j < first ==> (#[trigger] storages@[j]).storage.mount_point@
                    != mount_points[i]) implies #[trigger] group@.shared[i]
            == storages@[first].storage.shared by {
            lemma_shared_at(storages@, mount_points[i], 0, first);
        }
        assert(group@.phase is Claiming);
    }
}

/// What follows once a storage of a group is claimed: the next is claimed, or, after the last, the
/// claims decide. Where all are to be initialized here, the filesystem is mounted; where none is,
/// the first is waited for; and where they differ, all claims are marked as failed.
pub proof fn law_claims_decide_about_a_group(
    group: MultiLayerGroup,
    action: GroupAction,
    initializer: bool,
    next: MultiLayerGroup,
    next_action: GroupAction,
)
    requires
        group_fits(group@),
        group@.mount_points == texts(group.mount_points()),
        call_ensures(MultiLayerGroup::action, (&group,), action),
        action is Claim,
        call_ensures(MultiLayerGroup::report, (group, GroupEvent::Claimed { initializer }), next),
        call_ensures(MultiLayerGroup::action, (&next,), next_action),
    ensures
        ({
            let claims = next@.initializers;
            let count = group.mount_points().len();
            &&& action->Claim_mount_point == group.mount_points()[group@.initializers.len() as int]
            &&& action->Claim_shared == group@.shared[group@.initializers.len() as int]
            &&& claims == group@.initializers.push(initializer)
            &&& next.mount_points() == group.mount_points()
            &&& claims.len() < count ==> {
                &&& next_action is Claim
                &&& next_action->Claim_mount_point == group.mount_points()[claims.len() as int]
            }
            &&& claims.len() == count ==> {
                &&& next_action is Build <==> forall|i: int|
                    0 <= i < claims.len() ==> #[trigger] claims[i]
                &&& next_action is WaitUntilReady <==> forall|i: int|
                    0 <= i < claims.len() ==> !#[trigger] claims[i]
                &&& next_action is WaitUntilReady ==> next_action->WaitUntilReady_place == 0
                &&& !(next_action is Build) && !(next_action is WaitUntilReady) ==> {
                    &&& next_action is FailClaims
                    &&& next_action->FailClaims_reason@
                        == "multi-layer storage group has mixed initialized and uninitialized ownership"@
                }
            }
        }),
{
    let claims = group@.initializers.push(initializer);
    assert(claims[claims.len() - 1] == initializer);
    assert(claims.len() > 0);
    if no_initializers(claims) {
        assert(!claims[0]);
    }
    if all_initializers(claims) {
        assert(claims[0]);
    }
}

/// A group that others initialize is waited for storage by storage, in order. Once all are ready, it
/// is reused as it is: with the path of the first of them, without anything mounted here.
pub proof fn law_a_reused_group_is_waited_for_in_order(
    group: MultiLayerGroup,
    action: GroupAction,
    event: GroupEvent,
    next: MultiLayerGroup,
    next_action: GroupAction,
    outcome: Option<Result<MultiLayerProcessResult, StorageError>>,
)
    requires
        group_fits(group@),
        group@.mount_points == texts(group.mount_points()),
        group.mount_points().len() <= usize::MAX,
        call_ensures(MultiLayerGroup::action, (&group,), action),
        action is WaitUntilReady,
        call_ensures(MultiLayerGroup::report, (group, event), next),
        call_ensures(MultiLayerGroup::action, (&next,), next_action),
        call_ensures(MultiLayerGroup::finish, (next,), outcome),
    ensures
        ({
            let place = action->WaitUntilReady_place;
            let count = group.mount_points().len();
            &&& event is Ready && place + 1 < count ==> {
                &&& next_action is WaitUntilReady
                &&& next_action->WaitUntilReady_place == place + 1
                &&& outcome is None
                &&& place == 0 ==> next@.phase->Waiting_path == event->Ready_path
                &&& place > 0 ==> next@.phase->Waiting_path == group@.phase->Waiting_path
            }
            &&& event is Ready && place + 1 == count ==> {
                &&& next_action is Finished
                &&& outcome is Some
                &&& outcome->0 is Ok
                &&& texts(outcome->0->Ok_0.processed_mount_points@) == texts(group.mount_points())
                &&& outcome->0->Ok_0.temp_mount_points@.len() == 0
                &&& outcome->0->Ok_0.verity_devices@.len() == 0
                &&& place == 0 ==> outcome->0->Ok_0.path == event->Ready_path
                &&& place > 0 ==> outcome->0->Ok_0.path == group@.phase->Waiting_path
            }
            &&& event is Failed ==> {
                &&& next_action is Finished
                &&& outcome == Some(
                    Err::<MultiLayerProcessResult, _>(
                        StorageError::WaitGroup {
                            mount_point: group.mount_points()[place as int],
                            reason: event->Failed_0,
                        },
                    ),
                )
            }
        }),
{
}

/// A group that is initialized here is installed storage by storage, in order, with the path of the
/// filesystem that was mounted for it, and only if that is the filesystem of the group that was
/// claimed. Once all are installed, what was mounted is handed on as it is.
pub proof fn law_a_mounted_group_is_installed_in_order(
    group: MultiLayerGroup,
    action: GroupAction,
    event: GroupEvent,
    next: MultiLayerGroup,
    next_action: GroupAction,
    outcome: Option<Result<MultiLayerProcessResult, StorageError>>,
)
    requires
        group_fits(group@),
        group@.mount_points == texts(group.mount_points()),
        group.mount_points().len() <= usize::MAX,
        call_ensures(MultiLayerGroup::action, (&group,), action),
        call_ensures(MultiLayerGroup::report, (group, event), next),
        call_ensures(MultiLayerGroup::action, (&next,), next_action),
        call_ensures(MultiLayerGroup::finish, (next,), outcome),
    ensures
        ({
            let mount_points = group.mount_points();
            &&& action is Build && event is Built ==> if texts(
                event->Built_0.processed_mount_points@,
            ) == texts(mount_points) {
                &&& next@.phase is Installing
                &&& next@.phase->Installing_built == event->Built_0
                &&& next_action == (GroupAction::InstallDevice {
                    place: 0,
                    mount_point: mount_points[0],
                    path: event->Built_0.mount_point,
                })
            } else {
                &&& next_action is FailClaims
                &&& next_action->FailClaims_reason@
                    == "multi-layer storage group changed after lifecycle ownership was claimed"@
            }
            &&& action is Build && event is Failed ==> {
                &&& next_action is FailClaims
                &&& next_action->FailClaims_reason@ == event->Failed_0@
            }
            &&& action is InstallDevice ==> {
                &&& action->InstallDevice_mount_point
                    == mount_points[action->InstallDevice_place as int]
                &&& action->InstallDevice_path == group@.phase->Installing_built.mount_point
            }
            &&& action is InstallDevice && event is Installed && action->InstallDevice_place + 1
                < mount_points.len() ==> {
                &&& next_action is InstallDevice
                &&& next_action->InstallDevice_place == action->InstallDevice_place + 1
                &&& next_action->InstallDevice_mount_point
                    == mount_points[action->InstallDevice_place + 1]
                &&& next_action->InstallDevice_path == action->InstallDevice_path
                &&& next@.phase->Installing_built == group@.phase->Installing_built
            }
            &&& action is InstallDevice && event is Installed && action->InstallDevice_place + 1
                == mount_points.len() ==> {
                let built = group@.phase->Installing_built;
                &&& next_action is Finished
                &&& outcome is Some
                &&& outcome->0 is Ok
                &&& outcome->0->Ok_0.path == Some(action->InstallDevice_path)
                &&& texts(outcome->0->Ok_0.processed_mount_points@) == texts(mount_points)
                &&& outcome->0->Ok_0.temp_mount_points == built.temp_mount_points
                &&& outcome->0->Ok_0.verity_devices == built.verity_devices
            }
            &&& action is FailClaims && event is ClaimsFailed ==> {
                &&& next_action is Finished
                &&& outcome is Some
                &&& outcome->0 is Err
                &&& outcome->0->Err_0.text() == action->FailClaims_reason@
            }
            &&& (action is Claim || action is InstallDevice) && event is Failed ==> {
                &&& next_action is Finished
                &&& outcome == Some(
                    Err::<MultiLayerProcessResult, _>(StorageError::Outside(event->Failed_0)),
                )
            }
        }),
{
}

/// A group that is over stays over, and one that is told of something that it did not ask for stays
/// as it is.
pub proof fn law_a_group_heeds_only_what_it_asked_for(
    group: MultiLayerGroup,
    action: GroupAction,
    event: GroupEvent,
    next: MultiLayerGroup,
)
    requires
        group_fits(group@),
        group@.mount_points == texts(group.mount_points()),
        call_ensures(MultiLayerGroup::action, (&group,), action),
        call_ensures(MultiLayerGroup::report, (group, event), next),
        action is Finished || (event is Claimed && !(action is Claim)) || (event is Ready && !(
        action is WaitUntilReady)) || (event is Built && !(action is Build)) || (
        event is Installed && !(action is InstallDevice)) || (event is ClaimsFailed && !(
        action is FailClaims)),
    ensures
        next@ == group@,
        next.mount_points() == group.mount_points(),
{
}

} // verus!
