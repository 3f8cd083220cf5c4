//! Adding the storages of a request to the sandbox.

use vstd::prelude::*;

use crate::device::StorageError;
use crate::multi_layer::{ClassifiedStorage, MultiLayerProcessResult};
use crate::path::path_covers;
use crate::text::{copy_texts, lemma_lists_text_is_contains, list_contains, texts};
use crate::text_map::TextMap;
use crate::topology::{exports_plaintext, storage_exports_confidential_mount_root};

verus! {

/// How far the handling of the storages of a request has come. All but the last two speak of the
/// storage at the current place.
#[derive(Debug)]
pub enum RunPhase {
    /// Its multi-layer group is handled.
    Grouping,
    /// The verity devices of its group are recorded.
    RecordingVerity { devices: Vec<String> },
    /// It is claimed.
    Claiming,
    /// Another owner initializes it, and is waited for.
    Waiting,
    /// Its device is created.
    Creating,
    /// Its device is installed.
    Installing { path: Option<String> },
    /// Its claim is to be marked as failed.
    Failing(StorageError),
    /// All storages are handled.
    Finished,
    /// The handling has failed.
    Failed(StorageError),
}

/// What the handling of storages asks to be done next.
#[derive(Debug)]
pub enum RunAction {
    /// Handle the multi-layer group of the storage at a place.
    HandleMultiLayer { place: usize },
    /// Record verity devices for the container.
    RecordVerityDevices { cid: String, devices: Vec<String> },
    /// Claim the storage at a mount point.
    Claim { mount_point: String, shared: bool },
    /// Wait until the claimed storage is ready.
    WaitUntilReady,
    /// Have the handler of its driver create the device of the storage at a place.
    CreateDevice { place: usize },
    /// Install the device for the claimed storage.
    InstallDevice { mount_point: String },
    /// Mark the claim as failed.
    FailClaim { reason: String },
    /// Nothing: the handling has come to an end.
    Finished,
}

/// What came of an action.
#[derive(Debug)]
pub enum RunEvent {
    /// The multi-layer group is handled.
    GroupHandled(MultiLayerProcessResult),
    /// The verity devices are recorded.
    VerityRecorded,
    /// The storage is claimed, to be initialized here or by another owner.
    Claimed { initializer: bool },
    /// The storage is ready, with a device that may have a path.
    Ready { path: Option<String> },
    /// The device is created, and may have a path.
    Created { path: Option<String> },
    /// No handler manages the driver.
    NoHandler,
    /// The device is installed.
    Installed,
    /// The claim is marked as failed.
    ClaimFailed,
    /// The action failed.
    Failed(String),
}

/// The handling of the storages of a request, one after the other.
#[derive(Debug)]
pub struct StorageRun {
    storages: Vec<ClassifiedStorage>,
    cid: Option<String>,
    place: usize,
    processed: Vec<String>,
    mount_list: Vec<String>,
    phase: RunPhase,
}

/// The contents of a [`StorageRun`]: the place of the current storage, the mount points that were
/// handled in groups, the paths that were mounted, and the phase.
#[verifier::ext_equal]
pub struct RunView {
    pub place: int,
    pub processed: Seq<Seq<char>>,
    pub mount_list: Seq<Seq<char>>,
    pub phase: RunPhase,
}

impl View for StorageRun {
    type V = RunView;

    closed spec fn view(&self) -> RunView {
        RunView {
            place: self.place as int,
            processed: texts(self.processed@),
            mount_list: texts(self.mount_list@),
            phase: self.phase,
        }
    }
}

/// The first place, from one on, whose storage was not handled in a group.
pub open spec fn next_place(
    storages: Seq<ClassifiedStorage>,
    processed: Seq<Seq<char>>,
    from: int,
) -> int
    decreases storages.len() - from,
{
    if from < 0 || from >= storages.len() {
        storages.len() as int
    } else if processed.contains(storages[from].storage.mount_point@) {
        next_place(storages, processed, from + 1)
    } else {
        from
    }
}

/// A run that goes on with the storages from a place on.
pub open spec fn entered(
    storages: Seq<ClassifiedStorage>,
    processed: Seq<Seq<char>>,
    mount_list: Seq<Seq<char>>,
    from: int,
) -> RunView {
    let place = next_place(storages, processed, from);
    RunView {
        place,
        processed,
        mount_list,
        phase: if place >= storages.len() {
            RunPhase::Finished
        } else if storages[place].multi_layer {
            RunPhase::Grouping
        } else {
            RunPhase::Claiming
        },
    }
}

/// Paths with that of a device, where it has one.
pub open spec fn with_path(list: Seq<Seq<char>>, path: Option<String>) -> Seq<Seq<char>> {
    match path {
        Some(path) => if path@.len() > 0 {
            list.push(path@)
        } else {
            list
        },
        None => list,
    }
}

/// A run after an event. An event that was not asked for changes nothing.
pub open spec fn run_after(
    run: RunView,
    storages: Seq<ClassifiedStorage>,
    cid: Option<String>,
    event: RunEvent,
) -> RunView {
    let storage = storages[run.place].storage;
    match (run.phase, event) {
        (RunPhase::Grouping, RunEvent::GroupHandled(result)) => {
            // The primary mount point comes first, so that it is unmounted before the mounts that
            // it depends on.
            let mount_list = with_path(run.mount_list, result.path) + texts(
                result.temp_mount_points@,
            ) + texts(result.verity_devices@);
            let processed = run.processed + texts(result.processed_mount_points@);
            if cid is Some && result.verity_devices@.len() > 0 {
                RunView {
                    place: run.place,
                    processed,
                    mount_list,
                    phase: RunPhase::RecordingVerity { devices: result.verity_devices },
                }
            } else {
                entered(storages, processed, mount_list, run.place + 1)
            }
        },
        (RunPhase::RecordingVerity { .. }, RunEvent::VerityRecorded) => entered(
            storages,
            run.processed,
            run.mount_list,
            run.place + 1,
        ),
        (RunPhase::Claiming, RunEvent::Claimed { initializer }) => RunView {
            phase: if initializer {
                RunPhase::Creating
            } else {
                RunPhase::Waiting
            },
            ..run
        },
        (RunPhase::Waiting, RunEvent::Ready { path }) => entered(
            storages,
            run.processed,
            with_path(run.mount_list, path),
            run.place + 1,
        ),
        (RunPhase::Waiting, RunEvent::Failed(reason)) => RunView {
            phase: RunPhase::Failed(
                StorageError::WaitStorage { mount_point: storage.mount_point, reason },
            ),
            ..run
        },
        (RunPhase::Creating, RunEvent::Created { path }) => RunView {
            phase: RunPhase::Installing { path },
            ..run
        },
        (RunPhase::Creating, RunEvent::NoHandler) => RunView {
            phase: RunPhase::Failing(StorageError::NoHandler(storage.driver)),
            ..run
        },
        (RunPhase::Creating, RunEvent::Failed(reason)) => RunView {
            phase: RunPhase::Failing(StorageError::Outside(reason)),
            ..run
        },
        (RunPhase::Installing { path }, RunEvent::Installed) => entered(
            storages,
            run.processed,
            with_path(run.mount_list, path),
            run.place + 1,
        ),
        (RunPhase::Failing(error), RunEvent::ClaimFailed) => RunView {
            phase: RunPhase::Failed(error),
            ..run
        },
        (RunPhase::Grouping, RunEvent::Failed(reason)) => RunView {
            phase: RunPhase::Failed(StorageError::Outside(reason)),
            ..run
        },
        (RunPhase::Claiming, RunEvent::Failed(reason)) => RunView {
            phase: RunPhase::Failed(StorageError::Outside(reason)),
            ..run
        },
        (RunPhase::Installing { .. }, RunEvent::Failed(reason)) => RunView {
            phase: RunPhase::Failed(StorageError::Outside(reason)),
            ..run
        },
        _ => run,
    }
}

/// What holds of a run at all times: there is a current storage unless the run has come to an end,
/// and the storage is handled in a group or by itself, as it should be.
pub open spec fn run_fits(
    run: RunView,
    storages: Seq<ClassifiedStorage>,
    cid: Option<String>,
) -> bool {
    let apart = 0 <= run.place < storages.len() && !storages[run.place].multi_layer
        && !run.processed.contains(storages[run.place].storage.mount_point@);
    match run.phase {
        RunPhase::Grouping => {
            &&& 0 <= run.place < storages.len()
            &&& storages[run.place].multi_layer
            &&& !run.processed.contains(storages[run.place].storage.mount_point@)
        },
        RunPhase::RecordingVerity { devices } => {
            &&& 0 <= run.place < storages.len()
            &&& cid is Some
            &&& devices@.len() > 0
        },
        RunPhase::Claiming => apart,
        RunPhase::Waiting => apart,
        RunPhase::Creating => apart,
        RunPhase::Installing { .. } => apart,
        RunPhase::Failing(_) => apart,
        RunPhase::Finished => run.place == storages.len(),
        RunPhase::Failed(_) => 0 <= run.place < storages.len(),
    }
}

/// Whether an action is what a run asks for.
pub open spec fn is_run_action(
    run: RunView,
    storages: Seq<ClassifiedStorage>,
    cid: Option<String>,
    action: RunAction,
) -> bool {
    let storage = storages[run.place].storage;
    match run.phase {
        RunPhase::Grouping => action matches RunAction::HandleMultiLayer { place } && place
            == run.place,
        RunPhase::RecordingVerity { devices } => {
            &&& action matches RunAction::RecordVerityDevices { cid: recorded, devices: copied }
            &&& cid == Some(recorded)
            &&& copied@ == devices@
        },
        RunPhase::Claiming => action == (RunAction::Claim {
            mount_point: storage.mount_point,
            shared: storage.shared,
        }),
        RunPhase::Waiting => action == RunAction::WaitUntilReady,
        RunPhase::Creating => action matches RunAction::CreateDevice { place } && place
            == run.place,
        RunPhase::Installing { .. } => action == (RunAction::InstallDevice {
            mount_point: storage.mount_point,
        }),
        RunPhase::Failing(error) => action matches RunAction::FailClaim { reason } && reason@
            == error.text(),
        RunPhase::Finished => action == RunAction::Finished,
        RunPhase::Failed(_) => action == RunAction::Finished,
    }
}

proof fn lemma_next_place(storages: Seq<ClassifiedStorage>, processed: Seq<Seq<char>>, from: int)
    requires
        0 <= from <= storages.len(),
    ensures
        from <= next_place(storages, processed, from) <= storages.len(),
        next_place(storages, processed, from) < storages.len() ==> !processed.contains(
            storages[next_place(storages, processed, from)].storage.mount_point@,
        ),
        forall|i: int|
            from <= i < next_place(storages, processed, from) ==> processed.contains(
                #[trigger] storages[i].storage.mount_point@,
            ),
    decreases storages.len() - from,
{
    if from < storages.len() && processed.contains(storages[from].storage.mount_point@) {
        lemma_next_place(storages, processed, from + 1);
    }
}

/// Adds copies of texts to a list.
fn extend_texts(list: &mut Vec<String>, more: &Vec<String>)
    ensures
        texts(final(list)@) == texts(old(list)@) + texts(more@),
{
    let mut copy = copy_texts(more);
    list.append(&mut copy);
    assert(texts(list@) =~= texts(old(list)@) + texts(more@));
}

fn push_path(list: &mut Vec<String>, path: Option<String>)
    ensures
        texts(final(list)@) == with_path(texts(old(list)@), path),
{
    match path {
        Some(path) => {
            if path.as_str().unicode_len() > 0 {
                list.push(path);
                assert(texts(list@) =~= texts(old(list)@).push(path@));
            }
        },
        None => {},
    }
}

fn find_place(storages: &Vec<ClassifiedStorage>, processed: &Vec<String>, from: usize) -> (place:
    usize)
    requires
        from <= storages.len(),
    ensures
        place == next_place(storages@, texts(processed@), from as int),
{
    let mut place = from;
    while place < storages.len()
        invariant
            from <= place <= storages.len(),
            next_place(storages@, texts(processed@), from as int) == next_place(
                storages@,
                texts(processed@),
                place as int,
            ),
        decreases storages.len() - place,
    {
        proof {
            lemma_lists_text_is_contains(processed@, storages@[place as int].storage.mount_point@);
        }
        if !list_contains(processed, storages[place].storage.mount_point.as_str()) {
            return place;
        }
        place = place + 1;
    }
    place
}

impl StorageRun {
    #[verifier::type_invariant]
    closed spec fn wf(&self) -> bool {
        &&& run_fits(self@, self.storages@, self.cid)
        &&& self.place <= self.storages@.len()
    }

    /// The storages of the request.
    pub closed spec fn storages(&self) -> Seq<ClassifiedStorage> {
        self.storages@
    }

    /// The container that the storages are for.
    pub closed spec fn cid(&self) -> Option<String> {
        self.cid
    }

    fn enter(
        storages: Vec<ClassifiedStorage>,
        cid: Option<String>,
        from: usize,
        processed: Vec<String>,
        mount_list: Vec<String>,
    ) -> (run: Self)
        requires
            from <= storages.len(),
        ensures
            run@ == entered(
                storages@,
                texts(processed@),
                texts(mount_list@),
                from as int,
            ),
            run.storages() == storages@,
            run.cid() == cid,
    {
        let place = find_place(&storages, &processed, from);
        proof {
            lemma_next_place(storages@, texts(processed@), from as int);
        }
        let phase = if place >= storages.len() {
            RunPhase::Finished
        } else if storages[place].multi_layer {
            RunPhase::Grouping
        } else {
            RunPhase::Claiming
        };
        StorageRun { storages, cid, place, processed, mount_list, phase }
    }

    /// The storages of the request, by their places.
    pub fn requested(&self) -> (storages: &Vec<ClassifiedStorage>)
        ensures
            storages@ == self.storages(),
    {
        &self.storages
    }

    /// The mount points that were handled in groups.
    pub fn processed_mount_points(&self) -> (processed: &Vec<String>)
        ensures
            texts(processed@) == self@.processed,
    {
        &self.processed
    }

    /// What is to be done next.
    pub fn action(&self) -> (action: RunAction)
        ensures
            is_run_action(self@, self.storages(), self.cid(), action),
    {
        proof {
            use_type_invariant(self);
        }
        match &self.phase {
            RunPhase::Grouping => RunAction::HandleMultiLayer { place: self.place },
            RunPhase::RecordingVerity { devices } => match &self.cid {
                Some(cid) => RunAction::RecordVerityDevices {
                    cid: cid.clone(),
                    devices: copy_texts(devices),
                },
                None => RunAction::Finished,
            },
            RunPhase::Claiming => {
                let storage = &self.storages[self.place].storage;
                RunAction::Claim {
                    mount_point: storage.mount_point.clone(),
                    shared: storage.shared,
                }
            },
            RunPhase::Waiting => RunAction::WaitUntilReady,
            RunPhase::Creating => RunAction::CreateDevice { place: self.place },
            RunPhase::Installing { .. } => RunAction::InstallDevice {
                mount_point: self.storages[self.place].storage.mount_point.clone(),
            },
            RunPhase::Failing(error) => RunAction::FailClaim { reason: error.message() },
            RunPhase::Finished => RunAction::Finished,
            RunPhase::Failed(_) => RunAction::Finished,
        }
    }

    /// Takes note of what came of the action.
    pub fn report(self, event: RunEvent) -> (next: Self)
        ensures
            next@ == run_after(self@, self.storages(), self.cid(), event),
            next.storages() == self.storages(),
            next.cid() == self.cid(),
    {
        proof {
            use_type_invariant(&self);
        }
        let StorageRun { storages, cid, place, processed, mount_list, phase } = self;
        assert(place <= storages.len());
        let mut processed = processed;
        let mut mount_list = mount_list;
        let phase = match phase {
            RunPhase::Grouping => match event {
                RunEvent::GroupHandled(result) => {
                    extend_texts(&mut processed, &result.processed_mount_points);
                    push_path(&mut mount_list, result.path);
                    extend_texts(&mut mount_list, &result.temp_mount_points);
                    extend_texts(&mut mount_list, &result.verity_devices);
                    if cid.is_some() && result.verity_devices.len() > 0 {
                        RunPhase::RecordingVerity { devices: result.verity_devices }
                    } else {
                        return StorageRun::enter(storages, cid, place + 1, processed, mount_list);
                    }
                },
                RunEvent::Failed(reason) => RunPhase::Failed(StorageError::Outside(reason)),
                _ => RunPhase::Grouping,
            },
            RunPhase::RecordingVerity { devices } => match event {
                RunEvent::VerityRecorded => {
                    return StorageRun::enter(storages, cid, place + 1, processed, mount_list);
                },
                _ => RunPhase::RecordingVerity { devices },
            },
            RunPhase::Claiming => match event {
                RunEvent::Claimed { initializer } => {
                    if initializer {
                        RunPhase::Creating
                    } else {
                        RunPhase::Waiting
                    }
                },
                RunEvent::Failed(reason) => RunPhase::Failed(StorageError::Outside(reason)),
                _ => RunPhase::Claiming,
            },
            RunPhase::Waiting => match event {
                RunEvent::Ready { path } => {
                    push_path(&mut mount_list, path);
                    return StorageRun::enter(storages, cid, place + 1, processed, mount_list);
                },
                RunEvent::Failed(reason) => RunPhase::Failed(
                    StorageError::WaitStorage {
                        mount_point: storages[place].storage.mount_point.clone(),
                        reason,
                    },
                ),
                _ => RunPhase::Waiting,
            },
            RunPhase::Creating => match event {
                RunEvent::Created { path } => RunPhase::Installing { path },
                RunEvent::NoHandler => RunPhase::Failing(
                    StorageError::NoHandler(storages[place].storage.driver.clone()),
                ),
                RunEvent::Failed(reason) => RunPhase::Failing(StorageError::Outside(reason)),
                _ => RunPhase::Creating,
            },
            RunPhase::Installing { path } => match event {
                RunEvent::Installed => {
                    push_path(&mut mount_list, path);
                    return StorageRun::enter(storages, cid, place + 1, processed, mount_list);
                },
                RunEvent::Failed(reason) => RunPhase::Failed(StorageError::Outside(reason)),
                _ => RunPhase::Installing { path },
            },
            RunPhase::Failing(error) => match event {
                RunEvent::ClaimFailed => RunPhase::Failed(error),
                _ => RunPhase::Failing(error),
            },
            RunPhase::Finished => RunPhase::Finished,
            RunPhase::Failed(error) => RunPhase::Failed(error),
        };
        StorageRun { storages, cid, place, processed, mount_list, phase }
    }

    /// What the handling amounts to, once it has come to an end: the paths that were mounted.
    pub fn finish(self) -> (outcome: Option<Result<Vec<String>, StorageError>>)
        ensures
            match self@.phase {
                RunPhase::Finished => outcome matches Some(Ok(mount_list)) && texts(mount_list@)
                    == self@.mount_list,
                RunPhase::Failed(error) => outcome == Some(Err::<Vec<String>, _>(error)),
                _ => outcome is None,
            },
    {
        let StorageRun { storages, cid, place, processed, mount_list, phase } = self;
        match phase {
            RunPhase::Finished => Some(Ok(mount_list)),
            RunPhase::Failed(error) => Some(Err(error)),
            _ => None,
        }
    }
}

/// Starts to handle the storages of a request.
pub fn add_storages_inner(storages: Vec<ClassifiedStorage>, cid: Option<String>) -> (run:
    StorageRun)
    ensures
        run@ == entered(storages@, Seq::empty(), Seq::empty(), 0),
        run.storages() == storages@,
        run.cid() == cid,
{
    let processed: Vec<String> = Vec::new();
    let mount_list: Vec<String> = Vec::new();
    assert(texts(processed@) =~= Seq::<Seq<char>>::empty());
    StorageRun::enter(storages, cid, 0, processed, mount_list)
}

/// What holds of a run at all times holds when it starts and after every event.
pub proof fn law_run_keeps_fitting(
    run: RunView,
    storages: Seq<ClassifiedStorage>,
    cid: Option<String>,
    event: RunEvent,
)
    ensures
        run_fits(entered(storages, Seq::empty(), Seq::empty(), 0), storages, cid),
        run_fits(run, storages, cid) ==> run_fits(
            run_after(run, storages, cid, event),
            storages,
            cid,
        ),
{
    lemma_next_place(storages, Seq::empty(), 0);
    if run_fits(run, storages, cid) && run.place < storages.len() {
        lemma_next_place(storages, run.processed, run.place + 1);
        if event is GroupHandled {
            lemma_next_place(
                storages,
                run.processed + texts(event->GroupHandled_0.processed_mount_points@),
                run.place + 1,
            );
        }
    }
}

/// A run goes through the storages in order. It passes over a storage only where its mount point
/// was handled in a group, and what has been mounted or handled in a group stays on record.
pub proof fn law_run_handles_every_storage_in_order(
    run: RunView,
    storages: Seq<ClassifiedStorage>,
    cid: Option<String>,
    event: RunEvent,
)
    requires
        run_fits(run, storages, cid),
    ensures
        ({
            let next = run_after(run, storages, cid, event);
            &&& run.place <= next.place <= storages.len()
            &&& run.mount_list.is_prefix_of(next.mount_list)
            &&& run.processed.is_prefix_of(next.processed)
            &&& forall|i: int|
                run.place < i < next.place ==> next.processed.contains(
                    #[trigger] storages[i].storage.mount_point@,
                )
        }),
{
    if run.place < storages.len() {
        lemma_next_place(storages, run.processed, run.place + 1);
        if event is GroupHandled {
            lemma_next_place(
                storages,
                run.processed + texts(event->GroupHandled_0.processed_mount_points@),
                run.place + 1,
            );
        }
    }
}

/// How many steps of a run are left at most.
pub open spec fn run_steps_left(run: RunView, storages: Seq<ClassifiedStorage>) -> int {
    4 * (storages.len() - run.place) + match run.phase {
        RunPhase::Grouping => 3int,
        RunPhase::RecordingVerity { .. } => 1,
        RunPhase::Claiming => 3,
        RunPhase::Waiting => 1,
        RunPhase::Creating => 2,
        RunPhase::Installing { .. } => 1,
        RunPhase::Failing(_) => 1,
        RunPhase::Finished => 0,
        RunPhase::Failed(_) => 0,
    }
}

/// A run comes to an end: every event that was asked for leaves fewer steps.
pub proof fn law_run_comes_to_an_end(
    run: RunView,
    storages: Seq<ClassifiedStorage>,
    cid: Option<String>,
    event: RunEvent,
)
    requires
        run_fits(run, storages, cid),
    ensures
        ({
            let next = run_after(run, storages, cid, event);
            next == run || 0 <= run_steps_left(next, storages) < run_steps_left(run, storages)
        }),
{
    if run.place < storages.len() {
        lemma_next_place(storages, run.processed, run.place + 1);
        if event is GroupHandled {
            lemma_next_place(
                storages,
                run.processed + texts(event->GroupHandled_0.processed_mount_points@),
                run.place + 1,
            );
        }
    }
}

/// The mounts of a group come on record in the order in which they are to be unmounted: the primary
/// mount point before the mounts that it depends on, and those before the verity devices.
pub proof fn law_primary_mount_comes_first(
    run: RunView,
    storages: Seq<ClassifiedStorage>,
    cid: Option<String>,
    result: MultiLayerProcessResult,
    path: String,
)
    requires
        run.phase is Grouping,
        result.path == Some(path),
        path@.len() > 0,
    ensures
        run_after(run, storages, cid, RunEvent::GroupHandled(result)).mount_list
            == run.mount_list + seq![path@] + texts(result.temp_mount_points@) + texts(
            result.verity_devices@,
        ),
{
    assert(run.mount_list.push(path@) =~= run.mount_list + seq![path@]);
}

/// What a sandbox records of its containers.
#[derive(Debug)]
pub struct ContainerRecords {
    /// The containers whose storage references are yet to be cleaned up.
    pub pending_storage_cleanup: TextMap<()>,
    /// The verity devices of each container.
    pub container_verity_devices: TextMap<Vec<String>>,
}

/// The verity devices that are recorded for a container.
pub open spec fn recorded_devices(records: ContainerRecords, cid: Seq<char>) -> Seq<Seq<char>> {
    if records.container_verity_devices@.dom().contains(cid) {
        texts(records.container_verity_devices@[cid]@)
    } else {
        Seq::empty()
    }
}

impl ContainerRecords {
    /// No record.
    pub fn new() -> (records: Self)
        ensures
            records.pending_storage_cleanup@ == Map::<Seq<char>, ()>::empty(),
            records.container_verity_devices@ == Map::<Seq<char>, Vec<String>>::empty(),
    {
        ContainerRecords {
            pending_storage_cleanup: TextMap::new(),
            container_verity_devices: TextMap::new(),
        }
    }

    /// Records verity devices for a container, after those that it has already.
    pub fn record_verity_devices(&mut self, cid: String, devices: &Vec<String>)
        ensures
            recorded_devices(*final(self), cid@) == recorded_devices(*old(self), cid@) + texts(
                devices@,
            ),
            final(self).container_verity_devices@.remove(cid@)
                == old(self).container_verity_devices@.remove(cid@),
            final(self).container_verity_devices@.dom().contains(cid@),
            final(self).pending_storage_cleanup == old(self).pending_storage_cleanup,
    {
        let mut list = match self.container_verity_devices.remove(cid.as_str()) {
            Some(list) => list,
            None => Vec::new(),
        };
        assert(texts(list@) =~= recorded_devices(*old(self), cid@));
        extend_texts(&mut list, devices);
        self.container_verity_devices.insert(cid, list);
        assert(self.container_verity_devices@.remove(cid@) =~= old(
            self,
        ).container_verity_devices@.remove(cid@));
    }
}

/// How far a request to add storages has come.
#[derive(Debug)]
pub enum AddPhase {
    /// The contracts of the storages are checked in order.
    Validating { place: usize },
    /// The sandbox is asked whether it admits the request.
    Admitting,
    /// The current mounts are checked.
    CheckingTopology,
    /// The transaction is opened.
    Beginning,
    /// The storages are handled.
    Running,
    /// What was added is rolled back.
    RollingBack(StorageError),
    /// The storages are added, with the paths that were mounted.
    Added(Vec<String>),
    /// The request was refused before anything was done.
    Refused(StorageError),
    /// The request failed. What was added is rolled back, unless that failed too.
    RolledBack { error: StorageError, rollback: Result<(), String> },
}

/// What a request to add storages asks to be done next.
#[derive(Debug)]
pub enum AddAction {
    /// Check the confidential storage contract of the storage at a place.
    ValidateContract { place: usize },
    /// Have the sandbox admit the request.
    Admit { requests_confidential_storage: bool, requests_host_shared_plaintext_root: bool },
    /// Check the current mounts.
    CheckTopology,
    /// Open the storage transaction of the container.
    Begin,
    /// Handle the storages.
    Run,
    /// Clean up all storage references of the container.
    RollBack,
    /// Nothing: the request has come to an end.
    Finished,
}

/// What came of an action.
#[derive(Debug)]
pub enum AddEvent {
    /// The action is done.
    Done,
    /// The storages are handled, with the paths that were mounted.
    Added(Vec<String>),
    /// The action failed.
    Failed(String),
}

/// A request to add storages.
#[derive(Debug)]
pub struct AddStorages {
    cid: Option<String>,
    count: usize,
    confidential: bool,
    host_shared: bool,
    phase: AddPhase,
}

/// The contents of an [`AddStorages`]: the container, the number of storages, whether one of them
/// is confidential, whether one of them shares the plaintext root with the host, and the phase.
pub struct AddView {
    pub cid: Option<String>,
    pub count: int,
    pub confidential: bool,
    pub host_shared: bool,
    pub phase: AddPhase,
}

impl View for AddStorages {
    type V = AddView;

    closed spec fn view(&self) -> AddView {
        AddView {
            cid: self.cid,
            count: self.count as int,
            confidential: self.confidential,
            host_shared: self.host_shared,
            phase: self.phase,
        }
    }
}

/// The phase that follows once the contracts of the storages before a place are checked.
pub open spec fn validating_from(place: int, count: int) -> AddPhase {
    if place < count {
        AddPhase::Validating { place: place as usize }
    } else {
        AddPhase::Admitting
    }
}

/// A request as it is first seen.
pub open spec fn add_request(storages: Seq<ClassifiedStorage>, cid: Option<String>) -> AddView {
    AddView {
        cid,
        count: storages.len() as int,
        confidential: exists|i: int|
            0 <= i < storages.len() && #[trigger] storages[i].storage.confidential_storage is Some,
        host_shared: exists|i: int|
            0 <= i < storages.len() && #[trigger] exports_plaintext(storages[i].storage),
        phase: validating_from(0, storages.len() as int),
    }
}

/// A request after an event. An event that was not asked for changes nothing.
pub open spec fn request_after(request: AddView, event: AddEvent) -> AddView {
    let phase = match (request.phase, event) {
        (AddPhase::Validating { place }, AddEvent::Done) => validating_from(
            place + 1,
            request.count,
        ),
        (AddPhase::Admitting, AddEvent::Done) => if request.confidential {
            AddPhase::CheckingTopology
        } else {
            AddPhase::Beginning
        },
        (AddPhase::CheckingTopology, AddEvent::Done) => AddPhase::Beginning,
        (AddPhase::Beginning, AddEvent::Done) => AddPhase::Running,
        (AddPhase::Running, AddEvent::Added(mount_list)) => AddPhase::Added(mount_list),
        (AddPhase::Running, AddEvent::Failed(reason)) => AddPhase::RollingBack(
            StorageError::Outside(reason),
        ),
        (AddPhase::RollingBack(error), AddEvent::Done) => AddPhase::RolledBack {
            error,
            rollback: Ok(()),
        },
        (AddPhase::RollingBack(error), AddEvent::Failed(reason)) => AddPhase::RolledBack {
            error,
            rollback: Err(reason),
        },
        (AddPhase::Validating { .. }, AddEvent::Failed(reason)) => AddPhase::Refused(
            StorageError::Outside(reason),
        ),
        (AddPhase::Admitting, AddEvent::Failed(reason)) => AddPhase::Refused(
            StorageError::Outside(reason),
        ),
        (AddPhase::CheckingTopology, AddEvent::Failed(reason)) => AddPhase::Refused(
            StorageError::Outside(reason),
        ),
        (AddPhase::Beginning, AddEvent::Failed(reason)) => AddPhase::Refused(
            StorageError::Outside(reason),
        ),
        _ => request.phase,
    };
    AddView { phase, ..request }
}

/// The containers with pending cleanup after an event: that of the request is among them from the
/// moment its rollback starts until the rollback has succeeded.
pub open spec fn pending_after(
    request: AddView,
    pending: Map<Seq<char>, ()>,
    event: AddEvent,
) -> Map<Seq<char>, ()> {
    match request.cid {
        None => pending,
        Some(cid) => if request.phase is Running && event is Failed {
            pending.insert(cid@, ())
        } else if request.phase is RollingBack && event is Done {
            pending.remove(cid@)
        } else {
            pending
        },
    }
}

/// What a request asks for.
pub open spec fn request_action(request: AddView) -> AddAction {
    match request.phase {
        AddPhase::Validating { place } => AddAction::ValidateContract { place },
        AddPhase::Admitting => AddAction::Admit {
            requests_confidential_storage: request.confidential,
            requests_host_shared_plaintext_root: request.host_shared,
        },
        AddPhase::CheckingTopology => AddAction::CheckTopology,
        AddPhase::Beginning => AddAction::Begin,
        AddPhase::Running => AddAction::Run,
        AddPhase::RollingBack(_) => AddAction::RollBack,
        AddPhase::Added(_) => AddAction::Finished,
        AddPhase::Refused(_) => AddAction::Finished,
        AddPhase::RolledBack { .. } => AddAction::Finished,
    }
}

impl AddStorages {
    #[verifier::type_invariant]
    closed spec fn wf(&self) -> bool {
        self.phase matches AddPhase::Validating { place } ==> place < self.count
    }

    /// What is to be done next.
    pub fn action(&self) -> (action: AddAction)
        ensures
            action == request_action(self@),
    {
        match &self.phase {
            AddPhase::Validating { place } => AddAction::ValidateContract { place: *place },
            AddPhase::Admitting => AddAction::Admit {
                requests_confidential_storage: self.confidential,
                requests_host_shared_plaintext_root: self.host_shared,
            },
            AddPhase::CheckingTopology => AddAction::CheckTopology,
            AddPhase::Beginning => AddAction::Begin,
            AddPhase::Running => AddAction::Run,
            AddPhase::RollingBack(_) => AddAction::RollBack,
            AddPhase::Added(_) => AddAction::Finished,
            AddPhase::Refused(_) => AddAction::Finished,
            AddPhase::RolledBack { .. } => AddAction::Finished,
        }
    }

    /// Takes note of what came of the action.
    pub fn report(self, records: &mut ContainerRecords, event: AddEvent) -> (next: Self)
        ensures
            next@ == request_after(self@, event),
            final(records).pending_storage_cleanup@ == pending_after(
                self@,
                old(records).pending_storage_cleanup@,
                event,
            ),
            final(records).container_verity_devices == old(records).container_verity_devices,
    {
        proof {
            use_type_invariant(&self);
        }
        let AddStorages { cid, count, confidential, host_shared, phase } = self;
        let phase = match phase {
            AddPhase::Validating { place } => match event {
                AddEvent::Done => {
                    if place + 1 < count {
                        AddPhase::Validating { place: place + 1 }
                    } else {
                        AddPhase::Admitting
                    }
                },
                AddEvent::Failed(reason) => AddPhase::Refused(StorageError::Outside(reason)),
                _ => AddPhase::Validating { place },
            },
            AddPhase::Admitting => match event {
                AddEvent::Done => {
                    if confidential {
                        AddPhase::CheckingTopology
                    } else {
                        AddPhase::Beginning
                    }
                },
                AddEvent::Failed(reason) => AddPhase::Refused(StorageError::Outside(reason)),
                _ => AddPhase::Admitting,
            },
            AddPhase::CheckingTopology => match event {
                AddEvent::Done => AddPhase::Beginning,
                AddEvent::Failed(reason) => AddPhase::Refused(StorageError::Outside(reason)),
                _ => AddPhase::CheckingTopology,
            },
            AddPhase::Beginning => match event {
                AddEvent::Done => AddPhase::Running,
                AddEvent::Failed(reason) => AddPhase::Refused(StorageError::Outside(reason)),
                _ => AddPhase::Beginning,
            },
            AddPhase::Running => match event {
                AddEvent::Added(mount_list) => AddPhase::Added(mount_list),
                AddEvent::Failed(reason) => {
                    match &cid {
                        Some(cid) => {
                            records.pending_storage_cleanup.insert(cid.clone(), ());
                        },
                        None => {},
                    }
                    AddPhase::RollingBack(StorageError::Outside(reason))
                },
                _ => AddPhase::Running,
            },
            AddPhase::RollingBack(error) => match event {
                AddEvent::Done => {
                    match &cid {
                        Some(cid) => {
                            records.pending_storage_cleanup.remove(cid.as_str());
                        },
                        None => {},
                    }
                    AddPhase::RolledBack { error, rollback: Ok(()) }
                },
                AddEvent::Failed(reason) => AddPhase::RolledBack { error, rollback: Err(reason) },
                _ => AddPhase::RollingBack(error),
            },
            AddPhase::Added(mount_list) => AddPhase::Added(mount_list),
            AddPhase::Refused(error) => AddPhase::Refused(error),
            AddPhase::RolledBack { error, rollback } => AddPhase::RolledBack { error, rollback },
        };
        AddStorages { cid, count, confidential, host_shared, phase }
    }

    /// How far the request has come.
    pub fn into_phase(self) -> (phase: AddPhase)
        ensures
            phase == self@.phase,
    {
        self.phase
    }
}

/// Starts a request to add storages, for a container or for the sandbox. Every storage is checked
/// before anything is done, so that an invalid storage does not leave an earlier one mounted or
/// activated.
pub fn add_storages(storages: &Vec<ClassifiedStorage>, cid: Option<String>) -> (request: AddStorages)
    ensures
        request@ == add_request(storages@, cid),
{
    let mut confidential = false;
    let mut host_shared = false;
    let mut i: usize = 0;
    while i < storages.len()
        invariant
            i <= storages.len(),
            confidential == exists|j: int|
                0 <= j < i && #[trigger] storages@[j].storage.confidential_storage is Some,
            host_shared == exists|j: int|
                0 <= j < i && #[trigger] exports_plaintext(storages@[j].storage),
        decreases storages.len() - i,
    {
        let storage = &storages[i].storage;
        if storage.confidential_storage.is_some() {
            confidential = true;
        }
        if storage_exports_confidential_mount_root(storage) {
            host_shared = true;
        }
        i = i + 1;
    }
    let phase = if storages.len() == 0 {
        AddPhase::Admitting
    } else {
        AddPhase::Validating { place: 0 }
    };
    AddStorages { cid, count: storages.len(), confidential, host_shared, phase }
}

/// A transaction begins only once the request has been checked: the sandbox has admitted it and,
/// where a storage is confidential, the current mounts have been checked after that. It is
/// admitted only once the contract of every storage has been checked.
pub proof fn law_request_is_checked_before_it_begins(request: AddView, event: AddEvent)
    ensures
        ({
            let next = request_after(request, event).phase;
            &&& next is Beginning && !(request.phase is Beginning) ==> event is Done
                && if request.confidential {
                request.phase is CheckingTopology
            } else {
                request.phase is Admitting || request.phase is CheckingTopology
            }
            &&& next is CheckingTopology && !(request.phase is CheckingTopology) ==> event is Done
                && request.phase is Admitting
            &&& next is Admitting && !(request.phase is Admitting) ==> event is Done
                && request.phase is Validating && request.phase->Validating_place + 1
                >= request.count
            &&& next is Running && !(request.phase is Running) ==> event is Done
                && request.phase is Beginning
        }),
{
}

/// A failed rollback stays discoverable: the container is among those with pending cleanup as long
/// as the rollback has not succeeded. A request that is refused leaves those as they are.
pub proof fn law_failed_rollback_stays_pending(
    request: AddView,
    pending: Map<Seq<char>, ()>,
    event: AddEvent,
    cid: String,
)
    requires
        request.cid == Some(cid),
    ensures
        ({
            let next = request_after(request, event);
            let after = pending_after(request, pending, event);
            &&& next.phase is RollingBack && !(request.phase is RollingBack)
                ==> after.dom().contains(cid@)
            &&& request.phase is RollingBack && pending.dom().contains(cid@) && !(event is Done)
                ==> after.dom().contains(cid@)
            &&& request.phase is RollingBack && event is Done ==> !after.dom().contains(cid@)
            &&& next.phase is Refused ==> after == pending
            &&& next.phase is Added ==> after == pending
        }),
{
}

/// How many steps of a request are left at most.
pub open spec fn request_steps_left(request: AddView) -> int {
    match request.phase {
        AddPhase::Validating { place } => request.count - place + 5,
        AddPhase::Admitting => 5,
        AddPhase::CheckingTopology => 4,
        AddPhase::Beginning => 3,
        AddPhase::Running => 2,
        AddPhase::RollingBack(_) => 1,
        AddPhase::Added(_) => 0,
        AddPhase::Refused(_) => 0,
        AddPhase::RolledBack { .. } => 0,
    }
}

/// A request comes to an end: every event that was asked for leaves fewer steps.
pub proof fn law_request_comes_to_an_end(request: AddView, event: AddEvent)
    requires
        request.phase is Validating ==> request.phase->Validating_place < request.count
            <= usize::MAX,
    ensures
        ({
            let next = request_after(request, event);
            next == request || 0 <= request_steps_left(next) < request_steps_left(request)
        }),
{
}

/// Whether a request, told of an event, becomes another.
pub open spec fn request_follows(
    before: AddStorages,
    event: AddEvent,
    after: AddStorages,
) -> bool {
    exists|records: &mut ContainerRecords| #[trigger]
        call_ensures(AddStorages::report, (before, records, event), after)
}

/// Whether requests, the events that they were told of and the actions that they asked for make up
/// the course of one request to add storages, from its start on.
pub open spec fn is_course(
    storages: Vec<ClassifiedStorage>,
    cid: Option<String>,
    requests: Seq<AddStorages>,
    events: Seq<AddEvent>,
    actions: Seq<AddAction>,
) -> bool {
    &&& requests.len() == events.len() + 1
    &&& actions.len() == requests.len()
    &&& call_ensures(add_storages, (&storages, cid), requests[0])
    &&& forall|i: int|
        0 <= i < events.len() ==> request_follows(
            requests[i],
            #[trigger] events[i],
            requests[i + 1],
        )
    &&& forall|i: int|
        0 <= i < actions.len() ==> call_ensures(
            AddStorages::action,
            (&requests[i],),
            #[trigger] actions[i],
        )
}

/// Whether an action was asked for before a point of a course and was done.
pub open spec fn was_done(
    events: Seq<AddEvent>,
    actions: Seq<AddAction>,
    action: AddAction,
    before: int,
) -> bool {
    exists|k: int|
        0 <= k < before && #[trigger] actions[k] == action && events[k] is Done
}

/// Whether a storage of a request is confidential.
pub open spec fn some_storage_is_confidential(storages: Seq<ClassifiedStorage>) -> bool {
    exists|i: int|
        0 <= i < storages.len() && #[trigger] storages[i].storage.confidential_storage is Some
}

/// Whether a storage of a request mounts a share of the host at or above the directory below which
/// confidential volumes are mounted in plaintext.
pub open spec fn some_storage_shares_the_plaintext_root(storages: Seq<ClassifiedStorage>) -> bool {
    exists|i: int|
        #![trigger storages[i]]
        {
            &&& 0 <= i < storages.len()
            &&& path_covers(
                storages[i].storage.mount_point@,
                "/run/kata-containers/shared/containers/confidential"@,
            )
            &&& {
                ||| storages[i].storage.driver@ == "virtio-fs"@
                ||| storages[i].storage.fstype@ == "virtiofs"@
                ||| storages[i].storage.fstype@ == "fuse.virtiofs"@
                ||| storages[i].storage.fstype@ == "9p"@
                ||| storages[i].storage.source@ == "kataShared"@
            }
        }
}

/// How a request for storages is announced to the sandbox.
pub open spec fn announcement(storages: Seq<ClassifiedStorage>) -> AddAction {
    AddAction::Admit {
        requests_confidential_storage: some_storage_is_confidential(storages),
        requests_host_shared_plaintext_root: some_storage_shares_the_plaintext_root(storages),
    }
}

/// Whether the contracts of the storages before a place have been found to be in order before a
/// point of a course.
pub open spec fn were_validated(
    events: Seq<AddEvent>,
    actions: Seq<AddAction>,
    count: int,
    before: int,
) -> bool {
    forall|p: usize|
        p < count ==> #[trigger] was_done(
            events,
            actions,
            AddAction::ValidateContract { place: p },
            before,
        )
}

proof fn lemma_was_done_grows(
    events: Seq<AddEvent>,
    actions: Seq<AddAction>,
    action: AddAction,
    before: int,
    later: int,
)
    requires
        was_done(events, actions, action, before),
        before <= later,
    ensures
        was_done(events, actions, action, later),
{
    let k = choose|k: int|
        0 <= k < before && #[trigger] actions[k] == action && events[k] is Done;
    assert(actions[k] == action);
}

proof fn lemma_were_validated_grows(
    events: Seq<AddEvent>,
    actions: Seq<AddAction>,
    count: int,
    before: int,
    later: int,
)
    requires
        were_validated(events, actions, count, before),
        before <= later,
    ensures
        were_validated(events, actions, count, later),
{
    assert forall|p: usize| p < count implies #[trigger] was_done(
        events,
        actions,
        AddAction::ValidateContract { place: p },
        later,
    ) by {
        lemma_was_done_grows(
            events,
            actions,
            AddAction::ValidateContract { place: p },
            before,
            later,
        );
    }
}

proof fn lemma_request_is_announced(storages: Vec<ClassifiedStorage>, cid: Option<String>)
    ensures
        ({
            let request = add_request(storages@, cid);
            &&& request.confidential <==> some_storage_is_confidential(storages@)
            &&& request.host_shared <==> some_storage_shares_the_plaintext_root(storages@)
        }),
{
    let all = storages@;
    if some_storage_shares_the_plaintext_root(all) {
        let i = choose|i: int|
            #![trigger all[i]]
            {
                &&& 0 <= i < all.len()
                &&& path_covers(
                    all[i].storage.mount_point@,
                    "/run/kata-containers/shared/containers/confidential"@,
                )
                &&& {
                    ||| all[i].storage.driver@ == "virtio-fs"@
                    ||| all[i].storage.fstype@ == "virtiofs"@
                    ||| all[i].storage.fstype@ == "fuse.virtiofs"@
                    ||| all[i].storage.fstype@ == "9p"@
                    ||| all[i].storage.source@ == "kataShared"@
                }
            };
        assert(exports_plaintext(all[i].storage));
    }
    if add_request(all, cid).host_shared {
        let i = choose|i: int|
            0 <= i < all.len() && #[trigger] exports_plaintext(all[i].storage);
        assert(path_covers(
            all[i].storage.mount_point@,
            "/run/kata-containers/shared/containers/confidential"@,
        ));
    }
}

/// What has happened before a point of a course, from the phase that the request is in there.
spec fn phase_is_explained(
    storages: Seq<ClassifiedStorage>,
    events: Seq<AddEvent>,
    actions: Seq<AddAction>,
    phase: AddPhase,
    n: int,
) -> bool {
    let count = storages.len() as int;
    let admitted = was_done(events, actions, announcement(storages), n) && were_validated(
        events,
        actions,
        count,
        n,
    );
    let checked = admitted && (some_storage_is_confidential(storages) ==> was_done(
        events,
        actions,
        AddAction::CheckTopology,
        n,
    ));
    match phase {
        AddPhase::Validating { place } => place < count && were_validated(
            events,
            actions,
            place as int,
            n,
        ),
        AddPhase::Admitting => were_validated(events, actions, count, n),
        AddPhase::CheckingTopology => admitted && some_storage_is_confidential(storages),
        AddPhase::Beginning => checked,
        AddPhase::Running => checked && was_done(events, actions, AddAction::Begin, n),
        AddPhase::RollingBack(_) => checked && was_done(events, actions, AddAction::Begin, n),
        AddPhase::Added(_) => checked && was_done(events, actions, AddAction::Begin, n),
        AddPhase::RolledBack { .. } => checked && was_done(events, actions, AddAction::Begin, n),
        AddPhase::Refused(_) => true,
    }
}

proof fn lemma_course(
    storages: Vec<ClassifiedStorage>,
    cid: Option<String>,
    requests: Seq<AddStorages>,
    events: Seq<AddEvent>,
    actions: Seq<AddAction>,
    n: int,
)
    requires
        is_course(storages, cid, requests, events, actions),
        0 <= n < requests.len(),
    ensures
        ({
            let request = requests[n]@;
            &&& request.cid == cid
            &&& request.count == storages@.len()
            &&& request.confidential <==> some_storage_is_confidential(storages@)
            &&& request.host_shared <==> some_storage_shares_the_plaintext_root(storages@)
            &&& actions[n] == request_action(request)
            &&& phase_is_explained(storages@, events, actions, request.phase, n)
        }),
    decreases n,
{
    let all = storages@;
    assert(all.len() == storages.len());
    assert(call_ensures(AddStorages::action, (&requests[n],), actions[n]));
    lemma_request_is_announced(storages, cid);
    if n > 0 {
        let m = n - 1;
        lemma_course(storages, cid, requests, events, actions, m);
        assert(request_follows(requests[m], events[m], requests[m + 1]));
        let before = requests[m]@;
        let after = requests[n]@;
        assert(after == request_after(before, events[m]));
        let count = all.len() as int;
        assert(events[m] is Done ==> was_done(events, actions, actions[m], n)) by {
            assert(actions[m] == actions[m]);
        }
        assert forall|action: AddAction| #[trigger]
            was_done(events, actions, action, m) implies was_done(events, actions, action, n) by {
            lemma_was_done_grows(events, actions, action, m, n);
        }
        assert forall|p: int| #[trigger]
            were_validated(events, actions, p, m) implies were_validated(events, actions, p, n) by {
            lemma_were_validated_grows(events, actions, p, m, n);
        }
        match before.phase {
            AddPhase::Validating { place } => {
                if events[m] is Done {
                    assert(were_validated(events, actions, place as int, n));
                    assert forall|p: usize| p < place + 1 implies #[trigger] was_done(
                        events,
                        actions,
                        AddAction::ValidateContract { place: p },
                        n,
                    ) by {
                        if p == place {
                            assert(actions[m] == AddAction::ValidateContract { place: p });
                        }
                    }
                    assert(were_validated(events, actions, place + 1, n));
                }
            },
            _ => {},
        }
    }
}

/// A request to add storages is announced to the sandbox as it is: as confidential if and only if
/// one of its storages is, wherever it stands, and as sharing the plaintext root with the host if
/// and only if one of its storages does. The current mounts are checked only for a confidential
/// request. Nothing is begun before the contract of every storage has been found in order, the
/// sandbox has admitted the announced request and, where a storage is confidential, the current
/// mounts have been found in order. Storages are handled only after that, and rolled back only
/// after they have been begun.
pub proof fn law_every_storage_counts_before_anything_begins(
    storages: Vec<ClassifiedStorage>,
    cid: Option<String>,
    requests: Seq<AddStorages>,
    events: Seq<AddEvent>,
    actions: Seq<AddAction>,
    n: int,
)
    requires
        is_course(storages, cid, requests, events, actions),
        0 <= n < actions.len(),
    ensures
        actions[n] is Admit ==> actions[n] == (AddAction::Admit {
            requests_confidential_storage: exists|i: int|
                0 <= i < storages@.len()
                    && #[trigger] storages@[i].storage.confidential_storage is Some,
            requests_host_shared_plaintext_root: some_storage_shares_the_plaintext_root(
                storages@,
            ),
        }),
        forall|i: int|
            0 <= i < storages@.len() && #[trigger] storages@[i].storage.confidential_storage is Some
                && (actions[n] is Begin || actions[n] is Run || actions[n] is RollBack)
                ==> was_done(events, actions, AddAction::CheckTopology, n),
        actions[n] is CheckTopology ==> exists|i: int|
            0 <= i < storages@.len()
                && #[trigger] storages@[i].storage.confidential_storage is Some,
        actions[n] is CheckTopology || actions[n] is Begin || actions[n] is Run
            || actions[n] is RollBack ==> {
            &&& was_done(events, actions, announcement(storages@), n)
            &&& were_validated(events, actions, storages@.len() as int, n)
        },
        actions[n] is Admit ==> were_validated(events, actions, storages@.len() as int, n),
        actions[n] is Run || actions[n] is RollBack ==> was_done(
            events,
            actions,
            AddAction::Begin,
            n,
        ),
        requests[n]@.cid == cid,
{
    lemma_course(storages, cid, requests, events, actions, n);
    assert forall|i: int| 0 <= i < storages@.len()
        && #[trigger] storages@[i].storage.confidential_storage is Some implies
        some_storage_is_confidential(storages@) by {}
}

/// A request all of whose actions are done goes through all of them in order: the contracts from the
/// first storage to the last, the admission, the check of the current mounts where a storage is
/// confidential, the beginning, and the handling of the storages.
pub proof fn law_a_request_that_is_granted_is_carried_out(
    storages: Vec<ClassifiedStorage>,
    cid: Option<String>,
    requests: Seq<AddStorages>,
    events: Seq<AddEvent>,
    actions: Seq<AddAction>,
    n: int,
)
    requires
        is_course(storages, cid, requests, events, actions),
        forall|i: int| 0 <= i < events.len() ==> #[trigger] events[i] is Done,
        0 <= n < actions.len(),
    ensures
        ({
            let count = storages@.len() as int;
            let checks: int = if some_storage_is_confidential(storages@) {
                1
            } else {
                0
            };
            actions[n] == if n < count {
                AddAction::ValidateContract { place: n as usize }
            } else if n == count {
                announcement(storages@)
            } else if n < count + 1 + checks {
                AddAction::CheckTopology
            } else if n == count + 1 + checks {
                AddAction::Begin
            } else {
                AddAction::Run
            }
        }),
    decreases n,
{
    assert(storages@.len() == storages.len());
    lemma_request_is_announced(storages, cid);
    lemma_course(storages, cid, requests, events, actions, n);
    if n > 0 {
        let m = n - 1;
        law_a_request_that_is_granted_is_carried_out(
            storages,
            cid,
            requests,
            events,
            actions,
            m,
        );
        lemma_course(storages, cid, requests, events, actions, m);
        assert(events[m] is Done);
        assert(request_follows(requests[m], events[m], requests[m + 1]));
    }
}

/// A request that is refused at any check ends there, with the reason, and leaves the records as
/// they are.
pub proof fn law_refused_request_ends_without_a_trace(
    request: AddStorages,
    action: AddAction,
    records: &mut ContainerRecords,
    reason: String,
    next: AddStorages,
    next_action: AddAction,
    phase: AddPhase,
)
    requires
        call_ensures(AddStorages::action, (&request,), action),
        action is ValidateContract || action is Admit || action is CheckTopology
            || action is Begin,
        call_ensures(AddStorages::report, (request, records, AddEvent::Failed(reason)), next),
        call_ensures(AddStorages::action, (&next,), next_action),
        call_ensures(AddStorages::into_phase, (next,), phase),
    ensures
        next_action is Finished,
        phase == AddPhase::Refused(StorageError::Outside(reason)),
        final(records).pending_storage_cleanup@ == old(records).pending_storage_cleanup@,
        final(records).container_verity_devices == old(records).container_verity_devices,
{
}

/// A request whose storages were handled ends with the paths that were mounted. One whose handling
/// failed is rolled back: its container is among those with pending cleanup from then on, until the
/// rollback has succeeded, and stays among them where it fails. Either way the request ends with the
/// reason for which the handling failed.
pub proof fn law_failed_handling_is_rolled_back(
    request: AddStorages,
    action: AddAction,
    records: &mut ContainerRecords,
    event: AddEvent,
    next: AddStorages,
    next_action: AddAction,
    phase: AddPhase,
    afterwards: &mut ContainerRecords,
    rollback: AddEvent,
    last: AddStorages,
    last_phase: AddPhase,
)
    requires
        call_ensures(AddStorages::action, (&request,), action),
        action is Run,
        call_ensures(AddStorages::report, (request, records, event), next),
        call_ensures(AddStorages::action, (&next,), next_action),
        call_ensures(AddStorages::into_phase, (next,), phase),
        *old(afterwards) == *final(records),
        call_ensures(AddStorages::report, (next, afterwards, rollback), last),
        call_ensures(AddStorages::into_phase, (last,), last_phase),
    ensures
        event is Added ==> {
            &&& phase == AddPhase::Added(event->Added_0)
            &&& next_action is Finished
            &&& last_phase == phase
            &&& final(records).pending_storage_cleanup@
                == old(records).pending_storage_cleanup@
        },
        event is Failed ==> {
            &&& next_action is RollBack
            &&& request@.cid is Some ==> final(records).pending_storage_cleanup@ == old(
                records,
            ).pending_storage_cleanup@.insert(request@.cid->0@, ())
            &&& rollback is Done ==> {
                &&& last_phase == (AddPhase::RolledBack {
                    error: StorageError::Outside(event->Failed_0),
                    rollback: Ok(()),
                })
                &&& request@.cid is Some ==> final(afterwards).pending_storage_cleanup@ == old(
                    records,
                ).pending_storage_cleanup@.remove(request@.cid->0@)
            }
            &&& rollback is Failed ==> {
                &&& last_phase == (AddPhase::RolledBack {
                    error: StorageError::Outside(event->Failed_0),
                    rollback: Err(rollback->Failed_0),
                })
                &&& final(afterwards).pending_storage_cleanup@
                    == final(records).pending_storage_cleanup@
            }
        },
        request@.cid is None ==> final(afterwards).pending_storage_cleanup@ == old(
            records,
        ).pending_storage_cleanup@,
        final(afterwards).container_verity_devices == old(records).container_verity_devices,
{
    if event is Failed && rollback is Done && request@.cid is Some {
        let pending = old(records).pending_storage_cleanup@;
        let cid = request@.cid->0@;
        assert(pending.insert(cid, ()).remove(cid) =~= pending.remove(cid));
    }
}

/// Verity devices are added to those of their container and to no other's.
pub proof fn law_verity_devices_are_recorded_for_their_container(
    records: &mut ContainerRecords,
    cid: String,
    devices: Vec<String>,
    other: Seq<char>,
)
    requires
        call_ensures(ContainerRecords::record_verity_devices, (records, cid, &devices), ()),
        other != cid@,
    ensures
        ({
            let before = old(records).container_verity_devices@;
            let after = final(records).container_verity_devices@;
            &&& after.dom().contains(cid@)
            &&& before.dom().contains(cid@) ==> texts(after[cid@]@) == texts(before[cid@]@)
                + texts(devices@)
            &&& !before.dom().contains(cid@) ==> texts(after[cid@]@) == texts(devices@)
            &&& after.dom().contains(other) <==> before.dom().contains(other)
            &&& before.dom().contains(other) ==> after[other] == before[other]
            &&& final(records).pending_storage_cleanup@ == old(records).pending_storage_cleanup@
        }),
{
    let before = old(records).container_verity_devices@;
    let after = final(records).container_verity_devices@;
    assert(before.remove(cid@).dom().contains(other) <==> before.dom().contains(other));
    assert(after.remove(cid@).dom().contains(other) <==> after.dom().contains(other));
    if before.dom().contains(other) {
        assert(after[other] == after.remove(cid@)[other]);
        assert(before[other] == before.remove(cid@)[other]);
    }
    if !before.dom().contains(cid@) {
        assert(Seq::<Seq<char>>::empty() + texts(devices@) =~= texts(devices@));
    }
}

/// Whether a run goes on from one place to the next storage that was not handled in a group, and
/// asks for what that storage needs: that its group is handled where it is a layer, and else that it
/// is claimed. A run without such a storage is over, with the paths that were mounted.
pub open spec fn goes_on(
    from: int,
    next: StorageRun,
    action: RunAction,
    outcome: Option<Result<Vec<String>, StorageError>>,
) -> bool {
    let storages = next.storages();
    let place = next@.place;
    &&& from <= place <= storages.len()
    &&& forall|i: int|
        from <= i < place ==> next@.processed.contains(#[trigger] storages[i].storage.mount_point@)
    &&& if place == storages.len() {
        &&& action is Finished
        &&& outcome is Some
        &&& outcome->0 is Ok
        &&& texts(outcome->0->Ok_0@) == next@.mount_list
    } else {
        &&& outcome is None
        &&& !next@.processed.contains(storages[place].storage.mount_point@)
        &&& if storages[place].multi_layer {
            action is HandleMultiLayer && action->HandleMultiLayer_place == place
        } else {
            action == (RunAction::Claim {
                mount_point: storages[place].storage.mount_point,
                shared: storages[place].storage.shared,
            })
        }
    }
}

/// The handling of storages starts with the first of them, with nothing mounted yet.
pub proof fn law_run_starts_with_the_first_storage(
    storages: Vec<ClassifiedStorage>,
    cid: Option<String>,
    run: StorageRun,
    action: RunAction,
    outcome: Option<Result<Vec<String>, StorageError>>,
)
    requires
        call_ensures(add_storages_inner, (storages, cid), run),
        call_ensures(StorageRun::action, (&run,), action),
        call_ensures(StorageRun::finish, (run,), outcome),
    ensures
        run.storages() == storages@,
        run.cid() == cid,
        run@.place == 0,
        run@.processed.len() == 0,
        run@.mount_list.len() == 0,
        goes_on(0, run, action, outcome),
{
    lemma_next_place(storages@, Seq::empty(), 0);
}

/// How a storage that is no layer is handled: it is claimed, and created and installed by its
/// initializer or waited for by everybody else. Then the path of its device, where it has one, is
/// put on record after those before it, and the run goes on with the next storage.
pub proof fn law_a_storage_is_claimed_created_and_installed(
    run: StorageRun,
    action: RunAction,
    event: RunEvent,
    next: StorageRun,
    next_action: RunAction,
    next_outcome: Option<Result<Vec<String>, StorageError>>,
    second: RunEvent,
    last: StorageRun,
    last_action: RunAction,
    last_outcome: Option<Result<Vec<String>, StorageError>>,
)
    requires
        run_fits(run@, run.storages(), run.cid()),
        call_ensures(StorageRun::action, (&run,), action),
        call_ensures(StorageRun::report, (run, event), next),
        call_ensures(StorageRun::action, (&next,), next_action),
        call_ensures(StorageRun::finish, (next,), next_outcome),
        call_ensures(StorageRun::report, (next, second), last),
        call_ensures(StorageRun::action, (&last,), last_action),
        call_ensures(StorageRun::finish, (last,), last_outcome),
    ensures
        ({
            let storage = run.storages()[run@.place].storage;
            &&& next.storages() == run.storages()
            &&& next.cid() == run.cid()
            &&& action is Claim ==> {
                &&& 0 <= run@.place < run.storages().len()
                &&& !run.storages()[run@.place].multi_layer
                &&& !run@.processed.contains(storage.mount_point@)
                &&& action->Claim_mount_point == storage.mount_point
                &&& action->Claim_shared == storage.shared
            }
            &&& action is Claim && event is Claimed ==> if event->Claimed_initializer {
                next_action is CreateDevice && next_action->CreateDevice_place == run@.place
            } else {
                next_action is WaitUntilReady
            }
            &&& action is CreateDevice && event is Created ==> {
                &&& next_action == (RunAction::InstallDevice { mount_point: storage.mount_point })
                &&& next@.mount_list == run@.mount_list
                &&& second is Installed ==> {
                    &&& last@.processed == run@.processed
                    &&& last@.mount_list == run@.mount_list + named_path(event->Created_path)
                    &&& goes_on(run@.place + 1, last, last_action, last_outcome)
                }
            }
            &&& action is WaitUntilReady && event is Ready ==> {
                &&& next@.processed == run@.processed
                &&& next@.mount_list == run@.mount_list + named_path(event->Ready_path)
                &&& goes_on(run@.place + 1, next, next_action, next_outcome)
            }
        }),
{
    if 0 <= run@.place < run.storages().len() {
        lemma_next_place(run.storages(), run@.processed, run@.place + 1);
    }
    if action is CreateDevice && event is Created && second is Installed {
        assert(last@.mount_list =~= run@.mount_list + named_path(event->Created_path));
    }
    if action is WaitUntilReady && event is Ready {
        assert(next@.mount_list =~= run@.mount_list + named_path(event->Ready_path));
    }
}

/// The path of a device as a list: nothing where there is none or where it is empty.
pub open spec fn named_path(path: Option<String>) -> Seq<Seq<char>> {
    if path is Some && path->0@.len() > 0 {
        seq![path->0@]
    } else {
        Seq::empty()
    }
}

/// What comes of a failure: a claim whose device cannot be created is marked as failed first, with
/// the reason, which names the driver where no handler manages it. In the end the run is over and
/// its outcome is the error, which says for which storage it was waited where that failed.
pub proof fn law_a_failed_run_says_why(
    run: StorageRun,
    action: RunAction,
    event: RunEvent,
    next: StorageRun,
    next_action: RunAction,
    next_outcome: Option<Result<Vec<String>, StorageError>>,
)
    requires
        run_fits(run@, run.storages(), run.cid()),
        call_ensures(StorageRun::action, (&run,), action),
        call_ensures(StorageRun::report, (run, event), next),
        call_ensures(StorageRun::action, (&next,), next_action),
        call_ensures(StorageRun::finish, (next,), next_outcome),
    ensures
        ({
            let storage = run.storages()[run@.place].storage;
            &&& action is CreateDevice && event is NoHandler ==> {
                &&& next_action is FailClaim
                &&& next_action->FailClaim_reason@ == "Failed to find the storage handler "@
                    + storage.driver@
                &&& next_outcome is None
            }
            &&& action is CreateDevice && event is Failed ==> {
                &&& next_action is FailClaim
                &&& next_action->FailClaim_reason@ == event->Failed_0@
                &&& next_outcome is None
            }
            &&& action is FailClaim && event is ClaimFailed ==> {
                &&& next_action is Finished
                &&& next_outcome is Some
                &&& next_outcome->0 is Err
                &&& next_outcome->0->Err_0.text() == action->FailClaim_reason@
            }
            &&& action is WaitUntilReady && event is Failed ==> {
                &&& next_action is Finished
                &&& next_outcome == Some(
                    Err::<Vec<String>, _>(
                        StorageError::WaitStorage {
                            mount_point: storage.mount_point,
                            reason: event->Failed_0,
                        },
                    ),
                )
            }
            &&& (action is Claim || action is HandleMultiLayer || action is InstallDevice)
                && event is Failed ==> {
                &&& next_action is Finished
                &&& next_outcome == Some(
                    Err::<Vec<String>, _>(StorageError::Outside(event->Failed_0)),
                )
            }
        }),
{
}

/// How a group is taken over: the path of its device, its temporary mount points and its verity
/// devices are put on record in this order, and its mount points are not handled again. The verity
/// devices are recorded for the container, where there are any and there is one, before the run goes
/// on.
pub proof fn law_a_handled_group_is_taken_over(
    run: StorageRun,
    action: RunAction,
    result: MultiLayerProcessResult,
    next: StorageRun,
    next_action: RunAction,
    next_outcome: Option<Result<Vec<String>, StorageError>>,
    last: StorageRun,
    last_action: RunAction,
    last_outcome: Option<Result<Vec<String>, StorageError>>,
)
    requires
        run_fits(run@, run.storages(), run.cid()),
        call_ensures(StorageRun::action, (&run,), action),
        action is HandleMultiLayer,
        call_ensures(StorageRun::report, (run, RunEvent::GroupHandled(result)), next),
        call_ensures(StorageRun::action, (&next,), next_action),
        call_ensures(StorageRun::finish, (next,), next_outcome),
        call_ensures(StorageRun::report, (next, RunEvent::VerityRecorded), last),
        call_ensures(StorageRun::action, (&last,), last_action),
        call_ensures(StorageRun::finish, (last,), last_outcome),
    ensures
        action->HandleMultiLayer_place == run@.place,
        run.storages()[run@.place].multi_layer,
        next@.mount_list == run@.mount_list + named_path(result.path) + texts(
            result.temp_mount_points@,
        ) + texts(result.verity_devices@),
        next@.processed == run@.processed + texts(result.processed_mount_points@),
        if run.cid() is Some && result.verity_devices@.len() > 0 {
            &&& next_action is RecordVerityDevices
            &&& next_action->RecordVerityDevices_cid == run.cid()->0
            &&& texts(next_action->RecordVerityDevices_devices@) == texts(result.verity_devices@)
            &&& last@.mount_list == next@.mount_list
            &&& last@.processed == next@.processed
            &&& goes_on(run@.place + 1, last, last_action, last_outcome)
        } else {
            goes_on(run@.place + 1, next, next_action, next_outcome)
        },
{
    let processed = run@.processed + texts(result.processed_mount_points@);
    lemma_next_place(run.storages(), processed, run@.place + 1);
    assert(next@.mount_list =~= run@.mount_list + named_path(result.path) + texts(
        result.temp_mount_points@,
    ) + texts(result.verity_devices@));
}

/// Whether runs, the events that they were told of and the actions that they asked for make up the
/// handling of the storages of one request, from its start on.
pub open spec fn is_handling(
    storages: Vec<ClassifiedStorage>,
    cid: Option<String>,
    runs: Seq<StorageRun>,
    events: Seq<RunEvent>,
    actions: Seq<RunAction>,
) -> bool {
    &&& runs.len() == events.len() + 1
    &&& actions.len() == runs.len()
    &&& call_ensures(add_storages_inner, (storages, cid), runs[0])
    &&& forall|i: int|
        0 <= i < events.len() ==> call_ensures(
            StorageRun::report,
            (runs[i], #[trigger] events[i]),
            runs[i + 1],
        )
    &&& forall|i: int|
        0 <= i < actions.len() ==> call_ensures(
            StorageRun::action,
            (&runs[i],),
            #[trigger] actions[i],
        )
}

/// Whether the storage at a place has been seen to before a point of the handling: it was claimed,
/// its group was handled, or it was found to be handled with a group.
pub open spec fn was_seen_to(
    storages: Seq<ClassifiedStorage>,
    runs: Seq<StorageRun>,
    events: Seq<RunEvent>,
    actions: Seq<RunAction>,
    place: int,
    before: int,
) -> bool {
    ||| runs[before]@.processed.contains(storages[place].storage.mount_point@)
    ||| exists|k: int|
        0 <= k < before && #[trigger] actions[k] == (RunAction::Claim {
            mount_point: storages[place].storage.mount_point,
            shared: storages[place].storage.shared,
        }) && events[k] is Claimed
    ||| exists|k: int|
        0 <= k < before && (#[trigger] actions[k] is HandleMultiLayer
            && actions[k]->HandleMultiLayer_place == place) && events[k] is GroupHandled
}

proof fn lemma_handling(
    storages: Vec<ClassifiedStorage>,
    cid: Option<String>,
    runs: Seq<StorageRun>,
    events: Seq<RunEvent>,
    actions: Seq<RunAction>,
    n: int,
)
    requires
        is_handling(storages, cid, runs, events, actions),
        0 <= n < runs.len(),
    ensures
        runs[n].storages() == storages@,
        runs[n].cid() == cid,
        run_fits(runs[n]@, storages@, cid),
        is_run_action(runs[n]@, storages@, cid, actions[n]),
        forall|p: int|
            0 <= p < runs[n]@.place ==> #[trigger] was_seen_to(
                storages@,
                runs,
                events,
                actions,
                p,
                n,
            ),
        (runs[n]@.phase is RecordingVerity || runs[n]@.phase is Waiting || runs[n]@.phase is Creating
            || runs[n]@.phase is Installing) ==> was_seen_to(
            storages@,
            runs,
            events,
            actions,
            runs[n]@.place,
            n,
        ),
    decreases n,
{
    let all = storages@;
    assert(call_ensures(StorageRun::action, (&runs[n],), actions[n]));
    lemma_next_place(all, Seq::empty(), 0);
    if n > 0 {
        let m = n - 1;
        lemma_handling(storages, cid, runs, events, actions, m);
        assert(call_ensures(StorageRun::report, (runs[m], events[m]), runs[m + 1]));
        let before = runs[m]@;
        let after = runs[n]@;
        law_run_keeps_fitting(before, all, cid, events[m]);
        law_run_handles_every_storage_in_order(before, all, cid, events[m]);
        assert forall|p: int| #[trigger] was_seen_to(all, runs, events, actions, p, m) implies was_seen_to(
            all,
            runs,
            events,
            actions,
            p,
            n,
        ) by {
            let mount_point = all[p].storage.mount_point@;
            if before.processed.contains(mount_point) {
                let i = choose|i: int|
                    0 <= i < before.processed.len() && before.processed[i] == mount_point;
                assert(after.processed[i] == mount_point);
            }
        }
        if events[m] is Claimed && before.phase is Claiming {
            assert(was_seen_to(all, runs, events, actions, before.place, n));
        }
        if events[m] is GroupHandled && before.phase is Grouping {
            assert(actions[m] is HandleMultiLayer);
            assert(was_seen_to(all, runs, events, actions, before.place, n));
        }
        assert forall|p: int| 0 <= p < after.place implies #[trigger] was_seen_to(
            all,
            runs,
            events,
            actions,
            p,
            n,
        ) by {
            if p < before.place {
                assert(was_seen_to(all, runs, events, actions, p, m));
            } else if p == before.place {
                if !(before.phase is Grouping) {
                    assert(was_seen_to(all, runs, events, actions, p, m));
                }
            } else {
                assert(after.processed.contains(all[p].storage.mount_point@));
            }
        }
        if before.phase is Waiting || before.phase is Creating || before.phase is Installing
            || before.phase is RecordingVerity {
            assert(was_seen_to(all, runs, events, actions, before.place, m));
        }
    }
}

/// No storage is left out: where the handling ends well, each of the storages was claimed, or was
/// handled with its group.
pub proof fn law_no_storage_is_left_out(
    storages: Vec<ClassifiedStorage>,
    cid: Option<String>,
    runs: Seq<StorageRun>,
    events: Seq<RunEvent>,
    actions: Seq<RunAction>,
    n: int,
    outcome: Option<Result<Vec<String>, StorageError>>,
    place: int,
)
    requires
        is_handling(storages, cid, runs, events, actions),
        0 <= n < runs.len(),
        call_ensures(StorageRun::finish, (runs[n],), outcome),
        outcome is Some,
        outcome->0 is Ok,
        0 <= place < storages@.len(),
    ensures
        was_seen_to(storages@, runs, events, actions, place, n),
{
    lemma_handling(storages, cid, runs, events, actions, n);
    assert(was_seen_to(storages@, runs, events, actions, place, n));
}

/// What holds of a run at all times does hold of every run that the handling of storages gives.
pub proof fn law_every_run_fits(
    storages: Vec<ClassifiedStorage>,
    cid: Option<String>,
    runs: Seq<StorageRun>,
    events: Seq<RunEvent>,
    actions: Seq<RunAction>,
    n: int,
)
    requires
        is_handling(storages, cid, runs, events, actions),
        0 <= n < runs.len(),
    ensures
        runs[n].storages() == storages@,
        runs[n].cid() == cid,
        run_fits(runs[n]@, storages@, cid),
{
    lemma_handling(storages, cid, runs, events, actions, n);
}

/// A request heeds only what it asked for: what it is told beside that changes neither it nor the
/// records, and neither does anything once it is over.
pub proof fn law_a_request_heeds_only_what_it_asked_for(
    request: AddStorages,
    action: AddAction,
    records: &mut ContainerRecords,
    event: AddEvent,
    next: AddStorages,
)
    requires
        call_ensures(AddStorages::action, (&request,), action),
        call_ensures(AddStorages::report, (request, records, event), next),
        action is Finished || (event is Added && !(action is Run)) || (event is Done
            && action is Run),
    ensures
        next@ == request@,
        final(records).pending_storage_cleanup@ == old(records).pending_storage_cleanup@,
        final(records).container_verity_devices == old(records).container_verity_devices,
{
}

/// A run heeds only what it asked for: what it is told beside that does not change it, and neither
/// does anything once it is over.
pub proof fn law_a_run_heeds_only_what_it_asked_for(
    run: StorageRun,
    action: RunAction,
    event: RunEvent,
    next: StorageRun,
)
    requires
        run_fits(run@, run.storages(), run.cid()),
        call_ensures(StorageRun::action, (&run,), action),
        call_ensures(StorageRun::report, (run, event), next),
        action is Finished || (event is GroupHandled && !(action is HandleMultiLayer)) || (
        event is VerityRecorded && !(action is RecordVerityDevices)) || (event is Claimed && !(
        action is Claim)) || (event is Ready && !(action is WaitUntilReady)) || ((event is Created
            || event is NoHandler) && !(action is CreateDevice)) || (event is Installed && !(
        action is InstallDevice)) || (event is ClaimFailed && !(action is FailClaim)) || (
        event is Failed && (action is RecordVerityDevices || action is FailClaim)),
    ensures
        next@ == run@,
        next.storages() == run.storages(),
        next.cid() == run.cid(),
{
}

/// A run can be asked for its storages, which are those of the request, and for the mount points
/// that were handled in groups.
pub proof fn law_a_run_shows_its_storages(
    storages: Vec<ClassifiedStorage>,
    cid: Option<String>,
    run: StorageRun,
    requested: &Vec<ClassifiedStorage>,
    processed: &Vec<String>,
    records: ContainerRecords,
    other: Seq<char>,
)
    requires
        call_ensures(add_storages_inner, (storages, cid), run),
        call_ensures(StorageRun::requested, (&run,), requested),
        call_ensures(StorageRun::processed_mount_points, (&run,), processed),
        call_ensures(ContainerRecords::new, (), records),
    ensures
        requested@ == storages@,
        processed@.len() == 0,
        !records.pending_storage_cleanup@.dom().contains(other),
        !records.container_verity_devices@.dom().contains(other),
{
    assert(texts(processed@).len() == processed@.len());
}

} // verus!
