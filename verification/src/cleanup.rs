//! Release of storage references: first the storage, next its confidential volume, last its
//! ordinary block device. Progress is kept with each reference, so that a failed cleanup can be
//! taken up again where it stopped.

use vstd::prelude::*;

use crate::text_map::TextMap;

verus! {

/// How far the cleanup of a storage reference has come.
#[derive(Clone, Copy, Debug, PartialEq, Eq, Structural)]
pub enum StorageReferenceProgress {
    /// The reference is still held.
    ReferenceHeld,
    /// The storage has been released.
    StorageReleased,
    /// The confidential volume is deactivated, or there is none.
    ConfidentialDeactivated,
    /// Nothing is left to do.
    Complete,
}

/// A reference of a container, or of the sandbox, to the storage at a mount point.
#[derive(Debug)]
pub struct StorageReference {
    pub mount_point: String,
    pub progress: StorageReferenceProgress,
}

impl StorageReference {
    /// A reference that is held.
    pub fn new(mount_point: String) -> (reference: Self)
        ensures
            reference.mount_point == mount_point,
            reference.progress == StorageReferenceProgress::ReferenceHeld,
    {
        StorageReference { mount_point, progress: StorageReferenceProgress::ReferenceHeld }
    }
}

/// An activation of a confidential volume. Its ID is not known before the activation succeeded.
#[derive(Debug)]
pub struct ConfidentialStorageActivation {
    pub activation_id: Option<String>,
}

/// The numbers of a block device.
#[derive(Clone, Copy, Debug, PartialEq, Eq, Structural)]
pub struct BlockDeviceIdentity {
    pub major: u64,
    pub minor: u64,
}

/// What a sandbox records of its storages, by mount point.
#[derive(Debug)]
pub struct StorageLedger {
    pub confidential_storage_activations: TextMap<ConfidentialStorageActivation>,
    pub ordinary_storage_devices: TextMap<BlockDeviceIdentity>,
}

impl StorageLedger {
    /// A ledger without any record.
    pub fn new() -> (ledger: Self)
        ensures
            ledger.confidential_storage_activations@ == Map::<
                Seq<char>,
                ConfidentialStorageActivation,
            >::empty(),
            ledger.ordinary_storage_devices@ == Map::<Seq<char>, BlockDeviceIdentity>::empty(),
    {
        StorageLedger {
            confidential_storage_activations: TextMap::new(),
            ordinary_storage_devices: TextMap::new(),
        }
    }
}

/// Why a cleanup stops.
#[derive(Debug)]
pub enum CleanupError {
    /// The cleanup has been finished before.
    AlreadyComplete,
    /// Some reference is not cleaned up.
    IncompleteReferences,
    /// The storage could not be released.
    RemoveStorage { mount_point: String, reason: String },
    /// The confidential volume may be active, under an ID that is not known.
    AmbiguousActivation(String),
    /// The confidential volume could not be deactivated.
    Deactivation { mount_point: String, reason: String },
    /// The ordinary block device is still mounted.
    StillMounted(String),
    /// It is not known whether the ordinary block device is still mounted.
    MountUnknown { mount_point: String, reason: String },
    /// The reported step is not the one that was asked for.
    UnexpectedEvent,
}

impl CleanupError {
    /// The text of the message for this error.
    pub open spec fn text(&self) -> Seq<char> {
        match self {
            CleanupError::AlreadyComplete => "storage cleanup transaction is already complete"@,
            CleanupError::IncompleteReferences =>
                "storage cleanup transaction still has incomplete references"@,
            CleanupError::RemoveStorage { mount_point, reason } => "remove sandbox storage "@
                + mount_point@ + ": "@ + reason@,
            CleanupError::AmbiguousActivation(mount_point) => "confidential storage "@
                + mount_point@ + " has an ambiguous activation in progress"@,
            CleanupError::Deactivation { mount_point, reason } => "deactivate confidential storage "@
                + mount_point@ + ": "@ + reason@,
            CleanupError::StillMounted(mount_point) => "ordinary block storage remains mounted at "@
                + mount_point@,
            CleanupError::MountUnknown { mount_point, reason } => "verify ordinary block storage cleanup at "@
                + mount_point@ + ": "@ + reason@,
            CleanupError::UnexpectedEvent =>
                "storage cleanup was told of a step that it did not ask for"@,
        }
    }

    /// The message for this error.
    pub fn message(&self) -> (message: String)
        ensures
            message@ == self.text(),
    {
        match self {
            CleanupError::AlreadyComplete => {
                "storage cleanup transaction is already complete".to_owned()
            },
            CleanupError::IncompleteReferences => {
                "storage cleanup transaction still has incomplete references".to_owned()
            },
            CleanupError::RemoveStorage { mount_point, reason } => {
                let mut text = "remove sandbox storage ".to_owned();
                text.append(mount_point.as_str());
                text.append(": ");
                text.append(reason.as_str());
                text
            },
            CleanupError::AmbiguousActivation(mount_point) => {
                let mut text = "confidential storage ".to_owned();
                text.append(mount_point.as_str());
                text.append(" has an ambiguous activation in progress");
                text
            },
            CleanupError::Deactivation { mount_point, reason } => {
                let mut text = "deactivate confidential storage ".to_owned();
                text.append(mount_point.as_str());
                text.append(": ");
                text.append(reason.as_str());
                text
            },
            CleanupError::StillMounted(mount_point) => {
                let mut text = "ordinary block storage remains mounted at ".to_owned();
                text.append(mount_point.as_str());
                text
            },
            CleanupError::MountUnknown { mount_point, reason } => {
                let mut text = "verify ordinary block storage cleanup at ".to_owned();
                text.append(mount_point.as_str());
                text.append(": ");
                text.append(reason.as_str());
                text
            },
            CleanupError::UnexpectedEvent => {
                "storage cleanup was told of a step that it did not ask for".to_owned()
            },
        }
    }
}

/// What a cleanup asks to be done next.
#[derive(Debug)]
pub enum CleanupAction {
    /// Drop one reference to the storage at a mount point, where the sandbox knows the storage.
    ReleaseStorage { mount_point: String },
    /// Deactivate the confidential volume at a mount point.
    Deactivate { mount_point: String, activation_id: String },
    /// Find out whether something is mounted at a mount point.
    CheckMounted { mount_point: String },
    /// Nothing: all references are cleaned up.
    Finished,
}

/// What came of an action.
#[derive(Debug)]
pub enum CleanupEvent {
    /// The sandbox does not know the storage.
    StorageUnknown,
    /// The reference was dropped. The storage is gone with it, or others still use it.
    ReferenceDropped { storage_gone: bool },
    /// The confidential volume is deactivated.
    Deactivated,
    /// Whether something is mounted.
    Mounted(bool),
    /// The action failed.
    Failed(String),
}

/// The ID under which the confidential volume at a mount point is active: absent where none is
/// active, and unknown while an activation is in progress.
pub open spec fn activation_of(ledger: StorageLedger, mount_point: Seq<char>) -> Option<
    Option<String>,
> {
    if ledger.confidential_storage_activations@.dom().contains(mount_point) {
        Some(ledger.confidential_storage_activations@[mount_point].activation_id)
    } else {
        None
    }
}

/// Whether an ordinary block device is recorded at a mount point.
pub open spec fn has_ordinary_device(ledger: StorageLedger, mount_point: Seq<char>) -> bool {
    ledger.ordinary_storage_devices@.dom().contains(mount_point)
}

/// A reference with another progress.
pub open spec fn with_progress(
    reference: StorageReference,
    progress: StorageReferenceProgress,
) -> StorageReference {
    StorageReference { mount_point: reference.mount_point, progress }
}

/// The progress that a reference makes without any action.
pub open spec fn settled_progress(
    reference: StorageReference,
    ledger: StorageLedger,
) -> StorageReferenceProgress {
    let mount_point = reference.mount_point@;
    match reference.progress {
        StorageReferenceProgress::ReferenceHeld => StorageReferenceProgress::ReferenceHeld,
        StorageReferenceProgress::StorageReleased => if activation_of(ledger, mount_point) is Some {
            StorageReferenceProgress::StorageReleased
        } else if has_ordinary_device(ledger, mount_point) {
            StorageReferenceProgress::ConfidentialDeactivated
        } else {
            StorageReferenceProgress::Complete
        },
        StorageReferenceProgress::ConfidentialDeactivated => if has_ordinary_device(
            ledger,
            mount_point,
        ) {
            StorageReferenceProgress::ConfidentialDeactivated
        } else {
            StorageReferenceProgress::Complete
        },
        StorageReferenceProgress::Complete => StorageReferenceProgress::Complete,
    }
}

/// What a reference that has settled waits for.
pub open spec fn awaited(reference: StorageReference, ledger: StorageLedger) -> Result<
    CleanupAction,
    CleanupError,
> {
    let mount_point = reference.mount_point;
    match reference.progress {
        StorageReferenceProgress::ReferenceHeld => Ok(
            CleanupAction::ReleaseStorage { mount_point },
        ),
        StorageReferenceProgress::StorageReleased => match activation_of(ledger, mount_point@) {
            Some(Some(activation_id)) => Ok(
                CleanupAction::Deactivate { mount_point, activation_id },
            ),
            _ => Err(CleanupError::AmbiguousActivation(mount_point)),
        },
        StorageReferenceProgress::ConfidentialDeactivated => Ok(
            CleanupAction::CheckMounted { mount_point },
        ),
        StorageReferenceProgress::Complete => Ok(CleanupAction::Finished),
    }
}

/// The references, and what the first that cannot complete by itself waits for, once those from a
/// place on have settled in order.
pub open spec fn settled(
    references: Seq<StorageReference>,
    ledger: StorageLedger,
    from: int,
) -> (Seq<StorageReference>, Result<CleanupAction, CleanupError>)
    decreases references.len() - from,
{
    if from < 0 || from >= references.len() {
        (references, Ok(CleanupAction::Finished))
    } else {
        let reference = with_progress(
            references[from],
            settled_progress(references[from], ledger),
        );
        let next = references.update(from, reference);
        if reference.progress == StorageReferenceProgress::Complete {
            settled(next, ledger, from + 1)
        } else {
            (next, awaited(reference, ledger))
        }
    }
}

/// The place of the first reference that is not cleaned up.
pub open spec fn first_open(references: Seq<StorageReference>, from: int) -> int
    decreases references.len() - from,
{
    if from < 0 || from >= references.len() {
        references.len() as int
    } else if references[from].progress != StorageReferenceProgress::Complete {
        from
    } else {
        first_open(references, from + 1)
    }
}

/// What an event makes of the reference that waited for it: its new progress, or why the cleanup
/// stops.
pub open spec fn progress_after(
    reference: StorageReference,
    ledger: StorageLedger,
    event: CleanupEvent,
) -> Result<StorageReferenceProgress, CleanupError> {
    let mount_point = reference.mount_point;
    match (reference.progress, event) {
        (StorageReferenceProgress::ReferenceHeld, CleanupEvent::StorageUnknown) => Ok(
            StorageReferenceProgress::StorageReleased,
        ),
        (
            StorageReferenceProgress::ReferenceHeld,
            CleanupEvent::ReferenceDropped { storage_gone },
        ) => Ok(
            if storage_gone {
                StorageReferenceProgress::StorageReleased
            } else {
                StorageReferenceProgress::Complete
            },
        ),
        (StorageReferenceProgress::ReferenceHeld, CleanupEvent::Failed(reason)) => Err(
            CleanupError::RemoveStorage { mount_point, reason },
        ),
        (StorageReferenceProgress::StorageReleased, CleanupEvent::Deactivated) => if activation_of(
            ledger,
            mount_point@,
        ) matches Some(Some(_)) {
            Ok(StorageReferenceProgress::ConfidentialDeactivated)
        } else {
            Err(CleanupError::UnexpectedEvent)
        },
        (StorageReferenceProgress::StorageReleased, CleanupEvent::Failed(reason)) => Err(
            CleanupError::Deactivation { mount_point, reason },
        ),
        (StorageReferenceProgress::ConfidentialDeactivated, CleanupEvent::Mounted(false)) => Ok(
            StorageReferenceProgress::Complete,
        ),
        (StorageReferenceProgress::ConfidentialDeactivated, CleanupEvent::Mounted(true)) => Err(
            CleanupError::StillMounted(mount_point),
        ),
        (StorageReferenceProgress::ConfidentialDeactivated, CleanupEvent::Failed(reason)) => Err(
            CleanupError::MountUnknown { mount_point, reason },
        ),
        _ => Err(CleanupError::UnexpectedEvent),
    }
}

/// The references after an event.
pub open spec fn references_after(
    references: Seq<StorageReference>,
    ledger: StorageLedger,
    event: CleanupEvent,
) -> Result<Seq<StorageReference>, CleanupError> {
    let at = first_open(references, 0);
    if at >= references.len() {
        Err(CleanupError::UnexpectedEvent)
    } else {
        match progress_after(references[at], ledger, event) {
            Ok(progress) => Ok(references.update(at, with_progress(references[at], progress))),
            Err(error) => Err(error),
        }
    }
}

/// The activations after an event: that of the first open reference is forgotten where its
/// volume has been deactivated.
pub open spec fn activations_after(
    references: Seq<StorageReference>,
    ledger: StorageLedger,
    event: CleanupEvent,
) -> Map<Seq<char>, ConfidentialStorageActivation> {
    let activations = ledger.confidential_storage_activations@;
    if event is Deactivated && references_after(references, ledger, event) is Ok {
        activations.remove(references[first_open(references, 0)].mount_point@)
    } else {
        activations
    }
}

/// The ordinary block devices after an event: that of the first open reference is forgotten where
/// it is not mounted.
pub open spec fn devices_after(
    references: Seq<StorageReference>,
    ledger: StorageLedger,
    event: CleanupEvent,
) -> Map<Seq<char>, BlockDeviceIdentity> {
    let devices = ledger.ordinary_storage_devices@;
    if event is Mounted && references_after(references, ledger, event) is Ok {
        devices.remove(references[first_open(references, 0)].mount_point@)
    } else {
        devices
    }
}

fn set_progress(
    references: &mut Vec<StorageReference>,
    at: usize,
    progress: StorageReferenceProgress,
)
    requires
        at < old(references).len(),
    ensures
        final(references)@ == old(references)@.update(
            at as int,
            with_progress(old(references)@[at as int], progress),
        ),
{
    let mount_point = references[at].mount_point.clone();
    references.set(at, StorageReference { mount_point, progress });
}

fn find_open(references: &Vec<StorageReference>) -> (at: usize)
    ensures
        at == first_open(references@, 0),
        at <= references@.len(),
        at < references@.len() ==> references@[at as int].progress
            != StorageReferenceProgress::Complete,
{
    let mut at: usize = 0;
    while at < references.len() && references[at].progress == StorageReferenceProgress::Complete
        invariant
            at <= references.len(),
            first_open(references@, 0) == first_open(references@, at as int),
        decreases references.len() - at,
    {
        at = at + 1;
    }
    at
}

/// Lets the references settle in order, up to the first that waits for an action.
fn settle(references: &mut Vec<StorageReference>, ledger: &StorageLedger) -> (result: Result<
    CleanupAction,
    CleanupError,
>)
    ensures
        (final(references)@, result) == settled(old(references)@, *ledger, 0),
{
    let mut at: usize = 0;
    while at < references.len()
        invariant
            at <= references.len(),
            settled(old(references)@, *ledger, 0) == settled(references@, *ledger, at as int),
        decreases references.len() - at,
    {
        let mut progress = references[at].progress;
        let mount_point = references[at].mount_point.clone();
        if progress == StorageReferenceProgress::ReferenceHeld {
            assert(references@.update(
                at as int,
                with_progress(references@[at as int], progress),
            ) =~= references@);
            return Ok(CleanupAction::ReleaseStorage { mount_point });
        }
        if progress == StorageReferenceProgress::StorageReleased {
            match ledger.confidential_storage_activations.get(mount_point.as_str()) {
                Some(activation) => {
                    assert(references@.update(
                        at as int,
                        with_progress(references@[at as int], progress),
                    ) =~= references@);
                    return match &activation.activation_id {
                        Some(activation_id) => Ok(
                            CleanupAction::Deactivate {
                                mount_point,
                                activation_id: activation_id.clone(),
                            },
                        ),
                        None => Err(CleanupError::AmbiguousActivation(mount_point)),
                    };
                },
                None => {
                    progress = StorageReferenceProgress::ConfidentialDeactivated;
                },
            }
        }
        if progress == StorageReferenceProgress::ConfidentialDeactivated
            && ledger.ordinary_storage_devices.contains_key(mount_point.as_str()) {
            set_progress(references, at, progress);
            return Ok(CleanupAction::CheckMounted { mount_point });
        }
        set_progress(references, at, StorageReferenceProgress::Complete);
        at = at + 1;
    }
    Ok(CleanupAction::Finished)
}

/// Takes note of what came of the action that the first open reference waited for.
fn note_event(
    references: &mut Vec<StorageReference>,
    ledger: &mut StorageLedger,
    event: CleanupEvent,
) -> (result: Result<(), CleanupError>)
    ensures
        match references_after(old(references)@, *old(ledger), event) {
            Ok(after) => result is Ok && final(references)@ == after,
            Err(error) => result == Err::<(), _>(error) && final(references)@ == old(
                references,
            )@,
        },
        final(ledger).confidential_storage_activations@ == activations_after(
            old(references)@,
            *old(ledger),
            event,
        ),
        final(ledger).ordinary_storage_devices@ == devices_after(
            old(references)@,
            *old(ledger),
            event,
        ),
{
    let at = find_open(references);
    if at >= references.len() {
        return Err(CleanupError::UnexpectedEvent);
    }
    let mount_point = references[at].mount_point.clone();
    match references[at].progress {
        StorageReferenceProgress::ReferenceHeld => {
            match event {
                CleanupEvent::StorageUnknown => {
                    set_progress(references, at, StorageReferenceProgress::StorageReleased);
                },
                CleanupEvent::ReferenceDropped { storage_gone } => {
                    if storage_gone {
                        set_progress(references, at, StorageReferenceProgress::StorageReleased);
                    } else {
                        set_progress(references, at, StorageReferenceProgress::Complete);
                    }
                },
                CleanupEvent::Failed(reason) => {
                    return Err(CleanupError::RemoveStorage { mount_point, reason });
                },
                _ => {
                    return Err(CleanupError::UnexpectedEvent);
                },
            }
        },
        StorageReferenceProgress::StorageReleased => {
            match event {
                CleanupEvent::Deactivated => {
                    let active = match ledger.confidential_storage_activations.get(
                        mount_point.as_str(),
                    ) {
                        Some(activation) => activation.activation_id.is_some(),
                        None => false,
                    };
                    if !active {
                        return Err(CleanupError::UnexpectedEvent);
                    }
                    ledger.confidential_storage_activations.remove(mount_point.as_str());
                    set_progress(
                        references,
                        at,
                        StorageReferenceProgress::ConfidentialDeactivated,
                    );
                },
                CleanupEvent::Failed(reason) => {
                    return Err(CleanupError::Deactivation { mount_point, reason });
                },
                _ => {
                    return Err(CleanupError::UnexpectedEvent);
                },
            }
        },
        StorageReferenceProgress::ConfidentialDeactivated => {
            match event {
                CleanupEvent::Mounted(mounted) => {
                    if mounted {
                        return Err(CleanupError::StillMounted(mount_point));
                    }
                    ledger.ordinary_storage_devices.remove(mount_point.as_str());
                    set_progress(references, at, StorageReferenceProgress::Complete);
                },
                CleanupEvent::Failed(reason) => {
                    return Err(CleanupError::MountUnknown { mount_point, reason });
                },
                _ => {
                    return Err(CleanupError::UnexpectedEvent);
                },
            }
        },
        StorageReferenceProgress::Complete => {},
    }
    Ok(())
}

/// Goes on with the cleanup of references, in mount-before-activation order: takes note of what
/// came of the last action, if any, and says what to do next. The cleanup is run by doing what it
/// says and reporting the outcome, until it is finished or stops with an error. After an error it
/// can be taken up again, without an event.
///
/// The record of an activation is kept until its deactivation has succeeded.
pub fn remove_storage_references_with(
    ledger: &mut StorageLedger,
    references: &mut Vec<StorageReference>,
    event: Option<CleanupEvent>,
) -> (result: Result<CleanupAction, CleanupError>)
    ensures
        match event {
            None => *final(ledger) == *old(ledger) && (final(references)@, result) == settled(
                old(references)@,
                *old(ledger),
                0,
            ),
            Some(event) => {
                &&& final(ledger).confidential_storage_activations@ == activations_after(
                    old(references)@,
                    *old(ledger),
                    event,
                )
                &&& final(ledger).ordinary_storage_devices@ == devices_after(
                    old(references)@,
                    *old(ledger),
                    event,
                )
                &&& match references_after(old(references)@, *old(ledger), event) {
                    Ok(after) => (final(references)@, result) == settled(
                        after,
                        *final(ledger),
                        0,
                    ),
                    Err(error) => final(references)@ == old(references)@ && result == Err::<
                        CleanupAction,
                        _,
                    >(error),
                }
            },
        },
{
    match event {
        None => {},
        Some(event) => {
            note_event(references, ledger, event)?;
        },
    }
    settle(references, ledger)
}

/// Owns the references of a container, or of the sandbox, while they are cleaned up. Unless every
/// reference completed, they are to be given back.
#[derive(Debug)]
pub struct StorageReferenceCleanup {
    pub cid: Option<String>,
    pub references: Option<Vec<StorageReference>>,
}

/// Whether all references are cleaned up.
pub open spec fn all_complete(references: Seq<StorageReference>) -> bool {
    forall|i: int|
        0 <= i < references.len() ==> #[trigger] references[i].progress
            == StorageReferenceProgress::Complete
}

impl StorageReferenceCleanup {
    /// A cleanup of references that have been taken from a ledger.
    pub fn from_references(cid: Option<String>, references: Vec<StorageReference>) -> (cleanup:
        Self)
        ensures
            cleanup.cid == cid,
            cleanup.references == Some(references),
    {
        StorageReferenceCleanup { cid, references: Some(references) }
    }

    /// Goes on with the cleanup. See [`remove_storage_references_with`].
    pub fn run_with(
        &mut self,
        ledger: &mut StorageLedger,
        event: Option<CleanupEvent>,
    ) -> (result: Result<CleanupAction, CleanupError>)
        ensures
            final(self).cid == old(self).cid,
            match old(self).references {
                None => {
                    &&& result == Err::<CleanupAction, _>(CleanupError::AlreadyComplete)
                    &&& *final(self) == *old(self)
                    &&& *final(ledger) == *old(ledger)
                },
                Some(before) => {
                    &&& final(self).references matches Some(references)
                    &&& match event {
                        None => *final(ledger) == *old(ledger) && (references@, result) == settled(
                            before@,
                            *old(ledger),
                            0,
                        ),
                        Some(event) => {
                            &&& final(ledger).confidential_storage_activations@
                                == activations_after(before@, *old(ledger), event)
                            &&& final(ledger).ordinary_storage_devices@ == devices_after(
                                before@,
                                *old(ledger),
                                event,
                            )
                            &&& match references_after(before@, *old(ledger), event) {
                                Ok(after) => (references@, result) == settled(
                                    after,
                                    *final(ledger),
                                    0,
                                ),
                                Err(error) => references@ == before@ && result == Err::<
                                    CleanupAction,
                                    _,
                                >(error),
                            }
                        },
                    }
                },
            },
    {
        match self.references.take() {
            None => Err(CleanupError::AlreadyComplete),
            Some(references) => {
                let mut references = references;
                let result = remove_storage_references_with(ledger, &mut references, event);
                self.references = Some(references);
                result
            },
        }
    }

    /// Ends a cleanup whose references are all cleaned up.
    pub fn finish(&mut self) -> (result: Result<(), CleanupError>)
        ensures
            final(self).cid == old(self).cid,
            match old(self).references {
                None => result == Err::<(), _>(CleanupError::AlreadyComplete) && *final(self)
                    == *old(self),
                Some(references) => if all_complete(references@) {
                    result is Ok && final(self).references is None
                } else {
                    result == Err::<(), _>(CleanupError::IncompleteReferences) && *final(self)
                        == *old(self)
                },
            },
    {
        match &self.references {
            None => {
                return Err(CleanupError::AlreadyComplete);
            },
            Some(references) => {
                let at = find_open(references);
                proof {
                    lemma_first_open(references@, 0);
                }
                if at < references.len() {
                    return Err(CleanupError::IncompleteReferences);
                }
            },
        }
        self.references = None;
        Ok(())
    }

    /// The references that are to be given back when the cleanup is dropped, with the progress
    /// that they have made: none after the cleanup has been finished.
    pub fn give_back(&mut self) -> (references: Option<Vec<StorageReference>>)
        ensures
            references == old(self).references,
            final(self).references is None,
            final(self).cid == old(self).cid,
    {
        self.references.take()
    }
}

/// How many steps of cleanup a progress stands for.
pub open spec fn rank(progress: StorageReferenceProgress) -> int {
    match progress {
        StorageReferenceProgress::ReferenceHeld => 0,
        StorageReferenceProgress::StorageReleased => 1,
        StorageReferenceProgress::ConfidentialDeactivated => 2,
        StorageReferenceProgress::Complete => 3,
    }
}

/// Whether references have only gone forward.
pub open spec fn went_forward(
    before: Seq<StorageReference>,
    after: Seq<StorageReference>,
) -> bool {
    &&& after.len() == before.len()
    &&& forall|i: int|
        0 <= i < before.len() ==> {
            &&& (#[trigger] after[i]).mount_point == before[i].mount_point
            &&& rank(before[i].progress) <= rank(after[i].progress)
        }
}

/// How many steps of cleanup have been taken in all.
pub open spec fn total_rank(references: Seq<StorageReference>) -> int
    decreases references.len(),
{
    if references.len() == 0 {
        0
    } else {
        total_rank(references.drop_last()) + rank(references.last().progress)
    }
}

proof fn lemma_first_open(references: Seq<StorageReference>, from: int)
    requires
        0 <= from <= references.len(),
    ensures
        from <= first_open(references, from) <= references.len(),
        forall|i: int|
            from <= i < first_open(references, from) ==> #[trigger] references[i].progress
                == StorageReferenceProgress::Complete,
        first_open(references, from) < references.len() ==> references[first_open(
            references,
            from,
        )].progress != StorageReferenceProgress::Complete,
    decreases references.len() - from,
{
    if from < references.len() && references[from].progress == StorageReferenceProgress::Complete {
        lemma_first_open(references, from + 1);
    }
}

proof fn lemma_first_open_is(references: Seq<StorageReference>, from: int, at: int)
    requires
        0 <= from <= at <= references.len(),
        forall|i: int|
            from <= i < at ==> #[trigger] references[i].progress
                == StorageReferenceProgress::Complete,
        at < references.len() ==> references[at].progress != StorageReferenceProgress::Complete,
    ensures
        first_open(references, from) == at,
    decreases at - from,
{
    if from < at {
        lemma_first_open_is(references, from + 1, at);
    }
}

proof fn lemma_settled(references: Seq<StorageReference>, ledger: StorageLedger, from: int)
    requires
        0 <= from <= references.len(),
        forall|i: int|
            0 <= i < from ==> #[trigger] references[i].progress
                == StorageReferenceProgress::Complete,
    ensures
        ({
            let after = settled(references, ledger, from).0;
            let at = first_open(after, 0);
            &&& went_forward(references, after)
            &&& 0 <= at <= after.len()
            &&& at == after.len() ==> settled(references, ledger, from).1 == Ok::<
                _,
                CleanupError,
            >(CleanupAction::Finished)
            &&& at < after.len() ==> settled(references, ledger, from).1 == awaited(
                after[at],
                ledger,
            ) && after[at].progress == settled_progress(references[at], ledger)
                && after[at].progress != StorageReferenceProgress::Complete
        }),
    decreases references.len() - from,
{
    if from >= references.len() {
        lemma_first_open_is(references, 0, from);
    } else {
        let reference = with_progress(
            references[from],
            settled_progress(references[from], ledger),
        );
        let next = references.update(from, reference);
        if reference.progress == StorageReferenceProgress::Complete {
            lemma_settled(next, ledger, from + 1);
            let after = settled(references, ledger, from).0;
            let at = first_open(after, 0);
            if at < after.len() && at <= from {
                assert(next[at].progress == StorageReferenceProgress::Complete);
            }
        } else {
            lemma_first_open_is(next, 0, from);
        }
    }
}

proof fn lemma_total_rank(before: Seq<StorageReference>, after: Seq<StorageReference>)
    requires
        went_forward(before, after),
    ensures
        total_rank(before) <= total_rank(after) <= 3 * after.len(),
        (exists|i: int|
            0 <= i < before.len() && rank(before[i].progress) < rank(
                (#[trigger] after[i]).progress,
            )) ==> total_rank(before) < total_rank(after),
    decreases before.len(),
{
    if before.len() > 0 {
        let n = before.len() - 1;
        assert(went_forward(before.drop_last(), after.drop_last())) by {
            assert forall|i: int| 0 <= i < n implies {
                &&& (#[trigger] after.drop_last()[i]).mount_point
                    == before.drop_last()[i].mount_point
                &&& rank(before.drop_last()[i].progress) <= rank(after.drop_last()[i].progress)
            } by {
                assert(after.drop_last()[i] == after[i]);
            }
        }
        lemma_total_rank(before.drop_last(), after.drop_last());
        assert(after[n] == after.last());
        if exists|i: int|
            0 <= i < before.len() && rank(before[i].progress) < rank(
                (#[trigger] after[i]).progress,
            ) {
            let i = choose|i: int|
                0 <= i < before.len() && rank(before[i].progress) < rank(
                    (#[trigger] after[i]).progress,
                );
            if i < n {
                assert(after.drop_last()[i] == after[i]);
            }
        }
    }
}

/// A cleanup only goes forward: whatever is reported to it, every reference keeps its mount point
/// and none loses progress. A completed reference is therefore never released again.
pub proof fn law_cleanup_only_goes_forward(
    references: Seq<StorageReference>,
    ledger: StorageLedger,
    event: CleanupEvent,
)
    ensures
        went_forward(references, settled(references, ledger, 0).0),
        references_after(references, ledger, event) matches Ok(after) ==> went_forward(
            references,
            after,
        ),
{
    lemma_settled(references, ledger, 0);
    lemma_first_open(references, 0);
}

/// A cleanup asks for the right thing at the right time, and of one reference at a time: it is
/// finished if and only if all references are complete. Else it is the first open reference that
/// it works on. It releases a storage only while the reference is held, and deactivates a
/// confidential volume only once the storage is released, under the ID that is on record.
pub proof fn law_cleanup_releases_storage_before_its_volume(
    references: Seq<StorageReference>,
    ledger: StorageLedger,
)
    ensures
        ({
            let (after, result) = settled(references, ledger, 0);
            let at = first_open(after, 0);
            &&& (result matches Ok(CleanupAction::Finished)) <==> all_complete(after)
            &&& !all_complete(after) ==> 0 <= at < after.len()
            &&& result matches Ok(CleanupAction::ReleaseStorage { mount_point }) ==> {
                &&& after[at].mount_point == mount_point
                &&& after[at].progress == StorageReferenceProgress::ReferenceHeld
            }
            &&& result matches Ok(CleanupAction::Deactivate { mount_point, activation_id }) ==> {
                &&& after[at].mount_point == mount_point
                &&& after[at].progress == StorageReferenceProgress::StorageReleased
                &&& activation_of(ledger, mount_point@) == Some(Some(activation_id))
            }
            &&& result matches Ok(CleanupAction::CheckMounted { mount_point }) ==> {
                &&& after[at].mount_point == mount_point
                &&& after[at].progress == StorageReferenceProgress::ConfidentialDeactivated
                &&& has_ordinary_device(ledger, mount_point@)
            }
        }),
{
    lemma_settled(references, ledger, 0);
    let after = settled(references, ledger, 0).0;
    lemma_first_open(after, 0);
}

/// A volume whose activation is in progress under an unknown ID is never deactivated by
/// guesswork: the cleanup stops, the record of the activation stays, and the reference stays
/// where it is.
pub proof fn law_ambiguous_activation_stops_the_cleanup(
    references: Seq<StorageReference>,
    ledger: StorageLedger,
    event: CleanupEvent,
)
    requires
        first_open(references, 0) < references.len(),
        references[first_open(references, 0)].progress
            == StorageReferenceProgress::StorageReleased,
        activation_of(ledger, references[first_open(references, 0)].mount_point@) == Some(
            None::<String>,
        ),
    ensures
        settled(references, ledger, 0) == (
            references,
            Err::<CleanupAction, _>(
                CleanupError::AmbiguousActivation(
                    references[first_open(references, 0)].mount_point,
                ),
            ),
        ),
        references_after(references, ledger, event) is Err,
        activations_after(references, ledger, event) == ledger.confidential_storage_activations@,
        devices_after(references, ledger, event) == ledger.ordinary_storage_devices@,
{
    lemma_first_open(references, 0);
    lemma_settled_skips_complete(references, ledger, 0, first_open(references, 0));
    let at = first_open(references, 0);
    assert(references.update(
        at,
        with_progress(references[at], settled_progress(references[at], ledger)),
    ) =~= references);
}

proof fn lemma_settled_skips_complete(
    references: Seq<StorageReference>,
    ledger: StorageLedger,
    from: int,
    at: int,
)
    requires
        0 <= from <= at <= references.len(),
        forall|i: int|
            from <= i < at ==> #[trigger] references[i].progress
                == StorageReferenceProgress::Complete,
    ensures
        settled(references, ledger, from) == settled(references, ledger, at),
    decreases at - from,
{
    if from < at {
        assert(references.update(
            from,
            with_progress(references[from], settled_progress(references[from], ledger)),
        ) =~= references);
        lemma_settled_skips_complete(references, ledger, from + 1, at);
    }
}

/// A failed step loses nothing: the references and the records stay as they are.
pub proof fn law_failed_step_changes_nothing(
    references: Seq<StorageReference>,
    ledger: StorageLedger,
    reason: String,
)
    ensures
        references_after(references, ledger, CleanupEvent::Failed(reason)) is Err,
        activations_after(references, ledger, CleanupEvent::Failed(reason))
            == ledger.confidential_storage_activations@,
        devices_after(references, ledger, CleanupEvent::Failed(reason))
            == ledger.ordinary_storage_devices@,
{
    lemma_first_open(references, 0);
}

/// A cleanup that stopped can be taken up again: it goes on with the same step.
pub proof fn law_cleanup_resumes_where_it_stopped(
    references: Seq<StorageReference>,
    ledger: StorageLedger,
)
    ensures
        settled(settled(references, ledger, 0).0, ledger, 0) == settled(references, ledger, 0),
{
    lemma_settled(references, ledger, 0);
    let after = settled(references, ledger, 0).0;
    let at = first_open(after, 0);
    lemma_first_open(after, 0);
    lemma_settled_skips_complete(after, ledger, 0, at);
    if at < after.len() {
        assert(settled_progress(after[at], ledger) == after[at].progress);
        assert(after.update(
            at,
            with_progress(after[at], settled_progress(after[at], ledger)),
        ) =~= after);
    }
}

/// A cleanup comes to an end: every accepted event is a step forward, and no more than three
/// steps are taken for each reference.
pub proof fn law_cleanup_comes_to_an_end(
    references: Seq<StorageReference>,
    ledger: StorageLedger,
    event: CleanupEvent,
)
    ensures
        total_rank(references) <= total_rank(settled(references, ledger, 0).0),
        total_rank(references) <= 3 * references.len(),
        references_after(references, ledger, event) matches Ok(after) ==> total_rank(references)
            < total_rank(after),
{
    lemma_settled(references, ledger, 0);
    lemma_total_rank(references, settled(references, ledger, 0).0);
    lemma_first_open(references, 0);
    if references_after(references, ledger, event) is Ok {
        let after = references_after(references, ledger, event)->Ok_0;
        let at = first_open(references, 0);
        assert(rank(references[at].progress) < rank(after[at].progress));
        lemma_total_rank(references, after);
    }
}

/// The record of an activation outlives every step but the deactivation of its own volume.
pub proof fn law_activation_is_recorded_until_deactivated(
    references: Seq<StorageReference>,
    ledger: StorageLedger,
    event: CleanupEvent,
    mount_point: Seq<char>,
)
    requires
        ledger.confidential_storage_activations@.dom().contains(mount_point),
        !activations_after(references, ledger, event).dom().contains(mount_point),
    ensures
        event is Deactivated,
        settled(references, ledger, 0).1 matches Ok(action) && action matches
            CleanupAction::Deactivate { mount_point: deactivated, activation_id } && {
            &&& deactivated@ == mount_point
            &&& ledger.confidential_storage_activations@[mount_point].activation_id == Some(
                activation_id,
            )
        },
{
    lemma_first_open(references, 0);
    let at = first_open(references, 0);
    assert(references[at].mount_point@ == mount_point);
    lemma_settled_skips_complete(references, ledger, 0, at);
}

/// Whether the reference at a place is the first that is not complete.
pub open spec fn is_first_open(references: Seq<StorageReference>, at: int) -> bool {
    &&& 0 <= at < references.len()
    &&& !(references[at].progress is Complete)
    &&& forall|j: int| 0 <= j < at ==> (#[trigger] references[j]).progress is Complete
}

/// Whether every reference is complete.
pub open spec fn none_is_open(references: Seq<StorageReference>) -> bool {
    forall|j: int|
        0 <= j < references.len() ==> (#[trigger] references[j]).progress is Complete
}

/// Whether an answer is what one open reference calls for. A held one has its storage released. One
/// whose storage is released has its volume deactivated, under the ID on record, and it is an error
/// where that ID is not known. One whose volume is deactivated has its ordinary device checked,
/// which is on record.
pub open spec fn is_called_for(
    reference: StorageReference,
    ledger: StorageLedger,
    answer: Result<CleanupAction, CleanupError>,
) -> bool {
    let mount_point = reference.mount_point;
    let activations = ledger.confidential_storage_activations@;
    let devices = ledger.ordinary_storage_devices@;
    match reference.progress {
        StorageReferenceProgress::ReferenceHeld => answer == Ok::<_, CleanupError>(
            CleanupAction::ReleaseStorage { mount_point },
        ),
        StorageReferenceProgress::StorageReleased => {
            &&& activations.dom().contains(mount_point@)
            &&& answer == match activations[mount_point@].activation_id {
                Some(activation_id) => Ok(
                    CleanupAction::Deactivate { mount_point, activation_id },
                ),
                None => Err(CleanupError::AmbiguousActivation(mount_point)),
            }
        },
        StorageReferenceProgress::ConfidentialDeactivated => {
            &&& devices.dom().contains(mount_point@)
            &&& answer == Ok::<_, CleanupError>(CleanupAction::CheckMounted { mount_point })
        },
        StorageReferenceProgress::Complete => false,
    }
}

/// Whether an answer is what references call for, as they stand: the cleanup is finished exactly
/// where none is open, and else it is about the first that is.
pub open spec fn answer_fits(
    references: Seq<StorageReference>,
    ledger: StorageLedger,
    answer: Result<CleanupAction, CleanupError>,
) -> bool {
    &&& answer == Ok::<_, CleanupError>(CleanupAction::Finished) <==> none_is_open(references)
    &&& forall|at: int| #[trigger]
        is_first_open(references, at) ==> is_called_for(references[at], ledger, answer)
}

/// Whether a reference made only the progress that it can make by itself: a held reference stays
/// held, a volume that is on record stays to be deactivated, and a device that is on record stays to
/// be checked.
pub open spec fn only_settled(
    before: StorageReference,
    after: StorageReference,
    ledger: StorageLedger,
) -> bool {
    let mount_point = before.mount_point@;
    let active = ledger.confidential_storage_activations@.dom().contains(mount_point);
    let ordinary = ledger.ordinary_storage_devices@.dom().contains(mount_point);
    &&& after.mount_point == before.mount_point
    &&& before.progress is ReferenceHeld ==> after.progress is ReferenceHeld
    &&& before.progress is StorageReleased && active ==> after.progress is StorageReleased
    &&& before.progress is StorageReleased && !active && ordinary
        ==> after.progress is StorageReleased || after.progress is ConfidentialDeactivated
    &&& before.progress is ConfidentialDeactivated ==> !(after.progress is ReferenceHeld) && !(
    after.progress is StorageReleased)
    &&& before.progress is ConfidentialDeactivated && ordinary
        ==> after.progress is ConfidentialDeactivated
    &&& before.progress is Complete ==> after.progress is Complete
    &&& before.progress is StorageReleased ==> !(after.progress is ReferenceHeld)
}

proof fn lemma_settled_places(references: Seq<StorageReference>, ledger: StorageLedger, from: int)
    requires
        0 <= from <= references.len(),
    ensures
        ({
            let (after, answer) = settled(references, ledger, from);
            &&& after.len() == references.len()
            &&& forall|i: int| 0 <= i < from ==> #[trigger] after[i] == references[i]
            &&& forall|i: int|
                from <= i < references.len() ==> (#[trigger] after[i] == references[i]
                    || after[i] == with_progress(
                    references[i],
                    settled_progress(references[i], ledger),
                ))
        }),
    decreases references.len() - from,
{
    if from < references.len() {
        let reference = with_progress(
            references[from],
            settled_progress(references[from], ledger),
        );
        let next = references.update(from, reference);
        if reference.progress == StorageReferenceProgress::Complete {
            lemma_settled_places(next, ledger, from + 1);
            let after = settled(references, ledger, from).0;
            assert forall|i: int| from <= i < references.len() implies (#[trigger] after[i]
                == references[i] || after[i] == with_progress(
                references[i],
                settled_progress(references[i], ledger),
            )) by {
                if i > from {
                    assert(next[i] == references[i]);
                } else {
                    assert(after[from] == next[from]);
                }
            }
        }
    }
}

proof fn lemma_settled_answers(references: Seq<StorageReference>, ledger: StorageLedger)
    ensures
        answer_fits(
            settled(references, ledger, 0).0,
            ledger,
            settled(references, ledger, 0).1,
        ),
{
    let (after, answer) = settled(references, ledger, 0);
    lemma_settled(references, ledger, 0);
    lemma_first_open(after, 0);
    let first = first_open(after, 0);
    assert forall|at: int| #[trigger] is_first_open(after, at) implies is_called_for(
        after[at],
        ledger,
        answer,
    ) by {
        if first < at {
            assert(after[first].progress is Complete);
        }
        if at < first {
            assert(after[at].progress == StorageReferenceProgress::Complete);
        }
        assert(after[at].progress == settled_progress(references[at], ledger));
        assert(after[at].mount_point == references[at].mount_point);
    }
    if first < after.len() {
        assert(is_first_open(after, first));
        if none_is_open(after) {
            assert(after[first].progress is Complete);
        }
    } else {
        assert(none_is_open(after));
    }
}

proof fn lemma_settled_fits(references: Seq<StorageReference>, ledger: StorageLedger)
    ensures
        ({
            let (after, answer) = settled(references, ledger, 0);
            &&& after.len() == references.len()
            &&& answer_fits(after, ledger, answer)
            &&& forall|i: int|
                0 <= i < references.len() ==> only_settled(
                    references[i],
                    #[trigger] after[i],
                    ledger,
                )
        }),
{
    lemma_settled_answers(references, ledger);
    lemma_settled_places(references, ledger, 0);
}

/// A cleanup that is taken up, at the start or after it stopped, does nothing by itself but to note
/// what needs no action, and asks for what its references call for. The records stay as they are.
pub proof fn law_cleanup_is_taken_up_where_its_references_stand(
    ledger: &mut StorageLedger,
    references: &mut Vec<StorageReference>,
    answer: Result<CleanupAction, CleanupError>,
)
    requires
        call_ensures(remove_storage_references_with, (ledger, references, None), answer),
    ensures
        *final(ledger) == *old(ledger),
        final(references)@.len() == old(references)@.len(),
        answer_fits(final(references)@, *old(ledger), answer),
        forall|i: int|
            0 <= i < old(references)@.len() ==> only_settled(
                old(references)@[i],
                #[trigger] final(references)@[i],
                *old(ledger),
            ),
{
    lemma_settled_fits(old(references)@, *old(ledger));
}

/// Whether an event is what a reference waits for.
pub open spec fn is_waited_for(
    reference: StorageReference,
    ledger: StorageLedger,
    event: CleanupEvent,
) -> bool {
    let activations = ledger.confidential_storage_activations@;
    match reference.progress {
        StorageReferenceProgress::ReferenceHeld => event is StorageUnknown
            || event is ReferenceDropped,
        StorageReferenceProgress::StorageReleased => {
            &&& event is Deactivated
            &&& activations.dom().contains(reference.mount_point@)
            &&& activations[reference.mount_point@].activation_id is Some
        },
        StorageReferenceProgress::ConfidentialDeactivated => event == CleanupEvent::Mounted(false),
        StorageReferenceProgress::Complete => false,
    }
}

/// What a cleanup makes of what it is told. It concerns the first reference that is open, and only
/// if it is what that reference waits for. Dropping its reference completes it where others still
/// use the storage, and releases it otherwise. Deactivating its volume takes the activation, and no
/// other, off record. Finding its device unmounted takes the device, and no other, off record and
/// completes it. All other references make no progress but by themselves.
pub proof fn law_cleanup_heeds_what_its_first_open_reference_waits_for(
    ledger: &mut StorageLedger,
    references: &mut Vec<StorageReference>,
    event: CleanupEvent,
    answer: Result<CleanupAction, CleanupError>,
    at: int,
)
    requires
        call_ensures(remove_storage_references_with, (ledger, references, Some(event)), answer),
        is_first_open(old(references)@, at),
        is_waited_for(old(references)@[at], *old(ledger), event),
    ensures
        ({
            let before = old(references)@;
            let after = final(references)@;
            let mount_point = before[at].mount_point;
            let activations = old(ledger).confidential_storage_activations@;
            let devices = old(ledger).ordinary_storage_devices@;
            let held = before[at].progress is ReferenceHeld;
            let released = before[at].progress is StorageReleased;
            let deactivated = before[at].progress is ConfidentialDeactivated;
            let shared = event is ReferenceDropped && !event->ReferenceDropped_storage_gone;
            &&& final(ledger).confidential_storage_activations@ == if released {
                activations.remove(mount_point@)
            } else {
                activations
            }
            &&& final(ledger).ordinary_storage_devices@ == if deactivated {
                devices.remove(mount_point@)
            } else {
                devices
            }
            &&& after.len() == before.len()
            &&& answer_fits(after, *final(ledger), answer)
            &&& after[at].mount_point == mount_point
            &&& !(after[at].progress is ReferenceHeld)
            &&& held && shared ==> after[at].progress is Complete
            &&& held && !shared && activations.dom().contains(mount_point@)
                ==> after[at].progress is StorageReleased
            &&& held && !shared && !activations.dom().contains(mount_point@)
                && devices.dom().contains(mount_point@)
                ==> after[at].progress is ConfidentialDeactivated
            &&& released && devices.dom().contains(mount_point@)
                ==> after[at].progress is ConfidentialDeactivated
            &&& !activations.dom().contains(mount_point@) && !devices.dom().contains(mount_point@)
                ==> after[at].progress is Complete
            &&& deactivated ==> after[at].progress is Complete
            &&& forall|i: int|
                0 <= i < before.len() && i != at ==> only_settled(
                    before[i],
                    #[trigger] after[i],
                    *final(ledger),
                )
        }),
{
    let before = old(references)@;
    let after = final(references)@;
    lemma_first_open_is(before, 0, at);
    let noted = references_after(before, *old(ledger), event)->Ok_0;
    lemma_settled_fits(noted, *final(ledger));
    assert forall|i: int| 0 <= i < before.len() && i != at implies only_settled(
        before[i],
        #[trigger] after[i],
        *final(ledger),
    ) by {
        assert(noted[i] == before[i]);
    }
    lemma_settled_reaches(noted, *final(ledger), at);
}

/// Whatever else a cleanup is told is an error that changes nothing and says what failed, and where.
pub proof fn law_cleanup_keeps_everything_when_a_step_fails(
    ledger: &mut StorageLedger,
    references: &mut Vec<StorageReference>,
    event: CleanupEvent,
    answer: Result<CleanupAction, CleanupError>,
    at: int,
)
    requires
        call_ensures(remove_storage_references_with, (ledger, references, Some(event)), answer),
        is_first_open(old(references)@, at),
        !is_waited_for(old(references)@[at], *old(ledger), event),
    ensures
        final(references)@ == old(references)@,
        final(ledger).confidential_storage_activations@
            == old(ledger).confidential_storage_activations@,
        final(ledger).ordinary_storage_devices@ == old(ledger).ordinary_storage_devices@,
        answer is Err,
        ({
            let mount_point = old(references)@[at].mount_point;
            let progress = old(references)@[at].progress;
            answer->Err_0 == if event is Failed && progress is ReferenceHeld {
                CleanupError::RemoveStorage { mount_point, reason: event->Failed_0 }
            } else if event is Failed && progress is StorageReleased {
                CleanupError::Deactivation { mount_point, reason: event->Failed_0 }
            } else if event is Failed {
                CleanupError::MountUnknown { mount_point, reason: event->Failed_0 }
            } else if progress is ConfidentialDeactivated && event is Mounted {
                CleanupError::StillMounted(mount_point)
            } else {
                CleanupError::UnexpectedEvent
            }
        }),
{
    lemma_first_open_is(old(references)@, 0, at);
}

/// The first reference that is not complete settles.
proof fn lemma_settled_reaches(references: Seq<StorageReference>, ledger: StorageLedger, at: int)
    requires
        0 <= at < references.len(),
        forall|j: int|
            0 <= j < at ==> (#[trigger] references[j]).progress
                == StorageReferenceProgress::Complete,
    ensures
        settled(references, ledger, 0).0[at] == with_progress(
            references[at],
            settled_progress(references[at], ledger),
        ),
{
    lemma_settled_skips_complete(references, ledger, 0, at);
    let reference = with_progress(references[at], settled_progress(references[at], ledger));
    let next = references.update(at, reference);
    if reference.progress == StorageReferenceProgress::Complete {
        lemma_settled_places(next, ledger, at + 1);
    }
}

/// A cleanup with nothing left to do heeds nothing that it is told.
pub proof fn law_complete_cleanup_heeds_nothing(
    ledger: &mut StorageLedger,
    references: &mut Vec<StorageReference>,
    event: CleanupEvent,
    answer: Result<CleanupAction, CleanupError>,
)
    requires
        call_ensures(remove_storage_references_with, (ledger, references, Some(event)), answer),
        none_is_open(old(references)@),
    ensures
        answer is Err,
        answer->Err_0 is UnexpectedEvent,
        final(references)@ == old(references)@,
        final(ledger).confidential_storage_activations@
            == old(ledger).confidential_storage_activations@,
        final(ledger).ordinary_storage_devices@ == old(ledger).ordinary_storage_devices@,
{
    lemma_first_open_is(old(references)@, 0, old(references)@.len() as int);
}

/// A cleanup does with the references that it owns what is done with references by themselves: it
/// asks for what they call for, heeds what the first open one waits for, and changes nothing where
/// it is told something else.
pub proof fn law_owned_references_are_cleaned_up_alike(
    cleanup: &mut StorageReferenceCleanup,
    ledger: &mut StorageLedger,
    event: Option<CleanupEvent>,
    answer: Result<CleanupAction, CleanupError>,
    before: Vec<StorageReference>,
    at: int,
)
    requires
        call_ensures(StorageReferenceCleanup::run_with, (cleanup, ledger, event), answer),
        old(cleanup).references == Some(before),
        is_first_open(before@, at),
    ensures
        final(cleanup).cid == old(cleanup).cid,
        final(cleanup).references is Some,
        ({
            let after = final(cleanup).references->0@;
            let mount_point = before@[at].mount_point@;
            let activations = old(ledger).confidential_storage_activations@;
            let devices = old(ledger).ordinary_storage_devices@;
            let heeded = event is Some && is_waited_for(before@[at], *old(ledger), event->0);
            let released = heeded && before@[at].progress is StorageReleased;
            let deactivated = heeded && before@[at].progress is ConfidentialDeactivated;
            &&& after.len() == before@.len()
            &&& final(ledger).confidential_storage_activations@ == if released {
                activations.remove(mount_point)
            } else {
                activations
            }
            &&& final(ledger).ordinary_storage_devices@ == if deactivated {
                devices.remove(mount_point)
            } else {
                devices
            }
            &&& event is Some && !heeded ==> after == before@ && answer is Err
            &&& event is None || heeded ==> answer_fits(after, *final(ledger), answer)
            &&& heeded ==> !(after[at].progress is ReferenceHeld)
            &&& forall|i: int|
                0 <= i < before@.len() && (i != at || event is None) ==> only_settled(
                    before@[i],
                    #[trigger] after[i],
                    *final(ledger),
                )
        }),
{
    lemma_first_open_is(before@, 0, at);
    let after = final(cleanup).references->0@;
    if event is None {
        lemma_settled_fits(before@, *old(ledger));
    } else if references_after(before@, *old(ledger), event->0) is Ok {
        let noted = references_after(before@, *old(ledger), event->0)->Ok_0;
        lemma_settled_fits(noted, *final(ledger));
        assert forall|i: int| 0 <= i < before@.len() && i != at implies only_settled(
            before@[i],
            #[trigger] after[i],
            *final(ledger),
        ) by {
            assert(noted[i] == before@[i]);
        }
        lemma_settled_reaches(noted, *final(ledger), at);
    }
}

/// References that are taken over are given back unless every one of them is complete: a cleanup can
/// be ended exactly where all are, and then gives none back and does nothing more.
pub proof fn law_references_are_given_back_unless_complete(
    cid: Option<String>,
    references: Vec<StorageReference>,
    cleanup: &mut StorageReferenceCleanup,
    ended: Result<(), CleanupError>,
    dropped: &mut StorageReferenceCleanup,
    given_back: Option<Vec<StorageReference>>,
    later: &mut StorageReferenceCleanup,
    ledger: &mut StorageLedger,
    answer: Result<CleanupAction, CleanupError>,
)
    requires
        call_ensures(
            StorageReferenceCleanup::from_references,
            (cid, references),
            *old(cleanup),
        ),
        call_ensures(StorageReferenceCleanup::finish, (cleanup,), ended),
        *old(dropped) == *final(cleanup),
        call_ensures(StorageReferenceCleanup::give_back, (dropped,), given_back),
        *old(later) == *final(dropped),
        call_ensures(StorageReferenceCleanup::run_with, (later, ledger, None), answer),
    ensures
        ended is Ok <==> forall|i: int|
            0 <= i < references@.len() ==> (#[trigger] references@[i]).progress is Complete,
        ended is Err ==> ended->Err_0 is IncompleteReferences && given_back == Some(references),
        ended is Ok ==> given_back is None,
        answer is Err,
        answer->Err_0 is AlreadyComplete,
        final(dropped).cid == cid,
{
    if ended is Ok {
        assert(all_complete(references@));
    }
    if forall|i: int|
        0 <= i < references@.len() ==> (#[trigger] references@[i]).progress is Complete {
        assert(all_complete(references@));
    }
}

/// A new reference is held, at the mount point that it is for.
pub proof fn law_new_reference_is_held(mount_point: String, reference: StorageReference)
    requires
        call_ensures(StorageReference::new, (mount_point,), reference),
    ensures
        reference.mount_point == mount_point,
        reference.progress is ReferenceHeld,
{
}

/// A new ledger has no record.
pub proof fn law_new_ledger_is_empty(ledger: StorageLedger, mount_point: Seq<char>)
    requires
        call_ensures(StorageLedger::new, (), ledger),
    ensures
        !ledger.confidential_storage_activations@.dom().contains(mount_point),
        !ledger.ordinary_storage_devices@.dom().contains(mount_point),
{
}

/// What is said of a failed cleanup names the mount point that it failed at, and gives the reason where
/// there is one.
pub proof fn law_cleanup_messages_name_the_mount_point(
    error: CleanupError,
    message: String,
)
    requires
        call_ensures(CleanupError::message, (&error,), message),
    ensures
        message@ == match error {
            CleanupError::AlreadyComplete => "storage cleanup transaction is already complete"@,
            CleanupError::IncompleteReferences =>
                "storage cleanup transaction still has incomplete references"@,
            CleanupError::RemoveStorage { mount_point, reason } => "remove sandbox storage "@
                + mount_point@ + ": "@ + reason@,
            CleanupError::AmbiguousActivation(mount_point) => "confidential storage "@
                + mount_point@ + " has an ambiguous activation in progress"@,
            CleanupError::Deactivation { mount_point, reason } => "deactivate confidential storage "@
                + mount_point@ + ": "@ + reason@,
            CleanupError::StillMounted(mount_point) => "ordinary block storage remains mounted at "@
                + mount_point@,
            CleanupError::MountUnknown { mount_point, reason } => "verify ordinary block storage cleanup at "@
                + mount_point@ + ": "@ + reason@,
            CleanupError::UnexpectedEvent =>
                "storage cleanup was told of a step that it did not ask for"@,
        },
{
}

} // verus!
