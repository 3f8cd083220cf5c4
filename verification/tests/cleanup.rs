use confidential_storage::cleanup::{
    remove_storage_references_with, BlockDeviceIdentity, CleanupAction, CleanupError, CleanupEvent,
    ConfidentialStorageActivation, StorageLedger, StorageReference, StorageReferenceCleanup,
    StorageReferenceProgress,
};

// The references to storages that a sandbox counts, and what its surroundings answer.
struct World {
    counts: Vec<(String, u32)>,
    release_failures: u32,
    deactivation_failures: u32,
    mounted: Result<bool, String>,
    releases: Vec<String>,
    deactivations: Vec<String>,
}

impl World {
    fn new(counts: &[(&str, u32)]) -> Self {
        World {
            counts: counts
                .iter()
                .map(|(mount_point, count)| (mount_point.to_string(), *count))
                .collect(),
            release_failures: 0,
            deactivation_failures: 0,
            mounted: Ok(false),
            releases: Vec::new(),
            deactivations: Vec::new(),
        }
    }

    fn count(&self, mount_point: &str) -> Option<u32> {
        self.counts
            .iter()
            .find(|(name, _)| name == mount_point)
            .map(|(_, count)| *count)
    }

    fn perform(&mut self, action: CleanupAction) -> Option<CleanupEvent> {
        match action {
            CleanupAction::ReleaseStorage { mount_point } => {
                let Some(place) = self
                    .counts
                    .iter()
                    .position(|(name, _)| *name == mount_point)
                else {
                    return Some(CleanupEvent::StorageUnknown);
                };
                self.releases.push(mount_point);
                let gone = self.counts[place].1 == 1;
                if gone && self.release_failures > 0 {
                    self.release_failures -= 1;
                    return Some(CleanupEvent::Failed("busy".to_string()));
                }
                if gone {
                    self.counts.remove(place);
                } else {
                    self.counts[place].1 -= 1;
                }
                Some(CleanupEvent::ReferenceDropped { storage_gone: gone })
            }
            CleanupAction::Deactivate { activation_id, .. } => {
                self.deactivations.push(activation_id);
                if self.deactivation_failures > 0 {
                    self.deactivation_failures -= 1;
                    return Some(CleanupEvent::Failed("refused".to_string()));
                }
                Some(CleanupEvent::Deactivated)
            }
            CleanupAction::CheckMounted { .. } => Some(match &self.mounted {
                Ok(mounted) => CleanupEvent::Mounted(*mounted),
                Err(reason) => CleanupEvent::Failed(reason.clone()),
            }),
            CleanupAction::Finished => None,
        }
    }
}

fn run(
    world: &mut World,
    ledger: &mut StorageLedger,
    references: &mut Vec<StorageReference>,
) -> Result<(), CleanupError> {
    let mut event = None;
    loop {
        let action = remove_storage_references_with(ledger, references, event)?;
        event = world.perform(action);
        if event.is_none() {
            return Ok(());
        }
    }
}

fn reference(mount_point: &str) -> StorageReference {
    StorageReference::new(mount_point.to_string())
}

fn activate(ledger: &mut StorageLedger, mount_point: &str, id: Option<&str>) {
    ledger.confidential_storage_activations.insert(
        mount_point.to_string(),
        ConfidentialStorageActivation {
            activation_id: id.map(str::to_string),
        },
    );
}

#[test]
fn storage_rollback_releases_every_reference() {
    let mount_point = "/run/kata-containers/shared/containers/passthrough/rollback-test";
    let mut world = World::new(&[(mount_point, 2)]);
    let mut ledger = StorageLedger::new();
    let mut references = vec![reference(mount_point), reference(mount_point)];
    run(&mut world, &mut ledger, &mut references).unwrap();
    assert_eq!(world.count(mount_point), None);
}

#[test]
fn partial_cleanup_retry_does_not_release_a_completed_reference_twice() {
    let first = "/run/kata-containers/storage-cleanup-first";
    let second = "/run/kata-containers/storage-cleanup-second";
    let mut world = World::new(&[(first, 2), (second, 1)]);
    world.release_failures = 1;
    let mut ledger = StorageLedger::new();
    let mut references = vec![reference(first), reference(second)];

    let error = run(&mut world, &mut ledger, &mut references).unwrap_err();
    assert_eq!(
        error.message(),
        "remove sandbox storage /run/kata-containers/storage-cleanup-second: busy"
    );
    assert_eq!(references[0].progress, StorageReferenceProgress::Complete);
    assert_eq!(
        references[1].progress,
        StorageReferenceProgress::ReferenceHeld
    );
    assert_eq!(world.count(first), Some(1));

    run(&mut world, &mut ledger, &mut references).unwrap();
    assert_eq!(world.count(first), Some(1));
    assert_eq!(world.count(second), None);
    assert!(references
        .iter()
        .all(|reference| reference.progress == StorageReferenceProgress::Complete));
    assert_eq!(world.releases, [first, second, second]);
}

#[test]
fn deactivation_failure_resumes_after_reference_release() {
    let mount_point = "/run/kata-containers/deactivation-retry";
    let mut world = World::new(&[(mount_point, 1)]);
    world.deactivation_failures = 1;
    let mut ledger = StorageLedger::new();
    activate(&mut ledger, mount_point, Some("activation-retry"));
    let mut references = vec![reference(mount_point)];

    let error = run(&mut world, &mut ledger, &mut references).unwrap_err();
    assert_eq!(
        error.message(),
        "deactivate confidential storage /run/kata-containers/deactivation-retry: refused"
    );
    assert_eq!(
        references[0].progress,
        StorageReferenceProgress::StorageReleased
    );
    assert_eq!(world.count(mount_point), None);
    assert!(ledger
        .confidential_storage_activations
        .contains_key(mount_point));

    run(&mut world, &mut ledger, &mut references).unwrap();
    assert_eq!(references[0].progress, StorageReferenceProgress::Complete);
    assert!(!ledger
        .confidential_storage_activations
        .contains_key(mount_point));
    assert_eq!(world.deactivations, ["activation-retry", "activation-retry"]);
    assert_eq!(world.releases, [mount_point]);
}

#[test]
fn ambiguous_activation_fails_closed_without_dropping_ownership() {
    let mount_point = "/run/kata-containers/ambiguous-activation";
    let mut world = World::new(&[(mount_point, 1)]);
    let mut ledger = StorageLedger::new();
    activate(&mut ledger, mount_point, None);
    let mut references = vec![reference(mount_point)];

    for _ in 0..2 {
        let error = run(&mut world, &mut ledger, &mut references).unwrap_err();
        assert!(error.message().contains("ambiguous activation in progress"));
        assert_eq!(
            references[0].progress,
            StorageReferenceProgress::StorageReleased
        );
        assert_eq!(world.count(mount_point), None);
        assert!(ledger
            .confidential_storage_activations
            .contains_key(mount_point));
    }
    assert!(world.deactivations.is_empty());
}

#[test]
fn cancelled_cleanup_restores_progress_before_releasing_ownership() {
    let mount_point = "/run/kata-containers/cancelled-cleanup";
    let mut world = World::new(&[(mount_point, 1)]);
    let mut ledger = StorageLedger::new();
    activate(&mut ledger, mount_point, Some("activation-cancelled"));
    let mut cleanup = StorageReferenceCleanup::from_references(
        Some("cancelled-cleanup".to_string()),
        vec![reference(mount_point)],
    );

    let action = cleanup.run_with(&mut ledger, None).unwrap();
    let event = world.perform(action);
    let action = cleanup.run_with(&mut ledger, event).unwrap();
    assert!(matches!(action, CleanupAction::Deactivate { .. }));

    // The deactivation never answers: what is given back keeps its progress.
    let references = cleanup.give_back().unwrap();
    assert_eq!(references.len(), 1);
    assert_eq!(
        references[0].progress,
        StorageReferenceProgress::StorageReleased
    );
    assert!(ledger
        .confidential_storage_activations
        .contains_key(mount_point));

    let mut again = references;
    run(&mut world, &mut ledger, &mut again).unwrap();
    assert_eq!(world.releases, [mount_point]);
    assert_eq!(world.deactivations, ["activation-cancelled"]);
}

#[test]
fn storage_cleanup_failure_keeps_activation_for_ordered_retry() {
    let mount_point = "/run/kata-containers/shared/containers/passthrough/ordered-test";
    let mut world = World::new(&[(mount_point, 1)]);
    world.release_failures = 1;
    let mut ledger = StorageLedger::new();
    activate(&mut ledger, mount_point, Some("activation-1"));
    let mut references = vec![reference(mount_point)];

    assert!(run(&mut world, &mut ledger, &mut references).is_err());
    assert!(world.deactivations.is_empty());
    assert!(ledger
        .confidential_storage_activations
        .contains_key(mount_point));

    run(&mut world, &mut ledger, &mut references).unwrap();
    assert_eq!(world.deactivations, ["activation-1"]);
    assert!(ledger.confidential_storage_activations.is_empty());
}

fn ordinary(mount_point: &str) -> StorageLedger {
    let mut ledger = StorageLedger::new();
    ledger.ordinary_storage_devices.insert(
        mount_point.to_string(),
        BlockDeviceIdentity { major: 8, minor: 1 },
    );
    ledger
}

#[test]
fn ordinary_storage_identity_is_removed_only_after_mount_is_gone() {
    let cleaned = "/run/kata-containers/nonexistent-ordinary-storage-test";
    let mut world = World::new(&[(cleaned, 1)]);
    let mut ledger = ordinary(cleaned);
    let mut references = vec![reference(cleaned)];
    run(&mut world, &mut ledger, &mut references).unwrap();
    assert!(!ledger.ordinary_storage_devices.contains_key(cleaned));

    let mounted = "/proc";
    let mut world = World::new(&[(mounted, 1)]);
    world.mounted = Ok(true);
    let mut ledger = ordinary(mounted);
    let mut references = vec![reference(mounted)];
    let error = run(&mut world, &mut ledger, &mut references).unwrap_err();
    assert_eq!(
        error.message(),
        "ordinary block storage remains mounted at /proc"
    );
    assert_eq!(
        references[0].progress,
        StorageReferenceProgress::ConfidentialDeactivated
    );
    assert!(ledger.ordinary_storage_devices.contains_key(mounted));

    world.mounted = Err("no mountinfo".to_string());
    let error = run(&mut world, &mut ledger, &mut references).unwrap_err();
    assert_eq!(
        error.message(),
        "verify ordinary block storage cleanup at /proc: no mountinfo"
    );
    assert!(ledger.ordinary_storage_devices.contains_key(mounted));

    world.mounted = Ok(false);
    run(&mut world, &mut ledger, &mut references).unwrap();
    assert!(!ledger.ordinary_storage_devices.contains_key(mounted));
    assert_eq!(references[0].progress, StorageReferenceProgress::Complete);
}

#[test]
fn a_reference_to_a_storage_in_use_leaves_its_volume_active() {
    let mount_point = "/run/kata-containers/shared";
    let mut world = World::new(&[(mount_point, 2)]);
    let mut ledger = StorageLedger::new();
    activate(&mut ledger, mount_point, Some("shared"));
    let mut references = vec![reference(mount_point)];
    run(&mut world, &mut ledger, &mut references).unwrap();
    assert!(world.deactivations.is_empty());
    assert!(ledger
        .confidential_storage_activations
        .contains_key(mount_point));
    assert_eq!(references[0].progress, StorageReferenceProgress::Complete);
}

#[test]
fn a_cleanup_ends_once() {
    let mut ledger = StorageLedger::new();
    let mut cleanup =
        StorageReferenceCleanup::from_references(None, vec![reference("/a"), reference("/b")]);
    assert!(matches!(
        cleanup.finish(),
        Err(CleanupError::IncompleteReferences)
    ));
    let mut world = World::new(&[("/a", 1)]);
    let mut event = None;
    loop {
        let action = cleanup.run_with(&mut ledger, event).unwrap();
        event = world.perform(action);
        if event.is_none() {
            break;
        }
    }
    cleanup.finish().unwrap();
    assert!(cleanup.give_back().is_none());
    assert!(matches!(
        cleanup.finish(),
        Err(CleanupError::AlreadyComplete)
    ));
    assert!(matches!(
        cleanup.run_with(&mut ledger, None),
        Err(CleanupError::AlreadyComplete)
    ));
}

#[test]
fn a_cleanup_refuses_events_that_it_did_not_ask_for() {
    let mut ledger = StorageLedger::new();
    let mut references = vec![reference("/a")];
    for event in [CleanupEvent::Deactivated, CleanupEvent::Mounted(false)] {
        assert!(matches!(
            remove_storage_references_with(&mut ledger, &mut references, Some(event)),
            Err(CleanupError::UnexpectedEvent)
        ));
        assert_eq!(
            references[0].progress,
            StorageReferenceProgress::ReferenceHeld
        );
    }
    assert!(matches!(
        remove_storage_references_with(
            &mut ledger,
            &mut Vec::new(),
            Some(CleanupEvent::StorageUnknown)
        ),
        Err(CleanupError::UnexpectedEvent)
    ));
}
