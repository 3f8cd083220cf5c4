use confidential_storage::declaration::ConfidentialStorageAccess;
use confidential_storage::device::{
    install_outcome, mount_storage, new_device, parse_options, update_storage_device, Answer,
    DeviceCleanup, InstallStep, MountStep, StorageDeviceGeneric, StorageError,
};
use confidential_storage::multi_layer::{
    handle_multi_layer_storage, ClassifiedStorage, ErofsGroup, GroupAction, GroupEvent,
    MultiLayerGroup, MultiLayerProcessResult,
};
use confidential_storage::names::KATA_SHAREDFS_GUEST_PREMOUNT_TAG;
use confidential_storage::storage::{
    add_storages, add_storages_inner, AddAction, AddEvent, AddPhase, ContainerRecords, RunAction,
    RunEvent, StorageRun,
};
use confidential_storage::types::{ConfidentialStorage, Storage};

fn storage(mount_point: &str, multi_layer: bool) -> ClassifiedStorage {
    ClassifiedStorage {
        storage: Storage {
            driver: "blk".to_string(),
            mount_point: mount_point.to_string(),
            ..Default::default()
        },
        multi_layer,
    }
}

fn text(value: &str) -> String {
    value.to_string()
}

fn layers() -> Vec<ClassifiedStorage> {
    let mut storages = vec![
        storage("/plain", false),
        storage("/upper", true),
        storage("/lower", true),
        storage("/upper", true),
    ];
    storages[2].storage.shared = true;
    storages
}

fn group() -> MultiLayerGroup {
    handle_multi_layer_storage(&layers(), 1, &Vec::new()).unwrap()
}

fn claimed(initializers: &[bool]) -> MultiLayerGroup {
    let mut group = group();
    for initializer in initializers {
        group = group.report(GroupEvent::Claimed {
            initializer: *initializer,
        });
    }
    group
}

fn erofs(mount_points: &[&str]) -> ErofsGroup {
    ErofsGroup {
        mount_point: text("/overlay"),
        processed_mount_points: mount_points.iter().map(|path| path.to_string()).collect(),
        temp_mount_points: vec![text("/tmp/upper"), text("/tmp/lower")],
        verity_devices: vec![text("/dev/dm-0")],
    }
}

#[test]
fn groups_claim_each_layer_once_in_order() {
    let group = group();
    match group.action() {
        GroupAction::Claim {
            mount_point,
            shared,
        } => {
            assert_eq!(mount_point, "/upper");
            assert!(!shared);
        }
        other => panic!("unexpected {other:?}"),
    }
    let group = group.report(GroupEvent::Claimed { initializer: true });
    match group.action() {
        GroupAction::Claim {
            mount_point,
            shared,
        } => {
            assert_eq!(mount_point, "/lower");
            assert!(shared);
        }
        other => panic!("unexpected {other:?}"),
    }
    let group = group.report(GroupEvent::Claimed { initializer: true });
    assert!(matches!(group.action(), GroupAction::Build));
}

#[test]
fn handled_or_plain_storages_start_no_group() {
    assert!(handle_multi_layer_storage(&layers(), 0, &Vec::new()).is_none());
    assert!(handle_multi_layer_storage(&layers(), 1, &vec![text("/upper")]).is_none());
    assert!(handle_multi_layer_storage(&layers(), 2, &vec![text("/upper")]).is_some());
}

#[test]
fn multi_layer_reuser_observes_ready_storage_without_remounting() {
    let mount_point = "/run/kata-containers/ready-multi-layer";
    let ready_path = "/run/kata-containers/ready-multi-layer-device";
    let layer = ClassifiedStorage {
        storage: Storage {
            mount_point: text(mount_point),
            options: vec![text("X-kata.multi-layer=true")],
            ..Default::default()
        },
        multi_layer: true,
    };
    let group = handle_multi_layer_storage(&vec![layer], 0, &Vec::new()).unwrap();
    match group.action() {
        GroupAction::Claim {
            mount_point: claimed,
            ..
        } => assert_eq!(claimed, mount_point),
        other => panic!("unexpected {other:?}"),
    }
    let group = group.report(GroupEvent::Claimed { initializer: false });
    assert!(matches!(
        group.action(),
        GroupAction::WaitUntilReady { place: 0 }
    ));
    let group = group.report(GroupEvent::Ready {
        path: Some(text(ready_path)),
    });
    assert!(matches!(group.action(), GroupAction::Finished));
    let result = group.finish().unwrap().unwrap();
    assert_eq!(result.path, Some(text(ready_path)));
    assert_eq!(result.processed_mount_points, [mount_point]);
}

#[test]
fn reused_groups_take_the_path_of_their_first_layer() {
    let group = claimed(&[false, false]);
    assert!(matches!(
        group.action(),
        GroupAction::WaitUntilReady { place: 0 }
    ));
    let group = group.report(GroupEvent::Ready {
        path: Some(text("/first")),
    });
    assert!(matches!(
        group.action(),
        GroupAction::WaitUntilReady { place: 1 }
    ));
    let group = group.report(GroupEvent::Ready {
        path: Some(text("/other")),
    });
    assert!(matches!(group.action(), GroupAction::Finished));
    let result = group.finish().unwrap().unwrap();
    assert_eq!(result.path, Some(text("/first")));
    assert_eq!(result.processed_mount_points, ["/upper", "/lower"]);
    assert!(result.temp_mount_points.is_empty());
    assert!(result.verity_devices.is_empty());
}

#[test]
fn groups_are_mounted_and_installed_for_every_layer() {
    let group = claimed(&[true, true]);
    assert!(matches!(group.action(), GroupAction::Build));
    let mut group = group.report(GroupEvent::Built(erofs(&["/upper", "/lower"])));
    for (expected, expected_mount_point) in [(0, "/upper"), (1, "/lower")] {
        match group.action() {
            GroupAction::InstallDevice {
                place,
                mount_point,
                path,
            } => {
                assert_eq!(place, expected);
                assert_eq!(mount_point, expected_mount_point);
                assert_eq!(path, "/overlay");
            }
            other => panic!("unexpected {other:?}"),
        }
        group = group.report(GroupEvent::Installed);
    }
    let result = group.finish().unwrap().unwrap();
    assert_eq!(result.path, Some(text("/overlay")));
    assert_eq!(result.verity_devices, ["/dev/dm-0"]);
}

fn group_failure(group: MultiLayerGroup) -> String {
    let reason = match group.action() {
        GroupAction::FailClaims { reason } => reason,
        other => panic!("unexpected {other:?}"),
    };
    let error = group
        .report(GroupEvent::ClaimsFailed)
        .finish()
        .unwrap()
        .unwrap_err();
    assert_eq!(error.message(), reason);
    reason
}

#[test]
fn groups_with_mixed_ownership_fail_their_claims() {
    for initializers in [[true, false], [false, true]] {
        assert_eq!(
            group_failure(claimed(&initializers)),
            "multi-layer storage group has mixed initialized and uninitialized ownership"
        );
    }
}

#[test]
fn groups_that_cannot_be_mounted_fail_their_claims() {
    assert_eq!(
        group_failure(claimed(&[true, true]).report(GroupEvent::Failed(text("no erofs")))),
        "no erofs"
    );
    for mount_points in [&["/upper"][..], &["/lower", "/upper"][..]] {
        assert_eq!(
            group_failure(
                claimed(&[true, true]).report(GroupEvent::Built(erofs(mount_points)))
            ),
            "multi-layer storage group changed after lifecycle ownership was claimed"
        );
    }
}

#[test]
fn groups_report_other_failures() {
    let error = group()
        .report(GroupEvent::Failed(text("no claim")))
        .finish()
        .unwrap()
        .unwrap_err();
    assert_eq!(error.message(), "no claim");
    let error = claimed(&[false, false])
        .report(GroupEvent::Ready { path: None })
        .report(GroupEvent::Failed(text("gone")))
        .finish()
        .unwrap()
        .unwrap_err();
    assert_eq!(
        error.message(),
        "wait for multi-layer sandbox storage /lower: gone"
    );
    let error = claimed(&[true, true])
        .report(GroupEvent::Built(erofs(&["/upper", "/lower"])))
        .report(GroupEvent::Failed(text("refused")))
        .finish()
        .unwrap()
        .unwrap_err();
    assert_eq!(error.message(), "refused");
    let empty = MultiLayerGroup::start(&vec![storage("/plain", false)]);
    assert_eq!(
        empty.finish().unwrap().unwrap_err().message(),
        "multi-layer storage group is empty"
    );
    assert!(group().finish().is_none());
}

#[test]
fn groups_ignore_events_that_they_did_not_ask_for() {
    let group = group().report(GroupEvent::Installed);
    assert!(matches!(group.action(), GroupAction::Claim { .. }));
}

fn group_result(cid_devices: &[&str]) -> MultiLayerProcessResult {
    MultiLayerProcessResult {
        path: Some(text("/overlay")),
        processed_mount_points: vec![text("/upper"), text("/lower")],
        temp_mount_points: vec![text("/tmp/upper")],
        verity_devices: cid_devices.iter().map(|device| device.to_string()).collect(),
    }
}

fn claim_of(run: &StorageRun) -> String {
    match run.action() {
        RunAction::Claim { mount_point, .. } => mount_point,
        other => panic!("unexpected {other:?}"),
    }
}

#[test]
fn storages_are_handled_in_order_and_groups_once() {
    let run = add_storages_inner(layers(), Some(text("cid")));
    assert_eq!(claim_of(&run), "/plain");
    let run = run.report(RunEvent::Claimed { initializer: true });
    assert!(matches!(run.action(), RunAction::CreateDevice { place: 0 }));
    let run = run.report(RunEvent::Created {
        path: Some(text("/plain")),
    });
    match run.action() {
        RunAction::InstallDevice { mount_point } => assert_eq!(mount_point, "/plain"),
        other => panic!("unexpected {other:?}"),
    }
    let run = run.report(RunEvent::Installed);
    assert!(matches!(
        run.action(),
        RunAction::HandleMultiLayer { place: 1 }
    ));
    let run = run.report(RunEvent::GroupHandled(group_result(&["/dev/dm-0"])));
    match run.action() {
        RunAction::RecordVerityDevices { cid, devices } => {
            assert_eq!(cid, "cid");
            assert_eq!(devices, ["/dev/dm-0"]);
        }
        other => panic!("unexpected {other:?}"),
    }
    assert_eq!(*run.processed_mount_points(), ["/upper", "/lower"]);
    let run = run.report(RunEvent::VerityRecorded);
    assert!(matches!(run.action(), RunAction::Finished));
    assert_eq!(
        run.finish().unwrap().unwrap(),
        ["/plain", "/overlay", "/tmp/upper", "/dev/dm-0"]
    );
}

#[test]
fn verity_devices_are_recorded_only_for_containers() {
    let storages = vec![storage("/upper", true), storage("/lower", true)];
    let run = add_storages_inner(storages, None)
        .report(RunEvent::GroupHandled(group_result(&["/dev/dm-0"])));
    assert!(matches!(run.action(), RunAction::Finished));
    let storages = vec![storage("/upper", true)];
    let run = add_storages_inner(storages, Some(text("cid")))
        .report(RunEvent::GroupHandled(group_result(&[])));
    assert!(matches!(run.action(), RunAction::Finished));
}

#[test]
fn storages_of_others_are_waited_for() {
    let storages = vec![storage("/a", false), storage("/b", false), storage("/c", false)];
    let run = add_storages_inner(storages, None)
        .report(RunEvent::Claimed { initializer: false });
    assert!(matches!(run.action(), RunAction::WaitUntilReady));
    let run = run.report(RunEvent::Ready {
        path: Some(text("/ready")),
    });
    assert_eq!(claim_of(&run), "/b");
    let run = run
        .report(RunEvent::Claimed { initializer: false })
        .report(RunEvent::Ready { path: Some(text("")) });
    let run = run
        .report(RunEvent::Claimed { initializer: false })
        .report(RunEvent::Ready { path: None });
    assert_eq!(run.finish().unwrap().unwrap(), ["/ready"]);
}

#[test]
fn a_request_without_storages_mounts_nothing() {
    let run = add_storages_inner(Vec::new(), None);
    assert!(matches!(run.action(), RunAction::Finished));
    assert!(run.finish().unwrap().unwrap().is_empty());
}

fn single() -> StorageRun {
    add_storages_inner(vec![storage("/a", false)], None)
}

#[test]
fn failed_devices_fail_their_claim() {
    let creating = || single().report(RunEvent::Claimed { initializer: true });
    for (event, message) in [
        (
            RunEvent::NoHandler,
            "Failed to find the storage handler blk",
        ),
        (RunEvent::Failed(text("no device")), "no device"),
    ] {
        let run = creating().report(event);
        match run.action() {
            RunAction::FailClaim { reason } => assert_eq!(reason, message),
            other => panic!("unexpected {other:?}"),
        }
        let error = run
            .report(RunEvent::ClaimFailed)
            .finish()
            .unwrap()
            .unwrap_err();
        assert_eq!(error.message(), message);
    }
}

#[test]
fn other_failures_end_the_run() {
    let failed = |run: StorageRun| {
        run.report(RunEvent::Failed(text("reason")))
            .finish()
            .unwrap()
            .unwrap_err()
            .message()
    };
    assert_eq!(failed(single()), "reason");
    assert_eq!(
        failed(single().report(RunEvent::Claimed { initializer: false })),
        "wait for sandbox storage /a: reason"
    );
    assert_eq!(
        failed(
            single()
                .report(RunEvent::Claimed { initializer: true })
                .report(RunEvent::Created { path: None })
        ),
        "reason"
    );
    assert_eq!(
        failed(add_storages_inner(vec![storage("/a", true)], None)),
        "reason"
    );
    assert!(single().finish().is_none());
    assert!(matches!(
        single().report(RunEvent::Installed).action(),
        RunAction::Claim { .. }
    ));
}

#[test]
fn requests_are_checked_before_anything_is_done() {
    let mut storages = vec![storage("/a", false), storage("/run", false)];
    storages[0].storage.confidential_storage = Some(ConfidentialStorage {
        manifest_uri: text("kbs:///t/m/a"),
        requested_access: ConfidentialStorageAccess::ReadWrite,
    });
    storages[1].storage.driver = text("virtio-fs");
    let mut records = ContainerRecords::new();
    let request = add_storages(&storages, Some(text("cid")));
    assert!(matches!(
        request.action(),
        AddAction::ValidateContract { place: 0 }
    ));
    let request = request.report(&mut records, AddEvent::Done);
    assert!(matches!(
        request.action(),
        AddAction::ValidateContract { place: 1 }
    ));
    let request = request.report(&mut records, AddEvent::Done);
    match request.action() {
        AddAction::Admit {
            requests_confidential_storage,
            requests_host_shared_plaintext_root,
        } => {
            assert!(requests_confidential_storage);
            assert!(requests_host_shared_plaintext_root);
        }
        other => panic!("unexpected {other:?}"),
    }
    let request = request.report(&mut records, AddEvent::Done);
    assert!(matches!(request.action(), AddAction::CheckTopology));
    let request = request.report(&mut records, AddEvent::Done);
    assert!(matches!(request.action(), AddAction::Begin));
    let request = request.report(&mut records, AddEvent::Done);
    assert!(matches!(request.action(), AddAction::Run));
    let request = request.report(&mut records, AddEvent::Added(vec![text("/a")]));
    assert!(matches!(request.action(), AddAction::Finished));
    match request.into_phase() {
        AddPhase::Added(mount_list) => assert_eq!(mount_list, ["/a"]),
        other => panic!("unexpected {other:?}"),
    }
}

#[test]
fn ordinary_requests_need_no_topology_check() {
    let mut records = ContainerRecords::new();
    let request = add_storages(&vec![storage("/a", false)], None)
        .report(&mut records, AddEvent::Done)
        .report(&mut records, AddEvent::Done);
    assert!(matches!(request.action(), AddAction::Begin));
    let request = add_storages(&Vec::new(), None);
    assert!(matches!(request.action(), AddAction::Admit { .. }));
}

#[test]
fn refused_requests_leave_nothing_behind() {
    for steps in 0..3 {
        let mut records = ContainerRecords::new();
        let mut request = add_storages(&vec![storage("/a", false)], Some(text("cid")));
        for _ in 0..steps {
            request = request.report(&mut records, AddEvent::Done);
        }
        let request = request.report(&mut records, AddEvent::Failed(text("refused")));
        assert!(matches!(request.action(), AddAction::Finished));
        match request.into_phase() {
            AddPhase::Refused(error) => assert_eq!(error.message(), "refused"),
            other => panic!("unexpected {other:?}"),
        }
        assert!(records.pending_storage_cleanup.is_empty());
    }
}

#[test]
fn failed_requests_are_rolled_back_and_stay_pending_until_that_succeeds() {
    for rollback in [AddEvent::Done, AddEvent::Failed(text("stuck"))] {
        let succeeds = matches!(rollback, AddEvent::Done);
        let mut records = ContainerRecords::new();
        let mut request = add_storages(&vec![storage("/a", false)], Some(text("cid")));
        for _ in 0..3 {
            request = request.report(&mut records, AddEvent::Done);
        }
        assert!(matches!(request.action(), AddAction::Run));
        let request = request.report(&mut records, AddEvent::Failed(text("no device")));
        assert!(matches!(request.action(), AddAction::RollBack));
        assert!(records.pending_storage_cleanup.contains_key("cid"));
        let request = request.report(&mut records, rollback);
        match request.into_phase() {
            AddPhase::RolledBack { error, rollback } => {
                assert_eq!(error.message(), "no device");
                assert_eq!(rollback.is_ok(), succeeds);
            }
            other => panic!("unexpected {other:?}"),
        }
        assert_eq!(
            records.pending_storage_cleanup.contains_key("cid"),
            !succeeds
        );
    }
}

#[test]
fn verity_devices_add_up() {
    let mut records = ContainerRecords::new();
    records.record_verity_devices(text("a"), &vec![text("/dev/dm-0")]);
    records.record_verity_devices(text("b"), &vec![text("/dev/dm-9")]);
    records.record_verity_devices(text("a"), &vec![text("/dev/dm-1"), text("/dev/dm-0")]);
    assert_eq!(
        *records.container_verity_devices.get("a").unwrap(),
        ["/dev/dm-0", "/dev/dm-1", "/dev/dm-0"]
    );
    assert_eq!(
        *records.container_verity_devices.get("b").unwrap(),
        ["/dev/dm-9"]
    );
}

#[test]
fn installed_devices_need_no_cleanup() {
    let mount_point = text("/a");
    let step = update_storage_device(InstallStep::Retain, true);
    assert_eq!(step, InstallStep::Install);
    assert!(install_outcome(step, &mount_point).is_none());
    let step = update_storage_device(step, true);
    assert!(install_outcome(step, &mount_point).unwrap().is_ok());
}

#[test]
fn devices_that_nobody_keeps_are_cleaned_up() {
    let mount_point = text("/a");
    let step = update_storage_device(InstallStep::Retain, false);
    assert_eq!(step, InstallStep::CleanLost);
    let step = update_storage_device(step, false);
    assert_eq!(
        install_outcome(step, &mount_point)
            .unwrap()
            .unwrap_err()
            .message(),
        "storage initialization ownership was lost before installing device: /a"
    );

    let step = update_storage_device(InstallStep::Install, false);
    assert_eq!(step, InstallStep::Recover);
    assert_eq!(update_storage_device(step, true), InstallStep::Refused);
    let step = update_storage_device(step, false);
    assert_eq!(step, InstallStep::CleanRefused);
    let step = update_storage_device(step, true);
    assert_eq!(
        install_outcome(step, &mount_point)
            .unwrap()
            .unwrap_err()
            .message(),
        "failed to update device for storage: /a"
    );
}

#[test]
fn handovers_wait_for_the_sandbox_only_with_a_retained_device() {
    let mount_point = text("/run/kata-containers/cancelled-device-install");
    let reached = |answers: &[bool]| {
        answers.iter().fold(InstallStep::Retain, |step, accepted| {
            update_storage_device(step, *accepted)
        })
    };
    assert_eq!(reached(&[true]), InstallStep::Install);
    assert_eq!(reached(&[true, false]), InstallStep::Recover);
    assert_eq!(reached(&[true, true]), InstallStep::Installed);
    assert_eq!(reached(&[true, false, true]), InstallStep::Refused);
    assert_eq!(reached(&[true, false, false]), InstallStep::CleanRefused);
    assert_eq!(reached(&[false]), InstallStep::CleanLost);
    assert_eq!(reached(&[false, true]), InstallStep::Lost);
    assert_eq!(reached(&[false, true, true]), InstallStep::Lost);
    // A handover that stops before it is answered has no outcome.
    for answers in [&[][..], &[true], &[true, false], &[false]] {
        assert!(install_outcome(reached(answers), &mount_point).is_none());
    }
}

fn clean(device: &StorageDeviceGeneric, answers: Vec<Answer>) -> Result<(), StorageError> {
    let mut step = device.begin_cleanup();
    for answer in answers {
        step = device.cleanup(step, answer);
    }
    match step {
        DeviceCleanup::Done(result) => result,
        other => panic!("unexpected {other:?}"),
    }
}

#[test]
fn cleanup_storage() {
    assert!(clean(&StorageDeviceGeneric::default(), vec![]).is_ok());
    assert_eq!(StorageDeviceGeneric::default().path(), None);
    assert!(clean(&new_device(text("")), vec![]).is_ok());

    let device = StorageDeviceGeneric::new(text("/mnt"));
    assert_eq!(device.path(), Some("/mnt"));
    // The path does not exist.
    assert!(clean(&device, vec![Answer::No]).is_ok());
    // An empty directory is removed, and it does not matter whether that works.
    assert!(clean(&device, vec![Answer::Yes, Answer::No, Answer::No, Answer::Yes, Answer::Yes, Answer::Yes]).is_ok());
    assert!(clean(&device, vec![Answer::Yes, Answer::Yes, Answer::Yes, Answer::No, Answer::Yes, Answer::Yes, Answer::Failed(text("ro"))]).is_ok());
    // A file stays.
    assert!(clean(&device, vec![Answer::Yes, Answer::No, Answer::No, Answer::No, Answer::Yes]).is_ok());
    // Whether something is mounted may not be known.
    assert!(clean(
        &device,
        vec![Answer::Yes, Answer::Failed(text("?")), Answer::Failed(text("?")), Answer::No, Answer::Yes]
    )
    .is_ok());

    let message = |answers| clean(&device, answers).unwrap_err().message();
    assert_eq!(
        message(vec![Answer::Yes, Answer::Yes, Answer::Failed(text("busy"))]),
        "busy"
    );
    assert_eq!(
        message(vec![Answer::Yes, Answer::Yes, Answer::Yes, Answer::Yes]),
        "failed to umount mountpoint /mnt"
    );
    assert_eq!(
        message(vec![Answer::Yes, Answer::No, Answer::No, Answer::Yes, Answer::No]),
        "directory is not empty when clean up storage"
    );
    assert_eq!(
        message(vec![Answer::Yes, Answer::No, Answer::No, Answer::Yes, Answer::Failed(text("denied"))]),
        "denied"
    );
    assert_eq!(
        message(vec![Answer::Yes, Answer::No, Answer::No, Answer::No, Answer::No]),
        "storage path /mnt is neither directory nor file"
    );
}

#[test]
fn premounted_shares_are_not_mounted_again() {
    let mut storage = Storage::default();
    assert!(matches!(mount_storage(&storage, None), MountStep::Mount));
    storage.source = text(KATA_SHAREDFS_GUEST_PREMOUNT_TAG);
    assert!(matches!(
        mount_storage(&storage, None),
        MountStep::CheckMounted
    ));
    assert!(matches!(
        mount_storage(&storage, Some(Ok(true))),
        MountStep::AlreadyMounted
    ));
    assert!(matches!(
        mount_storage(&storage, Some(Ok(false))),
        MountStep::Mount
    ));
    assert!(matches!(
        mount_storage(&storage, Some(Err(text("no mountinfo")))),
        MountStep::Failed(StorageError::Outside(_))
    ));
}

#[test]
fn options_are_read_where_they_have_one_equals_sign() {
    let options = parse_options(&vec![
        text("a=1"),
        text("b"),
        text("c=1=2"),
        text("=d"),
        text("e="),
        text("a=2"),
    ]);
    assert_eq!(options.len(), 3);
    assert_eq!(options.get("a"), Some(&text("2")));
    assert_eq!(options.get(""), Some(&text("d")));
    assert_eq!(options.get("e"), Some(&text("")));
}
