use confidential_storage::logger::{set_logger, LogDestination, LogLevel};
use confidential_storage::mode::{is_directory, is_symlink};
use confidential_storage::ownership::{
    apply_ownership_to_handle, check_ownership_root, directory_entries, open_ownership_root,
    set_ownership, target_mode, OwnershipError, OwnershipPlan, Reopen, RootStat,
};
use confidential_storage::types::{FSGroup, FSGroupChangePolicy, Storage};
use confidential_storage::walk::{
    recursive_ownership_change, EntryStat, OwnershipWalk, WalkEvent, WalkStep,
};

const GID: u32 = 3000;

fn storage(policy: FSGroupChangePolicy, options: &[&str]) -> Storage {
    Storage {
        fs_group: Some(FSGroup {
            group_id: GID,
            group_change_policy: policy,
        }),
        options: options.iter().map(|option| option.to_string()).collect(),
        ..Default::default()
    }
}

fn root(mode: u32, gid: u32) -> Option<RootStat> {
    Some(RootStat {
        device: 7,
        mode,
        gid,
    })
}

fn change(read_only: bool) -> OwnershipPlan {
    OwnershipPlan::Change {
        gid: GID,
        read_only,
        root_device: 7,
    }
}

#[test]
fn test_set_ownership() {
    let always = FSGroupChangePolicy::Always;
    let on_root_mismatch = FSGroupChangePolicy::OnRootMismatch;
    assert_eq!(
        set_ownership(&Storage::default(), root(0o040777, GID)),
        OwnershipPlan::Skip
    );
    assert_eq!(
        set_ownership(&storage(always, &[]), None),
        OwnershipPlan::OpenRoot
    );
    assert_eq!(
        set_ownership(&storage(always, &[]), root(0o042770, GID)),
        change(false)
    );
    assert_eq!(
        set_ownership(&storage(on_root_mismatch, &[]), root(0o042770, GID)),
        OwnershipPlan::Skip
    );
    for (mode, gid) in [(0o042770, 0), (0o040770, GID), (0o042750, GID), (0o042760, GID)] {
        assert_eq!(
            set_ownership(&storage(on_root_mismatch, &[]), root(mode, gid)),
            change(false)
        );
    }
    assert_eq!(
        set_ownership(&storage(on_root_mismatch, &["ro"]), root(0o042550, GID)),
        OwnershipPlan::Skip
    );
    assert_eq!(
        set_ownership(&storage(on_root_mismatch, &["bind", "ro"]), root(0o042550, 0)),
        change(true)
    );
}

#[test]
fn a_changed_root_is_left_alone() {
    let before = 0o040700;
    let mask = apply_ownership_to_handle(before, Some(GID), false).mask;
    let after = 0o040000 | target_mode(before, mask);
    assert_eq!(
        set_ownership(
            &storage(FSGroupChangePolicy::OnRootMismatch, &[]),
            root(after, GID)
        ),
        OwnershipPlan::Skip
    );
}

#[test]
fn mount_paths_are_opened_below_the_root() {
    for (path, relative) in [
        ("/", "."),
        ("/mnt", "mnt"),
        ("/mnt//data/", "mnt/data"),
        ("/./mnt/./data", "mnt/data"),
        ("/mnt/../data", "mnt/../data"),
    ] {
        assert_eq!(open_ownership_root(path).unwrap(), relative);
    }
    for path in ["", "mnt", "./mnt"] {
        let error = open_ownership_root(path).unwrap_err();
        assert_eq!(error.message(), "fsGroup mount path must be absolute");
    }
    assert!(check_ownership_root(0o040755).is_ok());
    assert_eq!(
        check_ownership_root(0o100644).unwrap_err().message(),
        "fsGroup mount path is not a directory"
    );
}

#[test]
fn file_types_are_told_by_their_bits() {
    assert!(is_directory(0o040755));
    assert!(!is_directory(0o100755));
    assert!(!is_directory(0o120777));
    assert!(is_symlink(0o120777));
    assert!(!is_symlink(0o100777));
    assert!(!is_symlink(0o020666));
    // Bits beyond the file type do not count.
    assert!(!is_directory(0o4200777));
}

#[test]
fn ownership_changes_add_permissions() {
    let change = apply_ownership_to_handle(0o100600, Some(GID), false);
    assert_eq!(change.reopen, Some(Reopen::File));
    assert_eq!(target_mode(0o100600, change.mask), 0o660);
    let change = apply_ownership_to_handle(0o100640, Some(GID), true);
    assert_eq!(target_mode(0o100640, change.mask), 0o640);
    let change = apply_ownership_to_handle(0o040700, Some(GID), false);
    assert_eq!(change.reopen, Some(Reopen::Directory));
    assert_eq!(target_mode(0o040700, change.mask), 0o2770);
    let change = apply_ownership_to_handle(0o041700, Some(GID), true);
    assert_eq!(target_mode(0o041700, change.mask), 0o3750);
    assert_eq!(apply_ownership_to_handle(0o040700, None, false).reopen, None);
}

#[test]
fn directories_do_not_list_themselves() {
    let names = |list: &[&str]| -> Vec<Vec<u8>> {
        list.iter().map(|name| name.as_bytes().to_vec()).collect()
    };
    assert_eq!(
        directory_entries(names(&[".", "b", "..", "...", "a", ".hidden"])),
        names(&["b", "...", "a", ".hidden"])
    );
}

const DEVICE: u64 = 7;

#[derive(Clone)]
enum Node {
    File,
    Link,
    Other,
    Directory(Vec<(&'static str, Node)>),
}

fn find<'a>(node: &'a Node, path: &str) -> &'a Node {
    let mut at = node;
    for name in path.split('/').skip(1) {
        at = match at {
            Node::Directory(children) => {
                &children.iter().find(|(child, _)| *child == name).unwrap().1
            }
            _ => panic!("not a directory"),
        };
    }
    at
}

fn stat(node: &Node, path: &str) -> EntryStat {
    let (mode, device) = match node {
        Node::File => (0o100644, DEVICE),
        Node::Link => (0o120777, DEVICE),
        Node::Other => (0o040755, DEVICE + 1),
        Node::Directory(_) => (0o040755, DEVICE),
    };
    EntryStat {
        mode,
        device,
        inode: path.len() as u64,
    }
}

fn text(path: Vec<u8>) -> String {
    String::from_utf8(path).unwrap()
}

fn walk(tree: &Node) -> (OwnershipWalk, Vec<String>) {
    let mut applied = Vec::new();
    let mut walk = recursive_ownership_change(DEVICE);
    loop {
        let event = match walk.step() {
            WalkStep::Inspect { path, .. } | WalkStep::Secure { path, .. } => {
                let path = text(path);
                WalkEvent::Entry {
                    stat: stat(find(tree, &path), &path),
                    shown: format!("{path:?}"),
                }
            }
            WalkStep::List { path, .. } => match find(tree, &text(path)) {
                Node::Directory(children) => {
                    let mut names = vec![b".".to_vec(), b"..".to_vec()];
                    for (name, _) in children {
                        names.push(name.as_bytes().to_vec());
                    }
                    WalkEvent::Listed(names)
                }
                _ => panic!("not a directory"),
            },
            WalkStep::Apply { path, .. } => {
                applied.push(text(path));
                WalkEvent::Applied
            }
            WalkStep::Finished | WalkStep::Failed => return (walk, applied),
        };
        walk = walk.report(event);
    }
}

fn tree() -> Node {
    Node::Directory(vec![
        ("a", Node::File),
        (
            "b",
            Node::Directory(vec![
                ("c", Node::File),
                ("d", Node::Directory(vec![])),
                ("link", Node::Link),
            ]),
        ),
        ("link", Node::Link),
        ("mount", Node::Other),
        ("z", Node::File),
    ])
}

#[test]
fn test_recursive_ownership_change() {
    let (walk, applied) = walk(&tree());
    assert!(walk.finish().unwrap().is_ok());
    assert_eq!(applied, ["./a", "./b/c", "./b/d", "./b", "./z", "."]);
}

#[test]
fn test_recursive_ownership_change_never_follows_symlinks() {
    let (finished, applied) = walk(&Node::Directory(vec![
        ("inside", Node::File),
        ("absolute-link", Node::Link),
        ("relative-link", Node::Link),
        ("ancestor-cycle", Node::Link),
    ]));
    assert!(finished.finish().unwrap().is_ok());
    assert_eq!(applied, ["./inside", "."]);
}

#[test]
fn a_root_that_became_a_link_is_passed_over() {
    let (finished, applied) = walk(&Node::Link);
    assert!(finished.finish().unwrap().is_ok());
    assert!(applied.is_empty());
}

fn entry(mode: u32, inode: u64) -> WalkEvent {
    WalkEvent::Entry {
        stat: EntryStat {
            mode,
            device: DEVICE,
            inode,
        },
        shown: "\".\"".to_string(),
    }
}

fn emptied() -> OwnershipWalk {
    recursive_ownership_change(DEVICE)
        .report(entry(0o040755, 1))
        .report(entry(0o040755, 1))
        .report(WalkEvent::Listed(vec![]))
}

#[test]
fn test_recursive_ownership_change_rename_race_cannot_escape_root() {
    // Another directory, a link, and a directory on another device in place of the visited one.
    let replaced = emptied()
        .report(entry(0o040755, 1))
        .report(entry(0o040755, 2));
    let linked = emptied().report(entry(0o120777, 1));
    let moved = emptied()
        .report(entry(0o040755, 1))
        .report(WalkEvent::Entry {
            stat: EntryStat {
                mode: 0o040755,
                device: DEVICE + 1,
                inode: 1,
            },
            shown: "\".\"".to_string(),
        });
    for walk in [replaced, linked, moved] {
        assert!(matches!(walk.step(), WalkStep::Failed));
        let error = walk.finish().unwrap().unwrap_err();
        assert_eq!(
            error.message(),
            "fsGroup directory changed identity during traversal: \".\""
        );
        assert!(matches!(error, OwnershipError::ChangedIdentity { path, .. } if path == b"."));
    }
    let kept = emptied()
        .report(entry(0o040755, 1))
        .report(entry(0o040755, 1));
    assert!(matches!(kept.step(), WalkStep::Apply { mode: 0o040755, .. }));
}

#[test]
fn failed_steps_end_the_walk() {
    let error = emptied()
        .report(WalkEvent::Failed("denied".to_string()))
        .finish()
        .unwrap()
        .unwrap_err();
    assert_eq!(error.message(), "denied");
    assert!(emptied().finish().is_none());
    assert!(matches!(
        emptied().report(WalkEvent::Applied).step(),
        WalkStep::Inspect { .. }
    ));
}

#[test]
fn loggers_fall_back_to_the_containerd_pipe() {
    let plan = set_logger(true, true);
    assert_eq!(plan.level, LogLevel::Debug);
    assert_eq!(plan.destination, LogDestination::Journal);
    assert!(!plan.warns_of_missing_journal);
    let plan = set_logger(false, false);
    assert_eq!(plan.level, LogLevel::Info);
    assert_eq!(plan.destination, LogDestination::ContainerdPipe);
    assert!(plan.warns_of_missing_journal);
    assert_eq!(plan.components, ["agent", "runtimes", "hypervisor"]);
}
