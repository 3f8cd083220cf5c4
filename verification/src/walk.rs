//! The walk through a volume that changes the ownership of everything on its device: children
//! before their directory, no symbolic link followed, and a directory only if it is still the one
//! whose children were visited.

use vstd::prelude::*;
use vstd::slice::slice_to_vec;

use crate::mode::{has_type_bits, is_directory, is_symlink, S_IFDIR, S_IFLNK};
use crate::ownership::{
    children, directory_entries, is_child, lemma_children_are_filtered, name_views, OwnershipError,
};

verus! {

/// What is known of an entry.
#[derive(Clone, Copy, Debug, PartialEq, Eq, Structural)]
pub struct EntryStat {
    pub mode: u32,
    pub device: u64,
    pub inode: u64,
}

/// What identifies an entry on a machine.
#[derive(Clone, Copy, Debug, PartialEq, Eq, Structural)]
pub struct Identity {
    pub device: u64,
    pub inode: u64,
}

/// A step of the walk. `again` is the identity of a directory whose children have been visited.
#[derive(Debug)]
pub enum WalkStep<P> {
    /// Inspect the entry at a path, without following it.
    Inspect { path: P, again: Option<Identity> },
    /// Open the entry at a path, without following any link.
    Secure { path: P, again: Option<Identity> },
    /// List the directory at a path.
    List { path: P, identity: Identity },
    /// Change the ownership of the opened entry at a path.
    Apply { path: P, mode: u32 },
    /// Nothing: the walk is over.
    Finished,
    /// Nothing: the walk has failed.
    Failed,
}

/// What came of a step.
#[derive(Debug)]
pub enum WalkEvent {
    /// The entry is inspected or opened. `shown` is how its path is written in a message.
    Entry { stat: EntryStat, shown: String },
    /// The directory is listed.
    Listed(Vec<Vec<u8>>),
    /// The ownership is changed.
    Applied,
    /// The step failed.
    Failed(String),
}

/// A directory whose children are visited.
#[derive(Debug)]
struct Frame {
    path: Vec<u8>,
    identity: Identity,
    entries: Vec<Vec<u8>>,
    next: usize,
}

/// A directory whose children are visited: its path, its identity, the names of its children and
/// how many of them have been visited or are being visited.
#[verifier::ext_equal]
pub struct FrameView {
    pub path: Seq<u8>,
    pub identity: Identity,
    pub entries: Seq<Seq<u8>>,
    pub next: int,
}

impl View for Frame {
    type V = FrameView;

    closed spec fn view(&self) -> FrameView {
        FrameView {
            path: self.path@,
            identity: self.identity,
            entries: name_views(self.entries@),
            next: self.next as int,
        }
    }
}

/// The walk through a volume.
#[derive(Debug)]
pub struct OwnershipWalk {
    root_device: u64,
    frames: Vec<Frame>,
    step: WalkStep<Vec<u8>>,
    error: Option<OwnershipError>,
}

/// The contents of an [`OwnershipWalk`]: the device of the volume, the directories whose children
/// are visited, the innermost last, and the step.
#[verifier::ext_equal]
pub struct WalkView {
    pub root_device: u64,
    pub frames: Seq<FrameView>,
    pub step: WalkStep<Seq<u8>>,
}

closed spec fn frame_views(frames: Seq<Frame>) -> Seq<FrameView> {
    Seq::new(frames.len(), |i: int| frames[i]@)
}

/// The contents of a step.
pub open spec fn step_view(step: WalkStep<Vec<u8>>) -> WalkStep<Seq<u8>> {
    match step {
        WalkStep::Inspect { path, again } => WalkStep::Inspect { path: path@, again },
        WalkStep::Secure { path, again } => WalkStep::Secure { path: path@, again },
        WalkStep::List { path, identity } => WalkStep::List { path: path@, identity },
        WalkStep::Apply { path, mode } => WalkStep::Apply { path: path@, mode },
        WalkStep::Finished => WalkStep::Finished,
        WalkStep::Failed => WalkStep::Failed,
    }
}

impl View for OwnershipWalk {
    type V = WalkView;

    closed spec fn view(&self) -> WalkView {
        WalkView {
            root_device: self.root_device,
            frames: frame_views(self.frames@),
            step: step_view(self.step),
        }
    }
}

/// The path of a child of the directory at a path.
pub open spec fn child_path(path: Seq<u8>, name: Seq<u8>) -> Seq<u8> {
    path.push(0x2f) + name
}

/// The walk goes on with the next child of the innermost directory, or with the directory itself
/// once all its children have been visited.
pub open spec fn resumed(root_device: u64, frames: Seq<FrameView>) -> WalkView {
    if frames.len() == 0 {
        WalkView { root_device, frames, step: WalkStep::Finished }
    } else {
        let frame = frames.last();
        if frame.next < frame.entries.len() {
            WalkView {
                root_device,
                frames: frames.drop_last().push(FrameView { next: frame.next + 1, ..frame }),
                step: WalkStep::Inspect {
                    path: child_path(frame.path, frame.entries[frame.next]),
                    again: None,
                },
            }
        } else {
            WalkView {
                root_device,
                frames: frames.drop_last(),
                step: WalkStep::Inspect { path: frame.path, again: Some(frame.identity) },
            }
        }
    }
}

/// The walk after an event. An event that was not asked for changes nothing.
pub open spec fn walk_after(walk: WalkView, event: WalkEvent) -> WalkView {
    let resume = resumed(walk.root_device, walk.frames);
    let failed = WalkView { step: WalkStep::Failed, ..walk };
    match (walk.step, event) {
        (WalkStep::Inspect { path, again }, WalkEvent::Entry { stat, .. }) => if !has_type_bits(
            stat.mode,
            S_IFLNK,
        ) {
            WalkView { step: WalkStep::Secure { path, again }, ..walk }
        } else if again is None {
            resume
        } else {
            failed
        },
        (WalkStep::Secure { path, again }, WalkEvent::Entry { stat, .. }) => match again {
            None => if stat.device != walk.root_device {
                resume
            } else if has_type_bits(stat.mode, S_IFDIR) {
                WalkView {
                    step: WalkStep::List {
                        path,
                        identity: Identity { device: stat.device, inode: stat.inode },
                    },
                    ..walk
                }
            } else {
                WalkView { step: WalkStep::Apply { path, mode: stat.mode }, ..walk }
            },
            Some(identity) => if stat.device == walk.root_device && stat.device == identity.device
                && stat.inode == identity.inode {
                WalkView { step: WalkStep::Apply { path, mode: stat.mode }, ..walk }
            } else {
                failed
            },
        },
        (WalkStep::List { path, identity }, WalkEvent::Listed(names)) => resumed(
            walk.root_device,
            walk.frames.push(
                FrameView { path, identity, entries: children(name_views(names@)), next: 0 },
            ),
        ),
        (WalkStep::Apply { .. }, WalkEvent::Applied) => resume,
        (WalkStep::Inspect { .. }, WalkEvent::Failed(_)) => failed,
        (WalkStep::Secure { .. }, WalkEvent::Failed(_)) => failed,
        (WalkStep::List { .. }, WalkEvent::Failed(_)) => failed,
        (WalkStep::Apply { .. }, WalkEvent::Failed(_)) => failed,
        _ => walk,
    }
}

/// Whether an error is why the walk fails at an event: the step failed, or the directory that was
/// to be changed is no longer the one whose children were visited.
pub open spec fn is_walk_error(walk: WalkView, event: WalkEvent, error: OwnershipError) -> bool {
    match event {
        WalkEvent::Failed(reason) => error == OwnershipError::Outside(reason),
        WalkEvent::Entry { shown, .. } => match walk.step {
            WalkStep::Inspect { path, .. } => changed_identity(error, path, shown),
            WalkStep::Secure { path, .. } => changed_identity(error, path, shown),
            _ => false,
        },
        _ => false,
    }
}

/// Whether an error says that the directory at a path, written as shown, is no longer the same.
pub open spec fn changed_identity(error: OwnershipError, path: Seq<u8>, shown: String) -> bool {
    error matches OwnershipError::ChangedIdentity { path: changed, shown: written } && changed@
        == path && written == shown
}

/// What holds of a walk at all times: all directories whose children are visited are on the device
/// of the volume, and no more children are visited than there are.
pub open spec fn walk_fits(walk: WalkView) -> bool {
    &&& frames_fit(walk.root_device, walk.frames)
    &&& walk.step matches WalkStep::List { identity, .. } ==> identity.device == walk.root_device
}

/// Whether directories whose children are visited are all on the device of the volume, and no more
/// children are visited than there are.
pub open spec fn frames_fit(root_device: u64, frames: Seq<FrameView>) -> bool {
    forall|i: int|
        0 <= i < frames.len() ==> {
            &&& (#[trigger] frames[i]).identity.device == root_device
            &&& 0 <= frames[i].next <= frames[i].entries.len()
        }
}

fn copy_path(path: &Vec<u8>) -> (copy: Vec<u8>)
    ensures
        copy@ == path@,
{
    slice_to_vec(path.as_slice())
}

fn join_path(path: &Vec<u8>, name: &Vec<u8>) -> (joined: Vec<u8>)
    ensures
        joined@ == child_path(path@, name@),
{
    let mut joined = copy_path(path);
    joined.push(0x2f);
    let mut tail = copy_path(name);
    joined.append(&mut tail);
    joined
}

impl OwnershipWalk {
    #[verifier::type_invariant]
    closed spec fn wf(&self) -> bool {
        &&& walk_fits(self@)
        &&& self.error is Some <==> self.step is Failed
    }

    /// Why the walk failed.
    pub closed spec fn error(&self) -> Option<OwnershipError> {
        self.error
    }

    /// The step that is to be taken.
    pub fn step(&self) -> (step: WalkStep<Vec<u8>>)
        ensures
            step_view(step) == self@.step,
    {
        match &self.step {
            WalkStep::Inspect { path, again } => WalkStep::Inspect {
                path: copy_path(path),
                again: *again,
            },
            WalkStep::Secure { path, again } => WalkStep::Secure {
                path: copy_path(path),
                again: *again,
            },
            WalkStep::List { path, identity } => WalkStep::List {
                path: copy_path(path),
                identity: *identity,
            },
            WalkStep::Apply { path, mode } => WalkStep::Apply {
                path: copy_path(path),
                mode: *mode,
            },
            WalkStep::Finished => WalkStep::Finished,
            WalkStep::Failed => WalkStep::Failed,
        }
    }

    fn resume(root_device: u64, frames: Vec<Frame>) -> (walk: Self)
        requires
            frames_fit(root_device, frame_views(frames@)),
        ensures
            walk@ == resumed(root_device, frame_views(frames@)),
            walk.error() is None,
    {
        let ghost all = frame_views(frames@);
        let mut frames = frames;
        match frames.pop() {
            None => {
                assert(frame_views(frames@) =~= all);
                OwnershipWalk { root_device, frames, step: WalkStep::Finished, error: None }
            },
            Some(frame) => {
                assert(frame@ == all.last());
                assert(frame_views(frames@) =~= all.drop_last());
                assert(forall|i: int|
                    0 <= i < frames@.len() ==> #[trigger] frame_views(frames@)[i] == all[i]);
                if frame.next < frame.entries.len() {
                    let path = join_path(&frame.path, &frame.entries[frame.next]);
                    let next = Frame {
                        path: frame.path,
                        identity: frame.identity,
                        entries: frame.entries,
                        next: frame.next + 1,
                    };
                    frames.push(next);
                    assert(frame_views(frames@) =~= resumed(root_device, all).frames);
                    OwnershipWalk {
                        root_device,
                        frames,
                        step: WalkStep::Inspect { path, again: None },
                        error: None,
                    }
                } else {
                    let again = Some(frame.identity);
                    OwnershipWalk {
                        root_device,
                        frames,
                        step: WalkStep::Inspect { path: frame.path, again },
                        error: None,
                    }
                }
            },
        }
    }

    fn fail(root_device: u64, frames: Vec<Frame>, error: OwnershipError) -> (walk: Self)
        requires
            frames_fit(root_device, frame_views(frames@)),
        ensures
            walk@ == (WalkView {
                root_device,
                frames: frame_views(frames@),
                step: WalkStep::Failed,
            }),
            walk.error() == Some(error),
    {
        OwnershipWalk { root_device, frames, step: WalkStep::Failed, error: Some(error) }
    }

    /// Takes note of what came of the step.
    pub fn report(self, event: WalkEvent) -> (next: Self)
        ensures
            next@ == walk_after(self@, event),
            match next.error() {
                Some(error) => next@.step is Failed && if self@.step is Failed {
                    self.error() == Some(error)
                } else {
                    is_walk_error(self@, event, error)
                },
                None => !(next@.step is Failed),
            },
    {
        proof {
            use_type_invariant(&self);
        }
        let OwnershipWalk { root_device, frames, step, error } = self;
        match step {
            WalkStep::Inspect { path, again } => match event {
                WalkEvent::Entry { stat, shown } => {
                    if !is_symlink(stat.mode) {
                        OwnershipWalk {
                            root_device,
                            frames,
                            step: WalkStep::Secure { path, again },
                            error: None,
                        }
                    } else if again.is_none() {
                        OwnershipWalk::resume(root_device, frames)
                    } else {
                        OwnershipWalk::fail(
                            root_device,
                            frames,
                            OwnershipError::ChangedIdentity { path, shown },
                        )
                    }
                },
                WalkEvent::Failed(reason) => OwnershipWalk::fail(
                    root_device,
                    frames,
                    OwnershipError::Outside(reason),
                ),
                _ => OwnershipWalk {
                    root_device,
                    frames,
                    step: WalkStep::Inspect { path, again },
                    error: None,
                },
            },
            WalkStep::Secure { path, again } => match event {
                WalkEvent::Entry { stat, shown } => match again {
                    None => {
                        if stat.device != root_device {
                            OwnershipWalk::resume(root_device, frames)
                        } else if is_directory(stat.mode) {
                            let identity = Identity { device: stat.device, inode: stat.inode };
                            OwnershipWalk {
                                root_device,
                                frames,
                                step: WalkStep::List { path, identity },
                                error: None,
                            }
                        } else {
                            OwnershipWalk {
                                root_device,
                                frames,
                                step: WalkStep::Apply { path, mode: stat.mode },
                                error: None,
                            }
                        }
                    },
                    Some(identity) => {
                        if stat.device == root_device && stat.device == identity.device
                            && stat.inode == identity.inode {
                            OwnershipWalk {
                                root_device,
                                frames,
                                step: WalkStep::Apply { path, mode: stat.mode },
                                error: None,
                            }
                        } else {
                            OwnershipWalk::fail(
                                root_device,
                                frames,
                                OwnershipError::ChangedIdentity { path, shown },
                            )
                        }
                    },
                },
                WalkEvent::Failed(reason) => OwnershipWalk::fail(
                    root_device,
                    frames,
                    OwnershipError::Outside(reason),
                ),
                _ => OwnershipWalk {
                    root_device,
                    frames,
                    step: WalkStep::Secure { path, again },
                    error: None,
                },
            },
            WalkStep::List { path, identity } => match event {
                WalkEvent::Listed(names) => {
                    let mut frames = frames;
                    let ghost before = frame_views(frames@);
                    let entries = directory_entries(names);
                    frames.push(Frame { path, identity, entries, next: 0 });
                    assert(frame_views(frames@) =~= before.push(
                        FrameView {
                            path: path@,
                            identity,
                            entries: children(name_views(names@)),
                            next: 0,
                        },
                    ));
                    OwnershipWalk::resume(root_device, frames)
                },
                WalkEvent::Failed(reason) => OwnershipWalk::fail(
                    root_device,
                    frames,
                    OwnershipError::Outside(reason),
                ),
                _ => OwnershipWalk {
                    root_device,
                    frames,
                    step: WalkStep::List { path, identity },
                    error: None,
                },
            },
            WalkStep::Apply { path, mode } => match event {
                WalkEvent::Applied => OwnershipWalk::resume(root_device, frames),
                WalkEvent::Failed(reason) => OwnershipWalk::fail(
                    root_device,
                    frames,
                    OwnershipError::Outside(reason),
                ),
                _ => OwnershipWalk {
                    root_device,
                    frames,
                    step: WalkStep::Apply { path, mode },
                    error: None,
                },
            },
            WalkStep::Finished => OwnershipWalk {
                root_device,
                frames,
                step: WalkStep::Finished,
                error: None,
            },
            WalkStep::Failed => OwnershipWalk {
                root_device,
                frames,
                step: WalkStep::Failed,
                error,
            },
        }
    }

    /// What the walk amounts to, once it has come to an end.
    pub fn finish(self) -> (outcome: Option<Result<(), OwnershipError>>)
        ensures
            match self@.step {
                WalkStep::Finished => outcome == Some(Ok::<(), OwnershipError>(())),
                WalkStep::Failed => outcome matches Some(Err(error)) && self.error() == Some(
                    error,
                ),
                _ => outcome is None,
            },
    {
        proof {
            use_type_invariant(&self);
        }
        match self.step {
            WalkStep::Finished => Some(Ok(())),
            WalkStep::Failed => match self.error {
                Some(error) => Some(Err(error)),
                None => None,
            },
            _ => None,
        }
    }
}

/// Starts the walk that changes the ownership of a volume, at the root of the volume.
pub fn recursive_ownership_change(root_device: u64) -> (walk: OwnershipWalk)
    ensures
        walk@ == (WalkView {
            root_device,
            frames: Seq::empty(),
            step: WalkStep::Inspect { path: seq![0x2eu8], again: None },
        }),
{
    let mut path: Vec<u8> = Vec::new();
    path.push(0x2e);
    let walk = OwnershipWalk {
        root_device,
        frames: Vec::new(),
        step: WalkStep::Inspect { path, again: None },
        error: None,
    };
    assert(frame_views(walk.frames@) =~= Seq::<FrameView>::empty());
    assert(path@ =~= seq![0x2eu8]);
    walk
}

/// What holds of a walk at all times is kept by every event.
pub proof fn law_walk_keeps_fitting(walk: WalkView, event: WalkEvent)
    requires
        walk_fits(walk),
    ensures
        walk_fits(walk_after(walk, event)),
{
}

/// Ownership is changed only of what was opened on the device of the volume. Of a directory it is
/// changed only once its children have been visited, and only if it is still the same directory.
pub proof fn law_only_confirmed_entries_are_changed(walk: WalkView, event: WalkEvent)
    requires
        walk_fits(walk),
        walk_after(walk, event).step is Apply,
        !(walk.step is Apply),
    ensures
        ({
            let next = walk_after(walk, event);
            &&& event matches WalkEvent::Entry { stat, .. }
            &&& walk.step matches WalkStep::Secure { path, again }
            &&& next.step == WalkStep::Apply { path, mode: stat.mode }
            &&& stat.device == walk.root_device
            &&& match again {
                None => !has_type_bits(stat.mode, S_IFDIR),
                Some(identity) => stat.device == identity.device && stat.inode == identity.inode,
            }
        }),
{
}

/// A symbolic link is passed over, never opened: the walk goes on with the next entry. Should a
/// directory have become one while its children were visited, the walk fails.
pub proof fn law_symlinks_are_passed_over(walk: WalkView, stat: EntryStat, shown: String)
    requires
        walk.step is Inspect,
        has_type_bits(stat.mode, S_IFLNK),
    ensures
        walk_after(walk, WalkEvent::Entry { stat, shown }) == if walk.step->Inspect_again is None {
            resumed(walk.root_device, walk.frames)
        } else {
            WalkView { step: WalkStep::Failed, ..walk }
        },
{
}

/// The children of a directory come before the directory: it is inspected for its change only once
/// all of them have been visited, each once and in order.
pub proof fn law_children_come_before_their_directory(
    root_device: u64,
    frames: Seq<FrameView>,
)
    requires
        frames.len() > 0,
        0 <= frames.last().next <= frames.last().entries.len(),
    ensures
        ({
            let next = resumed(root_device, frames);
            let frame = frames.last();
            if frame.next < frame.entries.len() {
                &&& next.step == WalkStep::Inspect {
                    path: child_path(frame.path, frame.entries[frame.next]),
                    again: None::<Identity>,
                }
                &&& next.frames.last() == FrameView { next: frame.next + 1, ..frame }
                &&& next.frames.len() == frames.len()
            } else {
                &&& next.step == WalkStep::Inspect {
                    path: frame.path,
                    again: Some(frame.identity),
                }
                &&& next.frames == frames.drop_last()
            }
        }),
{
}

/// Whether a walk goes on after an entry: with the next child of the innermost directory, whose path
/// is that of the directory, a slash and the name of the child; with that directory once more, to
/// be changed, after the last of its children; and with nothing where no directory is left.
pub open spec fn walk_goes_on(
    root_device: u64,
    frames: Seq<FrameView>,
    next: OwnershipWalk,
    step: WalkStep<Vec<u8>>,
    outcome: Option<Result<(), OwnershipError>>,
) -> bool {
    &&& next@.root_device == root_device
    &&& if frames.len() == 0 {
        &&& step is Finished
        &&& outcome == Some(Ok::<(), OwnershipError>(()))
    } else {
        let directory = frames.last();
        &&& step is Inspect
        &&& outcome is None
        &&& if directory.next < directory.entries.len() {
            &&& step->Inspect_path@ == directory.path + seq!['/' as u8]
                + directory.entries[directory.next]
            &&& step->Inspect_again is None
            &&& next@.frames.len() == frames.len()
            &&& next@.frames.drop_last() == frames.drop_last()
            &&& next@.frames.last().path == directory.path
            &&& next@.frames.last().identity == directory.identity
            &&& next@.frames.last().entries == directory.entries
            &&& next@.frames.last().next == directory.next + 1
        } else {
            &&& step->Inspect_path@ == directory.path
            &&& step->Inspect_again == Some(directory.identity)
            &&& next@.frames == frames.drop_last()
        }
    }
}

/// A walk starts at the root of the volume, which is the current directory.
pub proof fn law_walk_starts_at_the_root(
    root_device: u64,
    walk: OwnershipWalk,
    step: WalkStep<Vec<u8>>,
)
    requires
        call_ensures(recursive_ownership_change, (root_device,), walk),
        call_ensures(OwnershipWalk::step, (&walk,), step),
    ensures
        step is Inspect,
        step->Inspect_path@ == seq!['.' as u8],
        step->Inspect_again is None,
        walk@.root_device == root_device,
        walk@.frames.len() == 0,
        walk_fits(walk@),
{
}

/// How an entry is walked. It is inspected first: a symbolic link is passed over, and everything
/// else is opened. Of what was opened, what is on another device is passed over, a directory is
/// listed, and everything else is changed. A listed directory has its children walked, all that it
/// listed but itself and its parent. A changed entry is left behind.
pub proof fn law_an_entry_is_inspected_opened_and_changed(
    walk: OwnershipWalk,
    step: WalkStep<Vec<u8>>,
    event: WalkEvent,
    next: OwnershipWalk,
    next_step: WalkStep<Vec<u8>>,
    outcome: Option<Result<(), OwnershipError>>,
)
    requires
        walk_fits(walk@),
        call_ensures(OwnershipWalk::step, (&walk,), step),
        call_ensures(OwnershipWalk::report, (walk, event), next),
        call_ensures(OwnershipWalk::step, (&next,), next_step),
        call_ensures(OwnershipWalk::finish, (next,), outcome),
    ensures
        ({
            let stat = event->Entry_stat;
            let link = stat.mode & 0o120000 == 0o120000;
            let directory = stat.mode & 0o040000 == 0o040000;
            let device = walk@.root_device;
            let frames = walk@.frames;
            &&& step is Inspect && event is Entry && !link ==> {
                &&& next_step is Secure
                &&& next_step->Secure_path@ == step->Inspect_path@
                &&& next_step->Secure_again == step->Inspect_again
                &&& next@.frames == frames
                &&& next@.root_device == device
            }
            &&& step is Inspect && event is Entry && link && step->Inspect_again is None
                ==> walk_goes_on(device, frames, next, next_step, outcome)
            &&& step is Secure && event is Entry && step->Secure_again is None && stat.device
                != device ==> walk_goes_on(device, frames, next, next_step, outcome)
            &&& step is Secure && event is Entry && step->Secure_again is None && stat.device
                == device && directory ==> {
                &&& next_step is List
                &&& next_step->List_path@ == step->Secure_path@
                &&& next_step->List_identity.device == stat.device
                &&& next_step->List_identity.inode == stat.inode
                &&& next@.frames == frames
                &&& next@.root_device == device
            }
            &&& step is Secure && event is Entry && step->Secure_again is None && stat.device
                == device && !directory ==> {
                &&& next_step is Apply
                &&& next_step->Apply_path@ == step->Secure_path@
                &&& next_step->Apply_mode == stat.mode
                &&& next@.frames == frames
                &&& next@.root_device == device
            }
            &&& step is List && event is Listed ==> walk_goes_on(
                device,
                frames.push(
                    FrameView {
                        path: step->List_path@,
                        identity: step->List_identity,
                        entries: Seq::new(
                            event->Listed_0@.len(),
                            |i: int| event->Listed_0@[i]@,
                        ).filter(
                            |name: Seq<u8>|
                                name != seq!['.' as u8] && name != seq!['.' as u8, '.' as u8],
                        ),
                        next: 0,
                    },
                ),
                next,
                next_step,
                outcome,
            )
            &&& step is Apply && event is Applied ==> walk_goes_on(
                device,
                frames,
                next,
                next_step,
                outcome,
            )
        }),
{
    let mode = event->Entry_stat.mode;
    assert(mode & 0o170000 & 0o040000 == mode & 0o040000) by (bit_vector);
    assert(mode & 0o170000 & 0o120000 == mode & 0o120000) by (bit_vector);
    lemma_step_paths(step);
    lemma_step_paths(next_step);
    let frames = walk@.frames;
    lemma_resumed(walk@.root_device, frames);
    if event is Listed {
        let names = event->Listed_0;
        lemma_children_are_filtered_names(names);
        if step is List {
            lemma_resumed(
                walk@.root_device,
                frames.push(
                    FrameView {
                        path: step->List_path@,
                        identity: step->List_identity,
                        entries: children(name_views(names@)),
                        next: 0,
                    },
                ),
            );
        }
    }
}

proof fn lemma_children_are_filtered_names(names: Vec<Vec<u8>>)
    ensures
        children(name_views(names@)) == Seq::new(names@.len(), |i: int| names@[i]@).filter(
            |name: Seq<u8>| name != seq!['.' as u8] && name != seq!['.' as u8, '.' as u8],
        ),
{
    let all = name_views(names@);
    assert(all =~= Seq::new(names@.len(), |i: int| names@[i]@));
    lemma_children_are_filtered(all);
    assert(seq!['.' as u8] =~= seq![0x2eu8]);
    assert(seq!['.' as u8, '.' as u8] =~= seq![0x2eu8, 0x2e]);
    let keep = |name: Seq<u8>| name != seq!['.' as u8] && name != seq!['.' as u8, '.' as u8];
    let child = |name: Seq<u8>| is_child(name);
    assert(keep =~= child);
}

proof fn lemma_step_paths(step: WalkStep<Vec<u8>>)
    ensures
        step is Inspect <==> step_view(step) is Inspect,
        step is Secure <==> step_view(step) is Secure,
        step is List <==> step_view(step) is List,
        step is Apply <==> step_view(step) is Apply,
        step is Finished <==> step_view(step) is Finished,
        step is Failed <==> step_view(step) is Failed,
        step is Inspect ==> step_view(step)->Inspect_path == step->Inspect_path@
            && step_view(step)->Inspect_again == step->Inspect_again,
        step is Secure ==> step_view(step)->Secure_path == step->Secure_path@
            && step_view(step)->Secure_again == step->Secure_again,
        step is List ==> step_view(step)->List_path == step->List_path@
            && step_view(step)->List_identity == step->List_identity,
        step is Apply ==> step_view(step)->Apply_path == step->Apply_path@
            && step_view(step)->Apply_mode == step->Apply_mode,
{
}

proof fn lemma_resumed(root_device: u64, frames: Seq<FrameView>)
    ensures
        ({
            let next = resumed(root_device, frames);
            frames.len() > 0 && frames.last().next < frames.last().entries.len() ==> {
                &&& next.frames.drop_last() == frames.drop_last()
                &&& next.frames.len() == frames.len()
                &&& next.step->Inspect_path == frames.last().path + seq!['/' as u8]
                    + frames.last().entries[frames.last().next]
            }
        }),
{
    if frames.len() > 0 && frames.last().next < frames.last().entries.len() {
        let next = resumed(root_device, frames);
        assert(next.frames.drop_last() =~= frames.drop_last());
        assert(next.step->Inspect_path =~= frames.last().path + seq!['/' as u8]
            + frames.last().entries[frames.last().next]);
    }
}

/// A directory whose children have been walked is changed only if it is the same directory still:
/// on the device of the volume, under the same number, and no symbolic link. Else the walk fails and
/// says which directory changed.
pub proof fn law_a_replaced_directory_stops_the_walk(
    walk: OwnershipWalk,
    step: WalkStep<Vec<u8>>,
    stat: EntryStat,
    shown: String,
    next: OwnershipWalk,
    next_step: WalkStep<Vec<u8>>,
    outcome: Option<Result<(), OwnershipError>>,
)
    requires
        walk_fits(walk@),
        call_ensures(OwnershipWalk::step, (&walk,), step),
        call_ensures(OwnershipWalk::report, (walk, WalkEvent::Entry { stat, shown }), next),
        call_ensures(OwnershipWalk::step, (&next,), next_step),
        call_ensures(OwnershipWalk::finish, (next,), outcome),
        (step is Inspect && step->Inspect_again is Some) || (step is Secure
            && step->Secure_again is Some),
    ensures
        ({
            let path = if step is Inspect {
                step->Inspect_path@
            } else {
                step->Secure_path@
            };
            let same = if step is Inspect {
                stat.mode & 0o120000 != 0o120000
            } else {
                stat.device == walk@.root_device && stat.device == step->Secure_again->0.device
                    && stat.inode == step->Secure_again->0.inode
            };
            &&& same && step is Inspect ==> {
                &&& next_step is Secure
                &&& next_step->Secure_path@ == path
                &&& next_step->Secure_again == step->Inspect_again
            }
            &&& same && step is Secure ==> {
                &&& next_step is Apply
                &&& next_step->Apply_path@ == path
                &&& next_step->Apply_mode == stat.mode
            }
            &&& !same ==> {
                &&& next_step is Failed
                &&& outcome is Some
                &&& outcome->0 is Err
                &&& outcome->0->Err_0 is ChangedIdentity
                &&& outcome->0->Err_0->ChangedIdentity_path@ == path
                &&& outcome->0->Err_0->ChangedIdentity_shown == shown
            }
        }),
{
    let mode = stat.mode;
    assert(mode & 0o170000 & 0o120000 == mode & 0o120000) by (bit_vector);
    lemma_step_paths(step);
    lemma_step_paths(next_step);
}

/// A step that fails ends the walk, with the reason. A walk that is over stays over, and one that is
/// told of something that it did not ask for stays as it is.
pub proof fn law_a_failed_step_ends_the_walk(
    walk: OwnershipWalk,
    step: WalkStep<Vec<u8>>,
    event: WalkEvent,
    next: OwnershipWalk,
    next_step: WalkStep<Vec<u8>>,
    outcome: Option<Result<(), OwnershipError>>,
)
    requires
        walk_fits(walk@),
        call_ensures(OwnershipWalk::step, (&walk,), step),
        call_ensures(OwnershipWalk::report, (walk, event), next),
        call_ensures(OwnershipWalk::step, (&next,), next_step),
        call_ensures(OwnershipWalk::finish, (next,), outcome),
    ensures
        event is Failed && !(step is Finished) && !(step is Failed) ==> {
            &&& next_step is Failed
            &&& outcome == Some(Err::<(), _>(OwnershipError::Outside(event->Failed_0)))
        },
        step is Finished || step is Failed || (event is Entry && !(step is Inspect) && !(
        step is Secure)) || (event is Listed && !(step is List)) || (event is Applied && !(
        step is Apply)) ==> next@ == walk@,
        outcome is Some <==> next_step is Finished || next_step is Failed,
        walk_fits(next@),
{
    lemma_step_paths(step);
    lemma_step_paths(next_step);
    law_walk_keeps_fitting(walk@, event);
}

} // verus!
