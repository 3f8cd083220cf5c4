//! Group ownership of mounted volumes: when it is changed, and the walk that changes it.

use vstd::prelude::*;
use vstd::slice::slice_to_vec;

use crate::mode::{has_type_bits, is_directory, permissions, PERMISSION_BITS, S_IFDIR};
use crate::path::{
    is_absolute, law_a_path_grows_by_its_names, law_where_a_path_begins, named_pieces,
    path_components, path_parts,
};
use crate::text::{
    join_texts, joined, law_joined_pieces_split_back, law_split_pieces_join_back, list_contains,
    lists_text, split, texts,
};
use crate::types::{FSGroupChangePolicy, Storage};

verus! {

pub const RW_MASK: u32 = 0o660;

pub const RO_MASK: u32 = 0o440;

pub const EXEC_MASK: u32 = 0o110;

pub const MODE_SETGID: u32 = 0o2000;

/// Why an ownership change fails.
#[derive(Debug)]
pub enum OwnershipError {
    /// A step outside of this library failed.
    Outside(String),
    /// The mount path is relative.
    NotAbsolute,
    /// The mount path is not a directory.
    NotDirectory,
    /// The directory at a path was renamed or replaced while it was walked. The path is bytes, and
    /// `shown` is how it is written in a message.
    ChangedIdentity { path: Vec<u8>, shown: String },
}

impl OwnershipError {
    /// The text of the message for this error.
    pub open spec fn text(&self) -> Seq<char> {
        match self {
            OwnershipError::Outside(reason) => reason@,
            OwnershipError::NotAbsolute => "fsGroup mount path must be absolute"@,
            OwnershipError::NotDirectory => "fsGroup mount path is not a directory"@,
            OwnershipError::ChangedIdentity { shown, .. } =>
                "fsGroup directory changed identity during traversal: "@ + shown@,
        }
    }

    /// The message for this error.
    pub fn message(&self) -> (message: String)
        ensures
            message@ == self.text(),
    {
        match self {
            OwnershipError::Outside(reason) => reason.clone(),
            OwnershipError::NotAbsolute => "fsGroup mount path must be absolute".to_owned(),
            OwnershipError::NotDirectory => "fsGroup mount path is not a directory".to_owned(),
            OwnershipError::ChangedIdentity { shown, .. } => {
                let mut text = "fsGroup directory changed identity during traversal: ".to_owned();
                text.append(shown.as_str());
                text
            },
        }
    }
}

/// What is known of the root directory of a volume.
#[derive(Clone, Copy, Debug, PartialEq, Eq, Structural)]
pub struct RootStat {
    pub device: u64,
    pub mode: u32,
    pub gid: u32,
}

/// What is done about the ownership of a volume.
#[derive(Clone, Copy, Debug, PartialEq, Eq, Structural)]
pub enum OwnershipPlan {
    /// Nothing.
    Skip,
    /// Open the mount path to find out about its root directory.
    OpenRoot,
    /// Walk the volume, and give everything on its device to a group.
    Change { gid: u32, read_only: bool, root_device: u64 },
}

/// Read permission, and write permission unless the volume is read-only.
pub open spec fn access_mask(read_only: bool) -> u32 {
    if read_only {
        RO_MASK
    } else {
        RW_MASK
    }
}

/// Whether a root directory already belongs to a group, with the permissions that the group needs.
pub open spec fn root_matches(root: RootStat, gid: u32, read_only: bool) -> bool {
    let mask = access_mask(read_only) | EXEC_MASK;
    &&& root.gid == gid
    &&& mask & root.mode == mask
    &&& root.mode & MODE_SETGID != 0
}

/// What is done about the ownership of a storage.
pub open spec fn ownership_plan(storage: Storage, root: Option<RootStat>) -> OwnershipPlan {
    let read_only = lists_text(storage.options@, "ro"@);
    match storage.fs_group {
        None => OwnershipPlan::Skip,
        Some(fs_group) => match root {
            None => OwnershipPlan::OpenRoot,
            Some(root) => if fs_group.group_change_policy == FSGroupChangePolicy::OnRootMismatch
                && root_matches(root, fs_group.group_id, read_only) {
                OwnershipPlan::Skip
            } else {
                OwnershipPlan::Change {
                    gid: fs_group.group_id,
                    read_only,
                    root_device: root.device,
                }
            },
        },
    }
}

/// Decides what is done about the ownership of a storage. `root` is what is known of the root
/// directory of its mount path, once that has been opened.
pub fn set_ownership(storage: &Storage, root: Option<RootStat>) -> (plan: OwnershipPlan)
    ensures
        plan == ownership_plan(*storage, root),
{
    let fs_group = match storage.fs_group {
        Some(fs_group) => fs_group,
        None => {
            return OwnershipPlan::Skip;
        },
    };
    let read_only = list_contains(&storage.options, "ro");
    let root = match root {
        Some(root) => root,
        None => {
            return OwnershipPlan::OpenRoot;
        },
    };
    if fs_group.group_change_policy == FSGroupChangePolicy::OnRootMismatch && root.gid
        == fs_group.group_id {
        let mask: u32 = if read_only {
            RO_MASK | EXEC_MASK
        } else {
            RW_MASK | EXEC_MASK
        };
        // With fsGroup change policy to OnRootMismatch, if the current
        // gid of the mount path root directory matches the desired gid
        // and the current permission of mount path root directory is correct,
        // then ownership change will be skipped.
        if mask & root.mode == mask && root.mode & MODE_SETGID != 0 {
            return OwnershipPlan::Skip;
        }
    }
    OwnershipPlan::Change { gid: fs_group.group_id, read_only, root_device: root.device }
}

/// The path of a mount path below the root of the system.
pub open spec fn below_root(path: Seq<char>) -> Seq<char> {
    let parts = path_parts(path).skip(1);
    if parts.len() == 0 {
        "."@
    } else {
        joined(parts, "/"@)
    }
}

/// The path below the root of the system at which a mount path is to be opened.
pub fn open_ownership_root(path: &str) -> (result: Result<String, OwnershipError>)
    ensures
        if is_absolute(path@) {
            result matches Ok(relative) && relative@ == below_root(path@)
        } else {
            result == Err::<String, _>(OwnershipError::NotAbsolute)
        },
{
    let mut parts = path_components(path);
    assert(parts@.len() == texts(parts@).len());
    if !is_absolute_path(path) {
        return Err(OwnershipError::NotAbsolute);
    }
    let ghost before = texts(parts@);
    parts.remove(0);
    assert(texts(parts@) =~= before.skip(1));
    if parts.len() == 0 {
        return Ok(".".to_owned());
    }
    Ok(join_texts(&parts, "/"))
}

fn is_absolute_path(path: &str) -> (result: bool)
    ensures
        result == is_absolute(path@),
{
    path.unicode_len() > 0 && path.get_char(0) == '/'
}

/// Refuses a mount path that is not a directory.
pub fn check_ownership_root(mode: u32) -> (result: Result<(), OwnershipError>)
    ensures
        result == if has_type_bits(mode, S_IFDIR) {
            Ok(())
        } else {
            Err(OwnershipError::NotDirectory)
        },
{
    if !is_directory(mode) {
        return Err(OwnershipError::NotDirectory);
    }
    Ok(())
}

/// How an entry is opened again before its ownership is changed.
#[derive(Clone, Copy, Debug, PartialEq, Eq, Structural)]
pub enum Reopen {
    /// As a directory, for reading, without following a link.
    Directory,
    /// For reading, without waiting and without following a link.
    File,
}

/// How the ownership of an entry is changed.
#[derive(Clone, Copy, Debug, PartialEq, Eq, Structural)]
pub struct OwnershipChange {
    /// How the entry is opened again, before anything is changed. It is not where no group is
    /// given, and its permissions then stay as they are.
    pub reopen: Option<Reopen>,
    /// The permissions that are added.
    pub mask: u32,
}

/// The permissions that an entry is given.
pub open spec fn entry_mask(mode: u32, read_only: bool) -> u32 {
    if has_type_bits(mode, S_IFDIR) {
        access_mask(read_only) | EXEC_MASK | MODE_SETGID
    } else {
        access_mask(read_only)
    }
}

/// Decides how the ownership of an entry is changed. A special file that cannot be opened again
/// fails before anything is changed.
pub fn apply_ownership_to_handle(mode: u32, gid: Option<u32>, read_only: bool) -> (change:
    OwnershipChange)
    ensures
        change.mask == entry_mask(mode, read_only),
        change.reopen == match gid {
            None => None,
            Some(_) => if has_type_bits(mode, S_IFDIR) {
                Some(Reopen::Directory)
            } else {
                Some(Reopen::File)
            },
        },
{
    let mut mask: u32 = if read_only {
        RO_MASK
    } else {
        RW_MASK
    };
    let directory = is_directory(mode);
    if directory {
        mask = mask | EXEC_MASK;
        mask = mask | MODE_SETGID;
    }
    let reopen = match gid {
        None => None,
        Some(_) => if directory {
            Some(Reopen::Directory)
        } else {
            Some(Reopen::File)
        },
    };
    OwnershipChange { reopen, mask }
}

/// The permissions of an entry after its ownership has been changed, from its mode at that time.
pub fn target_mode(current_mode: u32, mask: u32) -> (target: u32)
    ensures
        target == (current_mode | mask) & PERMISSION_BITS,
{
    permissions(current_mode | mask)
}

/// The change of an entry gives the group what it needs and takes nothing away: all permissions
/// that the entry had stay, the group can read, write unless the volume is read-only, and enter a
/// directory, in which new files belong to the group.
pub proof fn law_change_grants_and_never_revokes(mode: u32, read_only: bool)
    ensures
        ({
            let target = (mode | entry_mask(mode, read_only)) & PERMISSION_BITS;
            &&& mode & PERMISSION_BITS & target == mode & PERMISSION_BITS
            &&& target & 0o040 == 0o040
            &&& !read_only ==> target & 0o020 == 0o020
            &&& has_type_bits(mode, S_IFDIR) ==> target & 0o010 == 0o010 && target & MODE_SETGID
                == MODE_SETGID
        }),
{
    let directory = has_type_bits(mode, S_IFDIR);
    let mask = entry_mask(mode, read_only);
    assert(mask == if directory {
        if read_only {
            0o440u32 | 0o110 | 0o2000
        } else {
            0o660u32 | 0o110 | 0o2000
        }
    } else if read_only {
        0o440u32
    } else {
        0o660u32
    });
    assert(({
        let target = (mode | mask) & 0o7777;
        &&& mode & 0o7777 & target == mode & 0o7777
        &&& target & 0o040 == 0o040
        &&& !read_only ==> target & 0o020 == 0o020
        &&& directory ==> target & 0o010 == 0o010 && target & 0o2000 == 0o2000
    })) by (bit_vector)
        requires
            mask == if directory {
                if read_only {
                    0o440u32 | 0o110 | 0o2000
                } else {
                    0o660u32 | 0o110 | 0o2000
                }
            } else if read_only {
                0o440u32
            } else {
                0o660u32
            },
    ;
}

/// Once the root directory has been changed, it matches: with the policy that looks for a mismatch
/// of the root, a second change does nothing.
pub proof fn law_changed_root_matches(root: RootStat, gid: u32, read_only: bool)
    requires
        has_type_bits(root.mode, S_IFDIR),
    ensures
        root_matches(
            RootStat { mode: root.mode | entry_mask(root.mode, read_only), gid, ..root },
            gid,
            read_only,
        ),
{
    let mode = root.mode;
    assert(({
        let changed = mode | (0o440u32 | 0o110 | 0o2000);
        (0o440u32 | 0o110) & changed == 0o440u32 | 0o110 && changed & 0o2000 != 0
    })) by (bit_vector);
    assert(({
        let changed = mode | (0o660u32 | 0o110 | 0o2000);
        (0o660u32 | 0o110) & changed == 0o660u32 | 0o110 && changed & 0o2000 != 0
    })) by (bit_vector);
}

/// The contents of a list of names.
pub open spec fn name_views(names: Seq<Vec<u8>>) -> Seq<Seq<u8>> {
    Seq::new(names.len(), |i: int| names[i]@)
}

/// Whether a directory entry names something other than the directory itself or its parent.
pub open spec fn is_child(name: Seq<u8>) -> bool {
    name != seq![0x2eu8] && name != seq![0x2eu8, 0x2e]
}

/// The names among those of directory entries that name children, in order.
pub open spec fn children(names: Seq<Seq<u8>>) -> Seq<Seq<u8>>
    decreases names.len(),
{
    if names.len() == 0 {
        Seq::empty()
    } else if is_child(names.last()) {
        children(names.drop_last()).push(names.last())
    } else {
        children(names.drop_last())
    }
}

fn names_child(name: &Vec<u8>) -> (result: bool)
    ensures
        result == is_child(name@),
{
    if name.len() == 1 && name[0] == 0x2e {
        assert(name@ =~= seq![0x2eu8]);
        return false;
    }
    if name.len() == 2 && name[0] == 0x2e && name[1] == 0x2e {
        assert(name@ =~= seq![0x2eu8, 0x2e]);
        return false;
    }
    true
}

/// The names among those of directory entries that name children, in order.
pub fn directory_entries(names: Vec<Vec<u8>>) -> (entries: Vec<Vec<u8>>)
    ensures
        name_views(entries@) == children(name_views(names@)),
{
    let mut entries: Vec<Vec<u8>> = Vec::new();
    let mut i: usize = 0;
    assert(name_views(names@).take(0) =~= Seq::<Seq<u8>>::empty());
    assert(name_views(entries@) =~= Seq::<Seq<u8>>::empty());
    while i < names.len()
        invariant
            i <= names.len(),
            name_views(entries@) == children(name_views(names@).take(i as int)),
        decreases names.len() - i,
    {
        let ghost before = name_views(entries@);
        assert(name_views(names@).take(i + 1).drop_last() =~= name_views(names@).take(i as int));
        assert(name_views(names@).take(i + 1).last() == names@[i as int]@);
        if names_child(&names[i]) {
            entries.push(slice_to_vec(names[i].as_slice()));
            assert(name_views(entries@) =~= before.push(names@[i as int]@));
        }
        i = i + 1;
    }
    assert(name_views(names@).take(names@.len() as int) =~= name_views(names@));
    entries
}

/// Ownership is changed exactly where a group is asked for, unless the root directory need not be
/// looked past: with the policy that looks for a mismatch, one that belongs to the group already,
/// hands it on, and lets the group read and enter it, and write to it unless the volume is
/// read-only, is left as it is. The group is the one that is asked for, and the device is that of
/// the root.
pub proof fn law_ownership_is_changed_where_a_group_is_asked_for(
    storage: Storage,
    first: OwnershipPlan,
    root: RootStat,
    second: OwnershipPlan,
)
    requires
        call_ensures(set_ownership, (&storage, None), first),
        call_ensures(set_ownership, (&storage, Some(root)), second),
    ensures
        ({
            let read_only = exists|i: int|
                0 <= i < storage.options@.len() && #[trigger] storage.options@[i]@ == "ro"@;
            let group = storage.fs_group->0;
            let in_order = {
                &&& root.gid == group.group_id
                &&& root.mode & 0o440 == 0o440
                &&& root.mode & 0o110 == 0o110
                &&& !read_only ==> root.mode & 0o220 == 0o220
                &&& root.mode & 0o2000 == 0o2000
            };
            &&& storage.fs_group is None ==> first is Skip && second is Skip
            &&& storage.fs_group is Some ==> first is OpenRoot
            &&& storage.fs_group is Some ==> if group.group_change_policy is OnRootMismatch
                && in_order {
                second is Skip
            } else {
                second == (OwnershipPlan::Change {
                    gid: group.group_id,
                    read_only,
                    root_device: root.device,
                })
            }
        }),
{
    let mode = root.mode;
    assert((0o660u32 | 0o110) & mode == 0o660u32 | 0o110 <==> mode & 0o440 == 0o440 && mode & 0o110
        == 0o110 && mode & 0o220 == 0o220) by (bit_vector);
    assert((0o440u32 | 0o110) & mode == 0o440u32 | 0o110 <==> mode & 0o440 == 0o440 && mode & 0o110
        == 0o110) by (bit_vector);
    assert(mode & 0o2000 != 0 <==> mode & 0o2000 == 0o2000) by (bit_vector);
}

/// How an entry is changed: a directory is given to the group for reading and entering, with what is
/// made in it, and a file for reading, both also for writing unless the volume is read-only. All
/// permissions that it had stay, and nothing but permissions is set. It is opened again first, as
/// what it is, exactly where a group is given.
pub proof fn law_entries_are_given_to_the_group(
    mode: u32,
    gid: Option<u32>,
    read_only: bool,
    change: OwnershipChange,
    target: u32,
)
    requires
        call_ensures(apply_ownership_to_handle, (mode, gid, read_only), change),
        call_ensures(target_mode, (mode, change.mask), target),
    ensures
        ({
            let directory = mode & 0o040000 == 0o040000;
            let granted: u32 = if directory && read_only {
                0o2550
            } else if directory {
                0o2770
            } else if read_only {
                0o440
            } else {
                0o660
            };
            &&& change.mask == granted
            &&& target == (mode & 0o7777) | granted
            &&& gid is None <==> change.reopen is None
            &&& gid is Some ==> change.reopen->0 == if directory {
                Reopen::Directory
            } else {
                Reopen::File
            }
        }),
{
    assert(mode & 0o170000 & 0o040000 == mode & 0o040000) by (bit_vector);
    assert(0o660u32 | 0o110 | 0o2000 == 0o2770) by (bit_vector);
    assert(0o440u32 | 0o110 | 0o2000 == 0o2550) by (bit_vector);
    assert((mode | 0o2770) & 0o7777 == (mode & 0o7777) | 0o2770) by (bit_vector);
    assert((mode | 0o2550) & 0o7777 == (mode & 0o7777) | 0o2550) by (bit_vector);
    assert((mode | 0o660) & 0o7777 == (mode & 0o7777) | 0o660) by (bit_vector);
    assert((mode | 0o440) & 0o7777 == (mode & 0o7777) | 0o440) by (bit_vector);
}

/// A volume is walked only from a directory.
pub proof fn law_only_directories_are_walked(mode: u32, result: Result<(), OwnershipError>)
    requires
        call_ensures(check_ownership_root, (mode,), result),
    ensures
        result is Ok <==> mode & 0o040000 == 0o040000,
        result is Err ==> result->Err_0 is NotDirectory,
{
    assert(mode & 0o170000 & 0o040000 == mode & 0o040000) by (bit_vector);
}

proof fn lemma_named_pieces_are_names(pieces: Seq<Seq<char>>)
    requires
        forall|i: int| 0 <= i < pieces.len() ==> !(#[trigger] pieces[i]).contains('/'),
    ensures
        forall|i: int|
            0 <= i < named_pieces(pieces).len() ==> {
                &&& !(#[trigger] named_pieces(pieces)[i]).contains('/')
                &&& named_pieces(pieces)[i].len() > 0
                &&& named_pieces(pieces)[i] != seq!['.']
            },
    decreases pieces.len(),
{
    if pieces.len() > 0 {
        let before = pieces.drop_last();
        assert forall|i: int| 0 <= i < before.len() implies !(#[trigger] before[i]).contains('/') by {
            assert(before[i] == pieces[i]);
        }
        lemma_named_pieces_are_names(before);
        assert(!pieces[pieces.len() - 1].contains('/'));
        let named = named_pieces(pieces);
        assert forall|i: int| 0 <= i < named.len() implies {
            &&& !(#[trigger] named[i]).contains('/')
            &&& named[i].len() > 0
            &&& named[i] != seq!['.']
        } by {
            if i < named_pieces(before).len() {
                assert(named[i] == named_pieces(before)[i]);
            } else {
                assert(named[i] == pieces.last());
            }
        }
    }
}

proof fn lemma_rooted_names(names: Seq<Seq<char>>)
    requires
        names.len() > 0,
        forall|i: int|
            0 <= i < names.len() ==> {
                &&& !(#[trigger] names[i]).contains('/')
                &&& names[i].len() > 0
                &&& names[i] != seq!['.']
            },
    ensures
        path_parts(seq!['/'] + joined(names, seq!['/'])) == seq![seq!['/']] + names,
        joined(names, seq!['/']).len() > 0,
        joined(names, seq!['/'])[0] == names[0][0],
    decreases names.len(),
{
    let slash = seq!['/'];
    if names.len() == 1 {
        law_where_a_path_begins(names[0]);
        assert(seq![slash, names[0]] =~= seq![slash] + names);
    } else {
        let before = names.drop_last();
        assert forall|i: int| 0 <= i < before.len() implies {
            &&& !(#[trigger] before[i]).contains('/')
            &&& before[i].len() > 0
            &&& before[i] != seq!['.']
        } by {
            assert(before[i] == names[i]);
        }
        lemma_rooted_names(before);
        let last = names[names.len() - 1];
        let path = slash + joined(before, slash);
        law_a_path_grows_by_its_names(path, last);
        assert(path + slash + last =~= slash + joined(names, slash));
        assert((seq![slash] + before).push(last) =~= seq![slash] + names);
    }
}

/// A mount path is opened below the root of the system: only an absolute one is accepted, and what
/// is opened there is relative and is the same path.
pub proof fn law_mount_path_is_opened_below_the_root(
    path: &str,
    result: Result<String, OwnershipError>,
)
    requires
        call_ensures(open_ownership_root, (path,), result),
    ensures
        result is Ok <==> path@.len() > 0 && path@[0] == '/',
        result is Err ==> result->Err_0 is NotAbsolute,
        result is Ok ==> {
            &&& result->Ok_0@.len() > 0
            &&& result->Ok_0@[0] != '/'
            &&& path_parts(seq!['/'] + result->Ok_0@) == path_parts(path@)
        },
{
    if is_absolute(path@) {
        let pieces = split(path@, '/');
        let names = named_pieces(pieces);
        let slash = seq!['/'];
        law_split_pieces_join_back(path@, '/');
        lemma_named_pieces_are_names(pieces);
        assert(path_parts(path@).skip(1) =~= names);
        reveal_strlit("/");
        reveal_strlit(".");
        assert("/"@ =~= slash);
        assert("."@ =~= seq!['.']);
        if names.len() > 0 {
            lemma_rooted_names(names);
            assert(names[0].contains(names[0][0]));
        } else {
            law_where_a_path_begins(seq!['.']);
            let dot = seq!['.'];
            assert(!dot.contains('/'));
            law_split_pieces_join_back(slash + dot, '/');
            let parts = seq![Seq::<char>::empty(), dot];
            assert(parts.drop_last() =~= seq![Seq::<char>::empty()]);
            assert(joined(seq![Seq::<char>::empty()], slash) == Seq::<char>::empty());
            assert(joined(parts, slash) =~= slash + dot);
            law_joined_pieces_split_back(parts, '/');
            assert(named_pieces(parts) =~= Seq::<Seq<char>>::empty()) by {
                assert(named_pieces(parts.drop_last()) =~= Seq::<Seq<char>>::empty()) by {
                    assert(parts.drop_last().drop_last() =~= Seq::<Seq<char>>::empty());
                    assert(named_pieces(Seq::<Seq<char>>::empty()) =~= Seq::<Seq<char>>::empty());
                }
            }
            assert(path_parts(slash + dot) =~= path_parts(path@));
        }
    }
}

/// The children of a directory are the entries that it lists, in order, without the directory itself
/// and its parent.
pub proof fn law_directory_lists_its_children(names: Vec<Vec<u8>>, entries: Vec<Vec<u8>>)
    requires
        call_ensures(directory_entries, (names,), entries),
    ensures
        Seq::new(entries@.len(), |i: int| entries@[i]@) == Seq::new(
            names@.len(),
            |i: int| names@[i]@,
        ).filter(|name: Seq<u8>| name != seq!['.' as u8] && name != seq!['.' as u8, '.' as u8]),
{
    let all = name_views(names@);
    assert(all =~= Seq::new(names@.len(), |i: int| names@[i]@));
    assert(name_views(entries@) =~= Seq::new(entries@.len(), |i: int| entries@[i]@));
    lemma_children_are_filtered(all);
    assert(seq!['.' as u8] =~= seq![0x2eu8]);
    assert(seq!['.' as u8, '.' as u8] =~= seq![0x2eu8, 0x2e]);
    let keep = |name: Seq<u8>| name != seq!['.' as u8] && name != seq!['.' as u8, '.' as u8];
    let child = |name: Seq<u8>| is_child(name);
    assert(keep =~= child);
}

/// The children of a directory are the names in it that are children's, in their order.
pub proof fn lemma_children_are_filtered(names: Seq<Seq<u8>>)
    ensures
        children(names) == names.filter(|name: Seq<u8>| is_child(name)),
    decreases names.len(),
{
    reveal(Seq::filter);
    if names.len() > 0 {
        lemma_children_are_filtered(names.drop_last());
    }
}

/// What is said of a failed change of ownership: a reason from outside as it came, or what was wrong with
/// the path.
pub proof fn law_ownership_messages_keep_the_reason(
    error: OwnershipError,
    message: String,
)
    requires
        call_ensures(OwnershipError::message, (&error,), message),
    ensures
        message@ == match error {
            OwnershipError::Outside(reason) => reason@,
            OwnershipError::NotAbsolute => "fsGroup mount path must be absolute"@,
            OwnershipError::NotDirectory => "fsGroup mount path is not a directory"@,
            OwnershipError::ChangedIdentity { shown, .. } =>
                "fsGroup directory changed identity during traversal: "@ + shown@,
        },
{
}

} // verus!
