//! Paths as sequences of components, the way std's `Path` reads them on Unix.

use vstd::prelude::*;

use crate::text::{
    chars_of, joined, law_joined_pieces_split_back, law_split_pieces_join_back, same_text,
    same_texts, split, split_text, texts,
};

verus! {

/// The pieces that name something: neither empty nor a single dot.
pub open spec fn named_pieces(pieces: Seq<Seq<char>>) -> Seq<Seq<char>>
    decreases pieces.len(),
{
    if pieces.len() == 0 {
        Seq::empty()
    } else {
        let named = named_pieces(pieces.drop_last());
        if pieces.last().len() == 0 || pieces.last() == seq!['.'] {
            named
        } else {
            named.push(pieces.last())
        }
    }
}

/// Whether a path starts at the root directory.
pub open spec fn is_absolute(path: Seq<char>) -> bool {
    path.len() > 0 && path[0] == '/'
}

/// The components of a path. The root directory is written `/`; a dot counts only at the start of
/// a relative path; repeated and trailing slashes count for nothing.
pub open spec fn path_parts(path: Seq<char>) -> Seq<Seq<char>> {
    let pieces = split(path, '/');
    let start: Seq<Seq<char>> = if is_absolute(path) {
        seq![seq!['/']]
    } else if pieces[0] == seq!['.'] {
        seq![seq!['.']]
    } else {
        Seq::empty()
    };
    start + named_pieces(pieces)
}

/// Whether the components of `base` are the first components of `path`.
pub open spec fn path_covers(base: Seq<char>, path: Seq<char>) -> bool {
    path_parts(base).len() <= path_parts(path).len() && path_parts(path).take(
        path_parts(base).len() as int,
    ) == path_parts(base)
}

/// Whether two paths have the same components.
pub open spec fn same_path(left: Seq<char>, right: Seq<char>) -> bool {
    path_parts(left) == path_parts(right)
}

/// Whether a path is absolute, has no empty piece and no trailing slash, and never steps up.
pub open spec fn is_clean_absolute(path: Seq<char>) -> bool {
    &&& is_absolute(path)
    &&& forall|i: int| 0 <= i < path.len() - 1 ==> !(#[trigger] path[i] == '/' && path[i + 1] == '/')
    &&& path.last() != '/'
    &&& !path_parts(path).contains(seq!['.', '.'])
}

/// Covering is reflexive and transitive, and two paths that cover each other are the same.
pub proof fn law_path_covers_is_a_partial_order(a: Seq<char>, b: Seq<char>, c: Seq<char>)
    ensures
        path_covers(a, a),
        path_covers(a, b) && path_covers(b, c) ==> path_covers(a, c),
        path_covers(a, b) && path_covers(b, a) ==> same_path(a, b),
{
    assert(path_parts(a).take(path_parts(a).len() as int) =~= path_parts(a));
    if path_covers(a, b) && path_covers(b, c) {
        assert(path_parts(c).take(path_parts(a).len() as int) =~= path_parts(b).take(
            path_parts(a).len() as int,
        ));
    }
    if path_covers(a, b) && path_covers(b, a) {
        assert(path_parts(b).take(path_parts(a).len() as int) =~= path_parts(b));
    }
}

/// A text always has at least one piece.
pub proof fn lemma_split_not_empty(text: Seq<char>, separator: char)
    ensures
        split(text, separator).len() > 0,
    decreases text.len(),
{
    if text.len() > 0 {
        lemma_split_not_empty(text.drop_last(), separator);
    }
}

/// The components of a path.
pub fn path_components(path: &str) -> (parts: Vec<String>)
    ensures
        texts(parts@) == path_parts(path@),
{
    let pieces = split_text(path, '/');
    let chars = chars_of(path);
    let ghost split_pieces = split(path@, '/');
    proof {
        lemma_split_not_empty(path@, '/');
        reveal_strlit("/");
        reveal_strlit(".");
        assert("/"@ =~= seq!['/']);
        assert("."@ =~= seq!['.']);
    }
    let mut parts: Vec<String> = Vec::new();
    assert(texts(pieces@)[0] == pieces@[0]@);
    if chars.len() > 0 && chars[0] == '/' {
        parts.push("/".to_owned());
    } else if same_text(pieces[0].as_str(), ".") {
        parts.push(".".to_owned());
    }
    let ghost start = texts(parts@);
    assert(is_absolute(path@) ==> start =~= seq![seq!['/']]);
    assert(!is_absolute(path@) && split_pieces[0] == seq!['.'] ==> start =~= seq![seq!['.']]);
    assert(!is_absolute(path@) && split_pieces[0] != seq!['.'] ==> start =~= Seq::empty());
    let mut i: usize = 0;
    assert(split_pieces.take(0) =~= Seq::empty());
    assert(texts(parts@) =~= start + named_pieces(split_pieces.take(0)));
    while i < pieces.len()
        invariant
            i <= pieces.len(),
            "."@ == seq!['.'],
            split_pieces == texts(pieces@),
            texts(parts@) == start + named_pieces(split_pieces.take(i as int)),
        decreases pieces.len() - i,
    {
        let ghost before = texts(parts@);
        assert(split_pieces[i as int] == pieces@[i as int]@);
        assert(split_pieces.take(i + 1).drop_last() =~= split_pieces.take(i as int));
        if !pieces[i].as_str().is_empty() && !same_text(pieces[i].as_str(), ".") {
            parts.push(pieces[i].clone());
            assert(texts(parts@) =~= before.push(pieces@[i as int]@));
            assert(texts(parts@) =~= start + named_pieces(split_pieces.take(i as int)).push(
                pieces@[i as int]@,
            ));
        }
        i = i + 1;
    }
    assert(split_pieces.take(i as int) =~= split_pieces);
    parts
}

/// Whether `base` is `path` or one of its ancestors.
pub fn covers(base: &str, path: &str) -> (result: bool)
    ensures
        result == path_covers(base@, path@),
{
    let base_parts = path_components(base);
    let parts = path_components(path);
    if base_parts.len() > parts.len() {
        assert(texts(base_parts@).len() > texts(parts@).len());
        return false;
    }
    let mut i: usize = 0;
    while i < base_parts.len()
        invariant
            i <= base_parts.len() <= parts.len(),
            texts(base_parts@) == path_parts(base@),
            texts(parts@) == path_parts(path@),
            forall|j: int| 0 <= j < i ==> base_parts@[j]@ == parts@[j]@,
        decreases base_parts.len() - i,
    {
        if !same_text(base_parts[i].as_str(), parts[i].as_str()) {
            assert(texts(base_parts@)[i as int] != texts(parts@)[i as int]);
            assert(path_parts(path@).take(path_parts(base@).len() as int)[i as int] != path_parts(
                base@,
            )[i as int]);
            return false;
        }
        i = i + 1;
    }
    assert(texts(parts@).take(base_parts@.len() as int) =~= texts(base_parts@));
    true
}

/// Whether two texts denote the same path.
pub fn paths_equal(left: &str, right: &str) -> (result: bool)
    ensures
        result == same_path(left@, right@),
{
    let lefts = path_components(left);
    let rights = path_components(right);
    same_texts(&lefts, &rights)
}

/// Whether a path is absolute and clean.
pub fn is_clean_absolute_path(value: &str) -> (clean: bool)
    ensures
        clean == is_clean_absolute(value@),
{
    let chars = chars_of(value);
    if chars.len() == 0 || chars[0] != '/' || chars[chars.len() - 1] == '/' {
        return false;
    }
    let mut i: usize = 0;
    while i < chars.len() - 1
        invariant
            chars@ == value@,
            0 < chars.len(),
            i <= chars.len() - 1,
            forall|j: int| 0 <= j < i ==> !(#[trigger] value@[j] == '/' && value@[j + 1] == '/'),
        decreases chars.len() - i,
    {
        if chars[i] == '/' && chars[i + 1] == '/' {
            return false;
        }
        i = i + 1;
    }
    let parts = path_components(value);
    proof {
        reveal_strlit("..");
        assert(".."@ =~= seq!['.', '.']);
    }
    let mut k: usize = 0;
    while k < parts.len()
        invariant
            k <= parts.len(),
            ".."@ == seq!['.', '.'],
            texts(parts@) == path_parts(value@),
            forall|j: int| 0 <= j < k ==> parts@[j]@ != seq!['.', '.'],
        decreases parts.len() - k,
    {
        if same_text(parts[k].as_str(), "..") {
            assert(texts(parts@)[k as int] == seq!['.', '.']);
            return false;
        }
        k = k + 1;
    }
    assert forall|j: int| 0 <= j < path_parts(value@).len() implies #[trigger] path_parts(
        value@,
    )[j] != seq!['.', '.'] by {
        assert(texts(parts@)[j] == parts@[j]@);
    }
    true
}

proof fn lemma_named_pieces_push(pieces: Seq<Seq<char>>, piece: Seq<char>)
    ensures
        named_pieces(pieces.push(piece)) == if piece.len() == 0 || piece == seq!['.'] {
            named_pieces(pieces)
        } else {
            named_pieces(pieces).push(piece)
        },
{
    assert(pieces.push(piece).drop_last() =~= pieces);
}

/// How a path grows: a name after a slash is one more component, and a slash or a slash with a dot
/// at the end counts for nothing.
pub proof fn law_a_path_grows_by_its_names(path: Seq<char>, name: Seq<char>)
    requires
        path.len() > 0,
        !name.contains('/'),
    ensures
        path_parts(path + seq!['/'] + name) == if name.len() == 0 || name == seq!['.'] {
            path_parts(path)
        } else {
            path_parts(path).push(name)
        },
{
    let pieces = split(path, '/');
    let whole = path + seq!['/'] + name;
    law_split_pieces_join_back(path, '/');
    law_split_pieces_join_back(whole, '/');
    let grown = pieces.push(name);
    assert(joined(grown, seq!['/']) == whole) by {
        assert(grown.drop_last() =~= pieces);
    }
    assert forall|i: int| 0 <= i < grown.len() implies !(#[trigger] grown[i]).contains('/') by {
        if i < pieces.len() {
            assert(grown[i] == pieces[i]);
        }
    }
    law_joined_pieces_split_back(grown, '/');
    lemma_named_pieces_push(pieces, name);
    assert(split(whole, '/')[0] == pieces[0]);
    assert(whole[0] == path[0]);
    assert(path_parts(whole) =~= if name.len() == 0 || name == seq!['.'] {
        path_parts(path)
    } else {
        path_parts(path).push(name)
    });
}

/// Where a path begins: at the root directory, which `/` denotes, at the current directory, which
/// a dot denotes, or at a name. An absolute path is one that begins with a slash.
pub proof fn law_where_a_path_begins(name: Seq<char>)
    requires
        !name.contains('/'),
    ensures
        path_parts(Seq::<char>::empty()) == Seq::<Seq<char>>::empty(),
        path_parts(seq!['/']) == seq![seq!['/']],
        path_parts(seq!['.']) == seq![seq!['.']],
        name.len() > 0 ==> path_parts(name) == seq![name],
        name.len() > 0 && name != seq!['.'] ==> path_parts(seq!['/'] + name) == seq![
            seq!['/'],
            name,
        ],
        is_absolute(seq!['/'] + name),
        !is_absolute(name),
{
    let none = Seq::<Seq<char>>::empty();
    assert(named_pieces(none) =~= none);
    assert forall|piece: Seq<char>| !piece.contains('/') implies #[trigger] split(piece, '/')
        == seq![piece] by {
        law_joined_pieces_split_back(seq![piece], '/');
    }
    assert forall|piece: Seq<char>| #[trigger] named_pieces(seq![piece]) == if piece.len() == 0
        || piece == seq!['.'] {
        none
    } else {
        seq![piece]
    } by {
        lemma_named_pieces_push(none, piece);
        assert(none.push(piece) =~= seq![piece]);
    }
    assert(!seq!['.'].contains('/'));
    assert(!Seq::<char>::empty().contains('/'));
    assert(split(seq!['.'], '/') == seq![seq!['.']]);
    assert(path_parts(seq!['.']) =~= seq![seq!['.']]);
    assert(split(Seq::<char>::empty(), '/') == seq![Seq::<char>::empty()]);
    assert(path_parts(Seq::<char>::empty()) =~= none);
    let root = seq!['/'];
    let pair = seq![Seq::<char>::empty(), Seq::<char>::empty()];
    assert(joined(pair, root) =~= root) by {
        assert(pair.drop_last() =~= seq![Seq::<char>::empty()]);
        assert(joined(seq![Seq::<char>::empty()], root) =~= Seq::<char>::empty());
    }
    law_joined_pieces_split_back(pair, '/');
    lemma_named_pieces_push(seq![Seq::<char>::empty()], Seq::empty());
    assert(seq![Seq::<char>::empty()].push(Seq::empty()) =~= pair);
    assert(path_parts(root) =~= seq![root]);
    if name.len() > 0 {
        assert(split(name, '/') == seq![name]);
        if name[0] == '/' {
            assert(name.contains('/'));
        }
        assert(path_parts(name) =~= seq![name]);
        let parts = seq![Seq::<char>::empty(), name];
        assert(joined(parts, root) =~= root + name) by {
            assert(parts.drop_last() =~= seq![Seq::<char>::empty()]);
            assert(joined(seq![Seq::<char>::empty()], root) =~= Seq::<char>::empty());
        }
        law_joined_pieces_split_back(parts, '/');
        lemma_named_pieces_push(seq![Seq::<char>::empty()], name);
        assert(seq![Seq::<char>::empty()].push(name) =~= parts);
        if name != seq!['.'] {
            assert(path_parts(root + name) =~= seq![root, name]);
        }
    }
}

/// A path covers another exactly where its components are the first of the other's, and two paths
/// are the same exactly where they have the same components.
pub proof fn law_covering_is_beginning_with(
    base: &str,
    path: &str,
    covered: bool,
    equal: bool,
)
    requires
        call_ensures(covers, (base, path), covered),
        call_ensures(paths_equal, (base, path), equal),
    ensures
        covered <==> exists|rest: Seq<Seq<char>>| #[trigger]
            (path_parts(base@) + rest) == path_parts(path@),
        equal <==> path_parts(base@) == path_parts(path@),
        equal ==> covered,
{
    let parts = path_parts(base@);
    let whole = path_parts(path@);
    if path_covers(base@, path@) {
        assert(parts + whole.skip(parts.len() as int) =~= whole);
    }
    if exists|rest: Seq<Seq<char>>| #[trigger] (parts + rest) == whole {
        let rest = choose|rest: Seq<Seq<char>>| #[trigger] (parts + rest) == whole;
        assert((parts + rest).take(parts.len() as int) =~= parts);
    }
    assert(parts.take(parts.len() as int) =~= parts);
}

proof fn lemma_named_pieces_keep_names(pieces: Seq<Seq<char>>, name: Seq<char>)
    requires
        name.len() > 1,
    ensures
        named_pieces(pieces).contains(name) <==> pieces.contains(name),
    decreases pieces.len(),
{
    if pieces.len() > 0 {
        let before = pieces.drop_last();
        lemma_named_pieces_keep_names(before, name);
        assert(before.push(pieces.last()) =~= pieces);
        if pieces.contains(name) {
            let i = choose|i: int| 0 <= i < pieces.len() && pieces[i] == name;
            if i < before.len() {
                assert(before[i] == name);
            }
        }
        if before.contains(name) {
            let i = choose|i: int| 0 <= i < before.len() && before[i] == name;
            assert(pieces[i] == name);
            let k = choose|k: int|
                0 <= k < named_pieces(before).len() && named_pieces(before)[k] == name;
            assert(named_pieces(pieces)[k] == name);
        }
        if pieces.last() == name {
            assert(named_pieces(pieces).last() == name);
            assert(pieces[pieces.len() - 1] == name);
        }
        if named_pieces(pieces).contains(name) {
            let k = choose|k: int|
                0 <= k < named_pieces(pieces).len() && named_pieces(pieces)[k] == name;
            if k < named_pieces(before).len() {
                assert(named_pieces(before)[k] == name);
            }
        }
    }
}

/// A path is clean and absolute exactly where it begins with a slash, does not end in one, has no
/// two in a row, and has no double dot between its slashes.
pub proof fn law_clean_paths_never_step_up(path: &str, clean: bool)
    requires
        call_ensures(is_clean_absolute_path, (path,), clean),
    ensures
        clean <==> {
            &&& path@.len() > 0
            &&& path@[0] == '/'
            &&& path@[path@.len() - 1] != '/'
            &&& forall|i: int|
                0 < i < path@.len() ==> !(path@[i - 1] == '/' && #[trigger] path@[i] == '/')
            &&& !split(path@, '/').contains(seq!['.', '.'])
        },
{
    let text = path@;
    let up = seq!['.', '.'];
    let pieces = split(text, '/');
    lemma_named_pieces_keep_names(pieces, up);
    if is_absolute(text) {
        assert(up.len() == 2);
        let start = seq![seq!['/']];
        assert(path_parts(text) == start + named_pieces(pieces));
        if path_parts(text).contains(up) {
            let i = choose|i: int| 0 <= i < path_parts(text).len() && path_parts(text)[i] == up;
            assert(i > 0) by {
                if i == 0 {
                    assert(path_parts(text)[0] == seq!['/']);
                    assert(seq!['/'].len() == 1);
                }
            }
            assert(named_pieces(pieces)[i - 1] == up);
        }
        if named_pieces(pieces).contains(up) {
            let i = choose|i: int|
                0 <= i < named_pieces(pieces).len() && named_pieces(pieces)[i] == up;
            assert(path_parts(text)[i + 1] == up);
        }
    }
    if is_clean_absolute(text) {
        assert forall|i: int| 0 < i < text.len() implies !(text[i - 1] == '/' && #[trigger] text[i]
            == '/') by {
            assert(!(text[i - 1] == '/' && text[(i - 1) + 1] == '/'));
        }
    }
    if forall|i: int| 0 < i < text.len() ==> !(text[i - 1] == '/' && #[trigger] text[i] == '/') {
        assert forall|i: int| 0 <= i < text.len() - 1 implies !(#[trigger] text[i] == '/'
            && text[i + 1] == '/') by {
            assert(!(text[(i + 1) - 1] == '/' && text[i + 1] == '/'));
        }
    }
}

} // verus!
