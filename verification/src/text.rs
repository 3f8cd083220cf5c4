//! Text primitives: comparing, ordering, splitting and searching strings.

use vstd::prelude::*;

verus! {

/// The contents of a list of strings.
pub open spec fn texts(list: Seq<String>) -> Seq<Seq<char>> {
    Seq::new(list.len(), |i: int| list[i]@)
}

/// Whether some element of `list` reads `text`.
pub open spec fn lists_text(list: Seq<String>, text: Seq<char>) -> bool {
    exists|i: int| 0 <= i < list.len() && #[trigger] list[i]@ == text
}

/// Whether `text` begins with `prefix`.
pub open spec fn has_prefix(text: Seq<char>, prefix: Seq<char>) -> bool {
    prefix.len() <= text.len() && text.take(prefix.len() as int) == prefix
}

/// The pieces of `text` between occurrences of `separator`, which no piece holds. Empty pieces
/// are kept, so a text without the separator is its own single piece.
pub open spec fn split(text: Seq<char>, separator: char) -> Seq<Seq<char>>
    decreases text.len(),
{
    if text.len() == 0 {
        seq![text]
    } else {
        let pieces = split(text.drop_last(), separator);
        if text.last() == separator {
            pieces.push(Seq::empty())
        } else {
            pieces.drop_last().push(pieces.last().push(text.last()))
        }
    }
}

/// Where `wanted` first stands in `text`, or the length of `text` where it does not.
pub open spec fn first_index(text: Seq<char>, wanted: char) -> int
    decreases text.len(),
{
    if text.len() == 0 {
        0
    } else if text[0] == wanted {
        0
    } else {
        1 + first_index(text.drop_first(), wanted)
    }
}

/// The texts before and after the first `separator` in `text`, where it holds one.
pub open spec fn split_first(text: Seq<char>, separator: char) -> Option<(Seq<char>, Seq<char>)> {
    let at = first_index(text, separator);
    if at < text.len() {
        Some((text.take(at), text.skip(at + 1)))
    } else {
        None
    }
}

/// Decimal digits of a number, without leading zeros.
pub open spec fn decimal(number: nat) -> Seq<char>
    decreases number,
{
    if number < 10 {
        seq![digit(number)]
    } else {
        decimal(number / 10).push(digit(number % 10))
    }
}

/// The character of one decimal digit.
pub open spec fn digit(value: nat) -> char {
    (48 + value) as char
}

/// Dictionary order on texts, character by character. It is the order of their UTF-8 bytes.
pub open spec fn text_less(left: Seq<char>, right: Seq<char>) -> bool
    decreases left.len(),
{
    if right.len() == 0 {
        false
    } else if left.len() == 0 {
        true
    } else if left[0] == right[0] {
        text_less(left.drop_first(), right.drop_first())
    } else {
        left[0] < right[0]
    }
}

pub proof fn lemma_text_less_irreflexive(text: Seq<char>)
    ensures
        !text_less(text, text),
    decreases text.len(),
{
    if text.len() > 0 {
        lemma_text_less_irreflexive(text.drop_first());
    }
}

pub proof fn lemma_text_less_total(left: Seq<char>, right: Seq<char>)
    ensures
        text_less(left, right) || left == right || text_less(right, left),
    decreases left.len(),
{
    if left.len() > 0 && right.len() > 0 && left[0] == right[0] {
        lemma_text_less_total(left.drop_first(), right.drop_first());
        if left.drop_first() == right.drop_first() {
            assert(left =~= seq![left[0]] + left.drop_first());
            assert(right =~= seq![right[0]] + right.drop_first());
        }
    } else if left.len() == 0 && right.len() == 0 {
        assert(left =~= right);
    }
}

pub proof fn lemma_text_less_transitive(left: Seq<char>, middle: Seq<char>, right: Seq<char>)
    requires
        text_less(left, middle),
        text_less(middle, right),
    ensures
        text_less(left, right),
    decreases left.len(),
{
    if left.len() > 0 && left[0] == middle[0] && middle[0] == right[0] {
        lemma_text_less_transitive(left.drop_first(), middle.drop_first(), right.drop_first());
    }
}

proof fn lemma_scalar_value(c: char)
    ensures
        (c as u32) as int == c as int,
{
}

/// The characters of `text` as a vector.
pub fn chars_of(text: &str) -> (chars: Vec<char>)
    ensures
        chars@ == text@,
{
    let mut chars: Vec<char> = Vec::new();
    for c in iter: text.chars()
        invariant
            iter.seq() == text@,
            chars@ == text@.take(iter.index()),
    {
        chars.push(c);
        assert(text@.take(iter.index()).push(c) =~= text@.take(iter.index() + 1));
    }
    assert(text@.take(text@.len() as int) =~= text@);
    chars
}

fn chars_equal(left: &Vec<char>, right: &Vec<char>) -> (equal: bool)
    ensures
        equal == (left@ == right@),
{
    if left.len() != right.len() {
        return false;
    }
    let mut i: usize = 0;
    while i < left.len()
        invariant
            i <= left.len(),
            left.len() == right.len(),
            forall|j: int| 0 <= j < i ==> left@[j] == right@[j],
        decreases left.len() - i,
    {
        if left[i] != right[i] {
            return false;
        }
        i = i + 1;
    }
    assert(left@ =~= right@);
    true
}

/// Whether two texts are the same.
pub fn same_text(left: &str, right: &str) -> (same: bool)
    ensures
        same == (left@ == right@),
{
    let left = chars_of(left);
    let right = chars_of(right);
    chars_equal(&left, &right)
}

/// Whether `left` comes before `right` in dictionary order.
pub fn text_precedes(left: &str, right: &str) -> (less: bool)
    ensures
        less == text_less(left@, right@),
{
    let lefts = chars_of(left);
    let rights = chars_of(right);
    let mut i: usize = 0;
    assert(left@.skip(0) =~= left@ && right@.skip(0) =~= right@);
    while i < lefts.len() && i < rights.len()
        invariant
            lefts@ == left@,
            rights@ == right@,
            i <= lefts.len(),
            i <= rights.len(),
            text_less(left@, right@) == text_less(left@.skip(i as int), right@.skip(i as int)),
        decreases lefts.len() - i,
    {
        if lefts[i] != rights[i] {
            proof {
                lemma_scalar_value(lefts@[i as int]);
                lemma_scalar_value(rights@[i as int]);
            }
            return (lefts[i] as u32) < (rights[i] as u32);
        }
        assert(left@.skip(i as int).drop_first() =~= left@.skip(i + 1));
        assert(right@.skip(i as int).drop_first() =~= right@.skip(i + 1));
        i = i + 1;
    }
    i < rights.len()
}

/// Whether `text` begins with `prefix`.
pub fn starts_with(text: &str, prefix: &str) -> (found: bool)
    ensures
        found == has_prefix(text@, prefix@),
{
    strip_prefix(text, prefix).is_some()
}

/// What follows `prefix` in `text`, where `text` begins with it.
pub fn strip_prefix(text: &str, prefix: &str) -> (rest: Option<String>)
    ensures
        rest is Some <==> has_prefix(text@, prefix@),
        rest matches Some(rest) ==> rest@ == text@.skip(prefix@.len() as int),
{
    let length = prefix.unicode_len();
    let total = text.unicode_len();
    if total < length {
        return None;
    }
    let head = text.substring_char(0, length);
    assert(head@ =~= text@.take(prefix@.len() as int));
    if same_text(head, prefix) {
        let tail = text.substring_char(length, total);
        assert(tail@ =~= text@.skip(prefix@.len() as int));
        Some(tail.to_owned())
    } else {
        None
    }
}

/// Splits `text` at every `separator`.
pub fn split_text(text: &str, separator: char) -> (pieces: Vec<String>)
    ensures
        texts(pieces@) == split(text@, separator),
{
    let chars = chars_of(text);
    let mut pieces: Vec<String> = Vec::new();
    let mut start: usize = 0;
    let mut i: usize = 0;
    assert(text@.take(0) =~= Seq::<char>::empty());
    assert(text@.subrange(0, 0) =~= Seq::<char>::empty());
    assert(texts(pieces@).push(text@.subrange(0, 0)) =~= seq![Seq::<char>::empty()]);
    while i < chars.len()
        invariant
            chars@ == text@,
            start <= i <= chars.len(),
            split(text@.take(i as int), separator) == texts(pieces@).push(
                text@.subrange(start as int, i as int),
            ),
        decreases chars.len() - i,
    {
        let ghost before = texts(pieces@);
        let ghost piece = text@.subrange(start as int, i as int);
        assert(text@.take(i + 1).drop_last() =~= text@.take(i as int));
        if chars[i] == separator {
            pieces.push(text.substring_char(start, i).to_owned());
            start = i + 1;
            assert(texts(pieces@) =~= before.push(piece));
            assert(text@.subrange(i + 1, i + 1) =~= Seq::<char>::empty());
        } else {
            assert(before.push(piece).drop_last() =~= before);
            assert(text@.subrange(start as int, i + 1) =~= piece.push(chars@[i as int]));
        }
        i = i + 1;
    }
    let ghost before = texts(pieces@);
    pieces.push(text.substring_char(start, i).to_owned());
    assert(text@.take(i as int) =~= text@);
    assert(texts(pieces@) =~= before.push(text@.subrange(start as int, i as int)));
    pieces
}

/// Splits `text` at its first `separator`.
pub fn split_text_once(text: &str, separator: char) -> (parts: Option<(String, String)>)
    ensures
        match parts {
            Some(parts) => split_first(text@, separator) == Some((parts.0@, parts.1@)),
            None => split_first(text@, separator) is None,
        },
{
    let chars = chars_of(text);
    let mut i: usize = 0;
    assert(text@.skip(0) =~= text@);
    while i < chars.len()
        invariant
            chars@ == text@,
            i <= chars.len(),
            first_index(text@, separator) == i + first_index(text@.skip(i as int), separator),
        decreases chars.len() - i,
    {
        if chars[i] == separator {
            let head = text.substring_char(0, i);
            let tail = text.substring_char(i + 1, chars.len());
            assert(head@ =~= text@.take(i as int));
            assert(tail@ =~= text@.skip(i + 1));
            return Some((head.to_owned(), tail.to_owned()));
        }
        assert(text@.skip(i as int).drop_first() =~= text@.skip(i + 1));
        i = i + 1;
    }
    None
}

/// Whether some element of `list` reads `text`.
pub fn list_contains(list: &Vec<String>, text: &str) -> (found: bool)
    ensures
        found == lists_text(list@, text@),
{
    let mut i: usize = 0;
    while i < list.len()
        invariant
            i <= list.len(),
            forall|j: int| 0 <= j < i ==> list@[j]@ != text@,
        decreases list.len() - i,
    {
        if same_text(list[i].as_str(), text) {
            return true;
        }
        i = i + 1;
    }
    false
}

/// Whether two lists hold the same texts in the same order.
pub fn same_texts(left: &Vec<String>, right: &Vec<String>) -> (same: bool)
    ensures
        same == (texts(left@) == texts(right@)),
{
    if left.len() != right.len() {
        assert(texts(left@).len() != texts(right@).len());
        return false;
    }
    let mut i: usize = 0;
    while i < left.len()
        invariant
            i <= left.len(),
            left.len() == right.len(),
            forall|j: int| 0 <= j < i ==> left@[j]@ == right@[j]@,
        decreases left.len() - i,
    {
        if !same_text(left[i].as_str(), right[i].as_str()) {
            assert(texts(left@)[i as int] != texts(right@)[i as int]);
            return false;
        }
        i = i + 1;
    }
    assert(texts(left@) =~= texts(right@));
    true
}

/// Copies a list of strings.
pub fn copy_texts(list: &Vec<String>) -> (copy: Vec<String>)
    ensures
        copy@ == list@,
{
    let mut copy: Vec<String> = Vec::new();
    let mut i: usize = 0;
    while i < list.len()
        invariant
            i <= list.len(),
            copy@ == list@.take(i as int),
        decreases list.len() - i,
    {
        copy.push(list[i].clone());
        assert(list@.take(i as int).push(list@[i as int]) =~= list@.take(i + 1));
        i = i + 1;
    }
    assert(list@.take(i as int) =~= list@);
    copy
}

fn digit_text(value: u64) -> (text: &'static str)
    requires
        value < 10,
    ensures
        text@ == seq![digit(value as nat)],
{
    proof {
        reveal_strlit("0");
        reveal_strlit("1");
        reveal_strlit("2");
        reveal_strlit("3");
        reveal_strlit("4");
        reveal_strlit("5");
        reveal_strlit("6");
        reveal_strlit("7");
        reveal_strlit("8");
        reveal_strlit("9");
    }
    if value == 0 {
        "0"
    } else if value == 1 {
        "1"
    } else if value == 2 {
        "2"
    } else if value == 3 {
        "3"
    } else if value == 4 {
        "4"
    } else if value == 5 {
        "5"
    } else if value == 6 {
        "6"
    } else if value == 7 {
        "7"
    } else if value == 8 {
        "8"
    } else {
        "9"
    }
}

/// Writes a number in decimal.
pub fn decimal_text(number: u64) -> (text: String)
    ensures
        text@ == decimal(number as nat),
    decreases number,
{
    if number < 10 {
        digit_text(number).to_owned()
    } else {
        let mut text = decimal_text(number / 10);
        text.append(digit_text(number % 10));
        assert(text@ =~= decimal((number / 10) as nat).push(digit((number % 10) as nat)));
        text
    }
}

/// How std's `Debug` writes a text: quoted, with its special characters escaped.
pub uninterp spec fn quoted(text: Seq<char>) -> Seq<char>;

/// Quotes a text for a message.
///
/// Calls std's `Debug` formatting of `str`. The result depends on the text alone and is named
/// `quoted`.
#[verifier::external_body]
pub(crate) fn quote(text: &str) -> (result: String)
    ensures
        result@ == quoted(text@),
{
    format!("{text:?}")
}

/// Joins three texts.
pub fn concat3(first: &str, second: &str, third: &str) -> (whole: String)
    ensures
        whole@ == first@ + second@ + third@,
{
    let mut whole = first.to_owned();
    whole.append(second);
    whole.append(third);
    whole
}

/// A decimal is made of digits.
pub proof fn lemma_decimal_has_digits_only(number: nat)
    ensures
        decimal(number).len() > 0,
        forall|i: int|
            0 <= i < decimal(number).len() ==> '0' <= #[trigger] decimal(number)[i] <= '9',
    decreases number,
{
    if number >= 10 {
        lemma_decimal_has_digits_only(number / 10);
    }
}

/// Different numbers have different decimals.
pub proof fn lemma_decimal_injective(left: nat, right: nat)
    requires
        decimal(left) == decimal(right),
    ensures
        left == right,
    decreases left,
{
    if left >= 10 {
        lemma_decimal_has_digits_only(left / 10);
    }
    if right >= 10 {
        lemma_decimal_has_digits_only(right / 10);
    }
    assert(decimal(left).last() == digit(left % 10));
    assert(decimal(right).last() == digit(right % 10));
    assert(left % 10 == right % 10);
    assert(left < 10 <==> decimal(left).len() == 1);
    assert(right < 10 <==> decimal(right).len() == 1);
    if left >= 10 && right >= 10 {
        assert(decimal(left).drop_last() =~= decimal(left / 10));
        assert(decimal(right).drop_last() =~= decimal(right / 10));
        lemma_decimal_injective(left / 10, right / 10);
    }
}

/// A list of strings holds a text if and only if its contents do.
pub proof fn lemma_lists_text_is_contains(list: Seq<String>, text: Seq<char>)
    ensures
        lists_text(list, text) == texts(list).contains(text),
{
    if lists_text(list, text) {
        let i = choose|i: int| 0 <= i < list.len() && #[trigger] list[i]@ == text;
        assert(texts(list)[i] == text);
    }
    if texts(list).contains(text) {
        let i = choose|i: int| 0 <= i < texts(list).len() && texts(list)[i] == text;
        assert(list[i]@ == text);
    }
}

/// The texts of a list, one after the other, with `separator` between them.
pub open spec fn joined(list: Seq<Seq<char>>, separator: Seq<char>) -> Seq<char>
    decreases list.len(),
{
    if list.len() == 0 {
        Seq::empty()
    } else if list.len() == 1 {
        list[0]
    } else {
        joined(list.drop_last(), separator) + separator + list.last()
    }
}

/// Puts the texts of a list one after the other, with `separator` between them.
pub fn join_texts(list: &Vec<String>, separator: &str) -> (text: String)
    ensures
        text@ == joined(texts(list@), separator@),
{
    let mut text = String::new();
    let mut i: usize = 0;
    assert(texts(list@).take(0) =~= Seq::<Seq<char>>::empty());
    while i < list.len()
        invariant
            i <= list.len(),
            text@ == joined(texts(list@).take(i as int), separator@),
        decreases list.len() - i,
    {
        if i > 0 {
            text.append(separator);
        }
        text.append(list[i].as_str());
        assert(texts(list@).take(i + 1).drop_last() =~= texts(list@).take(i as int));
        assert(text@ =~= joined(texts(list@).take(i + 1), separator@));
        i = i + 1;
    }
    assert(texts(list@).take(list@.len() as int) =~= texts(list@));
    text
}

/// The contents of a list are those of its strings, one for one.
pub proof fn law_texts_are_the_contents(list: Seq<String>, i: int)
    requires
        0 <= i < list.len(),
    ensures
        texts(list).len() == list.len(),
        texts(list)[i] == list[i]@,
        lists_text(list, list[i]@),
{
}

/// A text has a prefix exactly where it is that prefix with something after it, and taking the
/// prefix off leaves what follows.
pub proof fn law_prefix_is_what_comes_first(text: &str, prefix: &str, rest: Option<String>)
    requires
        call_ensures(strip_prefix, (text, prefix), rest),
    ensures
        rest matches Some(rest) ==> text@ == prefix@ + rest@,
        rest is Some <==> exists|tail: Seq<char>| #[trigger] (prefix@ + tail) == text@,
        rest is Some <==> has_prefix(text@, prefix@),
{
    if has_prefix(text@, prefix@) {
        assert(prefix@ + text@.skip(prefix@.len() as int) =~= text@);
    }
    if exists|tail: Seq<char>| #[trigger] (prefix@ + tail) == text@ {
        let tail = choose|tail: Seq<char>| #[trigger] (prefix@ + tail) == text@;
        assert((prefix@ + tail).take(prefix@.len() as int) =~= prefix@);
    }
}

proof fn lemma_split_has_a_piece(text: Seq<char>, separator: char)
    ensures
        split(text, separator).len() > 0,
    decreases text.len(),
{
    if text.len() > 0 {
        lemma_split_has_a_piece(text.drop_last(), separator);
    }
}

/// Splitting loses nothing: the pieces hold no separator, and joining them gives the text back.
pub proof fn law_split_pieces_join_back(text: Seq<char>, separator: char)
    ensures
        split(text, separator).len() > 0,
        joined(split(text, separator), seq![separator]) == text,
        forall|i: int|
            0 <= i < split(text, separator).len() ==> !(#[trigger] split(
                text,
                separator,
            )[i]).contains(separator),
    decreases text.len(),
{
    if text.len() > 0 {
        let before = split(text.drop_last(), separator);
        let after = split(text, separator);
        law_split_pieces_join_back(text.drop_last(), separator);
        assert(text =~= text.drop_last().push(text.last()));
        assert(after.drop_last() =~= if text.last() == separator {
            before
        } else {
            before.drop_last()
        });
        assert forall|i: int| 0 <= i < after.len() implies !(#[trigger] after[i]).contains(
            separator,
        ) by {
            if i < after.len() - 1 {
                assert(after[i] == before[i]);
            } else if text.last() != separator {
                let piece = before.last();
                assert(!piece.contains(separator));
                assert forall|j: int| 0 <= j < after[i].len() implies after[i][j] != separator by {
                    if j < piece.len() {
                        assert(piece[j] == after[i][j]);
                    }
                }
            }
        }
        assert(joined(after, seq![separator]) =~= text);
    }
}

proof fn lemma_split_grows(text: Seq<char>, separator: char, piece: Seq<char>)
    requires
        !piece.contains(separator),
    ensures
        split(piece, separator) == seq![piece],
        split(text + seq![separator] + piece, separator) == split(text, separator).push(piece),
    decreases piece.len(),
{
    let whole = text + seq![separator] + piece;
    lemma_split_has_a_piece(text, separator);
    if piece.len() == 0 {
        assert(piece =~= Seq::empty());
        assert(whole.drop_last() =~= text);
    } else {
        let shorter = piece.drop_last();
        assert(piece.last() != separator) by {
            assert(piece.contains(piece.last()));
        }
        assert(!shorter.contains(separator)) by {
            if shorter.contains(separator) {
                let j = choose|j: int| 0 <= j < shorter.len() && shorter[j] == separator;
                assert(piece[j] == separator);
            }
        }
        lemma_split_grows(text, separator, shorter);
        assert(whole.drop_last() =~= text + seq![separator] + shorter);
        assert(shorter.push(piece.last()) =~= piece);
        assert(seq![shorter].drop_last().push(piece) =~= seq![piece]);
        assert(split(text, separator).push(shorter).drop_last() =~= split(text, separator));
    }
}

/// Splitting undoes joining: pieces without the separator come back as they were.
pub proof fn law_joined_pieces_split_back(pieces: Seq<Seq<char>>, separator: char)
    requires
        pieces.len() > 0,
        forall|i: int| 0 <= i < pieces.len() ==> !(#[trigger] pieces[i]).contains(separator),
    ensures
        split(joined(pieces, seq![separator]), separator) == pieces,
    decreases pieces.len(),
{
    let last = pieces.last();
    assert(!pieces[pieces.len() - 1].contains(separator));
    if pieces.len() == 1 {
        lemma_split_grows(Seq::empty(), separator, last);
        assert(seq![last] =~= pieces);
    } else {
        assert forall|i: int| 0 <= i < pieces.drop_last().len() implies !(
        #[trigger] pieces.drop_last()[i]).contains(separator) by {
            assert(pieces.drop_last()[i] == pieces[i]);
        }
        law_joined_pieces_split_back(pieces.drop_last(), separator);
        lemma_split_grows(joined(pieces.drop_last(), seq![separator]), separator, last);
        assert(pieces.drop_last().push(last) =~= pieces);
    }
}

/// Joining is done piece by piece: one text is joined to itself, and two lists are joined by
/// joining what each of them gives.
pub proof fn law_joining_goes_piece_by_piece(
    left: Seq<Seq<char>>,
    right: Seq<Seq<char>>,
    separator: Seq<char>,
    text: Seq<char>,
)
    requires
        left.len() > 0,
        right.len() > 0,
    ensures
        joined(seq![text], separator) == text,
        joined(left + right, separator) == joined(left, separator) + separator + joined(
            right,
            separator,
        ),
    decreases right.len(),
{
    let all = left + right;
    assert(all.last() == right.last());
    if right.len() == 1 {
        assert(all.drop_last() =~= left);
    } else {
        assert(all.drop_last() =~= left + right.drop_last());
        law_joining_goes_piece_by_piece(left, right.drop_last(), separator, text);
        assert(joined(all, separator) =~= joined(left, separator) + separator + joined(
            right,
            separator,
        ));
    }
}

proof fn lemma_first_index(text: Seq<char>, wanted: char)
    ensures
        0 <= first_index(text, wanted) <= text.len(),
        forall|i: int| 0 <= i < first_index(text, wanted) ==> text[i] != wanted,
        first_index(text, wanted) < text.len() ==> text[first_index(text, wanted)] == wanted,
    decreases text.len(),
{
    if text.len() > 0 && text[0] != wanted {
        lemma_first_index(text.drop_first(), wanted);
        let at = first_index(text, wanted);
        assert forall|i: int| 0 <= i < at implies text[i] != wanted by {
            if i > 0 {
                assert(text.drop_first()[i - 1] == text[i]);
            }
        }
    }
}

/// A text is split at its first separator, wherever it holds one: the parts with the separator
/// between them are the text, and the first part holds no separator.
pub proof fn law_split_once_is_at_the_first(
    text: &str,
    separator: char,
    parts: Option<(String, String)>,
)
    requires
        call_ensures(split_text_once, (text, separator), parts),
    ensures
        parts is Some <==> text@.contains(separator),
        parts matches Some((key, value)) ==> text@ == key@ + seq![separator] + value@
            && !key@.contains(separator),
{
    lemma_split_first(text@, separator);
}

/// A text is parted at the first separator, in the one way in which the first part holds none.
pub proof fn lemma_split_first(text: Seq<char>, separator: char)
    ensures
        split_first(text, separator) is Some <==> text.contains(separator),
        split_first(text, separator) matches Some((key, value)) ==> text == key + seq![separator]
            + value && !key.contains(separator),
        forall|key: Seq<char>, value: Seq<char>|
            text == #[trigger] (key + seq![separator] + value) && !key.contains(separator)
                ==> split_first(text, separator) == Some((key, value)),
{
    lemma_first_index(text, separator);
    let at = first_index(text, separator);
    if at < text.len() {
        assert(text =~= text.take(at) + seq![separator] + text.skip(at + 1));
        assert(text.contains(text[at]));
        assert forall|i: int| 0 <= i < at implies text.take(at)[i] != separator by {
            assert(text.take(at)[i] == text[i]);
        }
    }
    assert forall|key: Seq<char>, value: Seq<char>|
        text == #[trigger] (key + seq![separator] + value) && !key.contains(
            separator,
        ) implies split_first(text, separator) == Some((key, value)) by {
        let length = key.len() as int;
        assert(text[length] == separator);
        if at < length {
            assert(key[at] == text[at]);
            assert(key.contains(separator));
        }
        assert(at == length);
        assert(text.take(at) =~= key);
        assert(text.skip(at + 1) =~= value);
    }
}

/// A number is written by writing what comes before its last digit, then that digit, and a single
/// digit is written as its character.
pub proof fn law_decimals_are_written_digit_by_digit(number: nat)
    ensures
        number < 10 ==> decimal(number).len() == 1 && decimal(number)[0] as int == '0' as int
            + number,
        number >= 10 ==> decimal(number) == decimal(number / 10) + decimal(number % 10),
{
    if number >= 10 {
        assert(decimal(number / 10) + seq![digit(number % 10)] =~= decimal(number / 10).push(
            digit(number % 10),
        ));
    }
}

/// Texts are ordered as in a dictionary: one comes before another where it is shorter and begins
/// it, or where it has the smaller character at the first place at which they differ.
pub proof fn law_texts_are_in_dictionary_order(left: Seq<char>, right: Seq<char>, place: int)
    requires
        0 <= place <= left.len(),
        place <= right.len(),
        left.take(place) == right.take(place),
    ensures
        place == left.len() < right.len() ==> text_less(left, right) && !text_less(right, left),
        place < left.len() && place < right.len() && left[place] < right[place] ==> text_less(
            left,
            right,
        ) && !text_less(right, left),
    decreases place,
{
    if place > 0 {
        assert(left[0] == left.take(place)[0]);
        assert(right[0] == right.take(place)[0]);
        assert(left.drop_first().take(place - 1) =~= left.take(place).drop_first());
        assert(right.drop_first().take(place - 1) =~= right.take(place).drop_first());
        law_texts_are_in_dictionary_order(left.drop_first(), right.drop_first(), place - 1);
    }
}

} // verus!
