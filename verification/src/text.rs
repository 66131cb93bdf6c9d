//! Texts: comparing, searching, cutting and collapsing them.
//!
//! A text is modelled by the sequence of its characters. Positions are
//! counted in characters, except where a text is cut at offsets that the
//! regular-expression engine reports: those count the bytes of the UTF-8
//! encoding.

use vstd::prelude::*;
use vstd::std_specs::iter::IteratorSpec;
use vstd::string::*;
use vstd::utf8::*;

verus! {

/// The characters of `s`, in order.
pub fn chars_of(s: &str) -> (v: Vec<char>)
    ensures
        v@ == s@,
{
    broadcast use vstd::string::group_string_axioms;
    let mut v: Vec<char> = Vec::new();
    for c in it: s.chars()
        invariant
            v@ == it.history(),
            it.seq() == s@,
    {
        v.push(c);
    }
    v
}

/// Whether two texts hold the same characters.
pub fn str_eq(a: &str, b: &str) -> (r: bool)
    ensures
        r == (a@ == b@),
{
    let x = a.as_bytes();
    let y = b.as_bytes();
    proof {
        encode_utf8_decode_utf8(a@);
        encode_utf8_decode_utf8(b@);
    }
    if x.len() != y.len() {
        return false;
    }
    let mut i: usize = 0;
    while i < x.len()
        invariant
            i <= x.len(),
            x.len() == y.len(),
            forall|j: int| 0 <= j < i ==> x@[j] == y@[j],
            x@ == encode_utf8(a@),
            y@ == encode_utf8(b@),
            decode_utf8(encode_utf8(a@)) == a@,
            decode_utf8(encode_utf8(b@)) == b@,
        decreases x.len() - i,
    {
        if x[i] != y[i] {
            return false;
        }
        i += 1;
    }
    assert(x@ =~= y@);
    true
}

/// Whether `text` holds the character `c`.
pub fn holds_char(text: &str, c: char) -> (r: bool)
    ensures
        r == text@.contains(c),
{
    broadcast use vstd::string::group_string_axioms;
    let mut it = text.chars();
    let ghost mut seen: Seq<char> = Seq::empty();
    loop
        invariant
            seen + it.remaining() == text@,
            !seen.contains(c),
        decreases text@.len() - seen.len(),
    {
        let ghost ahead = it.remaining();
        match it.next() {
            Some(next) => {
                if next == c {
                    assert((seen + ahead)[seen.len() as int] == c);
                    return true;
                }
                proof {
                    assert(seen.push(next) + ahead.drop_first() =~= seen + ahead);
                    assert forall|i: int| 0 <= i < seen.push(next).len() implies seen.push(next)[i] != c by {
                        if i < seen.len() {
                            assert(seen.contains(seen[i]));
                        }
                    }
                    seen = seen.push(next);
                }
            },
            None => {
                assert(seen + ahead =~= seen);
                return false;
            },
        }
    }
}

/// The two halves of `text` when it is cut `mid` bytes into its UTF-8
/// encoding, provided that `mid` falls between two characters.
pub open spec fn split_text(text: Seq<char>, mid: int) -> Option<(Seq<char>, Seq<char>)> {
    let bytes = encode_utf8(text);
    if is_char_boundary(bytes, mid) {
        Some((decode_utf8(bytes.subrange(0, mid)), decode_utf8(bytes.subrange(mid, bytes.len() as int))))
    } else {
        None
    }
}

/// A cut between two characters loses nothing: the halves put together are
/// the text again, and the first half is `mid` bytes long.
pub proof fn lemma_split_text(text: Seq<char>, mid: int)
    ensures
        split_text(text, mid) matches Some((a, b)) ==> {
            &&& 0 <= mid <= encode_utf8(text).len()
            &&& a + b == text
            &&& encode_utf8(a) == encode_utf8(text).subrange(0, mid)
            &&& encode_utf8(b) == encode_utf8(text).subrange(mid, encode_utf8(text).len() as int)
        },
{
    let bytes = encode_utf8(text);
    encode_utf8_valid_utf8(text);
    if is_char_boundary(bytes, mid) {
        encode_utf8_decode_utf8(text);
        decode_utf8_split(bytes, mid);
        valid_utf8_split(bytes, mid);
        decode_utf8_encode_utf8(bytes.subrange(0, mid));
        decode_utf8_encode_utf8(bytes.subrange(mid, bytes.len() as int));
    }
}

/// Cuts `s` in two at byte offset `mid`, or gives `None` when `mid` lies
/// past the end or inside a character.
pub fn split_at_boundary<'a>(s: &'a str, mid: usize) -> (r: Option<(&'a str, &'a str)>)
    ensures
        match r {
            Some((a, b)) => split_text(s@, mid as int) == Some((a@, b@)),
            None => split_text(s@, mid as int) is None,
        },
{
    proof {
        encode_utf8_valid_utf8(s@);
    }
    if s.is_char_boundary(mid) {
        let (a, b) = s.split_at(mid);
        proof {
            let bytes = encode_utf8(s@);
            encode_utf8_decode_utf8(a@);
            encode_utf8_decode_utf8(b@);
            assert(encode_utf8(a@) == bytes.subrange(0, mid as int));
            assert(encode_utf8(b@) == bytes.subrange(mid as int, bytes.len() as int));
        }
        Some((a, b))
    } else {
        None
    }
}

/// The view of an optional text.
pub open spec fn optional_text(t: Option<&str>) -> Option<Seq<char>> {
    match t {
        Some(s) => Some(s@),
        None => None,
    }
}

/// The piece of `text` from byte offset `from` up to byte offset `to` of its
/// UTF-8 encoding, provided that both fall between two characters.
pub open spec fn piece(text: Seq<char>, from: int, to: int) -> Option<Seq<char>> {
    if from <= to {
        match split_text(text, to) {
            Some((head, _)) => match split_text(head, from) {
                Some((_, p)) => Some(p),
                None => None,
            },
            None => None,
        }
    } else {
        None
    }
}

/// Every character of `part` is a character of `text`.
pub open spec fn drawn_from(part: Seq<char>, text: Seq<char>) -> bool {
    forall|c: char| part.contains(c) ==> text.contains(c)
}

/// Cuts the piece `from..to`, in bytes, out of `text`.
pub fn cut_piece<'a>(text: &'a str, from: usize, to: usize) -> (r: Option<&'a str>)
    ensures
        optional_text(r) == piece(text@, from as int, to as int),
{
    if from > to {
        return None;
    }
    match split_at_boundary(text, to) {
        Some((head, _)) => match split_at_boundary(head, from) {
            Some((_, p)) => Some(p),
            None => None,
        },
        None => None,
    }
}

/// Whether `needle` stands in `text` at position `i`.
pub open spec fn occurs_at(text: Seq<char>, needle: Seq<char>, i: int) -> bool {
    0 <= i && i + needle.len() <= text.len() && text.subrange(i, i + needle.len()) == needle
}

/// The first position at or after `from` at which `needle` stands in `text`.
pub open spec fn find_from(text: Seq<char>, needle: Seq<char>, from: int) -> Option<int>
    decreases text.len() + 1 - from,
{
    if from < 0 || from + needle.len() > text.len() {
        None
    } else if occurs_at(text, needle, from) {
        Some(from)
    } else {
        find_from(text, needle, from + 1)
    }
}

/// The first position at which `needle` stands in `text`.
pub open spec fn find(text: Seq<char>, needle: Seq<char>) -> Option<int> {
    find_from(text, needle, 0)
}

/// `text` split at the first occurrence of `needle`: what stands before it
/// and what stands after it. Without an occurrence, the whole text and
/// `None`.
pub open spec fn split_once(text: Seq<char>, needle: Seq<char>) -> (Seq<char>, Option<Seq<char>>) {
    match find(text, needle) {
        Some(i) => (text.subrange(0, i), Some(text.subrange(i + needle.len(), text.len() as int))),
        None => (text, None),
    }
}

/// What `find_from` gives is an occurrence, and the first one from `from` on.
pub proof fn lemma_find_from(text: Seq<char>, needle: Seq<char>, from: int)
    requires
        0 <= from,
    ensures
        match find_from(text, needle, from) {
            Some(i) => from <= i && occurs_at(text, needle, i) && forall|j: int|
                from <= j < i ==> !occurs_at(text, needle, j),
            None => forall|j: int| from <= j ==> !occurs_at(text, needle, j),
        },
    decreases text.len() + 1 - from,
{
    if from + needle.len() <= text.len() && !occurs_at(text, needle, from) {
        lemma_find_from(text, needle, from + 1);
    }
}

/// The first occurrence is the one that `find` gives.
pub proof fn lemma_find_is(text: Seq<char>, needle: Seq<char>, i: int)
    requires
        occurs_at(text, needle, i),
        forall|j: int| 0 <= j < i ==> !occurs_at(text, needle, j),
    ensures
        find(text, needle) == Some(i),
{
    lemma_find_from(text, needle, 0);
}

/// A split loses nothing but the needle.
pub proof fn lemma_split_once(text: Seq<char>, needle: Seq<char>)
    ensures
        match split_once(text, needle) {
            (before, Some(after)) => text == before + needle + after,
            (before, None) => before == text,
        },
{
    lemma_find_from(text, needle, 0);
    if let Some(i) = find(text, needle) {
        assert(text =~= text.subrange(0, i) + text.subrange(i, i + needle.len()) + text.subrange(
            i + needle.len(),
            text.len() as int,
        ));
    }
}

/// Whether `needle` stands in `text` at position `i`.
fn stands_at(text: &Vec<char>, needle: &Vec<char>, i: usize) -> (r: bool)
    requires
        i + needle.len() <= text.len(),
    ensures
        r == occurs_at(text@, needle@, i as int),
{
    let mut k: usize = 0;
    while k < needle.len()
        invariant
            k <= needle.len(),
            i + needle.len() <= text.len(),
            forall|j: int| 0 <= j < k ==> text@[i + j] == needle@[j],
        decreases needle.len() - k,
    {
        if text[i + k] != needle[k] {
            assert(text@.subrange(i as int, i + needle.len())[k as int] != needle@[k as int]);
            return false;
        }
        k += 1;
    }
    assert(text@.subrange(i as int, i + needle.len()) =~= needle@);
    true
}

/// The first position at which `needle` stands in `text`.
pub fn find_chars(text: &Vec<char>, needle: &Vec<char>) -> (r: Option<usize>)
    ensures
        match r {
            Some(i) => find(text@, needle@) == Some(i as int) && i + needle.len() <= text.len(),
            None => find(text@, needle@) is None,
        },
{
    if needle.len() > text.len() {
        proof {
            lemma_find_from(text@, needle@, 0);
        }
        return None;
    }
    let last = text.len() - needle.len();
    let mut i: usize = 0;
    while i < last
        invariant
            last == text.len() - needle.len(),
            i <= last,
            forall|j: int| 0 <= j < i ==> !occurs_at(text@, needle@, j),
        decreases last - i,
    {
        if stands_at(text, needle, i) {
            proof {
                lemma_find_is(text@, needle@, i as int);
            }
            return Some(i);
        }
        i += 1;
    }
    if stands_at(text, needle, last) {
        proof {
            lemma_find_is(text@, needle@, last as int);
        }
        return Some(last);
    }
    proof {
        lemma_find_from(text@, needle@, 0);
    }
    None
}

/// Splits `src` at the first occurrence of `needle`.
pub fn try_split<'a>(src: &'a str, needle: &str) -> (r: (&'a str, Option<&'a str>))
    ensures
        (r.0@, optional_text(r.1)) == split_once(src@, needle@),
{
    let text = chars_of(src);
    let pattern = chars_of(needle);
    match find_chars(&text, &pattern) {
        Some(i) => (
            src.substring_char(0, i),
            Some(src.substring_char(i + pattern.len(), text.len())),
        ),
        None => (src, None),
    }
}

/// `text` without the characters `c` that it starts with.
pub open spec fn trim_start(text: Seq<char>, c: char) -> Seq<char>
    decreases text.len(),
{
    if text.len() > 0 && text[0] == c {
        trim_start(text.drop_first(), c)
    } else {
        text
    }
}

/// `s` without the characters `c` that it starts with.
pub fn trim_start_matches<'a>(s: &'a str, c: char) -> (r: &'a str)
    ensures
        r@ == trim_start(s@, c),
{
    let text = chars_of(s);
    let mut k: usize = 0;
    proof {
        assert(s@.subrange(0, s@.len() as int) =~= s@);
    }
    while k < text.len() && text[k] == c
        invariant
            k <= text.len(),
            text@ == s@,
            trim_start(s@, c) == trim_start(s@.subrange(k as int, s@.len() as int), c),
        decreases text.len() - k,
    {
        proof {
            let here = s@.subrange(k as int, s@.len() as int);
            assert(here.drop_first() =~= s@.subrange(k + 1, s@.len() as int));
        }
        k += 1;
    }
    s.substring_char(k, text.len())
}

/// `text` with every space that follows a space taken out: each run of
/// spaces becomes one space.
pub open spec fn collapse(text: Seq<char>) -> Seq<char>
    decreases text.len(),
{
    if text.len() == 0 {
        text
    } else if text.last() == ' ' && text.len() >= 2 && text[text.len() - 2] == ' ' {
        collapse(text.drop_last())
    } else {
        collapse(text.drop_last()).push(text.last())
    }
}

/// Takes out of `text` every space that follows a space.
pub fn collapse_spaces(text: &str) -> (out: String)
    ensures
        out@ == collapse(text@),
{
    let chars = chars_of(text);
    let mut out = String::new();
    let mut kept: usize = 0;
    let mut i: usize = 0;
    proof {
        assert(out@ + text@.subrange(0, 0) =~= collapse(text@.take(0)));
    }
    while i < chars.len()
        invariant
            kept <= i <= chars.len(),
            chars@ == text@,
            out@ + text@.subrange(kept as int, i as int) == collapse(text@.take(i as int)),
        decreases chars.len() - i,
    {
        proof {
            assert(text@.take(i + 1).drop_last() =~= text@.take(i as int));
        }
        if chars[i] == ' ' && i > 0 && chars[i - 1] == ' ' {
            if kept < i {
                out.append(text.substring_char(kept, i));
            } else {
                assert(out@ + text@.subrange(kept as int, i as int) =~= out@);
            }
            kept = i + 1;
            assert(out@ + text@.subrange(kept as int, i + 1) =~= out@);
        } else {
            assert(text@.subrange(kept as int, i + 1) =~= text@.subrange(kept as int, i as int).push(
                text@[i as int],
            ));
            assert(out@ + text@.subrange(kept as int, i as int).push(text@[i as int]) =~= (out@
                + text@.subrange(kept as int, i as int)).push(text@[i as int]));
        }
        i += 1;
    }
    proof {
        assert(text@.take(i as int) =~= text@);
    }
    out.append(text.substring_char(kept, chars.len()));
    out
}

/// `text` without the line break at its end, if it ends in one.
pub open spec fn without_final_break(text: Seq<char>) -> Seq<char> {
    if text.len() > 0 && text.last() == '\n' {
        text.drop_last()
    } else {
        text
    }
}

/// `s` without the line break at its end, if it ends in one.
pub fn trim_final_break<'a>(s: &'a str) -> (r: &'a str)
    ensures
        r@ == without_final_break(s@),
{
    let chars = chars_of(s);
    let n = chars.len();
    if n > 0 && chars[n - 1] == '\n' {
        let r = s.substring_char(0, n - 1);
        assert(r@ =~= s@.drop_last());
        r
    } else {
        s
    }
}

/// No space of `text` is followed by a space.
pub open spec fn single_spaced(text: Seq<char>) -> bool {
    forall|i: int| 0 <= i && i + 1 < text.len() ==> !(#[trigger] text[i] == ' ' && text[i + 1] == ' ')
}

/// A collapsed text ends as the text does, and holds its characters only.
pub proof fn lemma_collapse_keeps(text: Seq<char>)
    ensures
        collapse(text).len() <= text.len(),
        text.len() > 0 ==> collapse(text).len() > 0 && collapse(text).last() == text.last(),
        drawn_from(collapse(text), text),
    decreases text.len(),
{
    if text.len() > 0 {
        let front = text.drop_last();
        lemma_collapse_keeps(front);
        assert forall|c: char| collapse(text).contains(c) implies text.contains(c) by {
            let i = choose|i: int| 0 <= i < collapse(text).len() && collapse(text)[i] == c;
            if i < collapse(front).len() {
                assert(collapse(front)[i] == c);
                assert(collapse(front).contains(c));
                let j = choose|j: int| 0 <= j < front.len() && front[j] == c;
                assert(text[j] == c);
            } else {
                assert(text[text.len() - 1] == c);
            }
        }
    }
}

/// In a collapsed text no space is followed by a space.
pub proof fn lemma_collapse_single_spaced(text: Seq<char>)
    ensures
        single_spaced(collapse(text)),
    decreases text.len(),
{
    if text.len() > 0 {
        let front = text.drop_last();
        lemma_collapse_single_spaced(front);
        lemma_collapse_keeps(front);
    }
}

/// Collapsing leaves a text alone in which no space is followed by a space.
pub proof fn lemma_collapse_fixes_single_spaced(text: Seq<char>)
    requires
        single_spaced(text),
    ensures
        collapse(text) == text,
    decreases text.len(),
{
    if text.len() > 0 {
        let front = text.drop_last();
        assert forall|i: int| 0 <= i && i + 1 < front.len() implies !(#[trigger] front[i] == ' ' && front[i
            + 1] == ' ') by {
            assert(text[i] == front[i]);
        }
        lemma_collapse_fixes_single_spaced(front);
        if text.len() >= 2 {
            assert(!(text[text.len() - 2] == ' ' && text[text.len() - 2 + 1] == ' '));
        }
        assert(front.push(text.last()) =~= text);
    }
}

/// The start of a text in which no space is followed by a space is such a
/// text too.
pub proof fn lemma_prefix_single_spaced(start: Seq<char>, end: Seq<char>)
    requires
        single_spaced(start + end),
    ensures
        single_spaced(start),
{
    assert forall|i: int| 0 <= i && i + 1 < start.len() implies !(#[trigger] start[i] == ' ' && start[i
        + 1] == ' ') by {
        assert((start + end)[i] == start[i]);
        assert((start + end)[i + 1] == start[i + 1]);
    }
}

/// `out` is what became of `formerly`, and ends in a space only where
/// `formerly` does. If no space follows a space where `next` is put after
/// `formerly`, none does where `next` is put after `out`, and the longer text
/// again ends in a space only where `formerly + next` does.
pub proof fn lemma_follow(out: Seq<char>, formerly: Seq<char>, next: Seq<char>)
    requires
        single_spaced(out),
        single_spaced(formerly + next),
        out.len() > 0 && out.last() == ' ' ==> formerly.len() > 0 && formerly.last() == ' ',
    ensures
        single_spaced(out + next),
        (out + next).len() > 0 && (out + next).last() == ' ' ==> (formerly + next).len() > 0 && (formerly
            + next).last() == ' ',
{
    let joined = out + next;
    let before = formerly + next;
    assert forall|i: int| 0 <= i && i + 1 < joined.len() implies !(#[trigger] joined[i] == ' ' && joined[i
        + 1] == ' ') by {
        if i + 1 < out.len() {
            assert(out[i] == joined[i]);
        } else if i >= out.len() {
            let j = i - out.len();
            assert(before[formerly.len() + j] == next[j]);
            assert(before[formerly.len() + j + 1] == next[j + 1]);
        } else {
            if joined[i] == ' ' && joined[i + 1] == ' ' {
                assert(out.last() == ' ');
                assert(before[formerly.len() - 1] == ' ');
                assert(before[formerly.len() - 1 + 1] == next[0]);
            }
        }
    }
}

/// A text without a space may follow any text.
pub proof fn lemma_follow_spaceless(out: Seq<char>, next: Seq<char>)
    requires
        single_spaced(out),
        !next.contains(' '),
    ensures
        single_spaced(out + next),
        next.len() > 0 ==> (out + next).last() != ' ',
{
    let joined = out + next;
    assert forall|i: int| 0 <= i && i + 1 < joined.len() implies !(#[trigger] joined[i] == ' ' && joined[i
        + 1] == ' ') by {
        if i + 1 < out.len() {
            assert(out[i] == joined[i]);
        } else {
            let j = i + 1 - out.len();
            assert(next[j] == joined[i + 1]);
            assert(next.contains(joined[i + 1]));
        }
    }
    if next.len() > 0 {
        assert(next[next.len() - 1] == joined.last());
        assert(next.contains(joined.last()));
    }
}

/// `next` may follow `out` without a space after a space where the two
/// meet: `out` does not end in a space, or `next` does not start with one.
pub open spec fn may_follow(out: Seq<char>, next: Seq<char>) -> bool {
    out.len() > 0 && next.len() > 0 ==> out.last() != ' ' || next[0] != ' '
}

/// In two texts put together no space follows a space exactly if none does
/// in either and none does where they meet.
pub proof fn lemma_joined(out: Seq<char>, next: Seq<char>)
    ensures
        single_spaced(out + next) <==> single_spaced(out) && single_spaced(next) && may_follow(out, next),
{
    let joined = out + next;
    if single_spaced(out) && single_spaced(next) && may_follow(out, next) {
        assert forall|i: int| 0 <= i && i + 1 < joined.len() implies !(#[trigger] joined[i] == ' '
            && joined[i + 1] == ' ') by {
            if i + 1 < out.len() {
                assert(out[i] == joined[i]);
            } else if i >= out.len() {
                let j = i - out.len();
                assert(next[j] == joined[i]);
                assert(next[j + 1] == joined[i + 1]);
            } else {
                assert(joined[i] == out.last());
                assert(joined[i + 1] == next[0]);
            }
        }
    }
    if single_spaced(joined) {
        assert forall|i: int| 0 <= i && i + 1 < out.len() implies !(#[trigger] out[i] == ' ' && out[i + 1]
            == ' ') by {
            assert(joined[i] == out[i]);
            assert(joined[i + 1] == out[i + 1]);
        }
        assert forall|i: int| 0 <= i && i + 1 < next.len() implies !(#[trigger] next[i] == ' ' && next[i
            + 1] == ' ') by {
            assert(joined[out.len() + i] == next[i]);
            assert(joined[out.len() + i + 1] == next[i + 1]);
        }
        if out.len() > 0 && next.len() > 0 {
            assert(joined[out.len() - 1] == out.last());
            assert(joined[out.len() - 1 + 1] == next[0]);
        }
    }
}

} // verus!
