//! The regular-expression engine, and what the translation makes of its
//! answers.
//!
//! The engine only proposes: it reports where a pattern matches, as byte
//! spans. The text is then cut at those spans here, left to right, and a
//! report that cannot be cut that way (a span out of order, past the end or
//! inside a character) counts as no report at all.

use crate::seqs::views;
use crate::text::{
    cut_piece, drawn_from, lemma_split_text, optional_text, piece, split_at_boundary, split_text,
};
use regex::Regex;
use vstd::prelude::*;

verus! {

/// The matches that the regular-expression engine finds for `pattern` in
/// `text`, leftmost first and without overlap: for each match the byte spans
/// of its groups, the whole match first and a group that took no part as
/// `None`. The result is `None` for a pattern that the engine does not
/// accept.
pub uninterp spec fn regex_captures(pattern: Seq<char>, text: Seq<char>) -> Option<
    Seq<Seq<Option<(usize, usize)>>>,
>;

/// Compiles `pattern` with `regex::Regex::new`, runs
/// `regex::Regex::captures_iter` over `text` and hands out, for every match,
/// the byte span of each group as `regex::Captures::iter` lists them. All
/// that is claimed of the result is that it is the engine's answer for this
/// pattern and this text.
#[verifier::external_body]
fn captures_iter(pattern: &str, text: &str) -> (r: Option<Vec<Vec<Option<(usize, usize)>>>>)
    ensures
        r.deep_view() == regex_captures(pattern@, text@),
{
    match Regex::new(pattern) {
        Ok(re) => Some(
            re.captures_iter(text).map(
                |caps| caps.iter().map(|group| group.map(|m| (m.start(), m.end()))).collect(),
            ).collect(),
        ),
        Err(_) => None,
    }
}

/// One match, cut out of the text.
pub struct Token<'a> {
    /// The text between the match before, or the start, and this match.
    pub gap: &'a str,
    /// The text of the match.
    pub whole: &'a str,
    /// The text of each group, the whole match first; `None` for a group
    /// that took no part in the match.
    pub groups: Vec<Option<&'a str>>,
}

/// The model of a `Token`.
pub struct TokenView {
    pub gap: Seq<char>,
    pub whole: Seq<char>,
    pub groups: Seq<Option<Seq<char>>>,
}

/// The views of the texts of the groups.
pub open spec fn group_views(groups: Seq<Option<&str>>) -> Seq<Option<Seq<char>>> {
    groups.map_values(|g: Option<&str>| optional_text(g))
}

impl<'a> View for Token<'a> {
    type V = TokenView;

    open spec fn view(&self) -> TokenView {
        TokenView { gap: self.gap@, whole: self.whole@, groups: group_views(self.groups@) }
    }
}

/// A text cut at all the matches of a pattern.
pub struct Scan<'a> {
    pub tokens: Vec<Token<'a>>,
    /// The text after the last match.
    pub tail: &'a str,
}

/// The model of a `Scan`.
pub struct ScanView {
    pub tokens: Seq<TokenView>,
    pub tail: Seq<char>,
}

impl<'a> View for Scan<'a> {
    type V = ScanView;

    open spec fn view(&self) -> ScanView {
        ScanView { tokens: views(self.tokens@), tail: self.tail@ }
    }
}

/// The text of one group of a match that starts at byte `start` and whose
/// text is `whole`. The outer `None` says that the span cannot be cut out of
/// the match.
pub open spec fn group_text(whole: Seq<char>, start: int, span: Option<(usize, usize)>) -> Option<
    Option<Seq<char>>,
> {
    match span {
        None => Some(None),
        Some((from, to)) => if start <= from <= to {
            match piece(whole, from - start, to - start) {
                Some(p) => Some(Some(p)),
                None => None,
            }
        } else {
            None
        },
    }
}

/// The texts of all groups of a match, if each can be cut out of it.
pub open spec fn groups_cut(whole: Seq<char>, start: int, spans: Seq<Option<(usize, usize)>>) -> Option<
    Seq<Option<Seq<char>>>,
> {
    if forall|k: int| 0 <= k < spans.len() ==> (#[trigger] group_text(whole, start, spans[k])) is Some {
        Some(Seq::new(spans.len(), |k: int| group_text(whole, start, spans[k]).unwrap()))
    } else {
        None
    }
}

/// A text partly cut: the tokens so far, the text that is left, and how many
/// bytes of the text the tokens took.
pub struct Cut {
    pub tokens: Seq<TokenView>,
    pub rest: Seq<char>,
    pub consumed: int,
}

/// The next token: `capture` cut out of `rest`, which starts `consumed` bytes
/// into the text. With the token come what is left after it and the byte
/// offset at which that starts.
pub open spec fn next_token(rest: Seq<char>, consumed: int, capture: Seq<Option<(usize, usize)>>) -> Option<
    (TokenView, Seq<char>, int),
> {
    if capture.len() > 0 && capture[0] is Some {
        let start = capture[0].unwrap().0 as int;
        let end = capture[0].unwrap().1 as int;
        if consumed <= start <= end {
            match split_text(rest, start - consumed) {
                Some((gap, from_match)) => match split_text(from_match, end - start) {
                    Some((whole, left)) => match groups_cut(whole, start, capture) {
                        Some(groups) => Some((TokenView { gap, whole, groups }, left, end)),
                        None => None,
                    },
                    None => None,
                },
                None => None,
            }
        } else {
            None
        }
    } else {
        None
    }
}

/// `text` cut at all of `captures`, left to right.
pub open spec fn cut_all(text: Seq<char>, captures: Seq<Seq<Option<(usize, usize)>>>) -> Option<Cut>
    decreases captures.len(),
{
    if captures.len() == 0 {
        Some(Cut { tokens: Seq::empty(), rest: text, consumed: 0 })
    } else {
        match cut_all(text, captures.drop_last()) {
            Some(cut) => match next_token(cut.rest, cut.consumed, captures.last()) {
                Some((token, left, end)) => Some(
                    Cut { tokens: cut.tokens.push(token), rest: left, consumed: end },
                ),
                None => None,
            },
            None => None,
        }
    }
}

/// `text` cut at the matches of `pattern`; `None` where the engine rejects
/// the pattern or reports what cannot be cut.
pub open spec fn scan_text(pattern: Seq<char>, text: Seq<char>) -> Option<ScanView> {
    match regex_captures(pattern, text) {
        Some(captures) => match cut_all(text, captures) {
            Some(cut) => Some(ScanView { tokens: cut.tokens, tail: cut.rest }),
            None => None,
        },
        None => None,
    }
}

/// Where the first captures cannot be cut, neither can all of them.
pub proof fn lemma_cut_all_prefix(text: Seq<char>, captures: Seq<Seq<Option<(usize, usize)>>>, k: int)
    requires
        0 <= k <= captures.len(),
        cut_all(text, captures.take(k)) is None,
    ensures
        cut_all(text, captures) is None,
    decreases captures.len(),
{
    if k == captures.len() {
        assert(captures.take(k) =~= captures);
    } else {
        assert(captures.drop_last().take(k) =~= captures.take(k));
        lemma_cut_all_prefix(text, captures.drop_last(), k);
    }
}

/// The spans of a match are their own model.
proof fn lemma_spans_model(capture: Vec<Option<(usize, usize)>>)
    ensures
        capture.deep_view() == capture@,
{
    assert forall|i: int| 0 <= i < capture@.len() implies capture.deep_view()[i] == capture@[i] by {
        match capture@[i] {
            Some(span) => {
                assert(span.deep_view() == span);
            },
            None => {},
        }
    }
    assert(capture.deep_view() =~= capture@);
}

/// Cuts the groups of a match out of its text.
fn cut_groups<'a>(whole: &'a str, start: usize, capture: &Vec<Option<(usize, usize)>>) -> (r: Option<
    Vec<Option<&'a str>>,
>)
    ensures
        match r {
            Some(groups) => groups_cut(whole@, start as int, capture@) == Some(group_views(groups@)),
            None => groups_cut(whole@, start as int, capture@) is None,
        },
{
    let mut groups: Vec<Option<&'a str>> = Vec::new();
    let mut k: usize = 0;
    while k < capture.len()
        invariant
            k <= capture.len(),
            groups.len() == k,
            forall|j: int|
                0 <= j < k ==> (#[trigger] group_text(whole@, start as int, capture@[j])) == Some(
                    optional_text(groups@[j]),
                ),
        decreases capture.len() - k,
    {
        match capture[k] {
            None => {
                groups.push(None);
            },
            Some((from, to)) => {
                if from < start || to < from {
                    assert(group_text(whole@, start as int, capture@[k as int]) is None);
                    return None;
                }
                match cut_piece(whole, from - start, to - start) {
                    Some(p) => {
                        groups.push(Some(p));
                    },
                    None => {
                        assert(group_text(whole@, start as int, capture@[k as int]) is None);
                        return None;
                    },
                }
            },
        }
        k += 1;
    }
    proof {
        assert(groups_cut(whole@, start as int, capture@).unwrap() =~= group_views(groups@));
    }
    Some(groups)
}

/// Cuts the next match out of `rest`, which starts `consumed` bytes into the
/// text.
fn cut_token<'a>(rest: &'a str, consumed: usize, capture: &Vec<Option<(usize, usize)>>) -> (r: Option<
    (Token<'a>, &'a str, usize),
>)
    ensures
        match r {
            Some((token, left, end)) => next_token(rest@, consumed as int, capture@) == Some(
                (token@, left@, end as int),
            ),
            None => next_token(rest@, consumed as int, capture@) is None,
        },
{
    if capture.len() == 0 {
        return None;
    }
    match capture[0] {
        None => None,
        Some((start, end)) => {
            if start < consumed || end < start {
                return None;
            }
            match split_at_boundary(rest, start - consumed) {
                None => None,
                Some((gap, from_match)) => match split_at_boundary(from_match, end - start) {
                    None => None,
                    Some((whole, left)) => match cut_groups(whole, start, capture) {
                        None => None,
                        Some(groups) => Some((Token { gap, whole, groups }, left, end)),
                    },
                },
            }
        },
    }
}

/// Cuts `text` at the matches that `captures` reports: for each match the
/// byte spans of its groups, the whole match first. The result is `None`
/// where a match has no span of its own, starts before the end of the match
/// before it, reaches past the end of the text or does not start and end
/// between two characters, and where a group does not lie in its match in
/// that way.
pub fn cut<'a>(text: &'a str, captures: &Vec<Vec<Option<(usize, usize)>>>) -> (r: Option<Scan<'a>>)
    ensures
        match r {
            Some(s) => cut_all(text@, captures.deep_view()) matches Some(c) && s@ == (ScanView {
                tokens: c.tokens,
                tail: c.rest,
            }),
            None => cut_all(text@, captures.deep_view()) is None,
        },
{
    let ghost model = captures.deep_view();
    let mut tokens: Vec<Token<'a>> = Vec::new();
    let mut rest = text;
    let mut consumed: usize = 0;
    let mut k: usize = 0;
    proof {
        assert(model.take(0).len() == 0);
        assert(views(tokens@) =~= Seq::empty());
    }
    while k < captures.len()
        invariant
            k <= captures.len(),
            model == captures.deep_view(),
            cut_all(text@, model.take(k as int)) == Some(
                Cut { tokens: views(tokens@), rest: rest@, consumed: consumed as int },
            ),
        decreases captures.len() - k,
    {
        proof {
            lemma_spans_model(captures@[k as int]);
            assert(model.take(k + 1).drop_last() =~= model.take(k as int));
            assert(model.take(k + 1).last() == captures@[k as int]@);
        }
        match cut_token(rest, consumed, &captures[k]) {
            Some((token, left, end)) => {
                proof {
                    assert(views(tokens@.push(token)) =~= views(tokens@).push(token@));
                }
                tokens.push(token);
                rest = left;
                consumed = end;
            },
            None => {
                proof {
                    lemma_cut_all_prefix(text@, model, k + 1);
                }
                return None;
            },
        }
        k += 1;
    }
    proof {
        assert(model.take(k as int) =~= model);
    }
    Some(Scan { tokens, tail: rest })
}

/// Cuts `text` at the matches of `pattern`. The pattern is compiled anew on
/// every call, which costs more than the search in a short text: callers
/// that can tell without the engine that a text holds no match do not ask.
pub fn scan<'a>(pattern: &str, text: &'a str) -> (r: Option<Scan<'a>>)
    ensures
        match r {
            Some(s) => scan_text(pattern@, text@) == Some(s@),
            None => scan_text(pattern@, text@) is None,
        },
{
    match captures_iter(pattern, text) {
        Some(captures) => cut(text, &captures),
        None => None,
    }
}

/// The tokens put together again, each as it stood in the text.
pub open spec fn assembled(tokens: Seq<TokenView>) -> Seq<char>
    decreases tokens.len(),
{
    if tokens.len() == 0 {
        Seq::empty()
    } else {
        assembled(tokens.drop_last()) + tokens.last().gap + tokens.last().whole
    }
}

/// A token, with the text before it and the text that is left after it, is
/// the text that it was cut from.
pub proof fn lemma_next_token(rest: Seq<char>, consumed: int, capture: Seq<Option<(usize, usize)>>)
    ensures
        next_token(rest, consumed, capture) matches Some((token, left, _)) ==> rest == token.gap
            + token.whole + left,
{
    if let Some((token, left, end)) = next_token(rest, consumed, capture) {
        let start = capture[0].unwrap().0 as int;
        lemma_split_text(rest, start - consumed);
        let from_match = split_text(rest, start - consumed).unwrap().1;
        lemma_split_text(from_match, end - start);
        assert(rest =~= token.gap + token.whole + left);
    }
}

/// Cutting loses nothing: there is one token for each match, and the tokens
/// put together again, with the text that is left, are the text.
pub proof fn lemma_cut_all(text: Seq<char>, captures: Seq<Seq<Option<(usize, usize)>>>)
    ensures
        cut_all(text, captures) matches Some(cut) ==> {
            &&& cut.tokens.len() == captures.len()
            &&& assembled(cut.tokens) + cut.rest == text
        },
    decreases captures.len(),
{
    if captures.len() == 0 {
        assert(Seq::<char>::empty() + text =~= text);
    } else if let Some(before) = cut_all(text, captures.drop_last()) {
        lemma_cut_all(text, captures.drop_last());
        lemma_next_token(before.rest, before.consumed, captures.last());
        if let Some((token, left, end)) = next_token(before.rest, before.consumed, captures.last()) {
            let cut = cut_all(text, captures).unwrap();
            assert(cut.tokens.drop_last() =~= before.tokens);
            assert(assembled(cut.tokens) + left =~= assembled(before.tokens) + (token.gap + token.whole
                + left));
        }
    }
}

/// Every token of a cut holds characters of the text only.
pub proof fn lemma_cut_all_drawn(text: Seq<char>, captures: Seq<Seq<Option<(usize, usize)>>>)
    ensures
        cut_all(text, captures) matches Some(cut) ==> forall|k: int|
            0 <= k < cut.tokens.len() ==> drawn_from((#[trigger] cut.tokens[k]).whole, text),
    decreases captures.len(),
{
    if captures.len() > 0 {
        if let Some(before) = cut_all(text, captures.drop_last()) {
            lemma_cut_all_drawn(text, captures.drop_last());
            lemma_cut_all(text, captures.drop_last());
            lemma_next_token(before.rest, before.consumed, captures.last());
            if let Some((token, left, end)) = next_token(before.rest, before.consumed, captures.last()) {
                let cut = cut_all(text, captures).unwrap();
                let head = assembled(before.tokens);
                assert forall|c: char| token.whole.contains(c) implies text.contains(c) by {
                    let i = choose|i: int| 0 <= i < token.whole.len() && token.whole[i] == c;
                    assert((head + (token.gap + token.whole + left))[head.len() + token.gap.len() + i] == c);
                }
                assert forall|k: int| 0 <= k < cut.tokens.len() implies drawn_from(
                    (#[trigger] cut.tokens[k]).whole,
                    text,
                ) by {
                    if k < before.tokens.len() {
                        assert(cut.tokens[k] == before.tokens[k]);
                    }
                }
            }
        }
    }
}

} // verus!
