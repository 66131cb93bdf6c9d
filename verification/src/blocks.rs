//! The code block normalizer and the driver of the translation.
//!
//! A documentation comment is prose with fenced code blocks in it. A block
//! opens with `|[`, may declare its language right after that, and closes
//! at the first `]|`; a line break right before `]|` belongs to the closing
//! marker. The translation rewrites the fences and hands every segment
//! between them, the bodies of the blocks too, to the inline token scanner.

use crate::diagnostic::{lemma_with_nothing, lemma_with_with, DiagnosticLog, DiagnosticView};
use crate::engine::TokenView;
use crate::index::{IndexView, SymbolIndex};
use crate::scan::{
    format_notes, format_text, is_only_token, lemma_format_plain, lemma_format_single_spaced,
    lemma_pass_leaves_unmarked, lemma_pass_of_one_token, pass_text, rendered, unmarked, Pass,
};
use crate::text::{
    collapse, find, lemma_collapse_fixes_single_spaced, lemma_collapse_keeps,
    lemma_collapse_single_spaced, lemma_find_from, lemma_follow_spaceless, lemma_joined,
    lemma_split_once, may_follow, occurs_at, single_spaced, split_once, trim_final_break,
    try_split, without_final_break,
};
use vstd::prelude::*;
use vstd::string::*;

verus! {

/// What the declaration of a language starts with.
pub const LANGUAGE_SEP_BEGIN: &'static str = "<!-- language=\"";

/// What the declaration of a language ends with.
pub const LANGUAGE_SEP_END: &'static str = "\" -->";

/// The marker that opens a block.
pub const LANGUAGE_BLOCK_BEGIN: &'static str = "|[";

/// The marker that closes a block. A line break right before it belongs to
/// the marker.
pub const LANGUAGE_BLOCK_END: &'static str = "]|";

/// The fence that closes a block, and that opens one before its language.
pub const FENCE: &'static str = "\n```";

/// The fence that opens a block which declares no language.
pub const TEXT_FENCE: &'static str = "\n```text";

/// The opening fence of a block whose text after `|[` is `entry`, and the
/// text that follows the fence. A block declares its language `X` by
/// starting with `<!-- language="X" -->`; the fence then carries `X`, and the
/// declaration is taken out of the text. Any other block is fenced as
/// `text`, and nothing is taken out.
pub open spec fn language_of(entry: Seq<char>) -> (Seq<char>, Seq<char>) {
    match split_once(entry, LANGUAGE_SEP_BEGIN@) {
        (before, Some(after)) => if before.len() == 0 {
            match split_once(after, LANGUAGE_SEP_END@) {
                (language, Some(rest)) => (FENCE@ + language, rest),
                (_, None) => (TEXT_FENCE@, entry),
            }
        } else {
            (TEXT_FENCE@, entry)
        },
        (_, None) => (TEXT_FENCE@, entry),
    }
}

/// Taking the language out does not make a text longer.
pub proof fn lemma_language_of(entry: Seq<char>)
    ensures
        language_of(entry).1.len() <= entry.len(),
{
    lemma_split_once(entry, LANGUAGE_SEP_BEGIN@);
    if let (before, Some(after)) = split_once(entry, LANGUAGE_SEP_BEGIN@) {
        lemma_split_once(after, LANGUAGE_SEP_END@);
    }
}

/// The body of a block and the text after the block, where `body_on` is
/// the text after the block's opening fence. The block closes at the first
/// `]|`, and a line break right before that is no part of the body. A block
/// that never closes has no body of its own: all of `body_on` comes back,
/// with `None`.
pub open spec fn close_of(body_on: Seq<char>) -> (Seq<char>, Option<Seq<char>>) {
    match split_once(body_on, LANGUAGE_BLOCK_END@) {
        (body, Some(tail)) => (without_final_break(body), Some(tail)),
        (_, None) => (body_on, None),
    }
}

/// What follows an opened block is shorter than the text that opens it.
pub proof fn lemma_block_shrinks(input: Seq<char>)
    ensures
        split_once(input, LANGUAGE_BLOCK_BEGIN@) matches (_, Some(after)) ==> {
            let body_on = language_of(after).1;
            &&& body_on.len() < input.len()
            &&& close_of(body_on) matches (_, Some(tail)) ==> tail.len() < input.len()
        },
{
    reveal_strlit("|[");
    lemma_split_once(input, LANGUAGE_BLOCK_BEGIN@);
    if let (_, Some(after)) = split_once(input, LANGUAGE_BLOCK_BEGIN@) {
        lemma_language_of(after);
        lemma_split_once(language_of(after).1, LANGUAGE_BLOCK_END@);
    }
}

/// The translation of a documentation comment. The text before a block is
/// translated as prose. The block's opening fence follows, then its body,
/// translated as prose too, and the closing fence in the place of the
/// closing marker; the text after the block is treated in the same way. A
/// block that is never closed gets its opening fence and no closing one, and
/// what follows its opening is treated as the text after a block.
pub open spec fn blocks_text(input: Seq<char>, index: IndexView) -> Seq<char>
    decreases input.len(),
{
    match split_once(input, LANGUAGE_BLOCK_BEGIN@) {
        (before, None) => format_text(before, index),
        (before, Some(after)) => {
            let (header, body_on) = language_of(after);
            proof {
                lemma_block_shrinks(input);
            }
            match close_of(body_on) {
                (body, Some(tail)) => format_text(before, index) + header + format_text(body, index)
                    + FENCE@ + blocks_text(tail, index),
                (_, None) => format_text(before, index) + header + blocks_text(body_on, index),
            }
        },
    }
}

/// What the translation of a documentation comment reports: what its
/// segments give to report, in their order.
pub open spec fn blocks_notes(input: Seq<char>, index: IndexView) -> Seq<DiagnosticView>
    decreases input.len(),
{
    match split_once(input, LANGUAGE_BLOCK_BEGIN@) {
        (before, None) => format_notes(before, index),
        (before, Some(after)) => {
            let (header, body_on) = language_of(after);
            proof {
                lemma_block_shrinks(input);
            }
            match close_of(body_on) {
                (body, Some(tail)) => format_notes(before, index) + format_notes(body, index)
                    + blocks_notes(tail, index),
                (_, None) => format_notes(before, index) + blocks_notes(body_on, index),
            }
        },
    }
}

/// Writes the opening fence of a block to `out` and gives the text that
/// follows the fence.
pub fn get_language<'a>(entry: &'a str, out: &mut String) -> (rest: &'a str)
    ensures
        final(out)@ == old(out)@ + language_of(entry@).0,
        rest@ == language_of(entry@).1,
{
    if let (before, Some(after)) = try_split(entry, LANGUAGE_SEP_BEGIN) {
        if before.is_empty() {
            if let (language, Some(rest)) = try_split(after, LANGUAGE_SEP_END) {
                out.append(FENCE);
                out.append(language);
                assert(out@ =~= old(out)@ + (FENCE@ + language@));
                return rest;
            }
        }
    }
    out.append(TEXT_FENCE);
    entry
}

/// One more segment of prose: a text that grew by `more` where the model
/// grows by `more` before what is still to come.
proof fn lemma_grows<T>(whole: Seq<T>, done: Seq<T>, more: Seq<T>, rest: Seq<T>, ahead: Seq<T>)
    requires
        whole == done + rest,
        rest == more + ahead,
    ensures
        whole == (done + more) + ahead,
{
    assert(done + (more + ahead) =~= (done + more) + ahead);
}

/// Translates a documentation comment and reports to `log` what
/// `blocks_notes` lists.
pub fn code_blocks_transformation(input: &str, env: &SymbolIndex, log: &mut DiagnosticLog) -> (out: String)
    ensures
        out@ == blocks_text(input@, env@),
        final(log)@ == old(log)@.with(blocks_notes(input@, env@)),
{
    let mut out = String::new();
    let mut rest = input;
    let ghost mut told: Seq<DiagnosticView> = Seq::empty();
    let ghost whole = blocks_text(input@, env@);
    let ghost notes = blocks_notes(input@, env@);
    proof {
        lemma_with_nothing(log@);
        assert(out@ + whole =~= whole);
        assert(told + notes =~= notes);
    }
    loop
        invariant
            whole == blocks_text(input@, env@),
            notes == blocks_notes(input@, env@),
            whole == out@ + blocks_text(rest@, env@),
            notes == told + blocks_notes(rest@, env@),
            log@ == old(log)@.with(told),
        decreases rest@.len(),
    {
        let ghost done = out@;
        let ghost here = rest@;
        match try_split(rest, LANGUAGE_BLOCK_BEGIN) {
            (before, Some(after)) => {
                let prose = crate::scan::format(before, env, log);
                out.append(prose.as_str());
                let body_on = get_language(after, &mut out);
                let ghost opened = format_text(before@, env@) + language_of(after@).0;
                proof {
                    lemma_block_shrinks(here);
                    lemma_with_with(old(log)@, told, format_notes(before@, env@));
                    assert(out@ =~= done + opened);
                }
                match try_split(body_on, LANGUAGE_BLOCK_END) {
                    (up_to_marker, Some(tail)) => {
                        let body = trim_final_break(up_to_marker);
                        let code = crate::scan::format(body, env, log);
                        out.append(code.as_str());
                        out.append(FENCE);
                        proof {
                            lemma_with_with(
                                old(log)@,
                                told + format_notes(before@, env@),
                                format_notes(body@, env@),
                            );
                            let block = opened + format_text(body@, env@) + FENCE@;
                            assert(out@ =~= done + block);
                            assert(blocks_text(here, env@) == block + blocks_text(tail@, env@));
                            lemma_grows(whole, done, block, blocks_text(here, env@), blocks_text(tail@, env@));
                            let said = format_notes(before@, env@) + format_notes(body@, env@);
                            assert(blocks_notes(here, env@) == said + blocks_notes(tail@, env@));
                            lemma_grows(notes, told, said, blocks_notes(here, env@), blocks_notes(tail@, env@));
                            assert(told + format_notes(before@, env@) + format_notes(body@, env@) =~= told
                                + said);
                            told = told + said;
                        }
                        rest = tail;
                    },
                    (_, None) => {
                        proof {
                            assert(blocks_text(here, env@) == opened + blocks_text(body_on@, env@));
                            lemma_grows(whole, done, opened, blocks_text(here, env@), blocks_text(body_on@, env@));
                            let said = format_notes(before@, env@);
                            assert(blocks_notes(here, env@) == said + blocks_notes(body_on@, env@));
                            lemma_grows(notes, told, said, blocks_notes(here, env@), blocks_notes(body_on@, env@));
                            told = told + said;
                        }
                        rest = body_on;
                    },
                }
            },
            (before, None) => {
                let prose = crate::scan::format(before, env, log);
                out.append(prose.as_str());
                proof {
                    lemma_with_with(old(log)@, told, format_notes(before@, env@));
                }
                return out;
            },
        }
    }
}

/// Translates the documentation comment `input` of the item `in_type`
/// against the index `env`. The text does not depend on `in_type`, which
/// only names the comment in a log, and what there is to report is dropped:
/// `code_blocks_transformation` hands it out.
pub fn reformat_doc(input: &str, env: &SymbolIndex, in_type: &str) -> (out: String)
    ensures
        out@ == blocks_text(input@, env@),
{
    let mut log = DiagnosticLog::new(in_type);
    code_blocks_transformation(input, env, &mut log)
}

/// A text without markup: it holds none of the characters `(`, `#`, `%`,
/// `` ` ``, `<` and `@`, and no block opens in it.
pub open spec fn is_plain(text: Seq<char>) -> bool {
    &&& !text.contains('(')
    &&& !text.contains('#')
    &&& !text.contains('%')
    &&& !text.contains('`')
    &&& !text.contains('<')
    &&& !text.contains('@')
    &&& find(text, LANGUAGE_BLOCK_BEGIN@) is None
}

/// Collapsing the runs of spaces of a text opens no block in it.
pub proof fn lemma_collapse_opens_no_block(text: Seq<char>)
    requires
        find(text, LANGUAGE_BLOCK_BEGIN@) is None,
    ensures
        find(collapse(text), LANGUAGE_BLOCK_BEGIN@) is None,
    decreases text.len(),
{
    reveal_strlit("|[");
    let needle = LANGUAGE_BLOCK_BEGIN@;
    lemma_find_from(text, needle, 0);
    lemma_find_from(collapse(text), needle, 0);
    if let Some(i) = find(collapse(text), needle) {
        let front = text.drop_last();
        lemma_find_from(front, needle, 0);
        lemma_find_from(collapse(front), needle, 0);
        lemma_collapse_keeps(front);
        assert(collapse(text).subrange(i, i + 2)[0] == '|');
        assert(collapse(text).subrange(i, i + 2)[1] == '[');
        if i + 2 <= collapse(front).len() {
            assert(collapse(front).subrange(i, i + 2) =~= collapse(text).subrange(i, i + 2));
            assert(occurs_at(collapse(front), needle, i));
            if let Some(j) = find(front, needle) {
                assert(text.subrange(j, j + 2) =~= front.subrange(j, j + 2));
                assert(occurs_at(text, needle, j));
            } else {
                lemma_collapse_opens_no_block(front);
            }
        } else {
            let j = text.len() - 2;
            assert(text.subrange(j, j + 2) =~= needle);
            assert(occurs_at(text, needle, j));
        }
    }
}

/// A text without markup is translated by collapsing its runs of spaces and
/// by nothing else, whatever the index holds, and there is nothing to
/// report. Translating the result once more changes nothing.
pub proof fn lemma_plain_text(input: Seq<char>, index: IndexView)
    requires
        is_plain(input),
    ensures
        blocks_text(input, index) == collapse(input),
        blocks_notes(input, index) == Seq::<DiagnosticView>::empty(),
        blocks_text(blocks_text(input, index), index) == blocks_text(input, index),
{
    lemma_format_plain(input, index);
    let once = collapse(input);
    lemma_collapse_keeps(input);
    lemma_collapse_opens_no_block(input);
    lemma_format_plain(once, index);
    lemma_collapse_single_spaced(input);
    lemma_collapse_fixes_single_spaced(once);
}

/// The fences of the blocks of `input` put no space after a space: in no
/// opening fence a space follows a space, and none ends in a space before a
/// translated text that starts with one. An opening fence holds a space only
/// where the language that the block declares does.
pub open spec fn fences_tidy(input: Seq<char>, index: IndexView) -> bool
    decreases input.len(),
{
    match split_once(input, LANGUAGE_BLOCK_BEGIN@) {
        (_, None) => true,
        (_, Some(after)) => {
            let (header, body_on) = language_of(after);
            proof {
                lemma_block_shrinks(input);
            }
            single_spaced(header) && match close_of(body_on) {
                (body, Some(tail)) => may_follow(header, format_text(body, index) + FENCE@)
                    && fences_tidy(tail, index),
                (_, None) => may_follow(header, blocks_text(body_on, index)) && fences_tidy(
                    body_on,
                    index,
                ),
            }
        },
    }
}

/// In the translation of a comment no space is followed by a space exactly
/// where the fences of its blocks put none there: a fence carries the
/// language of its block as it stands, and everything else is free of a
/// space after a space.
pub proof fn lemma_single_spaced(input: Seq<char>, index: IndexView)
    ensures
        single_spaced(blocks_text(input, index)) <==> fences_tidy(input, index),
    decreases input.len(),
{
    reveal_strlit("\n```");
    reveal_strlit("\n```text");
    match split_once(input, LANGUAGE_BLOCK_BEGIN@) {
        (before, None) => {
            lemma_format_single_spaced(before, index);
        },
        (before, Some(after)) => {
            let (header, body_on) = language_of(after);
            lemma_block_shrinks(input);
            let prose = format_text(before, index);
            lemma_format_single_spaced(before, index);
            assert(header.len() > 0 && header[0] == '\n');
            assert(may_follow(prose, header));
            lemma_joined(prose, header);
            let opened = prose + header;
            assert(opened.last() == header.last());
            match close_of(body_on) {
                (body, Some(tail)) => {
                    let code = format_text(body, index);
                    let rest = blocks_text(tail, index);
                    lemma_single_spaced(tail, index);
                    lemma_format_single_spaced(body, index);
                    assert forall|i: int| 0 <= i < FENCE@.len() implies FENCE@[i] != ' ' by {}
                    lemma_follow_spaceless(code, FENCE@);
                    assert((code + FENCE@).last() == '`');
                    assert(may_follow(code + FENCE@, rest));
                    lemma_joined(code + FENCE@, rest);
                    lemma_joined(opened, code + FENCE@ + rest);
                    assert(may_follow(opened, code + FENCE@ + rest) <==> may_follow(
                        header,
                        code + FENCE@,
                    )) by {
                        assert((code + FENCE@ + rest)[0] == (code + FENCE@)[0]);
                    }
                    assert(blocks_text(input, index) =~= opened + (code + FENCE@ + rest));
                },
                (_, None) => {
                    let rest = blocks_text(body_on, index);
                    lemma_single_spaced(body_on, index);
                    lemma_joined(opened, rest);
                    assert(may_follow(opened, rest) <==> may_follow(header, rest));
                },
            }
        },
    }
}

/// In the translation of a text in which no block opens, no space is
/// followed by a space.
pub proof fn lemma_prose_single_spaced(input: Seq<char>, index: IndexView)
    requires
        find(input, LANGUAGE_BLOCK_BEGIN@) is None,
    ensures
        single_spaced(blocks_text(input, index)),
{
    lemma_format_single_spaced(input, index);
}

/// A comment with one reference in it and nothing else that a pass could
/// touch is translated by replacing the reference: the text before and
/// after it stays as it is. The reference is a function reference or a
/// reference with a sigil, and `replaced` is the comment with what replaces
/// the reference in its place. Nothing else can be touched where no block
/// opens, the passes before that of the reference find no mark of theirs in
/// the comment, the passes after it find none in `replaced`, no space
/// follows a space in `replaced`, and the pass over the library references,
/// which looks at every code span, leaves `replaced` alone.
pub proof fn lemma_one_reference(
    pass: Pass,
    input: Seq<char>,
    index: IndexView,
    token: TokenView,
    tail: Seq<char>,
)
    ensures
        ({
            let replaced = token.gap + rendered(pass, token, index) + tail;
            &&& pass == Pass::Function || pass == Pass::Symbol
            &&& find(input, LANGUAGE_BLOCK_BEGIN@) is None
            &&& is_only_token(pass, input, token, tail)
            &&& pass == Pass::Symbol ==> unmarked(Pass::Function, input)
            &&& pass == Pass::Function ==> unmarked(Pass::Symbol, replaced)
            &&& pass_text(Pass::Library, replaced, index) == replaced
            &&& unmarked(Pass::Tag, replaced)
            &&& unmarked(Pass::Parameter, replaced)
            &&& single_spaced(replaced)
        }) ==> blocks_text(input, index) == token.gap + rendered(pass, token, index) + tail,
{
    let replaced = token.gap + rendered(pass, token, index) + tail;
    lemma_pass_of_one_token(pass, input, index, token, tail);
    if pass == Pass::Symbol && unmarked(Pass::Function, input) {
        lemma_pass_leaves_unmarked(Pass::Function, input, index);
    }
    if pass == Pass::Function && unmarked(Pass::Symbol, replaced) {
        lemma_pass_leaves_unmarked(Pass::Symbol, replaced, index);
    }
    if unmarked(Pass::Tag, replaced) {
        lemma_pass_leaves_unmarked(Pass::Tag, replaced, index);
    }
    if unmarked(Pass::Parameter, replaced) {
        lemma_pass_leaves_unmarked(Pass::Parameter, replaced, index);
    }
    if single_spaced(replaced) {
        lemma_collapse_fixes_single_spaced(replaced);
    }
}

} // verus!
