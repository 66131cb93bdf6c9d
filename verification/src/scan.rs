//! The inline token scanner: the references that stand in prose, what each
//! is replaced by, and the passes that replace them.
//!
//! A pass asks the engine for the matches of one pattern and then looks at
//! each match itself. Only a match that has the shape of the pass's token is
//! replaced; any other stays in the text as it stands.

use crate::diagnostic::{lemma_with_nothing, lemma_with_with, DiagnosticLog, DiagnosticView};
use crate::engine::{
    assembled, cut_all, lemma_cut_all, lemma_cut_all_drawn, lemma_next_token, next_token,
    regex_captures, scan, scan_text, Scan, ScanView, Token, TokenView,
};
use crate::index::{member_has, IndexView, SymbolIndex};
use crate::link::{code_span, item_link, make_code_span, member_link};
use crate::resolve::{
    constant_notes, find_constant_or_variant, find_function, find_method_or_type, find_type,
    function_notes, is_absent, is_ignored_c_type, lemma_absent_resolves_to_nothing,
    lemma_flag_member, lemma_ignored_type, lemma_record_type, resolve_constant, resolve_function, resolve_type,
    resolve_type_or_method, type_notes, type_or_method_notes,
};
use crate::seqs::views;
use crate::text::{
    chars_of, collapse, collapse_spaces, holds_char, lemma_collapse_keeps, lemma_collapse_single_spaced,
    lemma_follow, lemma_follow_spaceless, lemma_prefix_single_spaced, occurs_at, optional_text,
    single_spaced, str_eq, trim_start, trim_start_matches,
};
use vstd::prelude::*;
use vstd::string::*;

verus! {

/// A function reference: a name and an empty pair of parentheses, after an
/// optional sigil and an optional scope.
pub const FUNCTION_PATTERN: &'static str = r"([@#%])?(\w+\b[:.]+)?(\b[a-z0-9_]+)\(\)";

/// A type-class (`#`) or constant-class (`%`) reference, with an optional
/// member.
pub const SYMBOL_PATTERN: &'static str = r"([#%])(\w+\b)([:.]+[\w-]+\b)?";

/// A parameter reference (`@`).
pub const PARAMETER_PATTERN: &'static str = r"([@])(\w+\b)([:.]+[\w-]+\b)?";

/// A code span that holds the name of a type of one of the well-known
/// libraries.
pub const LIBRARY_PATTERN: &'static str = r"`([^\(:])?((G[dts]k|Pango)\w+\b)(\.)?`";

/// A tag in angle brackets.
pub const TAG_PATTERN: &'static str = r"<[\w/-]+>";

/// The passes over prose, each with a token of its own.
#[derive(Clone, Copy, Debug, PartialEq, Eq, Structural)]
pub enum Pass {
    Function,
    Symbol,
    Library,
    Tag,
    Parameter,
}

/// The pattern that finds the tokens of a pass.
pub open spec fn pattern_of(pass: Pass) -> Seq<char> {
    match pass {
        Pass::Function => FUNCTION_PATTERN@,
        Pass::Symbol => SYMBOL_PATTERN@,
        Pass::Library => LIBRARY_PATTERN@,
        Pass::Tag => TAG_PATTERN@,
        Pass::Parameter => PARAMETER_PATTERN@,
    }
}

/// The pattern that finds the tokens of a pass.
pub fn pattern(pass: Pass) -> (p: &'static str)
    ensures
        p@ == pattern_of(pass),
{
    match pass {
        Pass::Function => FUNCTION_PATTERN,
        Pass::Symbol => SYMBOL_PATTERN,
        Pass::Library => LIBRARY_PATTERN,
        Pass::Tag => TAG_PATTERN,
        Pass::Parameter => PARAMETER_PATTERN,
    }
}

/// The text of group `i` of a token, if the group took part in the match.
pub open spec fn group_of(token: TokenView, i: int) -> Option<Seq<char>> {
    if 0 <= i < token.groups.len() {
        token.groups[i]
    } else {
        None
    }
}

/// The text of group `i` of a token, empty if the group took no part.
pub open spec fn group_or_empty(token: TokenView, i: int) -> Seq<char> {
    match group_of(token, i) {
        Some(text) => text,
        None => Seq::empty(),
    }
}

/// A function reference is made of its sigil, if any, its scope, if any,
/// its name and `()`. The name is group 3.
pub open spec fn is_function_token(token: TokenView) -> bool {
    &&& group_of(token, 3) is Some
    &&& token.whole == group_or_empty(token, 1) + group_or_empty(token, 2) + group_of(token, 3).unwrap()
        + "()"@
}

/// A type-class or constant-class reference is made of its sigil, `#` or
/// `%`, its body and its member, if any. The body is group 2.
pub open spec fn is_symbol_token(token: TokenView) -> bool {
    &&& group_of(token, 1) is Some
    &&& group_of(token, 2) is Some
    &&& (group_of(token, 1).unwrap() == "#"@ || group_of(token, 1).unwrap() == "%"@)
    &&& token.whole == group_of(token, 1).unwrap() + group_of(token, 2).unwrap() + group_or_empty(
        token,
        3,
    )
}

/// A parameter reference is made of its sigil `@`, its body, which holds no
/// space, and its member, if any. The body is group 2.
pub open spec fn is_parameter_token(token: TokenView) -> bool {
    &&& group_of(token, 1) == Some("@"@)
    &&& group_of(token, 2) is Some
    &&& !group_of(token, 2).unwrap().contains(' ')
    &&& token.whole == "@"@ + group_of(token, 2).unwrap() + group_or_empty(token, 3)
}

/// A library reference is a code span around a type name, which is group 2;
/// one character may stand before the name and a dot after it.
pub open spec fn is_library_token(token: TokenView) -> bool {
    &&& group_of(token, 2) is Some
    &&& token.whole == "`"@ + group_or_empty(token, 1) + group_of(token, 2).unwrap() + group_or_empty(
        token,
        4,
    ) + "`"@
}

/// A tag starts with `<` and ends with `>`.
pub open spec fn is_tag_token(token: TokenView) -> bool {
    token.whole.len() >= 2 && token.whole.first() == '<' && token.whole.last() == '>'
}

/// Whether a token has the shape that its pass replaces.
pub open spec fn has_shape(pass: Pass, token: TokenView) -> bool {
    match pass {
        Pass::Function => is_function_token(token),
        Pass::Symbol => is_symbol_token(token),
        Pass::Library => is_library_token(token),
        Pass::Tag => is_tag_token(token),
        Pass::Parameter => is_parameter_token(token),
    }
}

/// The fixed link of a literal, for the bodies that are literals. Only a
/// constant-class reference can be a literal.
pub open spec fn literal_link(body: Seq<char>) -> Option<Seq<char>> {
    if body == "TRUE"@ {
        Some("[`true`]"@)
    } else if body == "FALSE"@ {
        Some("[`false`]"@)
    } else if body == "NULL"@ {
        Some("[`None`]"@)
    } else {
        None
    }
}

/// The member that a type-class reference asks for: its member suffix
/// without the dots at its start.
pub open spec fn member_of(suffix: Option<Seq<char>>) -> Option<Seq<char>> {
    match suffix {
        Some(s) => Some(trim_start(s, '.')),
        None => None,
    }
}

/// The link that the index gives for a reference with a sigil: `%` asks for
/// a member or constant, `#` for a type or one of its methods.
pub open spec fn symbol_link(index: IndexView, sigil: Seq<char>, body: Seq<char>, suffix: Option<Seq<char>>) -> Option<
    Seq<char>,
> {
    if sigil == "%"@ {
        resolve_constant(index, body)
    } else {
        resolve_type_or_method(index, body, member_of(suffix))
    }
}

/// Whether a reference with a sigil is a literal: a constant-class
/// reference whose body is `TRUE`, `FALSE` or `NULL`.
pub open spec fn is_literal(sigil: Seq<char>, body: Seq<char>) -> bool {
    sigil == "%"@ && literal_link(body) is Some
}

/// What replaces a reference with a sigil: for a literal its fixed link,
/// whatever the index holds; else the link that the index gives; else the
/// body as inert code. A type-class reference is never a literal: `#TRUE`
/// asks the index for a type `TRUE`.
pub open spec fn symbol_text(index: IndexView, sigil: Seq<char>, body: Seq<char>, suffix: Option<Seq<char>>) -> Seq<
    char,
> {
    if is_literal(sigil, body) {
        literal_link(body).unwrap()
    } else {
        match symbol_link(index, sigil, body, suffix) {
            Some(link) => link,
            None => code_span(body),
        }
    }
}

/// What a reference with a sigil gives to report.
pub open spec fn symbol_notes(index: IndexView, sigil: Seq<char>, body: Seq<char>, suffix: Option<Seq<char>>) -> Seq<
    DiagnosticView,
> {
    if is_literal(sigil, body) {
        Seq::empty()
    } else if sigil == "%"@ {
        constant_notes(index, body)
    } else {
        type_or_method_notes(index, body, member_of(suffix))
    }
}

/// What replaces a function reference: its link, else its name and `()` as
/// inert code.
pub open spec fn function_text(index: IndexView, name: Seq<char>) -> Seq<char> {
    match resolve_function(index, name) {
        Some(link) => link,
        None => code_span(name + "()"@),
    }
}

/// What replaces a library reference: the link of the type, else the name
/// as inert code.
pub open spec fn library_text(index: IndexView, name: Seq<char>) -> Seq<char> {
    match resolve_type(index, name) {
        Some(link) => link,
        None => code_span(name),
    }
}

/// What a pass puts in the place of a token. A token without the shape of
/// the pass stays as it is.
pub open spec fn rendered(pass: Pass, token: TokenView, index: IndexView) -> Seq<char> {
    if !has_shape(pass, token) {
        token.whole
    } else {
        match pass {
            Pass::Function => function_text(index, group_of(token, 3).unwrap()),
            Pass::Symbol => symbol_text(
                index,
                group_of(token, 1).unwrap(),
                group_of(token, 2).unwrap(),
                group_of(token, 3),
            ),
            Pass::Library => library_text(index, group_of(token, 2).unwrap()),
            Pass::Tag => code_span(token.whole),
            Pass::Parameter => code_span(group_of(token, 2).unwrap()),
        }
    }
}

/// What a pass reports for a token.
pub open spec fn noted(pass: Pass, token: TokenView, index: IndexView) -> Seq<DiagnosticView> {
    if !has_shape(pass, token) {
        Seq::empty()
    } else {
        match pass {
            Pass::Function => function_notes(index, group_of(token, 3).unwrap()),
            Pass::Symbol => symbol_notes(
                index,
                group_of(token, 1).unwrap(),
                group_of(token, 2).unwrap(),
                group_of(token, 3),
            ),
            Pass::Library => type_notes(index, group_of(token, 2).unwrap()),
            Pass::Tag => Seq::empty(),
            Pass::Parameter => Seq::empty(),
        }
    }
}

/// The tokens with the text before each, every token replaced.
pub open spec fn spliced(pass: Pass, tokens: Seq<TokenView>, index: IndexView) -> Seq<char>
    decreases tokens.len(),
{
    if tokens.len() == 0 {
        Seq::empty()
    } else {
        spliced(pass, tokens.drop_last(), index) + tokens.last().gap + rendered(
            pass,
            tokens.last(),
            index,
        )
    }
}

/// What a pass reports for the tokens, in their order.
pub open spec fn spliced_notes(pass: Pass, tokens: Seq<TokenView>, index: IndexView) -> Seq<DiagnosticView>
    decreases tokens.len(),
{
    if tokens.len() == 0 {
        Seq::empty()
    } else {
        spliced_notes(pass, tokens.drop_last(), index) + noted(pass, tokens.last(), index)
    }
}

/// The text after one pass. Where the engine has no usable answer the text
/// stays as it is.
pub open spec fn pass_text(pass: Pass, text: Seq<char>, index: IndexView) -> Seq<char> {
    match scan_text(pattern_of(pass), text) {
        Some(s) => spliced(pass, s.tokens, index) + s.tail,
        None => text,
    }
}

/// What one pass reports.
pub open spec fn pass_notes(pass: Pass, text: Seq<char>, index: IndexView) -> Seq<DiagnosticView> {
    match scan_text(pattern_of(pass), text) {
        Some(s) => spliced_notes(pass, s.tokens, index),
        None => Seq::empty(),
    }
}

/// The text after the function references, the references with `#` or `%`,
/// the library references and the tags were replaced, in that order, and the
/// runs of spaces collapsed.
pub open spec fn replaced_text(entry: Seq<char>, index: IndexView) -> Seq<char> {
    let functions = pass_text(Pass::Function, entry, index);
    let symbols = pass_text(Pass::Symbol, functions, index);
    let libraries = pass_text(Pass::Library, symbols, index);
    collapse(pass_text(Pass::Tag, libraries, index))
}

/// What those passes report, pass by pass.
pub open spec fn replaced_notes(entry: Seq<char>, index: IndexView) -> Seq<DiagnosticView> {
    let functions = pass_text(Pass::Function, entry, index);
    let symbols = pass_text(Pass::Symbol, functions, index);
    pass_notes(Pass::Function, entry, index) + pass_notes(Pass::Symbol, functions, index) + pass_notes(
        Pass::Library,
        symbols,
        index,
    )
}

/// A prose segment translated: all references replaced, the parameter
/// references last.
pub open spec fn format_text(input: Seq<char>, index: IndexView) -> Seq<char> {
    pass_text(Pass::Parameter, replaced_text(input, index), index)
}

/// What the translation of a prose segment reports.
pub open spec fn format_notes(input: Seq<char>, index: IndexView) -> Seq<DiagnosticView> {
    replaced_notes(input, index)
}

/// The text of group `i` of a token.
fn group<'a>(token: &Token<'a>, i: usize) -> (r: Option<&'a str>)
    ensures
        optional_text(r) == group_of(token@, i as int),
{
    if i < token.groups.len() {
        token.groups[i]
    } else {
        None
    }
}

/// The text, or the empty text in its place.
fn text_or_empty<'a>(text: Option<&'a str>) -> (r: &'a str)
    ensures
        r@ == match optional_text(text) {
            Some(t) => t,
            None => Seq::empty(),
        },
{
    match text {
        Some(t) => t,
        None => {
            let empty = "";
            proof {
                reveal_strlit("");
                assert(empty@ =~= Seq::empty());
            }
            empty
        },
    }
}

/// Whether a token is a function reference.
fn function_shape(token: &Token) -> (r: bool)
    ensures
        r == is_function_token(token@),
{
    match group(token, 3) {
        None => false,
        Some(name) => {
            let mut made = String::from_str(text_or_empty(group(token, 1)));
            made.append(text_or_empty(group(token, 2)));
            made.append(name);
            made.append("()");
            str_eq(made.as_str(), token.whole)
        },
    }
}

/// Whether a token is a type-class or constant-class reference.
fn symbol_shape(token: &Token) -> (r: bool)
    ensures
        r == is_symbol_token(token@),
{
    match (group(token, 1), group(token, 2)) {
        (Some(sigil), Some(body)) => {
            if !(str_eq(sigil, "#") || str_eq(sigil, "%")) {
                return false;
            }
            let mut made = String::from_str(sigil);
            made.append(body);
            made.append(text_or_empty(group(token, 3)));
            str_eq(made.as_str(), token.whole)
        },
        _ => false,
    }
}

/// Whether a token is a parameter reference.
fn parameter_shape(token: &Token) -> (r: bool)
    ensures
        r == is_parameter_token(token@),
{
    match (group(token, 1), group(token, 2)) {
        (Some(sigil), Some(body)) => {
            if !str_eq(sigil, "@") || holds_char(body, ' ') {
                return false;
            }
            let mut made = String::from_str("@");
            made.append(body);
            made.append(text_or_empty(group(token, 3)));
            str_eq(made.as_str(), token.whole)
        },
        _ => false,
    }
}

/// Whether a token is a library reference.
fn library_shape(token: &Token) -> (r: bool)
    ensures
        r == is_library_token(token@),
{
    match group(token, 2) {
        None => false,
        Some(name) => {
            let mut made = String::from_str("`");
            made.append(text_or_empty(group(token, 1)));
            made.append(name);
            made.append(text_or_empty(group(token, 4)));
            made.append("`");
            str_eq(made.as_str(), token.whole)
        },
    }
}

/// Whether a token is a tag.
fn tag_shape(token: &Token) -> (r: bool)
    ensures
        r == is_tag_token(token@),
{
    let chars = chars_of(token.whole);
    chars.len() >= 2 && chars[0] == '<' && chars[chars.len() - 1] == '>'
}

/// Whether a token has the shape that its pass replaces.
fn shape(pass: Pass, token: &Token) -> (r: bool)
    ensures
        r == has_shape(pass, token@),
{
    match pass {
        Pass::Function => function_shape(token),
        Pass::Symbol => symbol_shape(token),
        Pass::Library => library_shape(token),
        Pass::Tag => tag_shape(token),
        Pass::Parameter => parameter_shape(token),
    }
}

/// The fixed link of a literal.
fn literal(body: &str) -> (r: Option<&'static str>)
    ensures
        optional_text(r) == literal_link(body@),
{
    if str_eq(body, "TRUE") {
        Some("[`true`]")
    } else if str_eq(body, "FALSE") {
        Some("[`false`]")
    } else if str_eq(body, "NULL") {
        Some("[`None`]")
    } else {
        None
    }
}

/// Replaces a reference with a sigil.
pub fn render_symbol(sigil: &str, body: &str, suffix: Option<&str>, env: &SymbolIndex, log: &mut DiagnosticLog) -> (out:
    String)
    ensures
        out@ == symbol_text(env@, sigil@, body@, optional_text(suffix)),
        final(log)@ == old(log)@.with(symbol_notes(env@, sigil@, body@, optional_text(suffix))),
{
    proof {
        lemma_with_nothing(log@);
    }
    let link = if str_eq(sigil, "%") {
        if let Some(link) = literal(body) {
            return String::from_str(link);
        }
        find_constant_or_variant(body, env, log)
    } else {
        let member = match suffix {
            Some(s) => Some(trim_start_matches(s, '.')),
            None => None,
        };
        find_method_or_type(body, member, env, log)
    };
    match link {
        Some(link) => link,
        None => make_code_span(body),
    }
}

/// Replaces a function reference.
pub fn render_function(name: &str, env: &SymbolIndex, log: &mut DiagnosticLog) -> (out: String)
    ensures
        out@ == function_text(env@, name@),
        final(log)@ == old(log)@.with(function_notes(env@, name@)),
{
    match find_function(name, env, log) {
        Some(link) => link,
        None => {
            let mut call = String::from_str(name);
            call.append("()");
            make_code_span(call.as_str())
        },
    }
}

/// Replaces a library reference.
pub fn render_library(name: &str, env: &SymbolIndex, log: &mut DiagnosticLog) -> (out: String)
    ensures
        out@ == library_text(env@, name@),
        final(log)@ == old(log)@.with(type_notes(env@, name@)),
{
    match find_type(name, env, log) {
        Some(link) => link,
        None => make_code_span(name),
    }
}

/// Replaces one token of a pass.
pub fn render(pass: Pass, token: &Token, env: &SymbolIndex, log: &mut DiagnosticLog) -> (out: String)
    ensures
        out@ == rendered(pass, token@, env@),
        final(log)@ == old(log)@.with(noted(pass, token@, env@)),
{
    proof {
        lemma_with_nothing(log@);
    }
    if !shape(pass, token) {
        return String::from_str(token.whole);
    }
    match pass {
        Pass::Function => render_function(group(token, 3).unwrap(), env, log),
        Pass::Symbol => render_symbol(
            group(token, 1).unwrap(),
            group(token, 2).unwrap(),
            group(token, 3),
            env,
            log,
        ),
        Pass::Library => render_library(group(token, 2).unwrap(), env, log),
        Pass::Tag => make_code_span(token.whole),
        Pass::Parameter => make_code_span(group(token, 2).unwrap()),
    }
}

/// Puts a cut text together again, every token replaced as `pass` has it.
pub fn splice(pass: Pass, found: &Scan, env: &SymbolIndex, log: &mut DiagnosticLog) -> (out: String)
    ensures
        out@ == spliced(pass, found@.tokens, env@) + found@.tail,
        final(log)@ == old(log)@.with(spliced_notes(pass, found@.tokens, env@)),
{
    let ghost tokens = found@.tokens;
    let mut out = String::new();
    let mut k: usize = 0;
    proof {
        lemma_with_nothing(log@);
        assert(tokens.take(0) =~= Seq::empty());
    }
    while k < found.tokens.len()
        invariant
            k <= found.tokens.len(),
            tokens == views(found.tokens@),
            out@ == spliced(pass, tokens.take(k as int), env@),
            log@ == old(log)@.with(spliced_notes(pass, tokens.take(k as int), env@)),
        decreases found.tokens.len() - k,
    {
        let token = &found.tokens[k];
        out.append(token.gap);
        let replacement = render(pass, token, env, log);
        out.append(replacement.as_str());
        proof {
            assert(tokens.take(k + 1).drop_last() =~= tokens.take(k as int));
            assert(tokens.take(k + 1).last() == token@);
            lemma_with_with(
                old(log)@,
                spliced_notes(pass, tokens.take(k as int), env@),
                noted(pass, token@, env@),
            );
        }
        k += 1;
    }
    proof {
        assert(tokens.take(k as int) =~= tokens);
    }
    out.append(found.tail);
    out
}

/// Whether `text` holds a mark of the tokens of `pass`.
pub fn holds_mark(pass: Pass, text: &str) -> (r: bool)
    ensures
        r == !unmarked(pass, text@),
{
    let r = match pass {
        Pass::Function => holds_char(text, '('),
        Pass::Symbol => holds_char(text, '#') || holds_char(text, '%'),
        Pass::Library => holds_char(text, '`'),
        Pass::Tag => holds_char(text, '<'),
        Pass::Parameter => holds_char(text, '@'),
    };
    proof {
        assert(is_mark(Pass::Function, '('));
        assert(is_mark(Pass::Symbol, '#') && is_mark(Pass::Symbol, '%'));
        assert(is_mark(Pass::Library, '`'));
        assert(is_mark(Pass::Tag, '<'));
        assert(is_mark(Pass::Parameter, '@'));
    }
    r
}

/// Runs one pass over `text`. A text without a mark of the pass is not shown
/// to the engine: the pass would leave it as it is.
pub fn apply_pass(pass: Pass, text: &str, env: &SymbolIndex, log: &mut DiagnosticLog) -> (out: String)
    ensures
        out@ == pass_text(pass, text@, env@),
        final(log)@ == old(log)@.with(pass_notes(pass, text@, env@)),
{
    if !holds_mark(pass, text) {
        proof {
            lemma_pass_leaves_unmarked(pass, text@, env@);
            lemma_with_nothing(log@);
        }
        return String::from_str(text);
    }
    match scan(pattern(pass), text) {
        Some(found) => splice(pass, &found, env, log),
        None => {
            proof {
                lemma_with_nothing(log@);
            }
            String::from_str(text)
        },
    }
}

/// Replaces, in this order, the function references, the references with
/// `#` or `%`, the library references and the tags, and collapses the runs of
/// spaces.
pub fn replace_c_types(entry: &str, env: &SymbolIndex, log: &mut DiagnosticLog) -> (out: String)
    ensures
        out@ == replaced_text(entry@, env@),
        final(log)@ == old(log)@.with(replaced_notes(entry@, env@)),
{
    let functions = apply_pass(Pass::Function, entry, env, log);
    let symbols = apply_pass(Pass::Symbol, functions.as_str(), env, log);
    let libraries = apply_pass(Pass::Library, symbols.as_str(), env, log);
    let ghost before_tags = log@;
    let tags = apply_pass(Pass::Tag, libraries.as_str(), env, log);
    proof {
        lemma_tag_pass_silent(libraries@, env@);
        lemma_with_nothing(before_tags);
        lemma_with_with(
            old(log)@,
            pass_notes(Pass::Function, entry@, env@),
            pass_notes(Pass::Symbol, functions@, env@),
        );
        lemma_with_with(
            old(log)@,
            pass_notes(Pass::Function, entry@, env@) + pass_notes(Pass::Symbol, functions@, env@),
            pass_notes(Pass::Library, symbols@, env@),
        );
    }
    collapse_spaces(tags.as_str())
}

/// Translates one prose segment: `replace_c_types`, then the parameter
/// references.
pub fn format(input: &str, env: &SymbolIndex, log: &mut DiagnosticLog) -> (out: String)
    ensures
        out@ == format_text(input@, env@),
        final(log)@ == old(log)@.with(format_notes(input@, env@)),
{
    let replaced = replace_c_types(input, env, log);
    let ghost before = log@;
    let out = apply_pass(Pass::Parameter, replaced.as_str(), env, log);
    proof {
        lemma_parameter_pass_silent(replaced@, env@);
        lemma_with_nothing(before);
    }
    out
}

/// Tokens of a pass that reports nothing give nothing to report.
proof fn lemma_silent(pass: Pass, tokens: Seq<TokenView>, index: IndexView)
    requires
        pass == Pass::Tag || pass == Pass::Parameter,
    ensures
        spliced_notes(pass, tokens, index) == Seq::<DiagnosticView>::empty(),
    decreases tokens.len(),
{
    if tokens.len() > 0 {
        lemma_silent(pass, tokens.drop_last(), index);
        assert(Seq::<DiagnosticView>::empty() + Seq::<DiagnosticView>::empty() =~= Seq::<
            DiagnosticView,
        >::empty());
    }
}

/// The pass over the tags reports nothing.
pub proof fn lemma_tag_pass_silent(text: Seq<char>, index: IndexView)
    ensures
        pass_notes(Pass::Tag, text, index) == Seq::<DiagnosticView>::empty(),
{
    if let Some(s) = scan_text(pattern_of(Pass::Tag), text) {
        lemma_silent(Pass::Tag, s.tokens, index);
    }
}

/// The pass over the parameter references reports nothing.
pub proof fn lemma_parameter_pass_silent(text: Seq<char>, index: IndexView)
    ensures
        pass_notes(Pass::Parameter, text, index) == Seq::<DiagnosticView>::empty(),
{
    if let Some(s) = scan_text(pattern_of(Pass::Parameter), text) {
        lemma_silent(Pass::Parameter, s.tokens, index);
    }
}

/// The characters of which every token of a pass holds one.
pub open spec fn is_mark(pass: Pass, c: char) -> bool {
    match pass {
        Pass::Function => c == '(',
        Pass::Symbol => c == '#' || c == '%',
        Pass::Library => c == '`',
        Pass::Tag => c == '<',
        Pass::Parameter => c == '@',
    }
}

/// `text` holds no mark of the tokens of `pass`.
pub open spec fn unmarked(pass: Pass, text: Seq<char>) -> bool {
    forall|c: char| is_mark(pass, c) ==> !text.contains(c)
}

/// A token of a pass holds a mark of that pass.
pub proof fn lemma_shape_has_mark(pass: Pass, token: TokenView)
    requires
        has_shape(pass, token),
    ensures
        exists|c: char| is_mark(pass, c) && token.whole.contains(c),
{
    reveal_strlit("()");
    reveal_strlit("#");
    reveal_strlit("%");
    reveal_strlit("`");
    reveal_strlit("@");
    match pass {
        Pass::Function => {
            let head = group_or_empty(token, 1) + group_or_empty(token, 2) + group_of(token, 3).unwrap();
            assert(token.whole[head.len() as int] == '(');
            assert(is_mark(pass, '(') && token.whole.contains('('));
        },
        Pass::Symbol => {
            let sigil = group_of(token, 1).unwrap();
            assert(token.whole[0] == sigil[0]);
            assert(is_mark(pass, sigil[0]) && token.whole.contains(sigil[0]));
        },
        Pass::Library => {
            assert(token.whole[0] == '`');
            assert(is_mark(pass, '`') && token.whole.contains('`'));
        },
        Pass::Tag => {
            assert(token.whole[0] == '<');
            assert(is_mark(pass, '<') && token.whole.contains('<'));
        },
        Pass::Parameter => {
            assert(token.whole[0] == '@');
            assert(is_mark(pass, '@') && token.whole.contains('@'));
        },
    }
}

/// Tokens without the shape of the pass stay as they are and give nothing to
/// report.
pub proof fn lemma_unshaped_splice(pass: Pass, tokens: Seq<TokenView>, index: IndexView)
    requires
        forall|k: int| 0 <= k < tokens.len() ==> !has_shape(pass, #[trigger] tokens[k]),
    ensures
        spliced(pass, tokens, index) == assembled(tokens),
        spliced_notes(pass, tokens, index) == Seq::<DiagnosticView>::empty(),
    decreases tokens.len(),
{
    if tokens.len() > 0 {
        let front = tokens.drop_last();
        assert forall|k: int| 0 <= k < front.len() implies !has_shape(pass, #[trigger] front[k]) by {
            assert(front[k] == tokens[k]);
        }
        lemma_unshaped_splice(pass, front, index);
        assert(!has_shape(pass, tokens[tokens.len() - 1]));
        assert(Seq::<DiagnosticView>::empty() + Seq::<DiagnosticView>::empty() =~= Seq::<
            DiagnosticView,
        >::empty());
    }
}

/// A pass leaves a text alone that holds no mark of its tokens, whatever the
/// engine answers and whatever the index holds, and reports nothing.
pub proof fn lemma_pass_leaves_unmarked(pass: Pass, text: Seq<char>, index: IndexView)
    requires
        unmarked(pass, text),
    ensures
        pass_text(pass, text, index) == text,
        pass_notes(pass, text, index) == Seq::<DiagnosticView>::empty(),
{
    if let Some(captures) = regex_captures(pattern_of(pass), text) {
        if let Some(cut) = cut_all(text, captures) {
            lemma_cut_all(text, captures);
            lemma_cut_all_drawn(text, captures);
            assert forall|k: int| 0 <= k < cut.tokens.len() implies !has_shape(
                pass,
                #[trigger] cut.tokens[k],
            ) by {
                if has_shape(pass, cut.tokens[k]) {
                    lemma_shape_has_mark(pass, cut.tokens[k]);
                    let c = choose|c: char| is_mark(pass, c) && cut.tokens[k].whole.contains(c);
                    assert(text.contains(c));
                }
            }
            lemma_unshaped_splice(pass, cut.tokens, index);
        }
    }
}

/// A constant-class reference whose body is a literal is replaced by the
/// literal's fixed link whatever the index holds and whatever its member is,
/// and gives nothing to report.
pub proof fn lemma_literal_ignores_index(index: IndexView, sigil: Seq<char>, body: Seq<char>, suffix: Option<Seq<char>>)
    requires
        sigil == "%"@,
        body == "TRUE"@ || body == "FALSE"@ || body == "NULL"@,
    ensures
        body == "TRUE"@ ==> symbol_text(index, sigil, body, suffix) == "[`true`]"@,
        body == "FALSE"@ ==> symbol_text(index, sigil, body, suffix) == "[`false`]"@,
        body == "NULL"@ ==> symbol_text(index, sigil, body, suffix) == "[`None`]"@,
        symbol_notes(index, sigil, body, suffix) == Seq::<DiagnosticView>::empty(),
{
    reveal_strlit("TRUE");
    reveal_strlit("FALSE");
    reveal_strlit("NULL");
    if body == "NULL"@ {
        assert(body[0] == 'N');
        assert("TRUE"@[0] == 'T');
    } else if body == "FALSE"@ {
        assert(body.len() == 5);
        assert("TRUE"@.len() == 4);
    }
}

/// What replaces a token stands in the text of the pass.
pub proof fn lemma_spliced_holds(pass: Pass, tokens: Seq<TokenView>, index: IndexView, k: int)
    requires
        0 <= k < tokens.len(),
    ensures
        exists|i: int| occurs_at(spliced(pass, tokens, index), rendered(pass, tokens[k], index), i),
    decreases tokens.len(),
{
    let front = tokens.drop_last();
    let last = tokens.last();
    let head = spliced(pass, front, index) + last.gap;
    let whole = spliced(pass, tokens, index);
    if k == tokens.len() - 1 {
        let r = rendered(pass, last, index);
        assert(whole.subrange(head.len() as int, (head.len() + r.len()) as int) =~= r);
        assert(occurs_at(whole, r, head.len() as int));
    } else {
        lemma_spliced_holds(pass, front, index, k);
        let r = rendered(pass, front[k], index);
        let i = choose|i: int| occurs_at(spliced(pass, front, index), r, i);
        assert(whole.subrange(i, i + r.len()) =~= spliced(pass, front, index).subrange(i, i + r.len()));
        assert(occurs_at(whole, r, i));
    }
}

/// Where one of the tokens is a constant-class reference whose body is a
/// literal, the text put together again holds the literal's fixed link,
/// whatever the index holds.
pub proof fn lemma_literal_in_splice(tokens: Seq<TokenView>, tail: Seq<char>, index: IndexView, k: int)
    requires
        0 <= k < tokens.len(),
        is_symbol_token(tokens[k]),
        group_of(tokens[k], 1) == Some("%"@),
        literal_link(group_of(tokens[k], 2).unwrap()) is Some,
    ensures
        exists|i: int|
            occurs_at(
                spliced(Pass::Symbol, tokens, index) + tail,
                literal_link(group_of(tokens[k], 2).unwrap()).unwrap(),
                i,
            ),
{
    let link = literal_link(group_of(tokens[k], 2).unwrap()).unwrap();
    lemma_spliced_holds(Pass::Symbol, tokens, index, k);
    assert(rendered(Pass::Symbol, tokens[k], index) == link);
    let body = spliced(Pass::Symbol, tokens, index);
    let i = choose|i: int| occurs_at(body, link, i);
    assert((body + tail).subrange(i, i + link.len()) =~= body.subrange(i, i + link.len()));
    assert(occurs_at(body + tail, link, i));
}

/// Replacing parameter references in a text in which no space is followed
/// by a space: the tokens spliced so far are such a text, and end in a space
/// only where the tokens did as they stood.
proof fn lemma_parameter_splice(text: Seq<char>, captures: Seq<Seq<Option<(usize, usize)>>>, index: IndexView)
    requires
        single_spaced(text),
        cut_all(text, captures) is Some,
    ensures
        ({
            let tokens = cut_all(text, captures).unwrap().tokens;
            let out = spliced(Pass::Parameter, tokens, index);
            &&& single_spaced(out)
            &&& out.len() > 0 && out.last() == ' ' ==> assembled(tokens).len() > 0 && assembled(
                tokens,
            ).last() == ' '
        }),
    decreases captures.len(),
{
    if captures.len() > 0 {
        let pass = Pass::Parameter;
        let before = cut_all(text, captures.drop_last()).unwrap();
        lemma_parameter_splice(text, captures.drop_last(), index);
        lemma_cut_all(text, captures.drop_last());
        lemma_next_token(before.rest, before.consumed, captures.last());
        let (token, left, end) = next_token(before.rest, before.consumed, captures.last()).unwrap();
        let cut = cut_all(text, captures).unwrap();
        assert(cut.tokens.drop_last() =~= before.tokens);
        let out = spliced(pass, before.tokens, index);
        let was = assembled(before.tokens);
        assert(text =~= (was + token.gap) + (token.whole + left));
        lemma_prefix_single_spaced(was + token.gap, token.whole + left);
        lemma_follow(out, was, token.gap);
        if has_shape(pass, token) {
            reveal_strlit("`");
            let body = group_of(token, 2).unwrap();
            let span = code_span(body);
            assert forall|i: int| 0 <= i < span.len() implies span[i] != ' ' by {
                if 0 < i < span.len() - 1 {
                    assert(body[i - 1] == span[i]);
                    assert(body.contains(span[i]));
                }
            }
            lemma_follow_spaceless(out + token.gap, span);
        } else {
            assert(text =~= (was + token.gap + token.whole) + left);
            lemma_prefix_single_spaced(was + token.gap + token.whole, left);
            lemma_follow(out + token.gap, was + token.gap, token.whole);
        }
    }
}

/// The pass over the parameter references keeps a text free of a space
/// after a space.
pub proof fn lemma_parameter_pass_single_spaced(text: Seq<char>, index: IndexView)
    requires
        single_spaced(text),
    ensures
        single_spaced(pass_text(Pass::Parameter, text, index)),
{
    if let Some(captures) = regex_captures(pattern_of(Pass::Parameter), text) {
        if let Some(cut) = cut_all(text, captures) {
            lemma_parameter_splice(text, captures, index);
            lemma_cut_all(text, captures);
            lemma_follow(spliced(Pass::Parameter, cut.tokens, index), assembled(cut.tokens), cut.rest);
        }
    }
}

/// In a translated prose segment no space is followed by a space, whatever
/// the segment, the engine's answers and the index are.
pub proof fn lemma_format_single_spaced(input: Seq<char>, index: IndexView)
    ensures
        single_spaced(format_text(input, index)),
{
    let functions = pass_text(Pass::Function, input, index);
    let symbols = pass_text(Pass::Symbol, functions, index);
    let libraries = pass_text(Pass::Library, symbols, index);
    lemma_collapse_single_spaced(pass_text(Pass::Tag, libraries, index));
    lemma_parameter_pass_single_spaced(replaced_text(input, index), index);
}

/// A prose segment that holds none of the characters `(`, `#`, `%`, `` ` ``,
/// `<` and `@` is translated by collapsing its runs of spaces and by nothing
/// else, and gives nothing to report.
pub proof fn lemma_format_plain(input: Seq<char>, index: IndexView)
    requires
        !input.contains('('),
        !input.contains('#'),
        !input.contains('%'),
        !input.contains('`'),
        !input.contains('<'),
        !input.contains('@'),
    ensures
        format_text(input, index) == collapse(input),
        format_notes(input, index) == Seq::<DiagnosticView>::empty(),
{
    lemma_pass_leaves_unmarked(Pass::Function, input, index);
    lemma_pass_leaves_unmarked(Pass::Symbol, input, index);
    lemma_pass_leaves_unmarked(Pass::Library, input, index);
    lemma_pass_leaves_unmarked(Pass::Tag, input, index);
    lemma_collapse_keeps(input);
    lemma_pass_leaves_unmarked(Pass::Parameter, collapse(input), index);
    assert(Seq::<DiagnosticView>::empty() + Seq::<DiagnosticView>::empty() =~= Seq::<
        DiagnosticView,
    >::empty());
}

/// A reference marked as a type that names an ignored C-level type, without
/// a member, becomes that name as inert code, whatever the index holds, and
/// so does a library reference to such a name. Neither gives anything to
/// report.
pub proof fn lemma_ignored_type_is_inert(index: IndexView, name: Seq<char>)
    requires
        is_ignored_c_type(name),
    ensures
        symbol_text(index, "#"@, name, None) == code_span(name),
        symbol_notes(index, "#"@, name, None) == Seq::<DiagnosticView>::empty(),
        library_text(index, name) == code_span(name),
{
    reveal_strlit("#");
    reveal_strlit("%");
    assert("#"@[0] != "%"@[0]);
    lemma_ignored_type(index, name);
}

/// A reference to a name that no table of the index knows becomes inert
/// code that shows the reference as it read: the name, and `()` after it for
/// a function reference. The literals are the exception: a constant-class
/// reference to one is a link without the literal being in any table.
pub proof fn lemma_absent_is_inert(index: IndexView, name: Seq<char>, sigil: Seq<char>, suffix: Option<Seq<char>>)
    requires
        is_absent(index, name),
    ensures
        function_text(index, name) == code_span(name + "()"@),
        library_text(index, name) == code_span(name),
        !is_literal(sigil, name) ==> symbol_text(index, sigil, name, suffix) == code_span(name),
{
    lemma_absent_resolves_to_nothing(index, name, member_of(suffix));
}

/// The engine finds one match in `text`, and the cut of it is `token` with
/// `tail` after it.
pub open spec fn is_only_token(pass: Pass, text: Seq<char>, token: TokenView, tail: Seq<char>) -> bool {
    scan_text(pattern_of(pass), text) == Some(ScanView { tokens: seq![token], tail })
}

/// A text in which the engine finds one match is the text before the match,
/// the match and the text after it; the pass puts what replaces the token
/// in the place of the match and leaves the rest as it is, and reports what
/// the token gives to report.
pub proof fn lemma_pass_of_one_token(pass: Pass, text: Seq<char>, index: IndexView, token: TokenView, tail: Seq<char>)
    ensures
        is_only_token(pass, text, token, tail) ==> {
            &&& text == token.gap + token.whole + tail
            &&& pass_text(pass, text, index) == token.gap + rendered(pass, token, index) + tail
            &&& pass_notes(pass, text, index) == noted(pass, token, index)
        },
{
    if is_only_token(pass, text, token, tail) {
        let tokens = seq![token];
        let captures = regex_captures(pattern_of(pass), text).unwrap();
        lemma_cut_all(text, captures);
        let none = tokens.drop_last();
        assert(none.len() == 0);
        assert(tokens.last() == token);
        assert(spliced(pass, none, index) =~= Seq::<char>::empty());
        assert(assembled(none) =~= Seq::<char>::empty());
        assert(spliced_notes(pass, none, index) =~= Seq::<DiagnosticView>::empty());
        assert(spliced(pass, tokens, index) =~= token.gap + rendered(pass, token, index));
        assert(assembled(tokens) =~= token.gap + token.whole);
        assert(spliced_notes(pass, tokens, index) =~= noted(pass, token, index));
    }
}

/// Where the one function reference of a text names a function that the
/// index knows, the whole reference, its sigil, scope and parentheses
/// included, gives way to the link of the function lookup on its name; the
/// text around it stays.
pub proof fn lemma_function_reference_in_text(
    text: Seq<char>,
    index: IndexView,
    token: TokenView,
    tail: Seq<char>,
    link: Seq<char>,
)
    ensures
        is_only_token(Pass::Function, text, token, tail) && is_function_token(token) && resolve_function(
            index,
            group_of(token, 3).unwrap(),
        ) == Some(link) ==> pass_text(Pass::Function, text, index) == token.gap + link + tail && pass_notes(
            Pass::Function,
            text,
            index,
        ) == Seq::<DiagnosticView>::empty(),
{
    lemma_pass_of_one_token(Pass::Function, text, index, token, tail);
}

/// Where the one reference with a sigil of a text names what no table of
/// the index knows, and is no literal, it gives way to its body as inert
/// code; the text around it stays.
pub proof fn lemma_absent_reference_in_text(text: Seq<char>, index: IndexView, token: TokenView, tail: Seq<char>)
    ensures
        is_only_token(Pass::Symbol, text, token, tail) && is_symbol_token(token) && is_absent(
            index,
            group_of(token, 2).unwrap(),
        ) && !is_literal(group_of(token, 1).unwrap(), group_of(token, 2).unwrap()) ==> pass_text(
            Pass::Symbol,
            text,
            index,
        ) == token.gap + code_span(group_of(token, 2).unwrap()) + tail,
{
    lemma_pass_of_one_token(Pass::Symbol, text, index, token, tail);
    if is_symbol_token(token) && is_absent(index, group_of(token, 2).unwrap()) {
        lemma_absent_is_inert(
            index,
            group_of(token, 2).unwrap(),
            group_of(token, 1).unwrap(),
            group_of(token, 3),
        );
    }
}

/// Where the one reference with a sigil of a text is a type-class reference
/// without a member to the C-level type name of a record type, which no
/// object type has and which is not ignored, it gives way to the link of
/// that record; the text around it stays, and there is nothing to report.
pub proof fn lemma_record_reference_in_text(
    text: Seq<char>,
    index: IndexView,
    token: TokenView,
    tail: Seq<char>,
    i: int,
)
    ensures
        ({
            let name = group_of(token, 2).unwrap();
            &&& is_only_token(Pass::Symbol, text, token, tail)
            &&& is_symbol_token(token)
            &&& group_of(token, 1) == Some("#"@)
            &&& group_of(token, 3) is None
            &&& !is_ignored_c_type(name)
            &&& forall|k: int| 0 <= k < index.objects.len() ==> (#[trigger] index.objects[k]).c_type != name
            &&& 0 <= i < index.records.len()
            &&& index.records[i].c_type == name
            &&& forall|k: int| 0 <= k < i ==> (#[trigger] index.records[k]).c_type != name
        }) ==> pass_text(Pass::Symbol, text, index) == token.gap + item_link(index.records[i].rust_name)
            + tail && pass_notes(Pass::Symbol, text, index) == Seq::<DiagnosticView>::empty(),
{
    reveal_strlit("#");
    reveal_strlit("%");
    assert("#"@[0] != "%"@[0]);
    lemma_pass_of_one_token(Pass::Symbol, text, index, token, tail);
    let name = group_of(token, 2).unwrap();
    if !is_ignored_c_type(name) && (forall|k: int|
        0 <= k < index.objects.len() ==> (#[trigger] index.objects[k]).c_type != name) && 0 <= i
        < index.records.len() && index.records[i].c_type == name && (forall|k: int|
        0 <= k < i ==> (#[trigger] index.records[k]).c_type != name) {
        lemma_record_type(index, name, i);
    }
}

/// Where the one reference with a sigil of a text is a constant-class
/// reference to the C-level identifier of a member of a flag type, and no
/// literal, it gives way to the link of that member under its type, not to
/// inert code; the text around it stays, and there is nothing to report.
pub proof fn lemma_flag_reference_in_text(
    text: Seq<char>,
    index: IndexView,
    token: TokenView,
    tail: Seq<char>,
    i: int,
    j: int,
)
    ensures
        ({
            let symbol = group_of(token, 2).unwrap();
            &&& is_only_token(Pass::Symbol, text, token, tail)
            &&& is_symbol_token(token)
            &&& group_of(token, 1) == Some("%"@)
            &&& literal_link(symbol) is None
            &&& 0 <= i < index.flags.len()
            &&& 0 <= j < index.flags[i].members.len()
            &&& member_has(symbol)(index.flags[i].members[j])
            &&& forall|k: int| 0 <= k < j ==> !member_has(symbol)(#[trigger] index.flags[i].members[k])
            &&& forall|i2: int, j2: int|
                0 <= i2 < i && 0 <= j2 < index.flags[i2].members.len() ==> !member_has(symbol)(
                    #[trigger] index.flags[i2].members[j2],
                )
        }) ==> pass_text(Pass::Symbol, text, index) == token.gap + member_link(
            index.flags[i].rust_name,
            index.flags[i].members[j].name,
        ) + tail && pass_notes(Pass::Symbol, text, index) == Seq::<DiagnosticView>::empty(),
{
    lemma_pass_of_one_token(Pass::Symbol, text, index, token, tail);
    let symbol = group_of(token, 2).unwrap();
    if 0 <= i < index.flags.len() && 0 <= j < index.flags[i].members.len() && member_has(symbol)(
        index.flags[i].members[j],
    ) && (forall|k: int| 0 <= k < j ==> !member_has(symbol)(#[trigger] index.flags[i].members[k]))
        && (forall|i2: int, j2: int|
        0 <= i2 < i && 0 <= j2 < index.flags[i2].members.len() ==> !member_has(symbol)(
            #[trigger] index.flags[i2].members[j2],
        )) {
        lemma_flag_member(index, symbol, i, j);
    }
}

} // verus!
