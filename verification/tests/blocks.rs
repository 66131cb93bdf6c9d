use doc_format::blocks::get_language;
use doc_format::{
    code_blocks_transformation, reformat_doc, DiagnosticLog, FunctionInfo, Problem, SymbolIndex,
};

fn index() -> SymbolIndex {
    let mut index = SymbolIndex::new();
    index.functions.push(FunctionInfo { glib_name: "gtk_init".to_string(), name: "init".to_string() });
    index
}

#[test]
fn block_without_language_is_fenced_as_text() {
    let out = reformat_doc("before |[\nlet x;\n]| after", &index(), "t");
    assert_eq!(out, "before \n```text\nlet x;\n``` after");
}

#[test]
fn language_is_taken_from_the_start_of_the_block() {
    let out = reformat_doc("|[<!-- language=\"C\" -->\nint x;\n]|", &index(), "t");
    assert_eq!(out, "\n```C\nint x;\n```");
    let out = reformat_doc("|[<!-- language=\"plain text\" -->x\n]|", &index(), "t");
    assert_eq!(out, "\n```plain textx\n```");
    let out = reformat_doc("|[<!-- language=\"\" -->x\n]|", &index(), "t");
    assert_eq!(out, "\n```x\n```");
}

#[test]
fn language_further_on_is_no_language_of_the_block() {
    let out = reformat_doc("|[ <!-- language=\"C\" -->x\n]|", &index(), "t");
    assert_eq!(out, "\n```text <!-- language=\"C\" -->x\n```");
    let out = reformat_doc("|[\nint x;\n]| and |[<!-- language=\"C\" -->y\n]|", &index(), "t");
    assert_eq!(out, "\n```text\nint x;\n``` and \n```Cy\n```");
}

#[test]
fn language_that_is_not_closed_is_no_language() {
    let out = reformat_doc("|[<!-- language=\"C\" x\n]|", &index(), "t");
    assert_eq!(out, "\n```text<!-- language=\"C\" x\n```");
}

#[test]
fn unterminated_block_gets_no_closing_fence() {
    let out = reformat_doc("a |[ b ] | c", &index(), "t");
    assert_eq!(out, "a \n```text b ] | c");
    let out = reformat_doc("|[<!-- language=\"C\" -->int x;", &index(), "t");
    assert_eq!(out, "\n```Cint x;");
    let out = reformat_doc("|[", &index(), "t");
    assert_eq!(out, "\n```text");
}

#[test]
fn block_opened_in_an_unterminated_block_is_a_block() {
    let out = reformat_doc("|[ a |[ b", &index(), "t");
    assert_eq!(out, "\n```text a \n```text b");
    let out = reformat_doc("|[<!-- language=\"C\" --> a |[ b\n]| c", &index(), "t");
    assert_eq!(out, "\n```C a |[ b\n``` c");
}

#[test]
fn block_opened_inside_a_block_is_part_of_its_body() {
    let out = reformat_doc("|[ a\n]| |[ b |[ c\n]| d", &index(), "t");
    assert_eq!(out, "\n```text a\n``` \n```text b |[ c\n``` d");
}

#[test]
fn several_blocks_keep_their_order() {
    let out = reformat_doc("one |[1\n]| two |[<!-- language=\"js\" -->2\n]| three", &index(), "t");
    assert_eq!(out, "one \n```text1\n``` two \n```js2\n``` three");
}

#[test]
fn block_closes_at_the_first_marker() {
    let out = reformat_doc("|[ x ]|\n]|", &index(), "t");
    assert_eq!(out, "\n```text x \n```\n]|");
    let out = reformat_doc("a |[ b ]| c", &index(), "t");
    assert_eq!(out, "a \n```text b \n``` c");
    let out = reformat_doc("|[]|", &index(), "t");
    assert_eq!(out, "\n```text\n```");
}

#[test]
fn line_break_before_the_marker_belongs_to_it() {
    let on_one_line = reformat_doc("|[<!-- language=\"c\" -->int x = 0;]| end", &index(), "t");
    let on_its_own_line = reformat_doc("|[<!-- language=\"c\" -->int x = 0;\n]| end", &index(), "t");
    assert_eq!(on_one_line, "\n```cint x = 0;\n``` end");
    assert_eq!(on_its_own_line, on_one_line);
    let out = reformat_doc("|[\nint x = 0;\n]|", &index(), "t");
    assert_eq!(out, "\n```text\nint x = 0;\n```");
    let out = reformat_doc("|[x\n\n]|", &index(), "t");
    assert_eq!(out, "\n```textx\n\n```");
    let out = reformat_doc("|[x\r\n]|", &index(), "t");
    assert_eq!(out, "\n```textx\r\n```");
    let out = reformat_doc("|[\n]|", &index(), "t");
    assert_eq!(out, "\n```text\n```");
}

#[test]
fn closing_marker_without_a_block_stays() {
    let out = reformat_doc("text\n]| more", &index(), "t");
    assert_eq!(out, "text\n]| more");
}

#[test]
fn references_are_resolved_in_every_segment() {
    let mut log = DiagnosticLog::new("t");
    let out = code_blocks_transformation(
        "call gtk_init() |[\ngtk_init();\nmissing();\n]| or  @later",
        &index(),
        &mut log,
    );
    assert_eq!(out, "call [`init()`][crate::init()] \n```text\n[`init()`][crate::init()];\n`missing()`;\n``` or `later`");
    assert_eq!(log.entries.len(), 1);
    assert_eq!(log.entries[0].problem, Problem::FunctionNotFound);
    assert_eq!(log.entries[0].symbol, "missing");
}

#[test]
fn diagnostics_come_segment_by_segment() {
    let mut log = DiagnosticLog::new("t");
    code_blocks_transformation("#C a() |[ #B b()\n]| #A", &index(), &mut log);
    let symbols: Vec<&str> = log.entries.iter().map(|d| d.symbol.as_str()).collect();
    assert_eq!(symbols, vec!["a", "C", "b", "B", "A"]);
}

#[test]
fn log_keeps_what_it_held() {
    let mut log = DiagnosticLog::new("t");
    code_blocks_transformation("first()", &index(), &mut log);
    code_blocks_transformation("second()", &index(), &mut log);
    let symbols: Vec<&str> = log.entries.iter().map(|d| d.symbol.as_str()).collect();
    assert_eq!(symbols, vec!["first", "second"]);
}

#[test]
fn text_does_not_depend_on_the_item() {
    let input = "see #Thing and |[ code\n]|";
    assert_eq!(reformat_doc(input, &index(), "A"), reformat_doc(input, &index(), "B"));
}

#[test]
fn empty_comment_is_empty() {
    assert_eq!(reformat_doc("", &index(), "t"), "");
}

#[test]
fn get_language_writes_the_fence_and_gives_the_rest() {
    let mut out = String::from("so far");
    assert_eq!(get_language("<!-- language=\"xml\" --><a/>", &mut out), "<a/>");
    assert_eq!(out, "so far\n```xml");
    let mut out = String::new();
    assert_eq!(get_language("no language", &mut out), "no language");
    assert_eq!(out, "\n```text");
    let mut out = String::new();
    assert_eq!(get_language("", &mut out), "");
    assert_eq!(out, "\n```text");
    let mut out = String::new();
    assert_eq!(get_language("<!-- language=\"a\" --><!-- language=\"b\" -->", &mut out), "<!-- language=\"b\" -->");
    assert_eq!(out, "\n```a");
}

#[test]
fn spaces_collapse_in_every_segment() {
    let out = reformat_doc("a  |[<!-- language=\"c\" -->  x   y\n]|   b  |[  z", &index(), "t");
    assert_eq!(out, "a \n```c x y\n``` b \n```text z");
}

#[test]
fn fence_carries_the_language_as_it_stands() {
    let out = reformat_doc("|[<!-- language=\"a  b \" --> x\n]|", &index(), "t");
    assert_eq!(out, "\n```a  b  x\n```");
    let out = reformat_doc("|[<!-- language=\"#c @d\" -->x\n]|", &index(), "t");
    assert_eq!(out, "\n```#c @dx\n```");
}

#[test]
fn language_that_ends_in_a_space_is_carried_too() {
    let out = reformat_doc("|[<!-- language=\"c \" -->x", &index(), "t");
    assert_eq!(out, "\n```c x");
    assert!(!out.contains("  "));
    let out = reformat_doc("|[<!-- language=\"c \" --> x", &index(), "t");
    assert_eq!(out, "\n```c  x");
}
