use doc_format::{
    code_blocks_transformation, reformat_doc, ConstantInfo, DiagnosticLog, EnumInfo, FunctionInfo,
    MemberInfo, MethodInfo, ObjectInfo, Problem, RecordInfo, Severity, SymbolIndex, TypeName,
};

fn s(text: &str) -> String {
    text.to_string()
}

fn sample_index() -> SymbolIndex {
    let mut index = SymbolIndex::new();
    index.objects.push(ObjectInfo {
        full_name: s("Gtk.Button"),
        c_type: s("GtkButton"),
        names: TypeName { rust_name: s("Button"), name: s("Button") },
        functions: vec![
            MethodInfo {
                function: FunctionInfo { glib_name: s("gtk_button_new"), name: s("new") },
                declared_on: None,
            },
            MethodInfo {
                function: FunctionInfo { glib_name: s("gtk_button_clicked"), name: s("clicked") },
                declared_on: Some(TypeName { rust_name: s("prelude::ButtonExt"), name: s("ButtonExt") }),
            },
        ],
    });
    index.records.push(RecordInfo {
        c_type: s("Widget"),
        rust_name: s("Widget"),
        functions: vec![FunctionInfo { glib_name: s("widget_copy"), name: s("copy") }],
    });
    index.enumerations.push(EnumInfo {
        c_type: s("GtkAlign"),
        rust_name: s("Align"),
        members: vec![
            MemberInfo { c_identifier: s("GTK_ALIGN_FILL"), name: s("Fill"), ignored: false },
            MemberInfo { c_identifier: s("GTK_ALIGN_OLD"), name: s("Old"), ignored: true },
        ],
    });
    index.flags.push(EnumInfo {
        c_type: s("OwnerFlags"),
        rust_name: s("OwnerFlags"),
        members: vec![MemberInfo { c_identifier: s("MY_FLAG_ONE"), name: s("MyFlagOne"), ignored: false }],
    });
    index.functions.push(FunctionInfo { glib_name: s("gtk_init"), name: s("init") });
    index.constants.push(ConstantInfo { glib_name: s("GTK_MAJOR_VERSION"), name: s("MAJOR_VERSION") });
    index
}

#[test]
fn record_type_reference_becomes_a_link() {
    let out = reformat_doc("See #Widget for details", &sample_index(), "Button");
    assert_eq!(out, "See [`Widget`][crate::Widget] for details");
}

#[test]
fn block_with_language_is_fenced() {
    let out = reformat_doc("|[<!-- language=\"c\" --> int x = 0; ]|", &sample_index(), "Button");
    assert_eq!(out, "\n```c int x = 0; \n```");
    assert!(!out.contains("<!--") && !out.contains("]|"));
    let out = reformat_doc("|[<!-- language=\"c\" -->\nint x = 0;\n]|", &sample_index(), "Button");
    assert_eq!(out, "\n```c\nint x = 0;\n```");
}

#[test]
fn flag_member_reference_becomes_a_link() {
    let out = reformat_doc("%MY_FLAG_ONE is set", &sample_index(), "Button");
    assert_eq!(out, "[`OwnerFlags::MyFlagOne`][crate::OwnerFlags::MyFlagOne] is set");
}

#[test]
fn expected_absentee_is_inert_code_with_an_informational_diagnostic() {
    let index = sample_index();
    let mut log = DiagnosticLog::new("Button");
    let out = code_blocks_transformation("call g_free()", &index, &mut log);
    assert_eq!(out, "call `g_free()`");
    assert_eq!(log.entries.len(), 1);
    assert_eq!(log.entries[0].severity, Severity::Info);
    assert_eq!(log.entries[0].problem, Problem::FunctionNotFound);
    assert_eq!(log.entries[0].symbol, "g_free");
    assert_eq!(log.entries[0].member, None);
    assert_eq!(log.in_type, "Button");
}

#[test]
fn unknown_function_is_inert_code_with_a_warning() {
    let index = sample_index();
    let mut log = DiagnosticLog::new("Button");
    let out = code_blocks_transformation("call free_thing()", &index, &mut log);
    assert_eq!(out, "call `free_thing()`");
    assert_eq!(log.entries.len(), 1);
    assert_eq!(log.entries[0].severity, Severity::Warning);
    assert_eq!(log.entries[0].problem, Problem::FunctionNotFound);
    assert_eq!(log.entries[0].symbol, "free_thing");
}

#[test]
fn runs_of_spaces_collapse_to_one() {
    let out = reformat_doc("a  b   c d", &sample_index(), "Button");
    assert_eq!(out, "a b c d");
}

#[test]
fn plain_text_changes_by_its_spaces_only() {
    let index = sample_index();
    let mut log = DiagnosticLog::new("Button");
    let once = code_blocks_transformation("Nothing to   see here, really.", &index, &mut log);
    assert_eq!(once, "Nothing to see here, really.");
    assert!(log.entries.is_empty());
    let twice = reformat_doc(&once, &index, "Button");
    assert_eq!(twice, once);
}

#[test]
fn literals_are_links_whatever_the_index_holds() {
    let empty = SymbolIndex::new();
    assert_eq!(reformat_doc("%TRUE, %FALSE or %NULL", &empty, "x"), "[`true`], [`false`] or [`None`]");
    let mut misleading = SymbolIndex::new();
    misleading.constants.push(ConstantInfo { glib_name: s("TRUE"), name: s("TRUE") });
    misleading.records.push(RecordInfo { c_type: s("NULL"), rust_name: s("Null"), functions: vec![] });
    let mut log = DiagnosticLog::new("x");
    let out = code_blocks_transformation("%TRUE, %FALSE or %NULL", &misleading, &mut log);
    assert_eq!(out, "[`true`], [`false`] or [`None`]");
    assert!(log.entries.is_empty());
}

#[test]
fn type_reference_is_never_a_literal() {
    let empty = SymbolIndex::new();
    let mut log = DiagnosticLog::new("x");
    let out = code_blocks_transformation("#TRUE, #FALSE or #NULL", &empty, &mut log);
    assert_eq!(out, "`TRUE`, `FALSE` or `NULL`");
    assert_eq!(log.entries.len(), 3);
    for entry in &log.entries {
        assert_eq!(entry.severity, Severity::Warning);
        assert_eq!(entry.problem, Problem::SymbolNotFound);
    }
    let mut index = SymbolIndex::new();
    index.constants.push(ConstantInfo { glib_name: s("TRUE"), name: s("TRUE") });
    index.records.push(RecordInfo { c_type: s("NULL"), rust_name: s("Null"), functions: vec![] });
    let mut log = DiagnosticLog::new("x");
    let out = code_blocks_transformation("#TRUE, #FALSE or #NULL", &index, &mut log);
    assert_eq!(out, "[`TRUE`][crate::TRUE], `FALSE` or [`Null`][crate::Null]");
    assert_eq!(log.entries.len(), 2);
    assert_eq!(log.entries[0].problem, Problem::NotAType);
    assert_eq!(log.entries[0].symbol, "TRUE");
    assert_eq!(log.entries[1].problem, Problem::SymbolNotFound);
    assert_eq!(log.entries[1].symbol, "FALSE");
}

#[test]
fn ignored_type_names_are_never_links() {
    let mut index = SymbolIndex::new();
    for name in ["gconstpointer", "guint16", "guint", "gunicode", "gchararray", "GList"] {
        index.records.push(RecordInfo { c_type: s(name), rust_name: s("Trap"), functions: vec![] });
        index.constants.push(ConstantInfo { glib_name: s(name), name: s("TRAP") });
    }
    let mut log = DiagnosticLog::new("x");
    let out = code_blocks_transformation(
        "#gconstpointer #guint16 #guint #gunicode #gchararray #GList",
        &index,
        &mut log,
    );
    assert_eq!(out, "`gconstpointer` `guint16` `guint` `gunicode` `gchararray` `GList`");
    assert!(log.entries.is_empty());
}

#[test]
fn method_of_one_object_links_to_the_declaring_type() {
    let index = sample_index();
    let mut log = DiagnosticLog::new("Button");
    let out = code_blocks_transformation("gtk_button_clicked() and gtk_button_new()", &index, &mut log);
    assert_eq!(
        out,
        "[`ButtonExt::clicked()`][crate::prelude::ButtonExt::clicked()] and [`Button::new()`][crate::Button::new()]"
    );
    assert!(log.entries.is_empty());
}

#[test]
fn unknown_names_become_inert_code() {
    let index = sample_index();
    let mut log = DiagnosticLog::new("Button");
    let out = code_blocks_transformation("#Nope, %NOPE and nope()", &index, &mut log);
    assert_eq!(out, "`Nope`, `NOPE` and `nope()`");
    assert_eq!(log.entries.len(), 3);
    assert_eq!(log.entries[0].problem, Problem::FunctionNotFound);
    assert_eq!(log.entries[0].symbol, "nope");
    assert_eq!(log.entries[1].problem, Problem::SymbolNotFound);
    assert_eq!(log.entries[1].symbol, "Nope");
    assert_eq!(log.entries[1].severity, Severity::Warning);
    assert_eq!(log.entries[2].problem, Problem::SymbolNotFound);
    assert_eq!(log.entries[2].symbol, "NOPE");
}

#[test]
fn text_outside_ascii_is_cut_between_characters() {
    let out = reformat_doc("héllo  #Widget — ünï @çé, naïve() and ünï_x()", &sample_index(), "Button");
    assert_eq!(out, "héllo [`Widget`][crate::Widget] — ünï `çé`, naïve() and ünï_x()");
    let out = reformat_doc("«%MY_FLAG_ONE»  ≠  gtk_init()…", &sample_index(), "Button");
    assert_eq!(out, "«[`OwnerFlags::MyFlagOne`][crate::OwnerFlags::MyFlagOne]» ≠ [`init()`][crate::init()]…");
}
