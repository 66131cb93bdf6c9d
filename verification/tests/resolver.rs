use doc_format::resolve::{
    expected_absentee, find_constant_or_variant, find_function, find_method_or_type, find_type,
    ignored_c_type,
};
use doc_format::{
    ConstantInfo, DiagnosticLog, EnumInfo, FunctionInfo, MemberInfo, MethodInfo, ObjectInfo, Problem,
    RecordInfo, Severity, SymbolIndex, TypeName,
};

fn s(text: &str) -> String {
    text.to_string()
}

fn function(glib_name: &str, name: &str) -> FunctionInfo {
    FunctionInfo { glib_name: s(glib_name), name: s(name) }
}

fn method(glib_name: &str, name: &str) -> MethodInfo {
    MethodInfo { function: function(glib_name, name), declared_on: None }
}

fn object(full_name: &str, c_type: &str, name: &str, functions: Vec<MethodInfo>) -> ObjectInfo {
    ObjectInfo {
        full_name: s(full_name),
        c_type: s(c_type),
        names: TypeName { rust_name: s(name), name: s(name) },
        functions,
    }
}

fn member(c_identifier: &str, name: &str, ignored: bool) -> MemberInfo {
    MemberInfo { c_identifier: s(c_identifier), name: s(name), ignored }
}

fn index() -> SymbolIndex {
    SymbolIndex {
        objects: vec![
            object("Gtk.Label", "GtkLabel", "Label", vec![method("gtk_label_new", "new"), method("shared", "from_label")]),
            object("GtkEntry", "GtkEntry", "Entry", vec![method("gtk_entry_text", "text"), method("shared", "from_entry")]),
        ],
        records: vec![
            RecordInfo { c_type: s("GtkBorder"), rust_name: s("Border"), functions: vec![function("gtk_border_copy", "copy"), function("shared", "from_border")] },
            RecordInfo { c_type: s("GtkLabel"), rust_name: s("LabelRecord"), functions: vec![] },
        ],
        enumerations: vec![EnumInfo {
            c_type: s("GtkAlign"),
            rust_name: s("Align"),
            members: vec![member("GTK_ALIGN_OLD", "Old", true), member("GTK_ALIGN_FILL", "Fill", false), member("BOTH", "EnumBoth", false)],
        }],
        flags: vec![EnumInfo {
            c_type: s("GtkStateFlags"),
            rust_name: s("StateFlags"),
            members: vec![member("GTK_STATE_FLAG_ACTIVE", "ACTIVE", false), member("BOTH", "FLAG_BOTH", false)],
        }],
        functions: vec![function("gtk_init", "init"), function("shared", "from_globals"), function("only_global", "only")],
        constants: vec![
            ConstantInfo { glib_name: s("GTK_MAJOR_VERSION"), name: s("MAJOR_VERSION") },
            ConstantInfo { glib_name: s("BOTH"), name: s("CONST_BOTH") },
            ConstantInfo { glib_name: s("GTK_ALIGN_OLD"), name: s("ALIGN_OLD") },
        ],
    }
}

#[test]
fn function_of_an_object_comes_first() {
    let mut log = DiagnosticLog::new("t");
    let link = find_function("shared", &index(), &mut log);
    assert_eq!(link, Some(s("[`Label::from_label()`][crate::Label::from_label()]")));
    assert!(log.entries.is_empty());
}

#[test]
fn function_of_a_record_comes_before_a_free_function() {
    let mut idx = index();
    idx.objects.clear();
    let mut log = DiagnosticLog::new("t");
    let link = find_function("shared", &idx, &mut log);
    assert_eq!(link, Some(s("[`Border::from_border()`][crate::Border::from_border()]")));
    assert_eq!(find_function("gtk_border_copy", &index(), &mut log), Some(s("[`Border::copy()`][crate::Border::copy()]")));
    assert!(log.entries.is_empty());
}

#[test]
fn free_function_is_linked_without_an_owner() {
    let mut log = DiagnosticLog::new("t");
    assert_eq!(find_function("only_global", &index(), &mut log), Some(s("[`only()`][crate::only()]")));
    assert!(log.entries.is_empty());
}

#[test]
fn function_is_looked_up_by_its_c_identifier_not_by_its_name() {
    let mut log = DiagnosticLog::new("t");
    assert_eq!(find_function("init", &index(), &mut log), None);
    assert_eq!(log.entries.len(), 1);
    assert_eq!(log.entries[0].severity, Severity::Warning);
    assert_eq!(log.entries[0].problem, Problem::FunctionNotFound);
    assert_eq!(log.entries[0].symbol, "init");
}

#[test]
fn every_expected_absentee_is_reported_as_information() {
    for name in ["g_object_unref", "g_object_ref", "g_free", "g_list_free", "g_strfreev", "printf"] {
        assert!(expected_absentee(name));
        let mut log = DiagnosticLog::new("t");
        assert_eq!(find_function(name, &index(), &mut log), None);
        assert_eq!(log.entries.len(), 1);
        assert_eq!(log.entries[0].severity, Severity::Info);
        assert_eq!(log.entries[0].symbol, name);
    }
    assert!(!expected_absentee("g_malloc"));
    assert!(!expected_absentee(""));
}

#[test]
fn expected_absentee_that_the_index_knows_is_linked() {
    let mut idx = index();
    idx.functions.push(function("g_free", "free"));
    let mut log = DiagnosticLog::new("t");
    assert_eq!(find_function("g_free", &idx, &mut log), Some(s("[`free()`][crate::free()]")));
    assert!(log.entries.is_empty());
}

#[test]
fn member_of_a_flag_type_comes_first() {
    let mut log = DiagnosticLog::new("t");
    assert_eq!(
        find_constant_or_variant("BOTH", &index(), &mut log),
        Some(s("[`StateFlags::FLAG_BOTH`][crate::StateFlags::FLAG_BOTH]"))
    );
    assert_eq!(
        find_constant_or_variant("GTK_STATE_FLAG_ACTIVE", &index(), &mut log),
        Some(s("[`StateFlags::ACTIVE`][crate::StateFlags::ACTIVE]"))
    );
    assert!(log.entries.is_empty());
}

#[test]
fn member_of_an_enumeration_comes_before_a_constant() {
    let mut idx = index();
    idx.flags.clear();
    let mut log = DiagnosticLog::new("t");
    assert_eq!(
        find_constant_or_variant("BOTH", &idx, &mut log),
        Some(s("[`Align::EnumBoth`][crate::Align::EnumBoth]"))
    );
    assert_eq!(
        find_constant_or_variant("GTK_ALIGN_FILL", &idx, &mut log),
        Some(s("[`Align::Fill`][crate::Align::Fill]"))
    );
    assert!(log.entries.is_empty());
}

#[test]
fn constant_is_linked_by_its_name() {
    let mut log = DiagnosticLog::new("t");
    assert_eq!(
        find_constant_or_variant("GTK_MAJOR_VERSION", &index(), &mut log),
        Some(s("[`MAJOR_VERSION`][crate::MAJOR_VERSION]"))
    );
    assert!(log.entries.is_empty());
}

#[test]
fn ignored_member_is_passed_over() {
    let mut log = DiagnosticLog::new("t");
    assert_eq!(
        find_constant_or_variant("GTK_ALIGN_OLD", &index(), &mut log),
        Some(s("[`ALIGN_OLD`][crate::ALIGN_OLD]"))
    );
    let mut idx = index();
    idx.constants.clear();
    assert_eq!(find_constant_or_variant("GTK_ALIGN_OLD", &idx, &mut log), None);
    assert_eq!(log.entries.len(), 1);
    assert_eq!(log.entries[0].severity, Severity::Warning);
    assert_eq!(log.entries[0].problem, Problem::SymbolNotFound);
    assert_eq!(log.entries[0].symbol, "GTK_ALIGN_OLD");
}

#[test]
fn types_are_asked_in_their_order() {
    let mut log = DiagnosticLog::new("t");
    assert_eq!(find_type("GtkLabel", &index(), &mut log), Some(s("[`Label`][crate::Label]")));
    assert_eq!(find_type("GtkBorder", &index(), &mut log), Some(s("[`Border`][crate::Border]")));
    assert_eq!(find_type("GtkAlign", &index(), &mut log), Some(s("[`Align`][crate::Align]")));
    assert_eq!(find_type("GtkStateFlags", &index(), &mut log), Some(s("[`StateFlags`][crate::StateFlags]")));
    let mut idx = index();
    idx.objects.clear();
    assert_eq!(find_type("GtkLabel", &idx, &mut log), Some(s("[`LabelRecord`][crate::LabelRecord]")));
    assert!(log.entries.is_empty());
}

#[test]
fn type_is_looked_up_by_its_c_type_not_by_its_public_identifier() {
    let mut log = DiagnosticLog::new("t");
    assert_eq!(find_type("Gtk.Label", &index(), &mut log), None);
    assert_eq!(log.entries.len(), 1);
    assert_eq!(log.entries[0].problem, Problem::SymbolNotFound);
}

#[test]
fn member_marked_as_a_type_is_linked_with_a_warning() {
    let mut log = DiagnosticLog::new("t");
    assert_eq!(
        find_type("GTK_ALIGN_FILL", &index(), &mut log),
        Some(s("[`Align::Fill`][crate::Align::Fill]"))
    );
    assert_eq!(log.entries.len(), 1);
    assert_eq!(log.entries[0].severity, Severity::Warning);
    assert_eq!(log.entries[0].problem, Problem::NotAType);
    assert_eq!(log.entries[0].symbol, "GTK_ALIGN_FILL");
    assert_eq!(log.entries[0].member, None);
}

#[test]
fn ignored_c_types_resolve_to_nothing_in_silence() {
    let mut idx = index();
    idx.objects.push(object("guint", "guint", "Trap", vec![]));
    idx.constants.push(ConstantInfo { glib_name: s("GList"), name: s("TRAP") });
    for name in ["gconstpointer", "guint16", "guint", "gunicode", "gchararray", "GList"] {
        assert!(ignored_c_type(name));
        let mut log = DiagnosticLog::new("t");
        assert_eq!(find_type(name, &idx, &mut log), None);
        assert_eq!(find_method_or_type(name, None, &idx, &mut log), None);
        assert!(log.entries.is_empty());
    }
    assert!(!ignored_c_type("guint8"));
    assert!(!ignored_c_type("glist"));
}

#[test]
fn method_is_looked_up_by_name_under_the_type() {
    let mut log = DiagnosticLog::new("t");
    assert_eq!(
        find_method_or_type("GtkEntry", Some("text"), &index(), &mut log),
        Some(s("[`Entry::text()`][crate::Entry::text()]"))
    );
    assert_eq!(
        find_method_or_type("GtkBorder", Some("copy"), &index(), &mut log),
        Some(s("[`Border::copy()`][crate::Border::copy()]"))
    );
    assert!(log.entries.is_empty());
}

#[test]
fn object_is_found_by_public_identifier_and_record_by_c_type() {
    let mut log = DiagnosticLog::new("t");
    assert_eq!(
        find_method_or_type("Gtk.Label", Some("new"), &index(), &mut log),
        Some(s("[`Label::new()`][crate::Label::new()]"))
    );
    assert!(log.entries.is_empty());
    assert_eq!(find_method_or_type("GtkLabel", Some("new"), &index(), &mut log), None);
    assert_eq!(log.entries.len(), 1);
    assert_eq!(log.entries[0].severity, Severity::Warning);
    assert_eq!(log.entries[0].problem, Problem::MethodNotFound);
    assert_eq!(log.entries[0].symbol, "GtkLabel");
    assert_eq!(log.entries[0].member, Some(s("new")));
}

#[test]
fn method_of_another_type_is_not_found() {
    let mut log = DiagnosticLog::new("t");
    assert_eq!(find_method_or_type("GtkEntry", Some("new"), &index(), &mut log), None);
    assert_eq!(find_method_or_type("GtkEntry", Some("gtk_entry_text"), &index(), &mut log), None);
    assert_eq!(log.entries.len(), 2);
}

#[test]
fn without_a_member_the_type_is_looked_up() {
    let mut log = DiagnosticLog::new("t");
    assert_eq!(find_method_or_type("GtkEntry", None, &index(), &mut log), Some(s("[`Entry`][crate::Entry]")));
    assert!(log.entries.is_empty());
}

#[test]
fn inherited_method_links_to_the_type_that_declares_it() {
    let mut idx = index();
    idx.objects[1].functions[0].declared_on =
        Some(TypeName { rust_name: s("prelude::EditableExt"), name: s("EditableExt") });
    let mut log = DiagnosticLog::new("t");
    let expected = Some(s("[`EditableExt::text()`][crate::prelude::EditableExt::text()]"));
    assert_eq!(find_function("gtk_entry_text", &idx, &mut log), expected);
    assert_eq!(find_method_or_type("GtkEntry", Some("text"), &idx, &mut log), expected);
}

#[test]
fn empty_index_resolves_nothing() {
    let idx = SymbolIndex::new();
    let mut log = DiagnosticLog::new("t");
    assert_eq!(find_function("f", &idx, &mut log), None);
    assert_eq!(find_constant_or_variant("C", &idx, &mut log), None);
    assert_eq!(find_type("T", &idx, &mut log), None);
    assert_eq!(find_method_or_type("T", Some("m"), &idx, &mut log), None);
    assert_eq!(log.entries.len(), 4);
    assert_eq!(log.in_type, "t");
}
