//! The symbol resolver: from the identifier of a reference to its link.
//!
//! Each lookup tries the tables of the index in a fixed order and stops at
//! the first hit. A lookup that ends without a hit gives `None`, and the
//! caller falls back to an inert code span.

use crate::diagnostic::{
    lemma_with_nothing, warning, DiagnosticLog, DiagnosticView, Problem, Severity,
};
use crate::index::{
    constant_has, enum_holds, enum_is, find_enum_by_c_type, find_enum_by_member, function_has, member_has, method_has, object_holds, object_is, record_holds, record_is,
    EnumView, FunctionKey, FunctionView, IndexView, MethodView, ObjectView, RecordView,
    SymbolIndex, TypeNameView,
};
use crate::link::{
    function_link, item_link, make_function_link, make_item_link, make_member_link,
    make_method_link, member_link, method_link,
};
use crate::seqs::first_index;
use crate::text::{optional_text, str_eq};
use vstd::prelude::*;

verus! {

/// C-level type names that stand for no type of the index: references to
/// them are never links.
pub open spec fn is_ignored_c_type(name: Seq<char>) -> bool {
    ||| name == "gconstpointer"@
    ||| name == "guint16"@
    ||| name == "guint"@
    ||| name == "gunicode"@
    ||| name == "gchararray"@
    ||| name == "GList"@
}

/// Functions that are expected to be absent from every table: a reference
/// to one of them is no cause for a warning.
pub open spec fn is_expected_absentee(name: Seq<char>) -> bool {
    ||| name == "g_object_unref"@
    ||| name == "g_object_ref"@
    ||| name == "g_free"@
    ||| name == "g_list_free"@
    ||| name == "g_strfreev"@
    ||| name == "printf"@
}

/// Whether `name` is an ignored C-level type name.
pub fn ignored_c_type(name: &str) -> (r: bool)
    ensures
        r == is_ignored_c_type(name@),
{
    str_eq(name, "gconstpointer") || str_eq(name, "guint16") || str_eq(name, "guint") || str_eq(
        name,
        "gunicode",
    ) || str_eq(name, "gchararray") || str_eq(name, "GList")
}

/// Whether the function `name` is expected to be absent from every table.
pub fn expected_absentee(name: &str) -> (r: bool)
    ensures
        r == is_expected_absentee(name@),
{
    str_eq(name, "g_object_unref") || str_eq(name, "g_object_ref") || str_eq(name, "g_free")
        || str_eq(name, "g_list_free") || str_eq(name, "g_strfreev") || str_eq(name, "printf")
}

/// The type that a link to a function of an object type names: the type that
/// declares the function, which is the object type itself unless the index
/// says otherwise.
pub open spec fn declaring_type(object: ObjectView, method: MethodView) -> TypeNameView {
    match method.declared_on {
        Some(t) => t,
        None => object.names,
    }
}

/// Link to the first function of `object` that goes by `wanted`.
pub open spec fn object_function_link(object: ObjectView, key: FunctionKey, wanted: Seq<char>) -> Seq<char> {
    let method = object.functions[first_index(object.functions, method_has(key, wanted)).unwrap()];
    let owner = declaring_type(object, method);
    method_link(owner.rust_name, owner.name, method.function.name)
}

/// Link to the first function of `record` that goes by `wanted`.
pub open spec fn record_function_link(record: RecordView, key: FunctionKey, wanted: Seq<char>) -> Seq<char> {
    let function = record.functions[first_index(record.functions, function_has(key, wanted)).unwrap()];
    method_link(record.rust_name, record.rust_name, function.name)
}

/// The link for a function reference: the function is looked up by its
/// C-level identifier, first among the functions of the object types, then
/// among those of the record types, then among the free functions.
pub open spec fn resolve_function(index: IndexView, name: Seq<char>) -> Option<Seq<char>> {
    let key = FunctionKey::CIdentifier;
    match first_index(index.objects, object_holds(None, key, name)) {
        Some(i) => Some(object_function_link(index.objects[i], key, name)),
        None => match first_index(index.records, record_holds(None, key, name)) {
            Some(i) => Some(record_function_link(index.records[i], key, name)),
            None => match first_index(index.functions, function_has(key, name)) {
                Some(i) => Some(function_link(index.functions[i].name)),
                None => None,
            },
        },
    }
}

/// What a function reference gives to report: nothing when it resolves, else
/// one diagnostic, a warning unless the function is expected to be absent.
pub open spec fn function_notes(index: IndexView, name: Seq<char>) -> Seq<DiagnosticView> {
    if resolve_function(index, name) is Some {
        Seq::empty()
    } else {
        seq![
            DiagnosticView {
                severity: if is_expected_absentee(name) {
                    Severity::Info
                } else {
                    Severity::Warning
                },
                problem: Problem::FunctionNotFound,
                symbol: name,
                member: None,
            },
        ]
    }
}

/// Link to the first member of `owner` that is not ignored and has the
/// C-level identifier `symbol`.
pub open spec fn enum_member_link(owner: EnumView, symbol: Seq<char>) -> Seq<char> {
    member_link(owner.rust_name, owner.members[first_index(owner.members, member_has(symbol)).unwrap()].name)
}

/// The link for a constant-class reference: `symbol` is looked up as the
/// C-level identifier of a member of a flag type, then of a member of an
/// enumeration, then of a global constant. Ignored members are passed over.
pub open spec fn resolve_constant(index: IndexView, symbol: Seq<char>) -> Option<Seq<char>> {
    match first_index(index.flags, enum_holds(symbol)) {
        Some(i) => Some(enum_member_link(index.flags[i], symbol)),
        None => match first_index(index.enumerations, enum_holds(symbol)) {
            Some(i) => Some(enum_member_link(index.enumerations[i], symbol)),
            None => match first_index(index.constants, constant_has(symbol)) {
                Some(i) => Some(item_link(index.constants[i].name)),
                None => None,
            },
        },
    }
}

/// What a constant-class reference gives to report: a warning when it does
/// not resolve.
pub open spec fn constant_notes(index: IndexView, symbol: Seq<char>) -> Seq<DiagnosticView> {
    if resolve_constant(index, symbol) is Some {
        Seq::empty()
    } else {
        seq![warning(Problem::SymbolNotFound, symbol)]
    }
}

/// The path of the type whose C-level type name is `c_type`: object types
/// are asked first, then records, enumerations and flag types.
pub open spec fn named_type(index: IndexView, c_type: Seq<char>) -> Option<Seq<char>> {
    match first_index(index.objects, object_is(c_type)) {
        Some(i) => Some(index.objects[i].names.rust_name),
        None => match first_index(index.records, record_is(c_type)) {
            Some(i) => Some(index.records[i].rust_name),
            None => match first_index(index.enumerations, enum_is(c_type)) {
                Some(i) => Some(index.enumerations[i].rust_name),
                None => match first_index(index.flags, enum_is(c_type)) {
                    Some(i) => Some(index.flags[i].rust_name),
                    None => None,
                },
            },
        },
    }
}

/// The link for a type-class reference without a member. An ignored C-level
/// type name resolves to nothing, whatever the index holds. A name that is
/// no type is looked up once more as a constant-class reference.
pub open spec fn resolve_type(index: IndexView, c_type: Seq<char>) -> Option<Seq<char>> {
    if is_ignored_c_type(c_type) {
        None
    } else {
        match named_type(index, c_type) {
            Some(path) => Some(item_link(path)),
            None => resolve_constant(index, c_type),
        }
    }
}

/// What a type-class reference without a member gives to report: nothing
/// for an ignored name and for a type; a warning where the name resolves as
/// a member or constant instead, and a warning where it does not resolve.
pub open spec fn type_notes(index: IndexView, c_type: Seq<char>) -> Seq<DiagnosticView> {
    if is_ignored_c_type(c_type) || named_type(index, c_type) is Some {
        Seq::empty()
    } else if resolve_constant(index, c_type) is Some {
        seq![warning(Problem::NotAType, c_type)]
    } else {
        seq![warning(Problem::SymbolNotFound, c_type)]
    }
}

/// The link for a type-class reference with a member: the member is looked
/// up by name among the functions of the object types whose public
/// identifier is `type_`, then among those of the record types whose C-level
/// type name is `type_`.
pub open spec fn resolve_method(index: IndexView, type_: Seq<char>, method: Seq<char>) -> Option<Seq<char>> {
    let key = FunctionKey::Name;
    match first_index(index.objects, object_holds(Some(type_), key, method)) {
        Some(i) => Some(object_function_link(index.objects[i], key, method)),
        None => match first_index(index.records, record_holds(Some(type_), key, method)) {
            Some(i) => Some(record_function_link(index.records[i], key, method)),
            None => None,
        },
    }
}

/// The link for a type-class reference, with or without a member.
pub open spec fn resolve_type_or_method(index: IndexView, type_: Seq<char>, method: Option<Seq<char>>) -> Option<
    Seq<char>,
> {
    match method {
        Some(m) => resolve_method(index, type_, m),
        None => resolve_type(index, type_),
    }
}

/// What a type-class reference gives to report.
pub open spec fn type_or_method_notes(index: IndexView, type_: Seq<char>, method: Option<Seq<char>>) -> Seq<
    DiagnosticView,
> {
    match method {
        Some(m) => if resolve_method(index, type_, m) is Some {
            Seq::empty()
        } else {
            seq![
                DiagnosticView {
                    severity: Severity::Warning,
                    problem: Problem::MethodNotFound,
                    symbol: type_,
                    member: Some(m),
                },
            ]
        },
        None => type_notes(index, type_),
    }
}

/// Link to the function at position `j` of the object type at position `i`.
fn link_object_function(env: &SymbolIndex, i: usize, j: usize) -> (out: String)
    requires
        i < env.objects.len(),
        j < env.objects[i as int].functions.len(),
    ensures
        out@ == ({
            let object = env@.objects[i as int];
            let method = object.functions[j as int];
            let owner = declaring_type(object, method);
            method_link(owner.rust_name, owner.name, method.function.name)
        }),
{
    let object = &env.objects[i];
    let method = &object.functions[j];
    match &method.declared_on {
        Some(owner) => make_method_link(
            owner.rust_name.as_str(),
            owner.name.as_str(),
            method.function.name.as_str(),
        ),
        None => make_method_link(
            object.names.rust_name.as_str(),
            object.names.name.as_str(),
            method.function.name.as_str(),
        ),
    }
}

/// Link to the function at position `j` of the record type at position `i`.
fn link_record_function(env: &SymbolIndex, i: usize, j: usize) -> (out: String)
    requires
        i < env.records.len(),
        j < env.records[i as int].functions.len(),
    ensures
        out@ == ({
            let record = env@.records[i as int];
            method_link(record.rust_name, record.rust_name, record.functions[j as int].name)
        }),
{
    let record = &env.records[i];
    make_method_link(
        record.rust_name.as_str(),
        record.rust_name.as_str(),
        record.functions[j].name.as_str(),
    )
}

/// Resolves a function reference and reports a failure to `log`.
pub fn find_function(name: &str, env: &SymbolIndex, log: &mut DiagnosticLog) -> (r: Option<String>)
    ensures
        r.deep_view() == resolve_function(env@, name@),
        final(log)@ == old(log)@.with(function_notes(env@, name@)),
{
    let key = FunctionKey::CIdentifier;
    proof {
        lemma_with_nothing(log@);
    }
    if let Some((i, j)) = env.find_object_by_function(None, key, name) {
        Some(link_object_function(env, i, j))
    } else if let Some((i, j)) = env.find_record_by_function(None, key, name) {
        Some(link_record_function(env, i, j))
    } else if let Some(i) = env.find_global_function(key, name) {
        Some(make_function_link(env.functions[i].name.as_str()))
    } else {
        let severity = if expected_absentee(name) {
            Severity::Info
        } else {
            Severity::Warning
        };
        log.record(severity, Problem::FunctionNotFound, name, None);
        None
    }
}

/// Resolves a constant-class reference and reports a failure to `log`.
pub fn find_constant_or_variant(symbol: &str, env: &SymbolIndex, log: &mut DiagnosticLog) -> (r: Option<String>)
    ensures
        r.deep_view() == resolve_constant(env@, symbol@),
        final(log)@ == old(log)@.with(constant_notes(env@, symbol@)),
{
    proof {
        lemma_with_nothing(log@);
    }
    if let Some((i, j)) = find_enum_by_member(&env.flags, symbol) {
        let flags = &env.flags[i];
        Some(make_member_link(flags.rust_name.as_str(), flags.members[j].name.as_str()))
    } else if let Some((i, j)) = find_enum_by_member(&env.enumerations, symbol) {
        let enumeration = &env.enumerations[i];
        Some(make_member_link(enumeration.rust_name.as_str(), enumeration.members[j].name.as_str()))
    } else if let Some(i) = env.find_constant(symbol) {
        Some(make_item_link(env.constants[i].name.as_str()))
    } else {
        log.record(Severity::Warning, Problem::SymbolNotFound, symbol, None);
        None
    }
}

/// Resolves a type-class reference without a member and reports to `log`
/// what `type_notes` lists.
pub fn find_type(type_: &str, env: &SymbolIndex, log: &mut DiagnosticLog) -> (r: Option<String>)
    ensures
        r.deep_view() == resolve_type(env@, type_@),
        final(log)@ == old(log)@.with(type_notes(env@, type_@)),
{
    proof {
        lemma_with_nothing(log@);
    }
    if ignored_c_type(type_) {
        return None;
    }
    if let Some(i) = env.find_object_by_c_type(type_) {
        Some(make_item_link(env.objects[i].names.rust_name.as_str()))
    } else if let Some(i) = env.find_record_by_c_type(type_) {
        Some(make_item_link(env.records[i].rust_name.as_str()))
    } else if let Some(i) = find_enum_by_c_type(&env.enumerations, type_) {
        Some(make_item_link(env.enumerations[i].rust_name.as_str()))
    } else if let Some(i) = find_enum_by_c_type(&env.flags, type_) {
        Some(make_item_link(env.flags[i].rust_name.as_str()))
    } else {
        let ghost before = log@;
        let link = find_constant_or_variant(type_, env, log);
        if link.is_some() {
            proof {
                lemma_with_nothing(before);
            }
            log.record(Severity::Warning, Problem::NotAType, type_, None);
            assert(log@.entries =~= before.entries + seq![warning(Problem::NotAType, type_@)]);
        }
        link
    }
}

/// Resolves a type-class reference, with or without a member, and reports
/// to `log` what `type_or_method_notes` lists.
pub fn find_method_or_type(type_: &str, method_name: Option<&str>, env: &SymbolIndex, log: &mut DiagnosticLog) -> (r:
    Option<String>)
    ensures
        r.deep_view() == resolve_type_or_method(env@, type_@, optional_text(method_name)),
        final(log)@ == old(log)@.with(
            type_or_method_notes(env@, type_@, optional_text(method_name)),
        ),
{
    let key = FunctionKey::Name;
    match method_name {
        Some(method) => {
            proof {
                lemma_with_nothing(log@);
            }
            if let Some((i, j)) = env.find_object_by_function(Some(type_), key, method) {
                Some(link_object_function(env, i, j))
            } else if let Some((i, j)) = env.find_record_by_function(Some(type_), key, method) {
                Some(link_record_function(env, i, j))
            } else {
                log.record(Severity::Warning, Problem::MethodNotFound, type_, Some(method));
                None
            }
        },
        None => find_type(type_, env, log),
    }
}

/// A function reference whose C-level identifier is that of a function of
/// one object type only resolves to that function, under the type that
/// declares it: the object type itself, or the ancestor or interface that
/// the index names. There is nothing to report then.
pub proof fn lemma_function_of_one_object(index: IndexView, name: Seq<char>, i: int, j: int)
    requires
        0 <= i < index.objects.len(),
        0 <= j < index.objects[i].functions.len(),
        index.objects[i].functions[j].function.glib_name == name,
        forall|j2: int| 0 <= j2 < j ==> (#[trigger] index.objects[i].functions[j2]).function.glib_name != name,
        forall|i2: int, j2: int|
            0 <= i2 < index.objects.len() && 0 <= j2 < index.objects[i2].functions.len() && (
            #[trigger] index.objects[i2].functions[j2]).function.glib_name == name ==> i2 == i,
    ensures
        ({
            let object = index.objects[i];
            let method = object.functions[j];
            &&& resolve_function(index, name) == Some(
                method_link(
                    declaring_type(object, method).rust_name,
                    declaring_type(object, method).name,
                    method.function.name,
                ),
            )
            &&& method.declared_on matches Some(owner) ==> resolve_function(index, name) == Some(
                method_link(owner.rust_name, owner.name, method.function.name),
            )
            &&& method.declared_on is None ==> resolve_function(index, name) == Some(
                method_link(object.names.rust_name, object.names.name, method.function.name),
            )
            &&& function_notes(index, name) == Seq::<DiagnosticView>::empty()
        }),
{
    let key = FunctionKey::CIdentifier;
    let fits = method_has(key, name);
    let holds = object_holds(None, key, name);
    crate::seqs::lemma_first_index_is(index.objects[i].functions, fits, j);
    assert forall|i2: int| 0 <= i2 < i implies !holds(#[trigger] index.objects[i2]) by {
        crate::seqs::lemma_first_index(index.objects[i2].functions, fits);
        if let Some(j2) = first_index(index.objects[i2].functions, fits) {
            assert(index.objects[i2].functions[j2].function.glib_name == name);
        }
    }
    crate::seqs::lemma_first_index_is(index.objects, holds, i);
}

/// No table of the index knows `name`: it is no C-level identifier of a
/// function, member or constant, no C-level type name, and no public
/// identifier of an object type.
pub open spec fn is_absent(index: IndexView, name: Seq<char>) -> bool {
    &&& forall|i: int, j: int|
        0 <= i < index.objects.len() && 0 <= j < index.objects[i].functions.len() ==> (
        #[trigger] index.objects[i].functions[j]).function.glib_name != name
    &&& forall|i: int, j: int|
        0 <= i < index.records.len() && 0 <= j < index.records[i].functions.len() ==> (
        #[trigger] index.records[i].functions[j]).glib_name != name
    &&& forall|i: int| 0 <= i < index.functions.len() ==> (#[trigger] index.functions[i]).glib_name != name
    &&& forall|i: int|
        0 <= i < index.objects.len() ==> (#[trigger] index.objects[i]).c_type != name && index.objects[i].full_name
            != name
    &&& forall|i: int| 0 <= i < index.records.len() ==> (#[trigger] index.records[i]).c_type != name
    &&& forall|i: int| 0 <= i < index.enumerations.len() ==> (#[trigger] index.enumerations[i]).c_type != name
    &&& forall|i: int| 0 <= i < index.flags.len() ==> (#[trigger] index.flags[i]).c_type != name
    &&& forall|i: int, j: int|
        0 <= i < index.enumerations.len() && 0 <= j < index.enumerations[i].members.len() ==> (
        #[trigger] index.enumerations[i].members[j]).c_identifier != name
    &&& forall|i: int, j: int|
        0 <= i < index.flags.len() && 0 <= j < index.flags[i].members.len() ==> (
        #[trigger] index.flags[i].members[j]).c_identifier != name
    &&& forall|i: int| 0 <= i < index.constants.len() ==> (#[trigger] index.constants[i]).glib_name != name
}

/// A name that no table knows resolves to nothing, whichever lookup is
/// asked, with or without a member.
pub proof fn lemma_absent_resolves_to_nothing(index: IndexView, name: Seq<char>, member: Option<Seq<char>>)
    requires
        is_absent(index, name),
    ensures
        resolve_function(index, name) is None,
        resolve_constant(index, name) is None,
        resolve_type(index, name) is None,
        resolve_type_or_method(index, name, member) is None,
{
    let key = FunctionKey::CIdentifier;
    assert forall|i: int| 0 <= i < index.objects.len() implies !object_holds(None, key, name)(
        #[trigger] index.objects[i],
    ) by {
        crate::seqs::lemma_first_index(index.objects[i].functions, method_has(key, name));
    }
    crate::seqs::lemma_first_index_none(index.objects, object_holds(None, key, name));
    assert forall|i: int| 0 <= i < index.records.len() implies !record_holds(None, key, name)(
        #[trigger] index.records[i],
    ) by {
        crate::seqs::lemma_first_index(index.records[i].functions, function_has(key, name));
    }
    crate::seqs::lemma_first_index_none(index.records, record_holds(None, key, name));
    crate::seqs::lemma_first_index_none(index.functions, function_has(key, name));

    assert forall|i: int| 0 <= i < index.flags.len() implies !enum_holds(name)(#[trigger] index.flags[i]) by {
        crate::seqs::lemma_first_index(index.flags[i].members, member_has(name));
    }
    crate::seqs::lemma_first_index_none(index.flags, enum_holds(name));
    assert forall|i: int| 0 <= i < index.enumerations.len() implies !enum_holds(name)(
        #[trigger] index.enumerations[i],
    ) by {
        crate::seqs::lemma_first_index(index.enumerations[i].members, member_has(name));
    }
    crate::seqs::lemma_first_index_none(index.enumerations, enum_holds(name));
    crate::seqs::lemma_first_index_none(index.constants, constant_has(name));

    crate::seqs::lemma_first_index_none(index.objects, object_is(name));
    crate::seqs::lemma_first_index_none(index.records, record_is(name));
    crate::seqs::lemma_first_index_none(index.enumerations, enum_is(name));
    crate::seqs::lemma_first_index_none(index.flags, enum_is(name));

    if let Some(m) = member {
        let by_name = FunctionKey::Name;
        crate::seqs::lemma_first_index_none(index.objects, object_holds(Some(name), by_name, m));
        crate::seqs::lemma_first_index_none(index.records, record_holds(Some(name), by_name, m));
    }
}

/// An ignored C-level type name resolves to no type, whatever the index
/// holds, and gives nothing to report.
pub proof fn lemma_ignored_type(index: IndexView, name: Seq<char>)
    requires
        is_ignored_c_type(name),
    ensures
        resolve_type(index, name) is None,
        resolve_type_or_method(index, name, None) is None,
        type_notes(index, name) == Seq::<DiagnosticView>::empty(),
        type_or_method_notes(index, name, None) == Seq::<DiagnosticView>::empty(),
{
}

/// A type-class reference to the C-level type name of a record type, which
/// no object type has and which is not ignored, resolves to the link of the
/// first such record, and gives nothing to report.
pub proof fn lemma_record_type(index: IndexView, name: Seq<char>, i: int)
    requires
        !is_ignored_c_type(name),
        forall|k: int| 0 <= k < index.objects.len() ==> (#[trigger] index.objects[k]).c_type != name,
        0 <= i < index.records.len(),
        index.records[i].c_type == name,
        forall|k: int| 0 <= k < i ==> (#[trigger] index.records[k]).c_type != name,
    ensures
        resolve_type(index, name) == Some(item_link(index.records[i].rust_name)),
        resolve_type_or_method(index, name, None) == Some(item_link(index.records[i].rust_name)),
        type_notes(index, name) == Seq::<DiagnosticView>::empty(),
{
    crate::seqs::lemma_first_index_none(index.objects, object_is(name));
    crate::seqs::lemma_first_index_is(index.records, record_is(name), i);
}

/// A constant-class reference to the C-level identifier of a member of a
/// flag type resolves to the link of that member under its type: the first
/// flag type that has such a member, and its first such member. Ignored
/// members do not count. There is nothing to report.
pub proof fn lemma_flag_member(index: IndexView, symbol: Seq<char>, i: int, j: int)
    requires
        0 <= i < index.flags.len(),
        0 <= j < index.flags[i].members.len(),
        member_has(symbol)(index.flags[i].members[j]),
        forall|k: int| 0 <= k < j ==> !member_has(symbol)(#[trigger] index.flags[i].members[k]),
        forall|i2: int, j2: int|
            0 <= i2 < i && 0 <= j2 < index.flags[i2].members.len() ==> !member_has(symbol)(
                #[trigger] index.flags[i2].members[j2],
            ),
    ensures
        resolve_constant(index, symbol) == Some(
            member_link(index.flags[i].rust_name, index.flags[i].members[j].name),
        ),
        constant_notes(index, symbol) == Seq::<DiagnosticView>::empty(),
{
    crate::seqs::lemma_first_index_is(index.flags[i].members, member_has(symbol), j);
    assert forall|i2: int| 0 <= i2 < i implies !enum_holds(symbol)(#[trigger] index.flags[i2]) by {
        crate::seqs::lemma_first_index(index.flags[i2].members, member_has(symbol));
    }
    crate::seqs::lemma_first_index_is(index.flags, enum_holds(symbol), i);
}

} // verus!
