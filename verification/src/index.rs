//! The symbol index: the read-only tables of types, functions, constants and
//! members against which references in documentation are resolved.
//!
//! The index is built elsewhere, names of the target language included; the
//! translation only reads it.

use crate::seqs::{first_index, found_at, lemma_first_index_is, lemma_first_index_none, views};
use crate::text::{optional_text, str_eq};
use vstd::prelude::*;

verus! {

/// A type as a link names it.
pub struct TypeName {
    /// Path of the type below the crate root, as a link targets it.
    pub rust_name: String,
    /// Name of the type as the reader sees it.
    pub name: String,
}

/// The model of a `TypeName`.
pub struct TypeNameView {
    pub rust_name: Seq<char>,
    pub name: Seq<char>,
}

impl View for TypeName {
    type V = TypeNameView;

    open spec fn view(&self) -> TypeNameView {
        TypeNameView { rust_name: self.rust_name@, name: self.name@ }
    }
}

/// A function of a record type, or a free function.
pub struct FunctionInfo {
    /// C-level identifier of the function.
    pub glib_name: String,
    /// Name of the function in the target language.
    pub name: String,
}

/// The model of a `FunctionInfo`.
pub struct FunctionView {
    pub glib_name: Seq<char>,
    pub name: Seq<char>,
}

impl View for FunctionInfo {
    type V = FunctionView;

    open spec fn view(&self) -> FunctionView {
        FunctionView { glib_name: self.glib_name@, name: self.name@ }
    }
}

/// A function listed under an object type.
pub struct MethodInfo {
    pub function: FunctionInfo,
    /// The ancestor or interface that declares the function, where that is
    /// not the object type itself.
    pub declared_on: Option<TypeName>,
}

/// The model of a `MethodInfo`.
pub struct MethodView {
    pub function: FunctionView,
    pub declared_on: Option<TypeNameView>,
}

impl View for MethodInfo {
    type V = MethodView;

    open spec fn view(&self) -> MethodView {
        MethodView {
            function: self.function@,
            declared_on: match self.declared_on {
                Some(t) => Some(t@),
                None => None,
            },
        }
    }
}

/// An object or interface type.
pub struct ObjectInfo {
    /// Public identifier of the type, namespace included.
    pub full_name: String,
    /// C-level type name.
    pub c_type: String,
    /// The type as a link names it.
    pub names: TypeName,
    pub functions: Vec<MethodInfo>,
}

/// The model of an `ObjectInfo`.
pub struct ObjectView {
    pub full_name: Seq<char>,
    pub c_type: Seq<char>,
    pub names: TypeNameView,
    pub functions: Seq<MethodView>,
}

impl View for ObjectInfo {
    type V = ObjectView;

    open spec fn view(&self) -> ObjectView {
        ObjectView {
            full_name: self.full_name@,
            c_type: self.c_type@,
            names: self.names@,
            functions: views(self.functions@),
        }
    }
}

/// A record type.
pub struct RecordInfo {
    /// C-level type name.
    pub c_type: String,
    /// Path of the type below the crate root.
    pub rust_name: String,
    pub functions: Vec<FunctionInfo>,
}

/// The model of a `RecordInfo`.
pub struct RecordView {
    pub c_type: Seq<char>,
    pub rust_name: Seq<char>,
    pub functions: Seq<FunctionView>,
}

impl View for RecordInfo {
    type V = RecordView;

    open spec fn view(&self) -> RecordView {
        RecordView {
            c_type: self.c_type@,
            rust_name: self.rust_name@,
            functions: views(self.functions@),
        }
    }
}

/// A member of an enumeration or of a flag type.
pub struct MemberInfo {
    /// C-level identifier of the member.
    pub c_identifier: String,
    /// Name of the member in the target language.
    pub name: String,
    /// Members marked so take no part in any lookup.
    pub ignored: bool,
}

/// The model of a `MemberInfo`.
pub struct MemberView {
    pub c_identifier: Seq<char>,
    pub name: Seq<char>,
    pub ignored: bool,
}

impl View for MemberInfo {
    type V = MemberView;

    open spec fn view(&self) -> MemberView {
        MemberView { c_identifier: self.c_identifier@, name: self.name@, ignored: self.ignored }
    }
}

/// An enumeration or a flag type.
pub struct EnumInfo {
    /// C-level type name.
    pub c_type: String,
    /// Path of the type below the crate root.
    pub rust_name: String,
    pub members: Vec<MemberInfo>,
}

/// The model of an `EnumInfo`.
pub struct EnumView {
    pub c_type: Seq<char>,
    pub rust_name: Seq<char>,
    pub members: Seq<MemberView>,
}

impl View for EnumInfo {
    type V = EnumView;

    open spec fn view(&self) -> EnumView {
        EnumView {
            c_type: self.c_type@,
            rust_name: self.rust_name@,
            members: views(self.members@),
        }
    }
}

/// A global constant.
pub struct ConstantInfo {
    /// C-level identifier of the constant.
    pub glib_name: String,
    /// Name of the constant in the target language.
    pub name: String,
}

/// The model of a `ConstantInfo`.
pub struct ConstantView {
    pub glib_name: Seq<char>,
    pub name: Seq<char>,
}

impl View for ConstantInfo {
    type V = ConstantView;

    open spec fn view(&self) -> ConstantView {
        ConstantView { glib_name: self.glib_name@, name: self.name@ }
    }
}

/// The whole index. Each table is searched front to back, and the first
/// entry that fits wins.
pub struct SymbolIndex {
    pub objects: Vec<ObjectInfo>,
    pub records: Vec<RecordInfo>,
    pub enumerations: Vec<EnumInfo>,
    pub flags: Vec<EnumInfo>,
    pub functions: Vec<FunctionInfo>,
    pub constants: Vec<ConstantInfo>,
}

/// The model of a `SymbolIndex`.
pub struct IndexView {
    pub objects: Seq<ObjectView>,
    pub records: Seq<RecordView>,
    pub enumerations: Seq<EnumView>,
    pub flags: Seq<EnumView>,
    pub functions: Seq<FunctionView>,
    pub constants: Seq<ConstantView>,
}

impl View for SymbolIndex {
    type V = IndexView;

    open spec fn view(&self) -> IndexView {
        IndexView {
            objects: views(self.objects@),
            records: views(self.records@),
            enumerations: views(self.enumerations@),
            flags: views(self.flags@),
            functions: views(self.functions@),
            constants: views(self.constants@),
        }
    }
}

/// By which of its names a function is looked up.
#[derive(Clone, Copy, Debug, PartialEq, Eq, Structural)]
pub enum FunctionKey {
    /// By its C-level identifier.
    CIdentifier,
    /// By its name in the target language.
    Name,
}

/// Whether a function goes by `wanted`.
pub open spec fn function_has(key: FunctionKey, wanted: Seq<char>) -> spec_fn(FunctionView) -> bool {
    |f: FunctionView|
        match key {
            FunctionKey::CIdentifier => f.glib_name == wanted,
            FunctionKey::Name => f.name == wanted,
        }
}

/// Whether a function of an object type goes by `wanted`.
pub open spec fn method_has(key: FunctionKey, wanted: Seq<char>) -> spec_fn(MethodView) -> bool {
    |m: MethodView| function_has(key, wanted)(m.function)
}

/// Whether an object type lists a function that goes by `wanted`; with a
/// `full_name`, only the type of that public identifier is asked.
pub open spec fn object_holds(full_name: Option<Seq<char>>, key: FunctionKey, wanted: Seq<char>) -> spec_fn(
    ObjectView,
) -> bool {
    |o: ObjectView|
        (full_name matches Some(n) ==> o.full_name == n) && first_index(
            o.functions,
            method_has(key, wanted),
        ) is Some
}

/// Whether a record type lists a function that goes by `wanted`; with a
/// `c_type`, only the record of that C-level type name is asked.
pub open spec fn record_holds(c_type: Option<Seq<char>>, key: FunctionKey, wanted: Seq<char>) -> spec_fn(
    RecordView,
) -> bool {
    |r: RecordView|
        (c_type matches Some(n) ==> r.c_type == n) && first_index(
            r.functions,
            function_has(key, wanted),
        ) is Some
}

/// Whether a member that is not ignored has the C-level identifier `symbol`.
pub open spec fn member_has(symbol: Seq<char>) -> spec_fn(MemberView) -> bool {
    |m: MemberView| m.c_identifier == symbol && !m.ignored
}

/// Whether an enumeration or flag type has such a member.
pub open spec fn enum_holds(symbol: Seq<char>) -> spec_fn(EnumView) -> bool {
    |e: EnumView| first_index(e.members, member_has(symbol)) is Some
}

/// Whether a constant has the C-level identifier `symbol`.
pub open spec fn constant_has(symbol: Seq<char>) -> spec_fn(ConstantView) -> bool {
    |c: ConstantView| c.glib_name == symbol
}

/// Whether an object type has the C-level type name `c_type`.
pub open spec fn object_is(c_type: Seq<char>) -> spec_fn(ObjectView) -> bool {
    |o: ObjectView| o.c_type == c_type
}

/// Whether a record type has the C-level type name `c_type`.
pub open spec fn record_is(c_type: Seq<char>) -> spec_fn(RecordView) -> bool {
    |r: RecordView| r.c_type == c_type
}

/// Whether an enumeration or flag type has the C-level type name `c_type`.
pub open spec fn enum_is(c_type: Seq<char>) -> spec_fn(EnumView) -> bool {
    |e: EnumView| e.c_type == c_type
}

/// Whether a function goes by `wanted`.
fn function_fits(f: &FunctionInfo, key: FunctionKey, wanted: &str) -> (r: bool)
    ensures
        r == function_has(key, wanted@)(f@),
{
    match key {
        FunctionKey::CIdentifier => str_eq(f.glib_name.as_str(), wanted),
        FunctionKey::Name => str_eq(f.name.as_str(), wanted),
    }
}

/// First function of `functions` that goes by `wanted`.
pub fn function_position(functions: &Vec<FunctionInfo>, key: FunctionKey, wanted: &str) -> (r: Option<usize>)
    ensures
        found_at(r, first_index(views(functions@), function_has(key, wanted@))),
        r matches Some(i) ==> i < functions.len(),
{
    let ghost table = views(functions@);
    let ghost p = function_has(key, wanted@);
    let mut i: usize = 0;
    while i < functions.len()
        invariant
            i <= functions.len(),
            table == views(functions@),
            p == function_has(key, wanted@),
            forall|k: int| 0 <= k < i ==> !p(#[trigger] table[k]),
        decreases functions.len() - i,
    {
        if function_fits(&functions[i], key, wanted) {
            proof {
                lemma_first_index_is(table, p, i as int);
            }
            return Some(i);
        }
        i += 1;
    }
    proof {
        lemma_first_index_none(table, p);
    }
    None
}

/// First function of `methods` that goes by `wanted`.
pub fn method_position(methods: &Vec<MethodInfo>, key: FunctionKey, wanted: &str) -> (r: Option<usize>)
    ensures
        found_at(r, first_index(views(methods@), method_has(key, wanted@))),
        r matches Some(i) ==> i < methods.len(),
{
    let ghost table = views(methods@);
    let ghost p = method_has(key, wanted@);
    let mut i: usize = 0;
    while i < methods.len()
        invariant
            i <= methods.len(),
            table == views(methods@),
            p == method_has(key, wanted@),
            forall|k: int| 0 <= k < i ==> !p(#[trigger] table[k]),
        decreases methods.len() - i,
    {
        if function_fits(&methods[i].function, key, wanted) {
            proof {
                lemma_first_index_is(table, p, i as int);
            }
            return Some(i);
        }
        i += 1;
    }
    proof {
        lemma_first_index_none(table, p);
    }
    None
}

/// First member of `members` that is not ignored and has the C-level
/// identifier `symbol`.
pub fn member_position(members: &Vec<MemberInfo>, symbol: &str) -> (r: Option<usize>)
    ensures
        found_at(r, first_index(views(members@), member_has(symbol@))),
        r matches Some(i) ==> i < members.len(),
{
    let ghost table = views(members@);
    let ghost p = member_has(symbol@);
    let mut i: usize = 0;
    while i < members.len()
        invariant
            i <= members.len(),
            table == views(members@),
            p == member_has(symbol@),
            forall|k: int| 0 <= k < i ==> !p(#[trigger] table[k]),
        decreases members.len() - i,
    {
        if !members[i].ignored && str_eq(members[i].c_identifier.as_str(), symbol) {
            proof {
                lemma_first_index_is(table, p, i as int);
            }
            return Some(i);
        }
        i += 1;
    }
    proof {
        lemma_first_index_none(table, p);
    }
    None
}

impl SymbolIndex {
    /// An index that holds nothing.
    pub fn new() -> (index: SymbolIndex)
        ensures
            index@ == (IndexView {
                objects: Seq::empty(),
                records: Seq::empty(),
                enumerations: Seq::empty(),
                flags: Seq::empty(),
                functions: Seq::empty(),
                constants: Seq::empty(),
            }),
    {
        let index = SymbolIndex {
            objects: Vec::new(),
            records: Vec::new(),
            enumerations: Vec::new(),
            flags: Vec::new(),
            functions: Vec::new(),
            constants: Vec::new(),
        };
        assert(index@.objects =~= Seq::empty());
        assert(index@.records =~= Seq::empty());
        assert(index@.enumerations =~= Seq::empty());
        assert(index@.flags =~= Seq::empty());
        assert(index@.functions =~= Seq::empty());
        assert(index@.constants =~= Seq::empty());
        index
    }

    /// The first object type that lists a function going by `wanted`, and
    /// the first such function in it, both by position. With a
    /// `full_name`, only types of that public identifier are asked.
    pub fn find_object_by_function(&self, full_name: Option<&str>, key: FunctionKey, wanted: &str) -> (r: Option<
        (usize, usize),
    >)
        ensures
            match r {
                Some((i, j)) => {
                    &&& i < self.objects.len()
                    &&& j < self.objects[i as int].functions.len()
                    &&& first_index(self@.objects, object_holds(optional_text(full_name), key, wanted@))
                        == Some(i as int)
                    &&& first_index(self@.objects[i as int].functions, method_has(key, wanted@)) == Some(
                        j as int,
                    )
                },
                None => first_index(self@.objects, object_holds(optional_text(full_name), key, wanted@))
                    is None,
            },
    {
        let ghost table = self@.objects;
        let ghost p = object_holds(optional_text(full_name), key, wanted@);
        let mut i: usize = 0;
        while i < self.objects.len()
            invariant
                i <= self.objects.len(),
                table == self@.objects,
                p == object_holds(optional_text(full_name), key, wanted@),
                forall|k: int| 0 <= k < i ==> !p(#[trigger] table[k]),
            decreases self.objects.len() - i,
        {
            let object = &self.objects[i];
            let asked = match full_name {
                Some(n) => str_eq(object.full_name.as_str(), n),
                None => true,
            };
            if asked {
                if let Some(j) = method_position(&object.functions, key, wanted) {
                    proof {
                        lemma_first_index_is(table, p, i as int);
                    }
                    return Some((i, j));
                }
            }
            i += 1;
        }
        proof {
            lemma_first_index_none(table, p);
        }
        None
    }

    /// The first record type that lists a function going by `wanted`, and
    /// the first such function in it, both by position. With a `c_type`,
    /// only records of that C-level type name are asked.
    pub fn find_record_by_function(&self, c_type: Option<&str>, key: FunctionKey, wanted: &str) -> (r: Option<
        (usize, usize),
    >)
        ensures
            match r {
                Some((i, j)) => {
                    &&& i < self.records.len()
                    &&& j < self.records[i as int].functions.len()
                    &&& first_index(self@.records, record_holds(optional_text(c_type), key, wanted@))
                        == Some(i as int)
                    &&& first_index(self@.records[i as int].functions, function_has(key, wanted@)) == Some(
                        j as int,
                    )
                },
                None => first_index(self@.records, record_holds(optional_text(c_type), key, wanted@))
                    is None,
            },
    {
        let ghost table = self@.records;
        let ghost p = record_holds(optional_text(c_type), key, wanted@);
        let mut i: usize = 0;
        while i < self.records.len()
            invariant
                i <= self.records.len(),
                table == self@.records,
                p == record_holds(optional_text(c_type), key, wanted@),
                forall|k: int| 0 <= k < i ==> !p(#[trigger] table[k]),
            decreases self.records.len() - i,
        {
            let record = &self.records[i];
            let asked = match c_type {
                Some(n) => str_eq(record.c_type.as_str(), n),
                None => true,
            };
            if asked {
                if let Some(j) = function_position(&record.functions, key, wanted) {
                    proof {
                        lemma_first_index_is(table, p, i as int);
                    }
                    return Some((i, j));
                }
            }
            i += 1;
        }
        proof {
            lemma_first_index_none(table, p);
        }
        None
    }

    /// The first free function that goes by `wanted`, by position.
    pub fn find_global_function(&self, key: FunctionKey, wanted: &str) -> (r: Option<usize>)
        ensures
            found_at(r, first_index(self@.functions, function_has(key, wanted@))),
            r matches Some(i) ==> i < self.functions.len(),
    {
        function_position(&self.functions, key, wanted)
    }

    /// The first object type of the C-level type name `c_type`, by position.
    pub fn find_object_by_c_type(&self, c_type: &str) -> (r: Option<usize>)
        ensures
            found_at(r, first_index(self@.objects, object_is(c_type@))),
            r matches Some(i) ==> i < self.objects.len(),
    {
        let ghost table = self@.objects;
        let ghost p = object_is(c_type@);
        let mut i: usize = 0;
        while i < self.objects.len()
            invariant
                i <= self.objects.len(),
                table == self@.objects,
                p == object_is(c_type@),
                forall|k: int| 0 <= k < i ==> !p(#[trigger] table[k]),
            decreases self.objects.len() - i,
        {
            if str_eq(self.objects[i].c_type.as_str(), c_type) {
                proof {
                    lemma_first_index_is(table, p, i as int);
                }
                return Some(i);
            }
            i += 1;
        }
        proof {
            lemma_first_index_none(table, p);
        }
        None
    }

    /// The first record type of the C-level type name `c_type`, by position.
    pub fn find_record_by_c_type(&self, c_type: &str) -> (r: Option<usize>)
        ensures
            found_at(r, first_index(self@.records, record_is(c_type@))),
            r matches Some(i) ==> i < self.records.len(),
    {
        let ghost table = self@.records;
        let ghost p = record_is(c_type@);
        let mut i: usize = 0;
        while i < self.records.len()
            invariant
                i <= self.records.len(),
                table == self@.records,
                p == record_is(c_type@),
                forall|k: int| 0 <= k < i ==> !p(#[trigger] table[k]),
            decreases self.records.len() - i,
        {
            if str_eq(self.records[i].c_type.as_str(), c_type) {
                proof {
                    lemma_first_index_is(table, p, i as int);
                }
                return Some(i);
            }
            i += 1;
        }
        proof {
            lemma_first_index_none(table, p);
        }
        None
    }

    /// The first global constant of the C-level identifier `symbol`, by
    /// position.
    pub fn find_constant(&self, symbol: &str) -> (r: Option<usize>)
        ensures
            found_at(r, first_index(self@.constants, constant_has(symbol@))),
            r matches Some(i) ==> i < self.constants.len(),
    {
        let ghost table = self@.constants;
        let ghost p = constant_has(symbol@);
        let mut i: usize = 0;
        while i < self.constants.len()
            invariant
                i <= self.constants.len(),
                table == self@.constants,
                p == constant_has(symbol@),
                forall|k: int| 0 <= k < i ==> !p(#[trigger] table[k]),
            decreases self.constants.len() - i,
        {
            if str_eq(self.constants[i].glib_name.as_str(), symbol) {
                proof {
                    lemma_first_index_is(table, p, i as int);
                }
                return Some(i);
            }
            i += 1;
        }
        proof {
            lemma_first_index_none(table, p);
        }
        None
    }
}

/// The first type of `table` with the C-level type name `c_type`, by
/// position.
pub fn find_enum_by_c_type(table: &Vec<EnumInfo>, c_type: &str) -> (r: Option<usize>)
    ensures
        found_at(r, first_index(views(table@), enum_is(c_type@))),
        r matches Some(i) ==> i < table.len(),
{
    let ghost model = views(table@);
    let ghost p = enum_is(c_type@);
    let mut i: usize = 0;
    while i < table.len()
        invariant
            i <= table.len(),
            model == views(table@),
            p == enum_is(c_type@),
            forall|k: int| 0 <= k < i ==> !p(#[trigger] model[k]),
        decreases table.len() - i,
    {
        if str_eq(table[i].c_type.as_str(), c_type) {
            proof {
                lemma_first_index_is(model, p, i as int);
            }
            return Some(i);
        }
        i += 1;
    }
    proof {
        lemma_first_index_none(model, p);
    }
    None
}

/// The first type of `table` with a member of the C-level identifier
/// `symbol` that is not ignored, and the first such member in it, both by
/// position.
pub fn find_enum_by_member(table: &Vec<EnumInfo>, symbol: &str) -> (r: Option<(usize, usize)>)
    ensures
        match r {
            Some((i, j)) => {
                &&& i < table.len()
                &&& j < table[i as int].members.len()
                &&& first_index(views(table@), enum_holds(symbol@)) == Some(i as int)
                &&& first_index(views(table@)[i as int].members, member_has(symbol@)) == Some(j as int)
            },
            None => first_index(views(table@), enum_holds(symbol@)) is None,
        },
{
    let ghost model = views(table@);
    let ghost p = enum_holds(symbol@);
    let mut i: usize = 0;
    while i < table.len()
        invariant
            i <= table.len(),
            model == views(table@),
            p == enum_holds(symbol@),
            forall|k: int| 0 <= k < i ==> !p(#[trigger] model[k]),
        decreases table.len() - i,
    {
        if let Some(j) = member_position(&table[i].members, symbol) {
            proof {
                lemma_first_index_is(model, p, i as int);
            }
            return Some((i, j));
        }
        i += 1;
    }
    proof {
        lemma_first_index_none(model, p);
    }
    None
}

} // verus!
