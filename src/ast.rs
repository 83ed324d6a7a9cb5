//! The document model that the linter and the formatter read.
//!
//! A parser produces a [`MonDocument`]; this crate only reads it. Numbers are
//! held as the shortest decimal text that reads back as the same `f64`
//! (the text that `f64`'s `Display` writes, never in exponent form).
use vstd::prelude::*;

verus! {

/// A parsed document: its import statements and its root value.
pub struct MonDocument {
    pub root: MonValue,
    pub imports: Vec<ImportStatement>,
}

/// A value with its optional anchor and its byte span in the source.
pub struct MonValue {
    pub kind: MonValueKind,
    pub anchor: Option<String>,
    pub pos_start: usize,
    pub pos_end: usize,
}

/// The kinds of value.
pub enum MonValueKind {
    String(String),
    /// The number's shortest round-trip decimal text, such as `3`, `-0.25` or `42.7`.
    Number(String),
    Boolean(bool),
    Null,
    Object(Vec<Member>),
    Array(Vec<MonValue>),
    Alias(String),
    EnumValue { enum_name: String, variant_name: String },
    ArraySpread(String),
}

/// What an object holds.
pub enum Member {
    Pair(Pair),
    Spread(String),
    Import(ImportStatement),
    TypeDefinition(TypeDefinition),
}

/// A key and its value.
pub struct Pair {
    pub key: String,
    pub value: MonValue,
}

/// An `import` statement with its byte span.
pub struct ImportStatement {
    pub path: String,
    pub spec: ImportSpec,
    pub pos_start: usize,
    pub pos_end: usize,
}

/// What an import brings in: a whole namespace or named items.
pub enum ImportSpec {
    Namespace(String),
    Named(Vec<ImportSpecifier>),
}

/// One named import item; `is_anchor` marks `&name`.
pub struct ImportSpecifier {
    pub name: String,
    pub is_anchor: bool,
}

/// A `#struct` or `#enum` declaration inside an object.
pub struct TypeDefinition {
    pub name: String,
    pub def_type: TypeDef,
    pub pos_start: usize,
    pub pos_end: usize,
}

pub enum TypeDef {
    Struct(StructDef),
    Enum(EnumDef),
}

pub struct StructDef {
    pub fields: Vec<FieldDef>,
}

pub struct FieldDef {
    pub name: String,
    pub type_spec: TypeSpec,
    pub default_value: Option<MonValue>,
}

pub struct EnumDef {
    pub variants: Vec<String>,
}

/// A field's type: a name, a collection of types, or `T...`.
pub enum TypeSpec {
    Simple(String),
    Collection(Vec<TypeSpec>),
    Spread(Box<TypeSpec>),
}

/// How deeply values nest inside `v`, counting every object and array
/// (default values of struct fields included). A scalar has height 0.
pub open spec fn height(v: MonValue) -> nat
    decreases v, 0nat,
{
    match v.kind {
        MonValueKind::Object(ms) => 1 + members_height(ms@),
        MonValueKind::Array(items) => 1 + values_height(items@),
        _ => 0,
    }
}

/// The largest height among `vs` (0 when empty).
pub open spec fn values_height(vs: Seq<MonValue>) -> nat
    decreases vs, vs.len(),
{
    if vs.len() == 0 {
        0
    } else {
        let h = height(vs.last());
        let rest = values_height(vs.drop_last());
        if h > rest { h } else { rest }
    }
}

/// The largest height among the values that `ms` holds (0 when none).
pub open spec fn members_height(ms: Seq<Member>) -> nat
    decreases ms, ms.len(),
{
    if ms.len() == 0 {
        0
    } else {
        let h = member_height(ms.last());
        let rest = members_height(ms.drop_last());
        if h > rest { h } else { rest }
    }
}

/// The largest height among the values that one member holds.
pub open spec fn member_height(m: Member) -> nat
    decreases m, 0nat,
{
    match m {
        Member::Pair(p) => height(p.value),
        Member::TypeDefinition(t) => match t.def_type {
            TypeDef::Struct(s) => fields_height(s.fields@),
            TypeDef::Enum(_) => 0,
        },
        _ => 0,
    }
}

/// The largest height among the default values of `fs` (0 when none).
pub open spec fn fields_height(fs: Seq<FieldDef>) -> nat
    decreases fs, fs.len(),
{
    if fs.len() == 0 {
        0
    } else {
        let last = fs.last();
        let h = match last.default_value {
            Some(d) => height(d),
            None => 0,
        };
        let rest = fields_height(fs.drop_last());
        if h > rest { h } else { rest }
    }
}


/// A member of an object, and the value of a pair member, are smaller than
/// the object.
pub proof fn lemma_object_child(v: MonValue, i: int)
    requires
        v.kind is Object,
        0 <= i < v.kind->Object_0@.len(),
    ensures
        decreases_to!(v => v.kind->Object_0@[i]),
        v.kind->Object_0@[i] is Pair ==> decreases_to!(v => v.kind->Object_0@[i]->Pair_0.value),
{
    let ms = v.kind->Object_0;
    assert(decreases_to!(v => v.kind));
    assert(decreases_to!(v.kind => ms));
    assert(decreases_to!(ms => ms@));
    assert(decreases_to!(ms@ => ms@[i]));
    if ms@[i] is Pair {
        assert(decreases_to!(ms@[i] => ms@[i]->Pair_0));
        assert(decreases_to!(ms@[i]->Pair_0 => ms@[i]->Pair_0.value));
    }
}

/// A type definition member is smaller than its object.
pub proof fn lemma_typedef_child(v: MonValue, i: int)
    requires
        v.kind is Object,
        0 <= i < v.kind->Object_0@.len(),
        v.kind->Object_0@[i] is TypeDefinition,
    ensures
        decreases_to!(v => v.kind->Object_0@[i]->TypeDefinition_0),
{
    lemma_object_child(v, i);
    let m = v.kind->Object_0@[i];
    assert(decreases_to!(m => m->TypeDefinition_0));
}

/// A field's default value is smaller than the type definition.
pub proof fn lemma_default_child(t: TypeDefinition, j: int)
    requires
        t.def_type is Struct,
        0 <= j < t.def_type->Struct_0.fields@.len(),
        t.def_type->Struct_0.fields@[j].default_value is Some,
    ensures
        decreases_to!(t => t.def_type->Struct_0.fields@[j].default_value->Some_0),
{
    let fs = t.def_type->Struct_0.fields;
    assert(decreases_to!(t => t.def_type));
    assert(decreases_to!(t.def_type => t.def_type->Struct_0));
    assert(decreases_to!(t.def_type->Struct_0 => fs));
    assert(decreases_to!(fs => fs@));
    assert(decreases_to!(fs@ => fs@[j]));
    assert(decreases_to!(fs@[j] => fs@[j].default_value));
    assert(decreases_to!(fs@[j].default_value => fs@[j].default_value->Some_0));
}

/// An item of an array nests no deeper than the item list.
pub proof fn lemma_item_height(vs: Seq<MonValue>, i: int)
    requires
        0 <= i < vs.len(),
    ensures
        height(vs[i]) <= values_height(vs),
    decreases vs.len(),
{
    if i < vs.len() - 1 {
        lemma_item_height(vs.drop_last(), i);
    }
}

/// A member of an object nests no deeper than the member list.
pub proof fn lemma_member_height(ms: Seq<Member>, i: int)
    requires
        0 <= i < ms.len(),
    ensures
        member_height(ms[i]) <= members_height(ms),
    decreases ms.len(),
{
    if i < ms.len() - 1 {
        lemma_member_height(ms.drop_last(), i);
    }
}

/// A field's default value nests no deeper than the field list.
pub proof fn lemma_field_height(fs: Seq<FieldDef>, j: int)
    requires
        0 <= j < fs.len(),
        fs[j].default_value is Some,
    ensures
        height(fs[j].default_value->Some_0) <= fields_height(fs),
    decreases fs.len(),
{
    if j < fs.len() - 1 {
        lemma_field_height(fs.drop_last(), j);
    }
}

/// An item of an array is smaller than the array.
pub proof fn lemma_array_child(v: MonValue, i: int)
    requires
        v.kind is Array,
        0 <= i < v.kind->Array_0@.len(),
    ensures
        decreases_to!(v => v.kind->Array_0@[i]),
{
    let vs = v.kind->Array_0;
    assert(decreases_to!(v => v.kind));
    assert(decreases_to!(v.kind => vs));
    assert(decreases_to!(vs => vs@));
    assert(decreases_to!(vs@ => vs@[i]));
}

/// Whether `v` nests less deeply than `bound` (see [`height`]); callers use
/// it to check that depth counters cannot overflow.
pub fn height_below(v: &MonValue, bound: usize) -> (r: bool)
    ensures
        r == (height(*v) < bound),
    decreases v,
{
    match &v.kind {
        MonValueKind::Object(members) => {
            if bound <= 1 {
                return false;
            }
            let mut i: usize = 0;
            while i < members.len()
                invariant
                    v.kind == MonValueKind::Object(*members),
                    bound > 0,
                    i <= members@.len(),
                    members_height(members@.subrange(0, i as int)) < bound - 1,
                decreases members.len() - i,
            {
                proof {
                    assert(members@.subrange(0, i + 1).drop_last() =~= members@.subrange(0, i as int));
                    lemma_object_child(*v, i as int);
                }
                if !member_height_below(v, members, i, bound - 1) {
                    proof {
                        lemma_member_height(members@, i as int);
                    }
                    return false;
                }
                i = i + 1;
            }
            proof {
                assert(members@.subrange(0, members@.len() as int) =~= members@);
            }
            true
        },
        MonValueKind::Array(items) => {
            if bound <= 1 {
                return false;
            }
            let mut i: usize = 0;
            while i < items.len()
                invariant
                    v.kind == MonValueKind::Array(*items),
                    bound > 0,
                    i <= items@.len(),
                    values_height(items@.subrange(0, i as int)) < bound - 1,
                decreases items.len() - i,
            {
                proof {
                    assert(items@.subrange(0, i + 1).drop_last() =~= items@.subrange(0, i as int));
                    lemma_array_child(*v, i as int);
                }
                if !height_below(&items[i], bound - 1) {
                    proof {
                        lemma_item_height(items@, i as int);
                    }
                    return false;
                }
                i = i + 1;
            }
            proof {
                assert(items@.subrange(0, items@.len() as int) =~= items@);
            }
            true
        },
        _ => bound > 0,
    }
}

/// Whether member `i` of the object `v` holds only values nesting less
/// deeply than `bound`.
fn member_height_below(v: &MonValue, members: &Vec<Member>, i: usize, bound: usize) -> (r: bool)
    requires
        v.kind == MonValueKind::Object(*members),
        i < members@.len(),
    ensures
        r == (member_height(members@[i as int]) < bound),
    decreases v, 0nat,
{
    proof {
        lemma_object_child(*v, i as int);
    }
    if bound == 0 {
        return false;
    }
    match &members[i] {
        Member::Pair(pair) => height_below(&pair.value, bound),
        Member::TypeDefinition(t) => match &t.def_type {
            TypeDef::Struct(s) => {
                let fields = &s.fields;
                let mut j: usize = 0;
                while j < fields.len()
                    invariant
                        v.kind == MonValueKind::Object(*members),
                        i < members@.len(),
                        members@[i as int] == Member::TypeDefinition(*t),
                        t.def_type == TypeDef::Struct(*s),
                        fields == s.fields,
                        j <= fields@.len(),
                        bound > 0,
                        fields_height(fields@.subrange(0, j as int)) < bound,
                    decreases fields.len() - j,
                {
                    proof {
                        assert(fields@.subrange(0, j + 1).drop_last() =~= fields@.subrange(0, j as int));
                    }
                    match &fields[j].default_value {
                        Some(d) => {
                            proof {
                                lemma_typedef_child(*v, i as int);
                                lemma_default_child(*t, j as int);
                            }
                            if !height_below(d, bound) {
                                proof {
                                    lemma_field_height(fields@, j as int);
                                }
                                return false;
                            }
                        },
                        None => {},
                    }
                    j = j + 1;
                }
                proof {
                    assert(fields@.subrange(0, fields@.len() as int) =~= fields@);
                }
                bound > 0
            },
            TypeDef::Enum(_) => bound > 0,
        },
        _ => bound > 0,
    }
}

} // verus!
