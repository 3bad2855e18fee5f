//! Query generation from a foreign API description.
//!
//! A foreign HTTP API description (paths, operations, parameter and
//! response schemas) arrives here as a reduced model of plain values; the
//! conversion from the foreign description format is the surrounding
//! application's job. Per path, the first operation is turned into one
//! query field: its output type read from the first sample response, its
//! arguments from the operation's parameters, its http operator templated
//! over the path with `{name}` parameters rewritten to `{{.args.name}}`.

use vstd::prelude::*;

use crate::config::{assoc_get, Config, Field, Http, KeyValue, Method, TypeConfig};
use crate::value::push_char;

verus! {

/// The Pascal-cased form of a string. The value depends on the characters
/// alone.
pub uninterp spec fn pascal_of(s: Seq<char>) -> Seq<char>;

/// The camel-cased form of a string. The value depends on the characters
/// alone.
pub uninterp spec fn camel_of(s: Seq<char>) -> Seq<char>;

/// Relies on convert_case's `Casing::to_case` with `Case::Pascal`: a pure
/// case conversion of its input.
#[verifier::external_body]
fn to_pascal(s: &String) -> (r: String)
    ensures
        r@ == pascal_of(s@),
{
    convert_case::Casing::to_case(s, convert_case::Case::Pascal)
}

/// Relies on convert_case's `Casing::to_case` with `Case::Camel`: a pure
/// case conversion of its input.
#[verifier::external_body]
fn to_camel(s: &String) -> (r: String)
    ensures
        r@ == camel_of(s@),
{
    convert_case::Casing::to_case(s, convert_case::Case::Camel)
}

/// The name of a type in generated code. A special recursive form is needed
/// because array schemas nest.
#[derive(Debug, PartialEq)]
pub enum TypeName {
    ListOf(Box<TypeName>),
    Name(String),
}

impl TypeName {
    /// The flat name, when this is no list.
    pub fn name(&self) -> (r: Option<String>)
        ensures
            match *self {
                TypeName::ListOf(_) => r is None,
                TypeName::Name(n) => match r {
                    Some(out) => out@ == n@,
                    None => false,
                },
            },
    {
        match self {
            TypeName::ListOf(_) => None,
            TypeName::Name(name) => Some(name.clone()),
        }
    }

    /// The (is-list, name) pair of a type at most one list deep.
    pub fn into_tuple(self) -> (r: (bool, String))
        requires
            match self {
                TypeName::Name(_) => true,
                TypeName::ListOf(inner) => *inner is Name,
            },
        ensures
            match self {
                TypeName::Name(n) => r.0 == false && r.1@ == n@,
                TypeName::ListOf(inner) => r.0 == true && (match *inner {
                    TypeName::Name(n) => r.1@ == n@,
                    TypeName::ListOf(_) => false,
                }),
            },
    {
        match self {
            TypeName::ListOf(inner) => {
                let n = match *inner {
                    TypeName::Name(name) => name,
                    TypeName::ListOf(_) => String::new(),
                };
                (true, n)
            },
            TypeName::Name(name) => (false, name),
        }
    }
}

/// A schema's primitive kind, reduced from the foreign description.
#[derive(Debug, Clone, Copy, PartialEq, Eq, Structural)]
pub enum SchemaKind {
    Boolean,
    Str,
    Array,
    Object,
    Integer,
    Number,
}

/// A schema, reduced to what query generation reads.
#[derive(Debug, PartialEq)]
pub struct SchemaModel {
    pub schema_type: Option<SchemaKind>,
    pub items: Option<Box<SchemaOrRef>>,
    pub has_properties: bool,
    pub has_all_of: bool,
    pub has_any_of: bool,
    pub has_one_of: bool,
    pub has_enum_values: bool,
}

/// A schema in place, or a reference into the description's components.
#[derive(Debug, PartialEq)]
pub enum SchemaOrRef {
    Ref(String),
    Object(Box<SchemaModel>),
}

/// One operation parameter, reduced.
#[derive(Debug, PartialEq)]
pub struct ParamModel {
    pub name: String,
    pub required: Option<bool>,
    pub schema: Option<SchemaModel>,
    pub param_type: Option<String>,
}

/// A parameter in place or by reference.
#[derive(Debug, PartialEq)]
pub enum ParamOrRef {
    Ref(String),
    Object(Box<ParamModel>),
}

/// One media entry of a response: its schema, when it declares one.
#[derive(Debug, PartialEq)]
pub struct MediaModel {
    pub schema: Option<SchemaOrRef>,
}

/// One response, reduced to its content entries in key order.
#[derive(Debug, PartialEq)]
pub struct ResponseModel {
    pub content: Vec<(String, MediaModel)>,
}

/// A response in place or by reference.
#[derive(Debug, PartialEq)]
pub enum ResponseOrRef {
    Ref(String),
    Object(Box<ResponseModel>),
}

/// One operation, reduced.
#[derive(Debug, PartialEq)]
pub struct OperationModel {
    pub operation_id: Option<String>,
    pub description: Option<String>,
    pub parameters: Vec<ParamOrRef>,
    pub responses: Vec<(String, ResponseOrRef)>,
}

/// One path item: at most one operation per method.
#[derive(Debug, Default, PartialEq)]
pub struct PathItemModel {
    pub get: Option<OperationModel>,
    pub head: Option<OperationModel>,
    pub options: Option<OperationModel>,
    pub trace: Option<OperationModel>,
    pub put: Option<OperationModel>,
    pub post: Option<OperationModel>,
    pub delete: Option<OperationModel>,
    pub patch: Option<OperationModel>,
}

/// The whole foreign description, reduced: servers, paths, and the
/// components that references point into, each keyed by component name.
#[derive(Debug, Default, PartialEq)]
pub struct SpecModel {
    pub servers: Vec<String>,
    pub paths: Vec<(String, PathItemModel)>,
    pub schemas: Vec<(String, SchemaModel)>,
    pub parameters: Vec<(String, ParamModel)>,
    pub responses: Vec<(String, ResponseModel)>,
}

/// Why query generation skipped a path or failed a lookup.
#[derive(Debug, PartialEq)]
pub enum GenError {
    UnresolvedRef(String),
    DepthExceeded,
    NestedList,
}

/// Position of the first `/` at or after `i`; `s.len()` when there is none.
pub open spec fn find_slash(s: Seq<char>, i: int) -> int
    decreases s.len() - i,
{
    if i < 0 || i >= s.len() {
        s.len() as int
    } else if s[i] == '/' {
        i
    } else {
        find_slash(s, i + 1)
    }
}

/// The text after the last `/`; the whole text when there is none.
pub open spec fn after_last_slash(s: Seq<char>) -> Seq<char>
    decreases s.len(),
    via after_last_slash_decreases
{
    let j = find_slash(s, 0);
    if j == s.len() {
        s
    } else {
        after_last_slash(s.subrange(j + 1, s.len() as int))
    }
}

proof fn lemma_find_slash_range(s: Seq<char>, i: int)
    requires
        i <= s.len(),
    ensures
        (if i < 0 {
            0
        } else {
            i
        }) <= find_slash(s, i) <= s.len(),
    decreases s.len() - i,
{
    if 0 <= i < s.len() && s[i] != '/' {
        lemma_find_slash_range(s, i + 1);
    }
}

#[via_fn]
proof fn after_last_slash_decreases(s: Seq<char>) {
    lemma_find_slash_range(s, 0);
}

fn exec_find_slash(chars: &Vec<char>, i: usize) -> (r: usize)
    requires
        i <= chars.len(),
    ensures
        r as int == find_slash(chars@, i as int),
        i <= r <= chars.len(),
    decreases chars.len() - i,
{
    proof {
        lemma_find_slash_range(chars@, i as int);
    }
    if i >= chars.len() {
        chars.len()
    } else if chars[i] == '/' {
        i
    } else {
        exec_find_slash(chars, i + 1)
    }
}

/// The characters after the last `/` of `chars[from..]`.
fn exec_after_last_slash(chars: &Vec<char>, from: usize) -> (r: String)
    requires
        from <= chars.len(),
    ensures
        r@ == after_last_slash(chars@.skip(from as int)),
    decreases chars.len() - from,
{
    let ghost tail = chars@.skip(from as int);
    let j = exec_find_slash(chars, from);
    proof {
        lemma_find_slash_shift(chars@, from as int, from as int);
    }
    if j == chars.len() {
        let mut out = String::new();
        let mut i: usize = from;
        while i < chars.len()
            invariant
                from <= i <= chars.len(),
                out@ =~= chars@.subrange(from as int, i as int),
            decreases chars.len() - i,
        {
            push_char(&mut out, chars[i]);
            i = i + 1;
            proof {
                assert(out@ =~= chars@.subrange(from as int, i as int));
            }
        }
        proof {
            assert(chars@.subrange(from as int, chars@.len() as int) =~= tail);
        }
        out
    } else {
        let r = exec_after_last_slash(chars, j + 1);
        proof {
            assert(chars@.skip(j as int + 1) =~= tail.subrange(
                find_slash(tail, 0) + 1,
                tail.len() as int,
            ));
        }
        r
    }
}

proof fn lemma_find_slash_shift(s: Seq<char>, from: int, i: int)
    requires
        0 <= from <= i <= s.len(),
    ensures
        find_slash(s, i) == from + find_slash(s.skip(from), i - from),
    decreases s.len() - i,
{
    let t = s.skip(from);
    if i >= s.len() {
    } else if s[i] == '/' {
        assert(t[i - from] == s[i]);
    } else {
        assert(t[i - from] == s[i]);
        lemma_find_slash_shift(s, from, i + 1);
    }
}

/// The Pascal-cased name a reference points at; an in-place object names
/// nothing.
pub fn name_from_ref_path(obj_or_ref: &SchemaOrRef) -> (r: Option<String>)
    ensures
        match *obj_or_ref {
            SchemaOrRef::Ref(ref_path) => match r {
                Some(n) => n@ == pascal_of(after_last_slash(ref_path@)),
                None => false,
            },
            SchemaOrRef::Object(_) => r is None,
        },
{
    match obj_or_ref {
        SchemaOrRef::Ref(ref_path) => {
            let chars = crate::template::str_chars(ref_path.as_str());
            proof {
                assert(chars@.skip(0) =~= chars@);
            }
            let last = exec_after_last_slash(&chars, 0);
            Some(to_pascal(&last))
        },
        SchemaOrRef::Object(_) => None,
    }
}

/// The generated type name of a primitive schema kind: numbers become
/// `Int`, the rest keep their own name.
pub open spec fn kind_str(k: SchemaKind) -> Seq<char> {
    match k {
        SchemaKind::Boolean => "Boolean"@,
        SchemaKind::Str => "String"@,
        SchemaKind::Array => "Array"@,
        SchemaKind::Object => "Object"@,
        SchemaKind::Integer => "Int"@,
        SchemaKind::Number => "Int"@,
    }
}

/// The generated type name of a schema kind.
pub fn schema_type_to_string(typ: &SchemaKind) -> (r: String)
    ensures
        r@ == kind_str(*typ),
{
    match typ {
        SchemaKind::Boolean => String::from_str("Boolean"),
        SchemaKind::Str => String::from_str("String"),
        SchemaKind::Array => String::from_str("Array"),
        SchemaKind::Object => String::from_str("Object"),
        SchemaKind::Integer => String::from_str("Int"),
        SchemaKind::Number => String::from_str("Int"),
    }
}

/// The generated type name of a schema kind, when it is primitive: arrays
/// and objects have none.
pub fn schema_to_primitive_type(typ: &SchemaKind) -> (r: Option<String>)
    ensures
        match *typ {
            SchemaKind::Array => r is None,
            SchemaKind::Object => r is None,
            _ => match r {
                Some(n) => n@ == kind_str(*typ),
                None => false,
            },
        },
{
    match typ {
        SchemaKind::Array => None,
        SchemaKind::Object => None,
        other => Some(schema_type_to_string(other)),
    }
}

/// Whether a schema carries enough structure to define an output type of
/// its own.
pub fn can_define_type(schema: &SchemaModel) -> (r: bool)
    ensures
        r == (schema.has_properties || schema.has_all_of || schema.has_any_of
            || schema.has_one_of || schema.has_enum_values),
{
    schema.has_properties || schema.has_all_of || schema.has_any_of || schema.has_one_of
        || schema.has_enum_values
}

/// The placeholder name of a type the generation cannot name.
pub fn unknown_type() -> (r: String)
    ensures
        r@ == "Unknown"@,
{
    String::from_str("Unknown")
}

/// Resolves a schema reference against the description's components; the
/// reference's last path segment is the component name.
pub fn resolve_schema<'a>(spec: &'a SpecModel, r: &'a SchemaOrRef) -> (out: Result<
    &'a SchemaModel,
    GenError,
>)
    ensures
        match *r {
            SchemaOrRef::Object(ref b) => (match out {
                Ok(s) => *s == **b,
                Err(_) => false,
            }),
            SchemaOrRef::Ref(ref p) => match out {
                Ok(s) => assoc_get(spec.schemas@, after_last_slash(p@)) == Some(*s),
                Err(e) => assoc_get(spec.schemas@, after_last_slash(p@)) is None && e
                    == GenError::UnresolvedRef(*p),
            },
        },
{
    match r {
        SchemaOrRef::Object(b) => Ok(&**b),
        SchemaOrRef::Ref(p) => {
            let chars = crate::template::str_chars(p.as_str());
            proof {
                assert(chars@.skip(0) =~= chars@);
            }
            let key = exec_after_last_slash(&chars, 0);
            proof {
                assert(spec.schemas@.skip(0) =~= spec.schemas@);
            }
            match lookup_schema(&spec.schemas, &key, 0) {
                Some(s) => Ok(s),
                None => Err(GenError::UnresolvedRef(p.clone())),
            }
        },
    }
}

fn lookup_schema<'a>(entries: &'a Vec<(String, SchemaModel)>, key: &String, i: usize) -> (r:
    Option<&'a SchemaModel>)
    requires
        i <= entries.len(),
    ensures
        match r {
            Some(s) => assoc_get(entries@.skip(i as int), key@) == Some(*s),
            None => assoc_get(entries@.skip(i as int), key@) is None,
        },
    decreases entries.len() - i,
{
    if i == entries.len() {
        None
    } else {
        assert(entries@.skip(i as int)[0] == entries@[i as int]);
        if entries[i].0 == *key {
            Some(&entries[i].1)
        } else {
            let r = lookup_schema(entries, key, i + 1);
            assert(entries@.skip(i as int).skip(1) =~= entries@.skip(i as int + 1));
            r
        }
    }
}

fn lookup_param<'a>(entries: &'a Vec<(String, ParamModel)>, key: &String, i: usize) -> (r: Option<
    &'a ParamModel,
>)
    requires
        i <= entries.len(),
    ensures
        match r {
            Some(s) => assoc_get(entries@.skip(i as int), key@) == Some(*s),
            None => assoc_get(entries@.skip(i as int), key@) is None,
        },
    decreases entries.len() - i,
{
    if i == entries.len() {
        None
    } else {
        assert(entries@.skip(i as int)[0] == entries@[i as int]);
        if entries[i].0 == *key {
            Some(&entries[i].1)
        } else {
            let r = lookup_param(entries, key, i + 1);
            assert(entries@.skip(i as int).skip(1) =~= entries@.skip(i as int + 1));
            r
        }
    }
}

fn lookup_response<'a>(entries: &'a Vec<(String, ResponseModel)>, key: &String, i: usize) -> (r:
    Option<&'a ResponseModel>)
    requires
        i <= entries.len(),
    ensures
        match r {
            Some(s) => assoc_get(entries@.skip(i as int), key@) == Some(*s),
            None => assoc_get(entries@.skip(i as int), key@) is None,
        },
    decreases entries.len() - i,
{
    if i == entries.len() {
        None
    } else {
        assert(entries@.skip(i as int)[0] == entries@[i as int]);
        if entries[i].0 == *key {
            Some(&entries[i].1)
        } else {
            let r = lookup_response(entries, key, i + 1);
            assert(entries@.skip(i as int).skip(1) =~= entries@.skip(i as int + 1));
            r
        }
    }
}

/// Resolves a parameter in place or by reference.
pub fn resolve_param<'a>(spec: &'a SpecModel, r: &'a ParamOrRef) -> (out: Result<
    &'a ParamModel,
    GenError,
>)
    ensures
        match *r {
            ParamOrRef::Object(ref b) => (match out {
                Ok(s) => *s == **b,
                Err(_) => false,
            }),
            ParamOrRef::Ref(ref p) => match out {
                Ok(s) => assoc_get(spec.parameters@, after_last_slash(p@)) == Some(*s),
                Err(e) => assoc_get(spec.parameters@, after_last_slash(p@)) is None && e
                    == GenError::UnresolvedRef(*p),
            },
        },
{
    match r {
        ParamOrRef::Object(b) => Ok(&**b),
        ParamOrRef::Ref(p) => {
            let chars = crate::template::str_chars(p.as_str());
            proof {
                assert(chars@.skip(0) =~= chars@);
                assert(spec.parameters@.skip(0) =~= spec.parameters@);
            }
            let key = exec_after_last_slash(&chars, 0);
            match lookup_param(&spec.parameters, &key, 0) {
                Some(s) => Ok(s),
                None => Err(GenError::UnresolvedRef(p.clone())),
            }
        },
    }
}

/// Resolves a response in place or by reference.
pub fn resolve_response<'a>(spec: &'a SpecModel, r: &'a ResponseOrRef) -> (out: Result<
    &'a ResponseModel,
    GenError,
>)
    ensures
        match *r {
            ResponseOrRef::Object(ref b) => (match out {
                Ok(s) => *s == **b,
                Err(_) => false,
            }),
            ResponseOrRef::Ref(ref p) => match out {
                Ok(s) => assoc_get(spec.responses@, after_last_slash(p@)) == Some(*s),
                Err(e) => assoc_get(spec.responses@, after_last_slash(p@)) is None && e
                    == GenError::UnresolvedRef(*p),
            },
        },
{
    match r {
        ResponseOrRef::Object(b) => Ok(&**b),
        ResponseOrRef::Ref(p) => {
            let chars = crate::template::str_chars(p.as_str());
            proof {
                assert(chars@.skip(0) =~= chars@);
                assert(spec.responses@.skip(0) =~= spec.responses@);
            }
            let key = exec_after_last_slash(&chars, 0);
            match lookup_response(&spec.responses, &key, 0) {
                Some(s) => Ok(s),
                None => Err(GenError::UnresolvedRef(p.clone())),
            }
        },
    }
}

/// The mathematical model of a generated type name.
pub enum TnView {
    ListOf(Seq<TnView>),
    Name(Seq<char>),
}

/// The view of a type name; a list carries its element as a singleton.
pub open spec fn tn_view(t: TypeName) -> TnView
    decreases t,
    via tn_view_decreases
{
    match t {
        TypeName::ListOf(inner) => TnView::ListOf(seq![tn_view(*inner)]),
        TypeName::Name(n) => TnView::Name(n@),
    }
}

#[via_fn]
proof fn tn_view_decreases(t: TypeName) {
    match t {
        TypeName::ListOf(inner) => {
            assert(decreases_to!(t => inner));
        },
        _ => {},
    }
}

/// Spec-level schema resolution.
pub open spec fn resolve_schema_spec(spec: SpecModel, r: SchemaOrRef) -> Result<
    SchemaModel,
    GenError,
> {
    match r {
        SchemaOrRef::Object(b) => Ok(*b),
        SchemaOrRef::Ref(p) => match assoc_get(spec.schemas@, after_last_slash(p@)) {
            Some(s) => Ok(s),
            None => Err(GenError::UnresolvedRef(p)),
        },
    }
}

/// The name a schema-or-reference contributes: the Pascal-cased reference
/// target, or nothing for an in-place schema.
pub open spec fn ref_name_spec(r: SchemaOrRef) -> Option<Seq<char>> {
    match r {
        SchemaOrRef::Ref(p) => Some(pascal_of(after_last_slash(p@))),
        SchemaOrRef::Object(_) => None,
    }
}

/// What the type of a schema reduces to: array schemas one level in, enum
/// strings and unnameable shapes to `Unknown`, primitives to their names,
/// anything else to the given name, `Unknown`, or `JSON`. `fuel` bounds
/// nested array resolution through references.
pub open spec fn get_schema_type_spec(
    spec: SpecModel,
    schema: SchemaModel,
    name: Option<Seq<char>>,
    fuel: nat,
) -> Result<TnView, GenError>
    decreases fuel,
{
    match schema.items {
        Some(element) => match resolve_schema_spec(spec, *element) {
            Err(e) => Err(e),
            Ok(inner) => if inner.schema_type == Some(SchemaKind::Str) && inner.has_enum_values {
                Ok(TnView::ListOf(seq![TnView::Name("Unknown"@)]))
            } else {
                let name_opt = match ref_name_spec(*element) {
                    Some(n) => Some(n),
                    None => match inner.schema_type {
                        Some(k) => match k {
                            SchemaKind::Array => None,
                            SchemaKind::Object => None,
                            _ => Some(kind_str(k)),
                        },
                        None => None,
                    },
                };
                match name_opt {
                    Some(n) => Ok(TnView::ListOf(seq![TnView::Name(n)])),
                    None => if fuel == 0 {
                        Err(GenError::DepthExceeded)
                    } else {
                        match get_schema_type_spec(spec, inner, None, (fuel - 1) as nat) {
                            Ok(t) => Ok(TnView::ListOf(seq![t])),
                            Err(e) => Err(e),
                        }
                    },
                }
            },
        },
        None => if schema.schema_type == Some(SchemaKind::Str) && schema.has_enum_values {
            Ok(TnView::Name("Unknown"@))
        } else if (match schema.schema_type {
            Some(SchemaKind::Integer) => true,
            Some(SchemaKind::Str) => true,
            Some(SchemaKind::Number) => true,
            Some(SchemaKind::Boolean) => true,
            _ => false,
        }) {
            Ok(TnView::Name(kind_str(schema.schema_type->Some_0)))
        } else {
            match name {
                Some(n) => Ok(TnView::Name(n)),
                None => if schema.has_properties || schema.has_all_of || schema.has_any_of
                    || schema.has_one_of || schema.has_enum_values {
                    Ok(TnView::Name("Unknown"@))
                } else {
                    Ok(TnView::Name("JSON"@))
                },
            }
        },
    }
}

/// The generated type of a schema, mirroring `get_schema_type_spec`.
pub fn get_schema_type(
    spec: &SpecModel,
    schema: &SchemaModel,
    name: Option<&String>,
    fuel: usize,
) -> (r: Result<TypeName, GenError>)
    ensures
        ({
            let namev = match name {
                Some(n) => Some(n@),
                None => None,
            };
            match r {
                Ok(t) => get_schema_type_spec(*spec, *schema, namev, fuel as nat) == Ok::<
                    TnView,
                    GenError,
                >(tn_view(t)),
                Err(e) => get_schema_type_spec(*spec, *schema, namev, fuel as nat) == Err::<
                    TnView,
                    GenError,
                >(e),
            }
        }),
    decreases fuel,
{
    match &schema.items {
        Some(element) => {
            let inner = match resolve_schema(spec, element) {
                Ok(inner) => inner,
                Err(e) => {
                    return Err(e);
                },
            };
            let inner_is_enum_string = match inner.schema_type {
                Some(SchemaKind::Str) => inner.has_enum_values,
                _ => false,
            };
            if inner_is_enum_string {
                let u = unknown_type();
                let ghost uv = u@;
                let boxed = Box::new(TypeName::Name(u));
                let ghost bv = *boxed;
                let t = TypeName::ListOf(boxed);
                proof {
                    assert(uv == "Unknown"@);
                    assert(bv == TypeName::Name(u));
                    assert(tn_view(bv) == TnView::Name(uv));
                    assert(tn_view(t) == TnView::ListOf(seq![tn_view(bv)]));
                    assert(tn_view(t)->ListOf_0 =~= seq![TnView::Name("Unknown"@)]);
                }
                return Ok(t);
            }
            let name_opt: Option<String> = match name_from_ref_path(element) {
                Some(n) => Some(n),
                None => match &inner.schema_type {
                    Some(k) => schema_to_primitive_type(k),
                    None => None,
                },
            };
            match name_opt {
                Some(n) => {
                    let ghost nv = n@;
                    let boxed = Box::new(TypeName::Name(n));
                    let ghost bv = *boxed;
                    let t = TypeName::ListOf(boxed);
                    proof {
                        assert(tn_view(bv) == TnView::Name(nv));
                        assert(tn_view(t) == TnView::ListOf(seq![tn_view(bv)]));
                        assert(tn_view(t)->ListOf_0 =~= seq![TnView::Name(nv)]);
                    }
                    Ok(t)
                },
                None => {
                    if fuel == 0 {
                        Err(GenError::DepthExceeded)
                    } else {
                        let inner_owned = clone_schema_model(inner);
                        match get_schema_type(spec, &inner_owned, None, fuel - 1) {
                            Ok(t) => {
                                let ghost tv = tn_view(t);
                                let boxed = Box::new(t);
                                let ghost bv = *boxed;
                                let out = TypeName::ListOf(boxed);
                                proof {
                                    assert(tn_view(bv) == tv);
                                    assert(tn_view(out) == TnView::ListOf(seq![tn_view(bv)]));
                                    assert(tn_view(out)->ListOf_0 =~= seq![tv]);
                                }
                                Ok(out)
                            },
                            Err(e) => Err(e),
                        }
                    }
                },
            }
        },
        None => {
            let is_enum_string = match schema.schema_type {
                Some(SchemaKind::Str) => schema.has_enum_values,
                _ => false,
            };
            if is_enum_string {
                return Ok(TypeName::Name(unknown_type()));
            }
            match schema.schema_type {
                Some(SchemaKind::Integer) => Ok(TypeName::Name(String::from_str("Int"))),
                Some(SchemaKind::Str) => Ok(TypeName::Name(String::from_str("String"))),
                Some(SchemaKind::Number) => Ok(TypeName::Name(String::from_str("Int"))),
                Some(SchemaKind::Boolean) => Ok(TypeName::Name(String::from_str("Boolean"))),
                _ => match name {
                    Some(n) => Ok(TypeName::Name(n.clone())),
                    None => {
                        if can_define_type(schema) {
                            Ok(TypeName::Name(unknown_type()))
                        } else {
                            Ok(TypeName::Name(String::from_str("JSON")))
                        }
                    },
                },
            }
        },
    }
}

/// A field-for-field copy of a reduced schema; the copy is the same value.
fn clone_schema_model(s: &SchemaModel) -> (r: SchemaModel)
    ensures
        r == *s,
    decreases *s,
{
    SchemaModel {
        schema_type: s.schema_type,
        items: match &s.items {
            Some(b) => {
                proof {
                    assert(decreases_to!(*s => s.items));
                }
                Some(Box::new(clone_schema_or_ref(&**b)))
            },
            None => None,
        },
        has_properties: s.has_properties,
        has_all_of: s.has_all_of,
        has_any_of: s.has_any_of,
        has_one_of: s.has_one_of,
        has_enum_values: s.has_enum_values,
    }
}

/// A field-for-field copy of a schema-or-reference.
fn clone_schema_or_ref(r: &SchemaOrRef) -> (out: SchemaOrRef)
    ensures
        out == *r,
    decreases *r,
{
    match r {
        SchemaOrRef::Ref(p) => {
            let cloned = p.clone();
            proof {
                assert(cloned == *p);
            }
            SchemaOrRef::Ref(cloned)
        },
        SchemaOrRef::Object(b) => {
            proof {
                assert(decreases_to!(*r => *b));
            }
            SchemaOrRef::Object(Box::new(clone_schema_model(&**b)))
        },
    }
}

/// Whether `c` may appear in a `{name}` path parameter.
pub open spec fn is_word_char(c: char) -> bool {
    ||| ('a' <= c && c <= 'z')
    ||| ('A' <= c && c <= 'Z')
    ||| ('0' <= c && c <= '9')
    ||| c == '_'
}

/// Position of the first non-word character at or after `i`.
pub open spec fn find_word_end(s: Seq<char>, i: int) -> int
    decreases s.len() - i,
{
    if i < 0 || i >= s.len() {
        s.len() as int
    } else if is_word_char(s[i]) {
        find_word_end(s, i + 1)
    } else {
        i
    }
}

proof fn lemma_find_word_end_range(s: Seq<char>, i: int)
    requires
        0 <= i <= s.len(),
    ensures
        i <= find_word_end(s, i) <= s.len(),
    decreases s.len() - i,
{
    if i < s.len() && is_word_char(s[i]) {
        lemma_find_word_end_range(s, i + 1);
    }
}

/// The path from position `i` on with every `{name}` rewritten to
/// `{{.args.name}}`, plus the names rewritten, in order.
pub open spec fn rewrite_from(s: Seq<char>, i: int) -> (Seq<char>, Seq<Seq<char>>)
    decreases s.len() - i,
    via rewrite_from_decreases
{
    if i < 0 || i >= s.len() {
        (Seq::empty(), Seq::empty())
    } else if s[i] == '{' {
        let e = find_word_end(s, i + 1);
        if e < s.len() && s[e] == '}' && e > i + 1 {
            let word = s.subrange(i + 1, e);
            let (rest, params) = rewrite_from(s, e + 1);
            ("{{.args."@ + word + "}}"@ + rest, seq![word] + params)
        } else {
            let (rest, params) = rewrite_from(s, i + 1);
            (seq![s[i]] + rest, params)
        }
    } else {
        let (rest, params) = rewrite_from(s, i + 1);
        (seq![s[i]] + rest, params)
    }
}

#[via_fn]
proof fn rewrite_from_decreases(s: Seq<char>, i: int) {
    if 0 <= i < s.len() && s[i] == '{' {
        lemma_find_word_end_range(s, i + 1);
    }
}

/// Rewrites `{name}` path parameters to `{{.args.name}}` templates and
/// hands back the parameter names found, in order.
pub fn rewrite_path_params(path: &String) -> (r: (String, Vec<String>))
    ensures
        r.0@ == rewrite_from(path@, 0).0,
        crate::value::path_view(r.1@) == rewrite_from(path@, 0).1,
{
    let chars = crate::template::str_chars(path.as_str());
    exec_rewrite_from(&chars, 0)
}

fn exec_rewrite_from(chars: &Vec<char>, i: usize) -> (r: (String, Vec<String>))
    requires
        i <= chars.len(),
    ensures
        r.0@ == rewrite_from(chars@, i as int).0,
        crate::value::path_view(r.1@) == rewrite_from(chars@, i as int).1,
    decreases chars.len() - i,
{
    if i >= chars.len() {
        let out: Vec<String> = Vec::new();
        proof {
            assert(crate::value::path_view(out@) =~= Seq::<Seq<char>>::empty());
        }
        (String::new(), out)
    } else if chars[i] == '{' {
        proof {
            lemma_find_word_end_range(chars@, i as int + 1);
        }
        let e = exec_find_word_end(chars, i + 1);
        if e < chars.len() && chars[e] == '}' && e > i + 1 {
            let ghost word = chars@.subrange(i as int + 1, e as int);
            let mut head = String::from_str("{{.args.");
            let mut k: usize = i + 1;
            while k < e
                invariant
                    i + 1 <= k <= e <= chars.len(),
                    head@ =~= "{{.args."@ + chars@.subrange(i as int + 1, k as int),
                decreases e - k,
            {
                push_char(&mut head, chars[k]);
                k = k + 1;
                proof {
                    assert(head@ =~= "{{.args."@ + chars@.subrange(i as int + 1, k as int));
                }
            }
            let head2 = head.concat("}}");
            let (rest, params) = exec_rewrite_from(chars, e + 1);
            let out = head2.concat(rest.as_str());
            let mut word_s = String::new();
            let mut k2: usize = i + 1;
            while k2 < e
                invariant
                    i + 1 <= k2 <= e <= chars.len(),
                    word_s@ =~= chars@.subrange(i as int + 1, k2 as int),
                decreases e - k2,
            {
                push_char(&mut word_s, chars[k2]);
                k2 = k2 + 1;
                proof {
                    assert(word_s@ =~= chars@.subrange(i as int + 1, k2 as int));
                }
            }
            let ghost params0 = params@;
            let mut names: Vec<String> = Vec::new();
            names.push(word_s);
            let mut params_m = params;
            names.append(&mut params_m);
            proof {
                assert(out@ =~= "{{.args."@ + word + "}}"@ + rewrite_from(chars@, e as int + 1).0);
                assert forall|m: int|
                    0 <= m < names@.len() implies crate::value::path_view(names@)[m] == (seq![word]
                    + crate::value::path_view(params0))[m] by {
                    if m > 0 {
                        assert(names@[m] == params0[m - 1]);
                    }
                }
                assert(crate::value::path_view(names@) =~= seq![word] + crate::value::path_view(
                    params0,
                ));
            }
            (out, names)
        } else {
            let (rest, params) = exec_rewrite_from(chars, i + 1);
            let mut out = String::new();
            push_char(&mut out, chars[i]);
            let out2 = out.concat(rest.as_str());
            proof {
                assert(out2@ =~= seq![chars@[i as int]] + rewrite_from(chars@, i as int + 1).0);
            }
            (out2, params)
        }
    } else {
        let (rest, params) = exec_rewrite_from(chars, i + 1);
        let mut out = String::new();
        push_char(&mut out, chars[i]);
        let out2 = out.concat(rest.as_str());
        proof {
            assert(out2@ =~= seq![chars@[i as int]] + rewrite_from(chars@, i as int + 1).0);
        }
        (out2, params)
    }
}

fn exec_find_word_end(chars: &Vec<char>, i: usize) -> (r: usize)
    requires
        i <= chars.len(),
    ensures
        r as int == find_word_end(chars@, i as int),
        i <= r <= chars.len(),
    decreases chars.len() - i,
{
    proof {
        lemma_find_word_end_range(chars@, i as int);
    }
    if i >= chars.len() {
        chars.len()
    } else {
        let c = chars[i];
        let word = (('a' <= c && c <= 'z') || ('A' <= c && c <= 'Z') || ('0' <= c && c <= '9')
            || c == '_');
        if word {
            exec_find_word_end(chars, i + 1)
        } else {
            i
        }
    }
}

/// Spec-level parameter resolution.
pub open spec fn resolve_param_spec(spec: SpecModel, r: ParamOrRef) -> Result<
    ParamModel,
    GenError,
> {
    match r {
        ParamOrRef::Object(b) => Ok(*b),
        ParamOrRef::Ref(p) => match assoc_get(spec.parameters@, after_last_slash(p@)) {
            Some(s) => Ok(s),
            None => Err(GenError::UnresolvedRef(p)),
        },
    }
}

/// Spec-level response resolution.
pub open spec fn resolve_response_spec(spec: SpecModel, r: ResponseOrRef) -> Result<
    ResponseModel,
    GenError,
> {
    match r {
        ResponseOrRef::Object(b) => Ok(*b),
        ResponseOrRef::Ref(p) => match assoc_get(spec.responses@, after_last_slash(p@)) {
            Some(s) => Ok(s),
            None => Err(GenError::UnresolvedRef(p)),
        },
    }
}

/// The first configured operation of a path item, with its method, in the
/// fixed method order.
pub open spec fn first_op(item: PathItemModel) -> Option<(Method, OperationModel)> {
    if item.get is Some {
        Some((Method::Get, item.get->Some_0))
    } else if item.head is Some {
        Some((Method::Head, item.head->Some_0))
    } else if item.options is Some {
        Some((Method::Options, item.options->Some_0))
    } else if item.trace is Some {
        Some((Method::Trace, item.trace->Some_0))
    } else if item.put is Some {
        Some((Method::Put, item.put->Some_0))
    } else if item.post is Some {
        Some((Method::Post, item.post->Some_0))
    } else if item.delete is Some {
        Some((Method::Delete, item.delete->Some_0))
    } else if item.patch is Some {
        Some((Method::Patch, item.patch->Some_0))
    } else {
        None
    }
}

/// A `skipping <path>: <reason>` message.
pub open spec fn skip_msg(path: Seq<char>, what: Seq<char>) -> Seq<char> {
    "skipping "@ + path + ": "@ + what
}

/// The message of a generation error.
pub open spec fn gen_msg(e: GenError) -> Seq<char> {
    match e {
        GenError::UnresolvedRef(p) => "unresolved reference "@ + p@,
        GenError::DepthExceeded => "schema nesting too deep"@,
        GenError::NestedList => "nested list type"@,
    }
}

/// The schema of the first sample response, or why none can be found.
pub open spec fn sample_schema_of(spec: SpecModel, op: OperationModel, path: Seq<char>) -> Result<
    SchemaOrRef,
    Seq<char>,
> {
    if op.responses@.len() == 0 {
        Err(skip_msg(path, "no sample response found"@))
    } else {
        match resolve_response_spec(spec, op.responses@[0].1) {
            Err(_) => Err(skip_msg(path, "no sample response found"@)),
            Ok(resp) => if resp.content@.len() == 0 {
                Err(skip_msg(path, "unable to detect output type"@))
            } else {
                match resp.content@[0].1.schema {
                    Some(sr) => Ok(sr),
                    None => Err(skip_msg(path, "unable to detect output type"@)),
                }
            },
        }
    }
}

/// The flat (is-list, name) pair a generated type reduces to.
pub open spec fn tn_tuple(t: TnView) -> Result<(bool, Seq<char>), GenError> {
    match t {
        TnView::Name(n) => Ok((false, n)),
        TnView::ListOf(inner) => if inner.len() == 1 {
            match inner[0] {
                TnView::Name(n) => Ok((true, n)),
                TnView::ListOf(_) => Err(GenError::NestedList),
            }
        } else {
            Err(GenError::NestedList)
        },
    }
}

/// The output type of the sample schema, flattened, or the failure message.
pub open spec fn out_tuple_of(spec: SpecModel, sr: SchemaOrRef, path: Seq<char>) -> Result<
    (bool, Seq<char>),
    Seq<char>,
> {
    match resolve_schema_spec(spec, sr) {
        Err(e) => Err(skip_msg(path, gen_msg(e))),
        Ok(schema) => match get_schema_type_spec(
            spec,
            schema,
            ref_name_spec(sr),
            spec.schemas@.len(),
        ) {
            Err(e) => Err(skip_msg(path, gen_msg(e))),
            Ok(t) => match tn_tuple(t) {
                Ok(pair) => Ok(pair),
                Err(e) => Err(skip_msg(path, gen_msg(e))),
            },
        },
    }
}

/// The flattened argument schemas of the operation's parameters from `i`
/// on: `(name, (is-list, type name, required))`, or the failure message.
pub open spec fn args_of(
    spec: SpecModel,
    params: Seq<ParamOrRef>,
    path: Seq<char>,
    i: int,
) -> Result<Seq<(Seq<char>, (bool, Seq<char>, bool))>, Seq<char>>
    decreases params.len() - i,
{
    if i < 0 || i >= params.len() {
        Ok(Seq::empty())
    } else {
        let head: Result<(Seq<char>, (bool, Seq<char>, bool)), Seq<char>> = match resolve_param_spec(
            spec,
            params[i],
        ) {
            Err(e) => Err(skip_msg(path, gen_msg(e))),
            Ok(param) => match param.schema {
                None => Err(skip_msg(path, "parameter without schema"@)),
                Some(schema) => match get_schema_type_spec(
                    spec,
                    schema,
                    match param.param_type {
                        Some(t) => Some(t@),
                        None => None,
                    },
                    spec.schemas@.len(),
                ) {
                    Err(e) => Err(skip_msg(path, gen_msg(e))),
                    Ok(t) => match tn_tuple(t) {
                        Err(e) => Err(skip_msg(path, gen_msg(e))),
                        Ok(pair) => Ok(
                            (
                                param.name@,
                                (
                                    pair.0,
                                    pair.1,
                                    match param.required {
                                        Some(b) => b,
                                        None => false,
                                    },
                                ),
                            ),
                        ),
                    },
                },
            },
        };
        match head {
            Err(m) => Err(m),
            Ok(h) => match args_of(spec, params, path, i + 1) {
                Err(m) => Err(m),
                Ok(rest) => Ok(seq![h] + rest),
            },
        }
    }
}

/// Why this path is skipped, if it is; the checks run in generation order.
pub open spec fn transform_failure(
    spec: SpecModel,
    path: Seq<char>,
    item: PathItemModel,
) -> Option<Seq<char>> {
    match first_op(item) {
        None => Some(skip_msg(path, "no operation found"@)),
        Some((m, op)) => match sample_schema_of(spec, op, path) {
            Err(w) => Some(w),
            Ok(sr) => match args_of(spec, op.parameters@, path, 0) {
                Err(w) => Some(w),
                Ok(_) => match out_tuple_of(spec, sr, path) {
                    Err(w) => Some(w),
                    Ok(_) => if op.operation_id is None {
                        Some(skip_msg(path, "operation without id"@))
                    } else {
                        None
                    },
                },
            },
        },
    }
}

/// The query parameters the generated http operator carries: one
/// `name={{.args.name}}` pair per argument that is not a path parameter.
pub open spec fn query_kvs(names: Seq<Seq<char>>, url_params: Seq<Seq<char>>) -> Seq<
    (Seq<char>, Seq<char>),
>
    decreases names.len(),
{
    if names.len() == 0 {
        Seq::empty()
    } else {
        let rest = query_kvs(names.skip(1), url_params);
        if url_params.contains(names[0]) {
            rest
        } else {
            seq![(names[0], "{{.args."@ + names[0] + "}}"@)] + rest
        }
    }
}

/// The names of flattened arguments.
pub open spec fn arg_names(argseq: Seq<(Seq<char>, (bool, Seq<char>, bool))>) -> Seq<Seq<char>> {
    argseq.map_values(|a: (Seq<char>, (bool, Seq<char>, bool))| a.0)
}

/// Whether the generated field carries exactly the expected data.
pub open spec fn gen_field_ok(
    f: Field,
    method: Method,
    base_url: Option<String>,
    expected_path: Seq<char>,
    argseq: Seq<(Seq<char>, (bool, Seq<char>, bool))>,
    qkvs: Seq<(Seq<char>, Seq<char>)>,
    is_list: bool,
    tname: Seq<char>,
    desc: Option<String>,
) -> bool {
    &&& f.type_of@ == tname
    &&& f.list == is_list
    &&& f.required == false
    &&& f.args@.len() == argseq.len()
    &&& (forall|i: int|
        0 <= i < argseq.len() ==> {
            let a = #[trigger] f.args@[i];
            &&& a.0@ == argseq[i].0
            &&& a.1.list == argseq[i].1.0
            &&& a.1.type_of@ == argseq[i].1.1
            &&& a.1.required == argseq[i].1.2
            &&& a.1.default_value is None
            &&& a.1.doc is None
        })
    &&& (match f.http {
        Some(h) => {
            &&& h.method == method
            &&& (match (h.base_url, base_url) {
                (Some(a), Some(b)) => a@ == b@,
                (None, None) => true,
                _ => false,
            })
            &&& h.path@ == expected_path
            &&& h.query@.len() == qkvs.len()
            &&& (forall|i: int|
                0 <= i < qkvs.len() ==> ((#[trigger] h.query@[i]).key@ == qkvs[i].0
                    && h.query@[i].value@ == qkvs[i].1))
        },
        None => false,
    })
    &&& f.const_value is None
    &&& f.extension is None
    &&& f.cache_max_age is None
    &&& (match (f.doc, desc) {
        (Some(a), Some(b)) => a@ == b@,
        (None, None) => true,
        _ => false,
    })
}

/// Position of `key` among field entries; the length when absent.
pub open spec fn find_key_field(entries: Seq<(String, Field)>, key: Seq<char>, i: int) -> int
    decreases entries.len() - i,
{
    if i < 0 || i >= entries.len() {
        entries.len() as int
    } else if entries[i].0@ == key {
        i
    } else {
        find_key_field(entries, key, i + 1)
    }
}

/// Position of `key` among type entries; the length when absent.
pub open spec fn find_key_type(entries: Seq<(String, TypeConfig)>, key: Seq<char>, i: int) -> int
    decreases entries.len() - i,
{
    if i < 0 || i >= entries.len() {
        entries.len() as int
    } else if entries[i].0@ == key {
        i
    } else {
        find_key_type(entries, key, i + 1)
    }
}

fn exec_find_key_field(entries: &Vec<(String, Field)>, key: &String, i: usize) -> (r: usize)
    requires
        i <= entries.len(),
    ensures
        r as int == find_key_field(entries@, key@, i as int),
        i <= r <= entries.len(),
    decreases entries.len() - i,
{
    if i == entries.len() {
        entries.len()
    } else if entries[i].0 == *key {
        i
    } else {
        exec_find_key_field(entries, key, i + 1)
    }
}

fn exec_find_key_type(entries: &Vec<(String, TypeConfig)>, key: &String, i: usize) -> (r: usize)
    requires
        i <= entries.len(),
    ensures
        r as int == find_key_type(entries@, key@, i as int),
        i <= r <= entries.len(),
    decreases entries.len() - i,
{
    if i == entries.len() {
        entries.len()
    } else if entries[i].0 == *key {
        i
    } else {
        exec_find_key_type(entries, key, i + 1)
    }
}

/// A `skipping <path>: <reason>` message.
fn mk_skip(path: &String, what: &str) -> (r: String)
    ensures
        r@ == skip_msg(path@, what@),
{
    let mut out = String::from_str("skipping ");
    let out2 = out.concat(path.as_str());
    let out3 = out2.concat(": ");
    let out4 = out3.concat(what);
    proof {
        assert(out4@ =~= skip_msg(path@, what@));
    }
    out4
}

/// The message of a generation error, rendered.
fn gen_error_message(e: &GenError) -> (r: String)
    ensures
        r@ == gen_msg(*e),
{
    match e {
        GenError::UnresolvedRef(p) => {
            let out = String::from_str("unresolved reference ").concat(p.as_str());
            proof {
                assert(out@ =~= "unresolved reference "@ + p@);
            }
            out
        },
        GenError::DepthExceeded => String::from_str("schema nesting too deep"),
        GenError::NestedList => String::from_str("nested list type"),
    }
}

/// Flattens a generated type to its (is-list, name) pair; a nested list is
/// rejected.
fn flatten_type(t: &TypeName) -> (r: Result<(bool, String), GenError>)
    ensures
        match r {
            Ok(pair) => tn_tuple(tn_view(*t)) == Ok::<(bool, Seq<char>), GenError>(
                (pair.0, pair.1@),
            ),
            Err(e) => tn_tuple(tn_view(*t)) == Err::<(bool, Seq<char>), GenError>(e),
        },
{
    match t {
        TypeName::Name(n) => {
            proof {
                assert(tn_view(*t) == TnView::Name(n@));
            }
            Ok((false, n.clone()))
        },
        TypeName::ListOf(inner) => {
            proof {
                assert(tn_view(*t) == TnView::ListOf(seq![tn_view(**inner)]));
            }
            match &**inner {
                TypeName::Name(n) => {
                    proof {
                        assert(tn_view(**inner) == TnView::Name(n@));
                    }
                    Ok((true, n.clone()))
                },
                TypeName::ListOf(_) => Err(GenError::NestedList),
            }
        },
    }
}

/// One path's generator: the query type it extends, the path, its item, and
/// the server base URL.
#[derive(Debug)]
pub struct SingleQueryGenerator<'a> {
    pub query: &'a String,
    pub path: &'a String,
    pub path_item: &'a PathItemModel,
    pub base_url: &'a Option<String>,
}

impl<'a> SingleQueryGenerator<'a> {
    fn pick_operation(&self) -> (r: Option<(Method, &'a OperationModel)>)
        ensures
            match r {
                Some((m, op)) => first_op(*self.path_item) == Some((m, *op)),
                None => first_op(*self.path_item) is None,
            },
    {
        if let Some(op) = &self.path_item.get {
            Some((Method::Get, op))
        } else if let Some(op) = &self.path_item.head {
            Some((Method::Head, op))
        } else if let Some(op) = &self.path_item.options {
            Some((Method::Options, op))
        } else if let Some(op) = &self.path_item.trace {
            Some((Method::Trace, op))
        } else if let Some(op) = &self.path_item.put {
            Some((Method::Put, op))
        } else if let Some(op) = &self.path_item.post {
            Some((Method::Post, op))
        } else if let Some(op) = &self.path_item.delete {
            Some((Method::Delete, op))
        } else if let Some(op) = &self.path_item.patch {
            Some((Method::Patch, op))
        } else {
            None
        }
    }

    fn sample_schema<'b>(&self, spec: &'b SpecModel, op: &'b OperationModel) -> (r: Result<
        &'b SchemaOrRef,
        String,
    >)
        ensures
            match r {
                Ok(sr) => sample_schema_of(*spec, *op, self.path@) == Ok::<SchemaOrRef, Seq<char>>(
                    *sr,
                ),
                Err(m) => sample_schema_of(*spec, *op, self.path@) == Err::<SchemaOrRef, Seq<char>>(
                    m@,
                ),
            },
    {
        if op.responses.len() == 0 {
            return Err(mk_skip(&self.path, "no sample response found"));
        }
        let resp = match resolve_response(spec, &op.responses[0].1) {
            Ok(resp) => resp,
            Err(_) => {
                return Err(mk_skip(&self.path, "no sample response found"));
            },
        };
        if resp.content.len() == 0 {
            return Err(mk_skip(&self.path, "unable to detect output type"));
        }
        match &resp.content[0].1.schema {
            Some(sr) => Ok(sr),
            None => Err(mk_skip(&self.path, "unable to detect output type")),
        }
    }

    fn output_tuple(&self, spec: &SpecModel, sr: &SchemaOrRef) -> (r: Result<
        (bool, String),
        String,
    >)
        ensures
            match r {
                Ok(pair) => out_tuple_of(*spec, *sr, self.path@) == Ok::<
                    (bool, Seq<char>),
                    Seq<char>,
                >((pair.0, pair.1@)),
                Err(m) => out_tuple_of(*spec, *sr, self.path@) == Err::<
                    (bool, Seq<char>),
                    Seq<char>,
                >(m@),
            },
    {
        let schema = match resolve_schema(spec, sr) {
            Ok(schema) => schema,
            Err(e) => {
                let msg = gen_error_message(&e);
                return Err(mk_skip(&self.path, msg.as_str()));
            },
        };
        let name = name_from_ref_path(sr);
        let name_ref = match &name {
            Some(n) => Some(n),
            None => None,
        };
        let t = match get_schema_type(spec, schema, name_ref, spec.schemas.len()) {
            Ok(t) => t,
            Err(e) => {
                let msg = gen_error_message(&e);
                return Err(mk_skip(&self.path, msg.as_str()));
            },
        };
        match flatten_type(&t) {
            Ok(pair) => Ok(pair),
            Err(e) => {
                let msg = gen_error_message(&e);
                Err(mk_skip(&self.path, msg.as_str()))
            },
        }
    }

    fn build_arg_list(&self, spec: &SpecModel, params: &Vec<ParamOrRef>, i: usize) -> (r: Result<
        Vec<(String, crate::config::Arg)>,
        String,
    >)
        requires
            i <= params.len(),
        ensures
            match r {
                Ok(v) => (match args_of(*spec, params@, self.path@, i as int) {
                    Ok(argseq) => {
                        &&& v@.len() == argseq.len()
                        &&& (forall|k: int|
                            0 <= k < argseq.len() ==> {
                                let a = #[trigger] v@[k];
                                &&& a.0@ == argseq[k].0
                                &&& a.1.list == argseq[k].1.0
                                &&& a.1.type_of@ == argseq[k].1.1
                                &&& a.1.required == argseq[k].1.2
                                &&& a.1.default_value is None
                                &&& a.1.doc is None
                            })
                    },
                    Err(_) => false,
                }),
                Err(m) => args_of(*spec, params@, self.path@, i as int) == Err::<
                    Seq<(Seq<char>, (bool, Seq<char>, bool))>,
                    Seq<char>,
                >(m@),
            },
        decreases params.len() - i,
    {
        if i == params.len() {
            let out: Vec<(String, crate::config::Arg)> = Vec::new();
            Ok(out)
        } else {
            let param = match resolve_param(spec, &params[i]) {
                Ok(p) => p,
                Err(e) => {
                    let msg = gen_error_message(&e);
                    return Err(mk_skip(&self.path, msg.as_str()));
                },
            };
            let schema = match &param.schema {
                Some(schema) => schema,
                None => {
                    return Err(mk_skip(&self.path, "parameter without schema"));
                },
            };
            let pt_ref = match &param.param_type {
                Some(t) => Some(t),
                None => None,
            };
            let t = match get_schema_type(spec, schema, pt_ref, spec.schemas.len()) {
                Ok(t) => t,
                Err(e) => {
                    let msg = gen_error_message(&e);
                    return Err(mk_skip(&self.path, msg.as_str()));
                },
            };
            let (is_list, tname) = match flatten_type(&t) {
                Ok(pair) => pair,
                Err(e) => {
                    let msg = gen_error_message(&e);
                    return Err(mk_skip(&self.path, msg.as_str()));
                },
            };
            let required = match param.required {
                Some(b) => b,
                None => false,
            };
            let arg = crate::config::Arg {
                type_of: tname,
                list: is_list,
                required,
                doc: None,
                default_value: None,
            };
            let head = (param.name.clone(), arg);
            match self.build_arg_list(spec, params, i + 1) {
                Ok(mut rest) => {
                    let ghost rest0 = rest@;
                    let mut out: Vec<(String, crate::config::Arg)> = Vec::new();
                    out.push(head);
                    out.append(&mut rest);
                    proof {
                        assert(forall|k: int|
                            0 < k < out@.len() ==> #[trigger] out@[k] == rest0[k - 1]);
                    }
                    Ok(out)
                },
                Err(m) => Err(m),
            }
        }
    }
}

/// Builds the `name={{.args.name}}` query pairs for arguments that are not
/// path parameters.
#[verifier::loop_isolation(false)]
fn build_query_kvs(args: &Vec<(String, crate::config::Arg)>, url_params: &Vec<String>, i: usize) -> (r:
    Vec<KeyValue>)
    requires
        i <= args.len(),
    ensures
        ({
            let spec_names = Seq::new(
                (args@.len() - i) as nat,
                |k: int| args@[i + k].0@,
            );
            let qk = query_kvs(spec_names, crate::value::path_view(url_params@));
            &&& r@.len() == qk.len()
            &&& (forall|k: int|
                0 <= k < qk.len() ==> ((#[trigger] r@[k]).key@ == qk[k].0 && r@[k].value@
                    == qk[k].1))
        }),
    decreases args.len() - i,
{
    let ghost upv = crate::value::path_view(url_params@);
    if i == args.len() {
        let out: Vec<KeyValue> = Vec::new();
        proof {
            assert(Seq::new(0nat, |k: int| args@[i + k].0@) =~= Seq::<Seq<char>>::empty());
        }
        out
    } else {
        let ghost names = Seq::new((args@.len() - i) as nat, |k: int| args@[i + k].0@);
        let ghost names1 = Seq::new((args@.len() - i - 1) as nat, |k: int| args@[i + 1 + k].0@);
        proof {
            assert(names[0] == args@[i as int].0@);
            assert(names.skip(1) =~= names1);
        }
        let rest = build_query_kvs(args, url_params, i + 1);
        let mut contained = false;
        let n = url_params.len();
        let mut k: usize = 0;
        while k < n
            invariant
                k <= n,
                n == url_params@.len(),
                contained == exists|m: int|
                    0 <= m < k && crate::value::path_view(url_params@)[m] == args@[i as int].0@,
            decreases n - k,
        {
            if url_params[k] == args[i].0 {
                proof {
                    assert(crate::value::path_view(url_params@)[k as int] == url_params@[k as int]@);
                }
                contained = true;
            }
            k = k + 1;
        }
        proof {
            if contained {
                assert(upv.contains(names[0]));
            } else {
                assert(!upv.contains(names[0])) by {
                    if upv.contains(names[0]) {
                        let m = choose|m: int| 0 <= m < upv.len() && upv[m] == names[0];
                        assert(crate::value::path_view(url_params@)[m] == args@[i as int].0@);
                    }
                }
            }
        }
        if contained {
            rest
        } else {
            let mut value = String::from_str("{{.args.");
            let v2 = value.concat(args[i].0.as_str());
            let v3 = v2.concat("}}");
            proof {
                assert(v3@ =~= "{{.args."@ + names[0] + "}}"@);
            }
            let kv = KeyValue { key: args[i].0.clone(), value: v3 };
            let ghost rest0 = rest@;
            let mut out: Vec<KeyValue> = Vec::new();
            out.push(kv);
            let mut rest_m = rest;
            out.append(&mut rest_m);
            proof {
                assert(forall|m: int| 0 < m < out@.len() ==> #[trigger] out@[m] == rest0[m - 1]);
            }
            out
        }
    }
}

/// Replaces the first entry under `key`, or appends a new one.
fn insert_field(fields: &mut Vec<(String, Field)>, key: String, f: Field)
    ensures
        ({
            let j = find_key_field(old(fields)@, key@, 0);
            if j == old(fields)@.len() {
                &&& final(fields)@.len() == old(fields)@.len() + 1
                &&& (forall|i: int|
                    0 <= i < old(fields)@.len() ==> final(fields)@[i] == old(fields)@[i])
                &&& final(fields)@[old(fields)@.len() as int].0 == key
                &&& final(fields)@[old(fields)@.len() as int].1 == f
            } else {
                &&& final(fields)@.len() == old(fields)@.len()
                &&& (forall|i: int|
                    0 <= i < old(fields)@.len() && i != j ==> final(fields)@[i] == old(
                        fields,
                    )@[i])
                &&& final(fields)@[j].0 == old(fields)@[j].0
                &&& final(fields)@[j].1 == f
            }
        }),
{
    let j = exec_find_key_field(fields, &key, 0);
    if j == fields.len() {
        fields.push((key, f));
    } else {
        let old_key = fields[j].0.clone();
        fields.set(j, (old_key, f));
    }
}

impl<'a> SingleQueryGenerator<'a> {
    /// Whether this path would be skipped, without touching any
    /// configuration.
    pub fn would_fail(&self, spec: &SpecModel) -> (r: bool)
        ensures
            r == (transform_failure(*spec, self.path@, *self.path_item) is Some),
    {
        let op = match self.pick_operation() {
            Some((_, op)) => op,
            None => {
                return true;
            },
        };
        match self.sample_schema(spec, op) {
            Err(_) => true,
            Ok(sr) => {
                match self.build_arg_list(spec, &op.parameters, 0) {
                    Err(_) => {
                        return true;
                    },
                    Ok(_) => {},
                }
                match self.output_tuple(spec, sr) {
                    Err(_) => {
                        return true;
                    },
                    Ok(_) => {},
                }
                match &op.operation_id {
                    None => true,
                    Some(_) => false,
                }
            },
        }
    }

    /// Turns this path's first operation into one query field of the
    /// configuration: output type from the first sample response, arguments
    /// from the parameters, the http operator templated over the path with
    /// `{name}` parameters rewritten, the remaining arguments as query
    /// parameters. A path that cannot be generated fails with a `skipping`
    /// message; a configuration without the query type passes through
    /// unchanged.
    #[verifier::rlimit(100)]
    pub fn transform(&self, spec: &SpecModel, config: Config) -> (r: Result<Config, String>)
        ensures
            match r {
                Err(m) => transform_failure(*spec, self.path@, *self.path_item) == Some(m@),
                Ok(cfg) => {
                    &&& transform_failure(*spec, self.path@, *self.path_item) is None
                    &&& ({
                        let (method, op) = first_op(*self.path_item)->Some_0;
                        let argseq = args_of(*spec, op.parameters@, self.path@, 0)->Ok_0;
                        let sr = sample_schema_of(*spec, op, self.path@)->Ok_0;
                        let (is_list, tname) = out_tuple_of(*spec, sr, self.path@)->Ok_0;
                        let rewritten = if argseq.len() > 0 {
                            rewrite_from(self.path@, 0)
                        } else {
                            (self.path@, Seq::<Seq<char>>::empty())
                        };
                        let qkvs = query_kvs(arg_names(argseq), rewritten.1);
                        let tj = find_key_type(config.types@, self.query@, 0);
                        &&& cfg.schema == config.schema
                        &&& (if tj == config.types@.len() {
                            cfg == config
                        } else {
                            &&& cfg.types@.len() == config.types@.len()
                            &&& (forall|t: int|
                                0 <= t < config.types@.len() && t != tj
                                    ==> #[trigger] cfg.types@[t] == config.types@[t])
                            &&& cfg.types@[tj].0 == config.types@[tj].0
                            &&& cfg.types@[tj].1.doc == config.types@[tj].1.doc
                            &&& ({
                                let oldf = config.types@[tj].1.fields@;
                                let newf = cfg.types@[tj].1.fields@;
                                let key = camel_of(op.operation_id->Some_0@);
                                let fj = find_key_field(oldf, key, 0);
                                if fj == oldf.len() {
                                    &&& newf.len() == oldf.len() + 1
                                    &&& (forall|i: int|
                                        0 <= i < oldf.len() ==> #[trigger] newf[i] == oldf[i])
                                    &&& newf[oldf.len() as int].0@ == key
                                    &&& gen_field_ok(
                                        newf[oldf.len() as int].1,
                                        method,
                                        *self.base_url,
                                        rewritten.0,
                                        argseq,
                                        qkvs,
                                        is_list,
                                        tname,
                                        op.description,
                                    )
                                } else {
                                    &&& newf.len() == oldf.len()
                                    &&& (forall|i: int|
                                        0 <= i < oldf.len() && i != fj ==> #[trigger] newf[i]
                                            == oldf[i])
                                    &&& newf[fj].0 == oldf[fj].0
                                    &&& gen_field_ok(
                                        newf[fj].1,
                                        method,
                                        *self.base_url,
                                        rewritten.0,
                                        argseq,
                                        qkvs,
                                        is_list,
                                        tname,
                                        op.description,
                                    )
                                }
                            })
                        })
                    })
                },
            },
    {
        let (method, op) = match self.pick_operation() {
            Some(pair) => pair,
            None => {
                return Err(mk_skip(self.path, "no operation found"));
            },
        };
        let sr = match self.sample_schema(spec, op) {
            Ok(sr) => sr,
            Err(m) => {
                return Err(m);
            },
        };
        let args = match self.build_arg_list(spec, &op.parameters, 0) {
            Ok(args) => args,
            Err(m) => {
                return Err(m);
            },
        };
        let (is_list, tname) = match self.output_tuple(spec, sr) {
            Ok(pair) => pair,
            Err(m) => {
                return Err(m);
            },
        };
        let opid = match &op.operation_id {
            Some(opid) => opid,
            None => {
                return Err(mk_skip(self.path, "operation without id"));
            },
        };
        let (final_path, url_params): (String, Vec<String>) = if args.len() > 0 {
            rewrite_path_params(self.path)
        } else {
            (self.path.clone(), Vec::new())
        };
        proof {
            if args@.len() == 0 {
                assert(crate::value::path_view(Seq::<String>::empty()) =~= Seq::<
                    Seq<char>,
                >::empty());
            }
        }
        let ghost argseq = args_of(*spec, op.parameters@, self.path@, 0)->Ok_0;
        proof {
            assert(Seq::new((args@.len() - 0) as nat, |k: int| args@[0 + k].0@) =~= arg_names(
                argseq,
            ));
        }
        let query = build_query_kvs(&args, &url_params, 0);
        let http = Http {
            path: final_path,
            base_url: match self.base_url {
                Some(b) => Some(b.clone()),
                None => None,
            },
            method,
            query,
        };
        let field = Field {
            type_of: tname,
            list: is_list,
            required: false,
            args,
            http: Some(http),
            const_value: None,
            extension: None,
            cache_max_age: None,
            doc: match &op.description {
                Some(d) => Some(d.clone()),
                None => None,
            },
        };
        let key = to_camel(opid);
        let mut config = config;
        let tj = exec_find_key_type(&config.types, self.query, 0);
        if tj == config.types.len() {
            return Ok(config);
        }
        let entry = &mut config.types[tj].1;
        insert_field(&mut entry.fields, key, field);
        Ok(config)
    }
}

/// The query generator: one query field per path of the description.
#[derive(Debug, PartialEq)]
pub struct QueryGenerator {
    pub query: String,
    pub base_url: Option<String>,
}

impl QueryGenerator {
    /// A generator for the named query type; the base URL is the
    /// description's first server, when one is declared.
    pub fn new(query: String, spec: &SpecModel) -> (r: QueryGenerator)
        ensures
            r.query == query,
            (match r.base_url {
                Some(b) => spec.servers@.len() > 0 && b@ == spec.servers@[0]@,
                None => spec.servers@.len() == 0,
            }),
    {
        let base_url = if spec.servers.len() > 0 {
            Some(spec.servers[0].clone())
        } else {
            None
        };
        QueryGenerator { query, base_url }
    }

    /// Ensures the query type exists, then extends it with one field per
    /// generable path, in path order; paths that cannot be generated are
    /// skipped, so the whole pass always succeeds, as the original pipeline
    /// promises.
    pub fn transform(&self, spec: &SpecModel, config: Config) -> (r: Config)
        ensures
            find_key_type(r.types@, self.query@, 0) < r.types@.len(),
            r.types@[find_key_type(r.types@, self.query@, 0)].0@ == self.query@,
            r.schema == config.schema,
            ({
                let tj = find_key_type(config.types@, self.query@, 0);
                if tj == config.types@.len() {
                    &&& r.types@.len() == config.types@.len() + 1
                    &&& (forall|t: int|
                        0 <= t < config.types@.len() ==> #[trigger] r.types@[t]
                            == config.types@[t])
                } else {
                    &&& r.types@.len() == config.types@.len()
                    &&& (forall|t: int|
                        0 <= t < config.types@.len() && t != tj ==> #[trigger] r.types@[t]
                            == config.types@[t])
                    &&& r.types@[tj].0 == config.types@[tj].0
                }
            }),
    {
        let mut config = config;
        let tj = exec_find_key_type(&config.types, &self.query, 0);
        if tj == config.types.len() {
            let ghost pre = config.types@;
            let entry = (self.query.clone(), TypeConfig::new());
            let ghost entryv = entry;
            config.types.push(entry);
            proof {
                lemma_find_key_after_push(pre, entryv, self.query@, 0);
                lemma_find_key_type_found(config.types@, self.query@, 0);
            }
        } else {
            let fresh = TypeConfig::new();
            let old_key = config.types[tj].0.clone();
            let ghost pre = config.types@;
            config.types.set(tj, (old_key, fresh));
            proof {
                lemma_find_key_type_found(pre, self.query@, 0);
                assert(forall|t: int|
                    0 <= t < pre.len() ==> (#[trigger] config.types@[t]).0@ == pre[t].0@);
                lemma_find_key_type_same(pre, config.types@, self.query@, 0);
                lemma_find_key_type_found(config.types@, self.query@, 0);
            }
        }
        let ghost base = config.types@;
        let ghost base_tj = find_key_type(base, self.query@, 0);
        let ghost schema0 = config.schema;
        let n = spec.paths.len();
        let mut p: usize = 0;
        while p < n
            invariant
                p <= n,
                n == spec.paths@.len(),
                find_key_type(config.types@, self.query@, 0) < config.types@.len(),
                config.types@[find_key_type(config.types@, self.query@, 0)].0@ == self.query@,
                config.schema == schema0,
                config.types@.len() == base.len(),
                find_key_type(config.types@, self.query@, 0) == base_tj,
                forall|t: int|
                    0 <= t < base.len() && t != base_tj ==> #[trigger] config.types@[t]
                        == base[t],
                config.types@[base_tj].0 == base[base_tj].0,
            decreases n - p,
        {
            let single = SingleQueryGenerator {
                query: &self.query,
                path: &spec.paths[p].0,
                path_item: &spec.paths[p].1,
                base_url: &self.base_url,
            };
            let ghost before = config.types@;
            if !single.would_fail(spec) {
                match single.transform(spec, config) {
                    Ok(next) => {
                        config = next;
                        proof {
                            let tj2 = find_key_type(before, self.query@, 0);
                            if tj2 < before.len() {
                                assert(config.types@.len() == before.len());
                                assert forall|t: int|
                                    0 <= t < before.len() implies (
                                #[trigger] config.types@[t]).0@ == before[t].0@ by {
                                    if t != tj2 {
                                        assert(config.types@[t] == before[t]);
                                    }
                                }
                                lemma_find_key_type_same(before, config.types@, self.query@, 0);
                                lemma_find_key_type_found(config.types@, self.query@, 0);
                            }
                        }
                    },
                    Err(_) => {
                        proof {
                            assert(false);
                        }
                        config = Config {
                            types: Vec::new(),
                            schema: crate::config::SchemaRoots {
                                query: None,
                                mutation: None,
                                subscription: None,
                            },
                        };
                    },
                }
            }
            p = p + 1;
        }
        config
    }
}

/// A found key really is at the found position.
proof fn lemma_find_key_type_found(entries: Seq<(String, TypeConfig)>, q: Seq<char>, i: int)
    requires
        0 <= i,
    ensures
        find_key_type(entries, q, i) < entries.len() ==> entries[find_key_type(entries, q, i)].0@
            == q,
        i <= find_key_type(entries, q, i) <= entries.len() || i >= entries.len(),
    decreases entries.len() - i,
{
    if i < entries.len() && entries[i].0@ != q {
        lemma_find_key_type_found(entries, q, i + 1);
    }
}

/// Appending an entry with the sought key to a list without it places the
/// key at the old end.
proof fn lemma_find_key_after_push(
    entries: Seq<(String, TypeConfig)>,
    entry: (String, TypeConfig),
    q: Seq<char>,
    i: int,
)
    requires
        0 <= i <= entries.len(),
        find_key_type(entries, q, i) == entries.len(),
        entry.0@ == q,
    ensures
        find_key_type(entries.push(entry), q, i) == entries.len(),
    decreases entries.len() - i,
{
    if i < entries.len() {
        assert(entries.push(entry)[i] == entries[i]);
        lemma_find_key_after_push(entries, entry, q, i + 1);
    } else {
        assert(entries.push(entry)[i].0@ == q);
    }
}

/// Two type lists with the same keys position any key alike.
proof fn lemma_find_key_type_same(
    before: Seq<(String, TypeConfig)>,
    after: Seq<(String, TypeConfig)>,
    q: Seq<char>,
    i: int,
)
    requires
        before.len() == after.len(),
        forall|t: int| 0 <= t < before.len() ==> (#[trigger] after[t]).0@ == before[t].0@,
        0 <= i,
    ensures
        find_key_type(after, q, i) == find_key_type(before, q, i),
    decreases before.len() - i,
{
    if i < before.len() {
        lemma_find_key_type_same(before, after, q, i + 1);
    }
}

} // verus!
