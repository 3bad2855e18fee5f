//! The validated configuration the blueprint compiler consumes.
//!
//! One type maps field names to field configurations; a field configuration
//! carries the declared output type and the operators (http, const,
//! extension, cache) that will be folded into the field's resolver.

use vstd::prelude::*;

use crate::value::Value;

verus! {

/// An HTTP method.
#[derive(Debug, Clone, Copy, PartialEq, Eq, Structural, Hash)]
pub enum Method {
    Get,
    Head,
    Options,
    Trace,
    Put,
    Post,
    Delete,
    Patch,
}

/// A key/value pair, as in a query-parameter list.
#[derive(Debug, Clone, PartialEq)]
pub struct KeyValue {
    pub key: String,
    pub value: String,
}

/// The http operator: where and how the field's value is fetched.
#[derive(Debug, Clone, PartialEq)]
pub struct Http {
    pub path: String,
    pub base_url: Option<String>,
    pub method: Method,
    pub query: Vec<KeyValue>,
}

/// The in-process extension operator: an opaque payload handed to a loaded
/// capability library.
#[derive(Debug, Clone, PartialEq)]
pub struct Extension {
    pub payload: Value,
}

/// One argument's schema on a field.
#[derive(Debug, Clone, PartialEq)]
pub struct Arg {
    pub type_of: String,
    pub list: bool,
    pub required: bool,
    pub doc: Option<String>,
    pub default_value: Option<Value>,
}

/// One field's configuration: declared type plus operators.
#[derive(Debug, Clone, PartialEq)]
pub struct Field {
    pub type_of: String,
    pub list: bool,
    pub required: bool,
    pub args: Vec<(String, Arg)>,
    pub http: Option<Http>,
    pub const_value: Option<Value>,
    pub extension: Option<Extension>,
    pub cache_max_age: Option<u64>,
    pub doc: Option<String>,
}

impl Field {
    /// A field with the given declared type and nothing else.
    pub fn new(type_of: String, list: bool, required: bool) -> (r: Field)
        ensures
            r.type_of == type_of,
            r.list == list,
            r.required == required,
            r.args@.len() == 0,
            r.http is None,
            r.const_value is None,
            r.extension is None,
            r.cache_max_age is None,
    {
        Field {
            type_of,
            list,
            required,
            args: Vec::new(),
            http: None,
            const_value: None,
            extension: None,
            cache_max_age: None,
            doc: None,
        }
    }
}

/// One output type: its fields by name.
#[derive(Debug, Clone, PartialEq)]
pub struct TypeConfig {
    pub fields: Vec<(String, Field)>,
    pub doc: Option<String>,
}

impl TypeConfig {
    /// A type with no fields.
    pub fn new() -> (r: TypeConfig)
        ensures
            r.fields@.len() == 0,
    {
        TypeConfig { fields: Vec::new(), doc: None }
    }
}

/// The root operation type names of the schema.
#[derive(Debug, Clone, PartialEq)]
pub struct SchemaRoots {
    pub query: Option<String>,
    pub mutation: Option<String>,
    pub subscription: Option<String>,
}

/// The whole configuration: types by name plus the root names.
#[derive(Debug, Clone, PartialEq)]
pub struct Config {
    pub types: Vec<(String, TypeConfig)>,
    pub schema: SchemaRoots,
}

/// Spec-level association lookup by string key, first match wins; generic in
/// the entry payload.
pub open spec fn assoc_get<T>(entries: Seq<(String, T)>, key: Seq<char>) -> Option<T>
    decreases entries.len(),
{
    if entries.len() == 0 {
        None
    } else if entries[0].0@ == key {
        Some(entries[0].1)
    } else {
        assoc_get(entries.skip(1), key)
    }
}

/// Looks a type up by name.
pub fn types_get<'a>(entries: &'a Vec<(String, TypeConfig)>, key: &String) -> (r: Option<
    &'a TypeConfig,
>)
    ensures
        match r {
            Some(t) => assoc_get(entries@, key@) == Some(*t),
            None => assoc_get(entries@, key@) is None,
        },
{
    proof {
        assert(entries@.skip(0) =~= entries@);
    }
    types_get_from(entries, key, 0)
}

fn types_get_from<'a>(entries: &'a Vec<(String, TypeConfig)>, key: &String, i: usize) -> (r:
    Option<&'a TypeConfig>)
    requires
        i <= entries.len(),
    ensures
        match r {
            Some(t) => assoc_get(entries@.skip(i as int), key@) == Some(*t),
            None => assoc_get(entries@.skip(i as int), key@) is None,
        },
    decreases entries.len() - i,
{
    if i == entries.len() {
        None
    } else {
        assert(entries@.skip(i as int)[0] == entries@[i as int]);
        if entries[i].0 == *key {
            Some(&entries[i].1)
        } else {
            let r = types_get_from(entries, key, i + 1);
            assert(entries@.skip(i as int).skip(1) =~= entries@.skip(i as int + 1));
            r
        }
    }
}

/// Looks a field up by name on a type.
pub fn fields_get<'a>(entries: &'a Vec<(String, Field)>, key: &String) -> (r: Option<&'a Field>)
    ensures
        match r {
            Some(f) => assoc_get(entries@, key@) == Some(*f),
            None => assoc_get(entries@, key@) is None,
        },
{
    proof {
        assert(entries@.skip(0) =~= entries@);
    }
    fields_get_from(entries, key, 0)
}

fn fields_get_from<'a>(entries: &'a Vec<(String, Field)>, key: &String, i: usize) -> (r: Option<
    &'a Field,
>)
    requires
        i <= entries.len(),
    ensures
        match r {
            Some(f) => assoc_get(entries@.skip(i as int), key@) == Some(*f),
            None => assoc_get(entries@.skip(i as int), key@) is None,
        },
    decreases entries.len() - i,
{
    if i == entries.len() {
        None
    } else {
        assert(entries@.skip(i as int)[0] == entries@[i as int]);
        if entries[i].0 == *key {
            Some(&entries[i].1)
        } else {
            let r = fields_get_from(entries, key, i + 1);
            assert(entries@.skip(i as int).skip(1) =~= entries@.skip(i as int + 1));
            r
        }
    }
}

impl Config {
    /// Whether `name` names one of the root operation types.
    pub open spec fn is_root_operation_type_spec(self, name: Seq<char>) -> bool {
        ||| (match self.schema.query {
            Some(q) => q@ == name,
            None => false,
        })
        ||| (match self.schema.mutation {
            Some(m) => m@ == name,
            None => false,
        })
        ||| (match self.schema.subscription {
            Some(s) => s@ == name,
            None => false,
        })
    }

    /// Whether `name` names one of the root operation types.
    pub fn is_root_operation_type(&self, name: &String) -> (r: bool)
        ensures
            r == self.is_root_operation_type_spec(name@),
    {
        let q = match &self.schema.query {
            Some(q) => *q == *name,
            None => false,
        };
        let m = match &self.schema.mutation {
            Some(m) => *m == *name,
            None => false,
        };
        let s = match &self.schema.subscription {
            Some(s) => *s == *name,
            None => false,
        };
        q || m || s
    }
}

/// The linked capability libraries available to extension operators.
#[derive(Debug, Clone, PartialEq)]
pub struct Extensions {
    /// The path of the loaded capability library, when one is linked.
    pub rust_lib: Option<String>,
}

/// The configuration together with what was linked into it.
#[derive(Debug, Clone, PartialEq)]
pub struct ConfigModule {
    pub config: Config,
    pub extensions: Extensions,
}

impl ConfigModule {
    /// The linked extension capabilities.
    pub fn extensions(&self) -> (r: &Extensions)
        ensures
            *r == self.extensions,
    {
        &self.extensions
    }
}

} // verus!
