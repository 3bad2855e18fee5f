//! The blueprint compiler: configuration in, compiled schema out.
//!
//! Per field the configured operators are folded, in a fixed order, into one
//! IR tree: `http`, then `const`, then `extension` each provide the resolver
//! (a later operator replaces an earlier one), and `cache` wraps whatever
//! resolver the fold produced. Compilation is pure; it validates as it goes
//! and collects the validation errors of *all* fields before reporting, so
//! one bad field does not hide another. Compiled IR trees live in the
//! blueprint's pool; definitions name their resolver by pool index, so plans
//! later share them without cloning.

use vstd::prelude::*;

use crate::config::{ConfigModule, Extension, Field, Http, KeyValue, SchemaRoots, TypeConfig};
use crate::ir::{IoSpec, IrView, ReqTplView, RequestTemplate, IR};
use crate::template::{parse_spec, Mustache, SegView};
use crate::value::Value;

verus! {

/// A field's declared output type, flattened.
#[derive(Debug, Clone, PartialEq)]
pub struct TypeInfo {
    pub name: String,
    pub non_null: bool,
    pub list: bool,
    pub item_non_null: bool,
}

/// One argument's compiled schema.
#[derive(Debug, Clone, PartialEq)]
pub struct ArgDef {
    pub name: String,
    pub required: bool,
    pub default_value: Option<Value>,
}

/// One field's compiled definition: name, type, argument schema, and the
/// resolver's index in the blueprint's IR pool, when the field has one.
#[derive(Debug, Clone, PartialEq)]
pub struct FieldDefinition {
    pub name: String,
    pub of_type: TypeInfo,
    pub args: Vec<ArgDef>,
    pub resolver: Option<usize>,
}

impl FieldDefinition {
    /// The same definition with another resolver; mirrors builder-style use.
    pub fn resolver(self, resolver: Option<usize>) -> (r: FieldDefinition)
        ensures
            r.name == self.name,
            r.of_type == self.of_type,
            r.args == self.args,
            r.resolver == resolver,
    {
        FieldDefinition { resolver, ..self }
    }
}

/// One compiled output type.
#[derive(Debug, Clone, PartialEq)]
pub struct BlueprintType {
    pub name: String,
    pub fields: Vec<FieldDefinition>,
}

/// The compiled schema: immutable after compilation, shared by every plan
/// built from it.
#[derive(Debug, PartialEq)]
pub struct Blueprint {
    pub schema: SchemaRoots,
    pub types: Vec<BlueprintType>,
    pub irs: Vec<IR>,
}

/// Whether every resolver index of the blueprint points into its IR pool.
pub open spec fn blueprint_wf(bp: Blueprint) -> bool {
    forall|t: int, f: int|
        0 <= t < bp.types@.len() && 0 <= f < bp.types@[t].fields@.len() ==> match (
        #[trigger] bp.types@[t].fields@[f]).resolver {
            Some(id) => id < bp.irs@.len(),
            None => true,
        }
}

/// The template view of an http operator, when every template in it parses.
pub open spec fn http_request_view(h: Http) -> Option<ReqTplView> {
    let full = match h.base_url {
        Some(b) => b@ + h.path@,
        None => h.path@,
    };
    match parse_spec(full) {
        None => None,
        Some(url) => match query_views(h.query@) {
            None => None,
            Some(q) => Some(ReqTplView { method: h.method, url, query: q }),
        },
    }
}

/// The parsed views of the query-parameter templates, all or nothing.
pub open spec fn query_views(q: Seq<KeyValue>) -> Option<Seq<(Seq<char>, Seq<SegView>)>>
    decreases q.len(),
{
    if q.len() == 0 {
        Some(Seq::empty())
    } else {
        match parse_spec(q[0].value@) {
            None => None,
            Some(m) => match query_views(q.skip(1)) {
                None => None,
                Some(rest) => Some(seq![(q[0].key@, m)] + rest),
            },
        }
    }
}

/// Whether the http operator of this field is rejected: some template in it
/// does not parse.
pub open spec fn http_error(fc: Field) -> bool {
    match fc.http {
        Some(h) => http_request_view(h) is None,
        None => false,
    }
}

/// Whether the extension operator of this field is rejected: no capability
/// library is linked.
pub open spec fn extension_error(fc: Field, cm: ConfigModule) -> bool {
    fc.extension is Some && cm.extensions.rust_lib is None
}

/// The validation messages of one field, in operator-fold order.
pub open spec fn field_error_msgs(fc: Field, cm: ConfigModule) -> Seq<Seq<char>> {
    (if http_error(fc) {
        seq!["Invalid mustache template in http operator"@]
    } else {
        Seq::empty()
    }) + (if extension_error(fc, cm) {
        seq!["A @link with path to dylib is required"@]
    } else {
        Seq::empty()
    })
}

/// The resolver the operator fold produces for this field, when the field
/// has no validation errors: `http`, `const`, `extension` in that order,
/// later replacing earlier, `cache` wrapping the result.
pub open spec fn expected_resolver(fc: Field, cm: ConfigModule) -> Option<IrView> {
    let base1 = match fc.http {
        Some(h) => match http_request_view(h) {
            Some(t) => Some(IrView::Http(t)),
            None => None,
        },
        None => None,
    };
    let base2 = match fc.const_value {
        Some(v) => Some(IrView::Const(v@)),
        None => base1,
    };
    let base3 = match fc.extension {
        Some(e) => match cm.extensions.rust_lib {
            Some(lib) => Some(IrView::Ext(lib@, e.payload@)),
            None => base2,
        },
        None => base2,
    };
    match fc.cache_max_age {
        Some(m) => match base3 {
            Some(ir) => Some(IrView::Cache(m as int, seq![ir])),
            None => None,
        },
        None => base3,
    }
}

/// The views of a message list.
pub open spec fn msgs_view(v: Seq<String>) -> Seq<Seq<char>> {
    v.map_values(|m: String| m@)
}

/// Compiles the extension operator: the linked capability library wrapped
/// around the operator's opaque payload. Fails, with the original's wording,
/// when no library is linked.
pub fn compile_extension(extension: &Extension, config_module: &ConfigModule) -> (r: Result<
    IR,
    Vec<String>,
>)
    ensures
        match r {
            Ok(ir) => match config_module.extensions.rust_lib {
                Some(lib) => ir@ == IrView::Ext(lib@, extension.payload@),
                None => false,
            },
            Err(msgs) => config_module.extensions.rust_lib is None && msgs@.len() == 1 && msgs@[0]@
                == "A @link with path to dylib is required"@,
        },
{
    match &config_module.extensions.rust_lib {
        Some(lib) => Ok(
            IR::IO(IoSpec::Extension { lib: lib.clone(), payload: extension.payload.clone() }),
        ),
        None => {
            let mut msgs: Vec<String> = Vec::new();
            msgs.push(String::from_str("A @link with path to dylib is required"));
            Err(msgs)
        },
    }
}

/// Whether one compiled argument matches its configuration.
pub open spec fn arg_def_matches(d: ArgDef, a: (String, crate::config::Arg)) -> bool {
    &&& d.name@ == a.0@
    &&& d.required == a.1.required
    &&& (match (d.default_value, a.1.default_value) {
        (Some(x), Some(y)) => x@ == y@,
        (None, None) => true,
        _ => false,
    })
}

/// Whether one compiled field definition matches its configuration, with
/// its resolver read out of the IR pool `irs`.
pub open spec fn def_matches(
    def: FieldDefinition,
    fentry: (String, Field),
    cm: ConfigModule,
    irs: Seq<IR>,
) -> bool {
    &&& def.name@ == fentry.0@
    &&& def.of_type.name@ == fentry.1.type_of@
    &&& def.of_type.non_null == fentry.1.required
    &&& def.of_type.list == fentry.1.list
    &&& def.of_type.item_non_null == false
    &&& def.args@.len() == fentry.1.args@.len()
    &&& (forall|i: int|
        0 <= i < fentry.1.args@.len() ==> arg_def_matches(
            #[trigger] def.args@[i],
            fentry.1.args@[i],
        ))
    &&& (match expected_resolver(fentry.1, cm) {
        Some(irv) => match def.resolver {
            Some(id) => id < irs.len() && irs[id as int]@ == irv,
            None => false,
        },
        None => def.resolver is None,
    })
}

/// Compiles the query-parameter templates of an http operator.
fn compile_query(q: &Vec<KeyValue>, i: usize) -> (r: Result<Vec<(String, Mustache)>, ()>)
    requires
        i <= q.len(),
    ensures
        match r {
            Ok(v) => query_views(q@.skip(i as int)) == Some(
                v@.map_values(|kv: (String, Mustache)| (kv.0@, kv.1@)),
            ),
            Err(_) => query_views(q@.skip(i as int)) is None,
        },
    decreases q.len() - i,
{
    if i == q.len() {
        let out: Vec<(String, Mustache)> = Vec::new();
        proof {
            assert(q@.skip(i as int).len() == 0);
            assert(out@.map_values(|kv: (String, Mustache)| (kv.0@, kv.1@)) =~= Seq::<
                (Seq<char>, Seq<SegView>),
            >::empty());
        }
        Ok(out)
    } else {
        proof {
            assert(q@.skip(i as int)[0] == q@[i as int]);
            assert(q@.skip(i as int).skip(1) =~= q@.skip(i as int + 1));
        }
        match Mustache::parse(q[i].value.as_str()) {
            Err(_) => Err(()),
            Ok(m) => match compile_query(q, i + 1) {
                Err(_) => Err(()),
                Ok(mut rest) => {
                    let ghost rest0 = rest@;
                    let ghost mv = m@;
                    let ghost keyv = q@[i as int].key@;
                    let mut out: Vec<(String, Mustache)> = Vec::new();
                    out.push((q[i].key.clone(), m));
                    out.append(&mut rest);
                    proof {
                        let f = |kv: (String, Mustache)| (kv.0@, kv.1@);
                        assert(out@.len() == 1 + rest0.len());
                        assert forall|k: int| 0 <= k < out@.len() implies out@.map_values(f)[k]
                            == (seq![(keyv, mv)] + rest0.map_values(f))[k] by {
                            if k > 0 {
                                assert(out@[k] == rest0[k - 1]);
                                assert(rest0.map_values(f)[k - 1] == f(rest0[k - 1]));
                            } else {
                                assert(out@[0].0@ == keyv && out@[0].1@ == mv);
                            }
                        }
                        assert(out@.map_values(f) =~= seq![(keyv, mv)] + rest0.map_values(f));
                    }
                    Ok(out)
                },
            },
        }
    }
}

/// Compiles the http operator into a request template; any template in it
/// that does not parse rejects the operator.
fn compile_http(h: &Http) -> (r: Result<RequestTemplate, ()>)
    ensures
        match r {
            Ok(t) => http_request_view(*h) == Some(t@),
            Err(_) => http_request_view(*h) is None,
        },
{
    let full: String = match &h.base_url {
        Some(b) => b.clone().concat(h.path.as_str()),
        None => h.path.clone(),
    };
    match Mustache::parse(full.as_str()) {
        Err(_) => Err(()),
        Ok(url) => {
            proof {
                assert(h.query@.skip(0) =~= h.query@);
            }
            match compile_query(&h.query, 0) {
                Err(_) => Err(()),
                Ok(query) => Ok(RequestTemplate { method: h.method, url, query }),
            }
        },
    }
}

/// Applies the extension operator to a partially built field definition:
/// without an extension configured the definition passes through; with one,
/// the linked library is required and the resolver becomes the extension
/// call. Mirrors the operator-fold step of the original pipeline.
pub fn update_extension(
    config_module: &ConfigModule,
    field: &Field,
    b_field: FieldDefinition,
    irs: &mut Vec<IR>,
) -> (r: Result<FieldDefinition, Vec<String>>)
    ensures
        final(irs)@.len() >= old(irs)@.len(),
        forall|i: int| 0 <= i < old(irs)@.len() ==> final(irs)@[i] == old(irs)@[i],
        match r {
            Ok(def) => match field.extension {
                None => def == b_field && final(irs)@ == old(irs)@,
                Some(e) => {
                    &&& !extension_error(*field, *config_module)
                    &&& def.name == b_field.name
                    &&& def.of_type == b_field.of_type
                    &&& def.args == b_field.args
                    &&& (match (def.resolver, config_module.extensions.rust_lib) {
                        (Some(id), Some(lib)) => id < final(irs)@.len() && final(irs)@[id as int]@
                            == IrView::Ext(lib@, e.payload@),
                        _ => false,
                    })
                },
            },
            Err(msgs) => extension_error(*field, *config_module) && msgs@.len() == 1 && msgs@[0]@
                == "A @link with path to dylib is required"@,
        },
{
    match &field.extension {
        None => Ok(b_field),
        Some(extension) => match compile_extension(extension, config_module) {
            Ok(ir) => {
                let id = irs.len();
                irs.push(ir);
                Ok(b_field.resolver(Some(id)))
            },
            Err(msgs) => Err(msgs),
        },
    }
}

/// The messages of one field, each prefixed `Type.field: `.
pub open spec fn field_prefixed_msgs(
    tname: Seq<char>,
    fname: Seq<char>,
    fc: Field,
    cm: ConfigModule,
) -> Seq<Seq<char>> {
    field_error_msgs(fc, cm).map_values(
        |m: Seq<char>| tname + seq!['.'] + fname + seq![':', ' '] + m,
    )
}

/// The prefixed messages of the fields from index `i` on, concatenated.
pub open spec fn fields_msgs_from(
    tname: Seq<char>,
    fields: Seq<(String, Field)>,
    i: int,
    cm: ConfigModule,
) -> Seq<Seq<char>>
    decreases fields.len() - i,
{
    if i < 0 || i >= fields.len() {
        Seq::empty()
    } else {
        field_prefixed_msgs(tname, fields[i].0@, fields[i].1, cm) + fields_msgs_from(
            tname,
            fields,
            i + 1,
            cm,
        )
    }
}

/// The prefixed messages of the types from index `i` on, concatenated.
pub open spec fn config_msgs_from(types: Seq<(String, TypeConfig)>, i: int, cm: ConfigModule) -> Seq<
    Seq<char>,
>
    decreases types.len() - i,
{
    if i < 0 || i >= types.len() {
        Seq::empty()
    } else {
        fields_msgs_from(types[i].0@, types[i].1.fields@, 0, cm) + config_msgs_from(
            types,
            i + 1,
            cm,
        )
    }
}

/// Every validation message of the whole configuration, in declaration
/// order, each naming its type and field.
pub open spec fn config_msgs(types: Seq<(String, TypeConfig)>, cm: ConfigModule) -> Seq<Seq<char>> {
    config_msgs_from(types, 0, cm)
}

/// The compiled argument schemas of a field's arguments.
fn build_args(args: &Vec<(String, crate::config::Arg)>) -> (r: Vec<ArgDef>)
    ensures
        r@.len() == args@.len(),
        forall|i: int|
            0 <= i < args@.len() ==> arg_def_matches(#[trigger] r@[i], args@[i]),
{
    let mut out: Vec<ArgDef> = Vec::new();
    let n = args.len();
    let mut i: usize = 0;
    while i < n
        invariant
            i <= n,
            n == args@.len(),
            out@.len() == i,
            forall|m: int| 0 <= m < i ==> arg_def_matches(#[trigger] out@[m], args@[m]),
        decreases n - i,
    {
        let default_value = match &args[i].1.default_value {
            Some(v) => Some(v.clone()),
            None => None,
        };
        out.push(
            ArgDef { name: args[i].0.clone(), required: args[i].1.required, default_value },
        );
        i = i + 1;
    }
    out
}

/// Compiles one field: folds its operators into a resolver in the IR pool
/// and returns the definition, or every validation message of the field.
pub fn compile_field(
    name: &String,
    fc: &Field,
    cm: &ConfigModule,
    irs: &mut Vec<IR>,
) -> (r: Result<FieldDefinition, Vec<String>>)
    ensures
        final(irs)@.len() >= old(irs)@.len(),
        forall|i: int| 0 <= i < old(irs)@.len() ==> final(irs)@[i] == old(irs)@[i],
        match r {
            Ok(def) => {
                &&& field_error_msgs(*fc, *cm).len() == 0
                &&& def_matches(def, (*name, *fc), *cm, final(irs)@)
            },
            Err(msgs) => {
                &&& msgs_view(msgs@) == field_error_msgs(*fc, *cm)
                &&& msgs@.len() > 0
            },
        },
{
    let mut errors: Vec<String> = Vec::new();
    let mut base: Option<IR> = None;
    match &fc.http {
        Some(h) => match compile_http(h) {
            Ok(t) => {
                base = Some(IR::IO(IoSpec::Http(t)));
            },
            Err(_) => {
                errors.push(String::from_str("Invalid mustache template in http operator"));
            },
        },
        None => {},
    }
    let ghost g1 = base;
    match &fc.const_value {
        Some(v) => {
            base = Some(IR::Const(v.clone()));
        },
        None => {},
    }
    let ghost g2 = base;
    match &fc.extension {
        Some(e) => match &cm.extensions.rust_lib {
            Some(lib) => {
                base = Some(
                    IR::IO(IoSpec::Extension { lib: lib.clone(), payload: e.payload.clone() }),
                );
            },
            None => {
                errors.push(String::from_str("A @link with path to dylib is required"));
            },
        },
        None => {},
    }
    let ghost g3 = base;
    if errors.len() > 0 {
        proof {
            assert(msgs_view(errors@) =~= field_error_msgs(*fc, *cm));
        }
        return Err(errors);
    }
    proof {
        assert(field_error_msgs(*fc, *cm).len() == 0);
        assert(match fc.http {
            Some(h) => match g1 {
                Some(ir) => http_request_view(h) is Some && ir@ == IrView::Http(
                    http_request_view(h)->Some_0,
                ),
                None => false,
            },
            None => g1 is None,
        });
        assert(match fc.const_value {
            Some(v) => match g2 {
                Some(ir) => ir@ == IrView::Const(v@),
                None => false,
            },
            None => g2 == g1,
        });
        assert(match fc.extension {
            Some(e) => match (g3, cm.extensions.rust_lib) {
                (Some(ir), Some(lib)) => ir@ == IrView::Ext(lib@, e.payload@),
                _ => false,
            },
            None => g3 == g2,
        });
    }
    let wrapped: Option<IR> = match &fc.cache_max_age {
        Some(m) => match base {
            Some(c) => {
                let ghost gc = c;
                let boxed = Box::new(c);
                let ir = IR::Cache { max_age: *m, child: boxed };
                proof {
                    assert(ir@ == IrView::Cache(*m as int, seq![gc@]));
                }
                Some(ir)
            },
            None => None,
        },
        None => base,
    };
    let ghost gw = wrapped;
    proof {
        assert(match expected_resolver(*fc, *cm) {
            Some(irv) => match gw {
                Some(ir) => ir@ == irv,
                None => false,
            },
            None => gw is None,
        });
    }
    let resolver: Option<usize> = match wrapped {
        Some(ir) => {
            let id = irs.len();
            irs.push(ir);
            Some(id)
        },
        None => None,
    };
    let def = FieldDefinition {
        name: name.clone(),
        of_type: TypeInfo {
            name: fc.type_of.clone(),
            non_null: fc.required,
            list: fc.list,
            item_non_null: false,
        },
        args: build_args(&fc.args),
        resolver,
    };
    Ok(def)
}

/// A copy of the schema root names.
fn clone_schema(s: &SchemaRoots) -> (r: SchemaRoots)
    ensures
        (match (r.query, s.query) {
            (Some(a), Some(b)) => a@ == b@,
            (None, None) => true,
            _ => false,
        }),
        (match (r.mutation, s.mutation) {
            (Some(a), Some(b)) => a@ == b@,
            (None, None) => true,
            _ => false,
        }),
        (match (r.subscription, s.subscription) {
            (Some(a), Some(b)) => a@ == b@,
            (None, None) => true,
            _ => false,
        }),
{
    SchemaRoots {
        query: match &s.query {
            Some(q) => Some(q.clone()),
            None => None,
        },
        mutation: match &s.mutation {
            Some(m) => Some(m.clone()),
            None => None,
        },
        subscription: match &s.subscription {
            Some(x) => Some(x.clone()),
            None => None,
        },
    }
}

/// Whether one compiled type matches its configuration.
pub open spec fn type_matches(
    bt: BlueprintType,
    entry: (String, TypeConfig),
    cm: ConfigModule,
    irs: Seq<IR>,
) -> bool {
    &&& bt.name@ == entry.0@
    &&& bt.fields@.len() == entry.1.fields@.len()
    &&& (forall|f: int|
        0 <= f < entry.1.fields@.len() ==> def_matches(
            #[trigger] bt.fields@[f],
            entry.1.fields@[f],
            cm,
            irs,
        ))
}

/// Extends `errors` with each of `msgs`, prefixed `Type.field: `.
fn push_prefixed(errors: &mut Vec<String>, tname: &String, fname: &String, msgs: &Vec<String>)
    ensures
        final(errors)@.len() == old(errors)@.len() + msgs@.len(),
        forall|i: int| 0 <= i < old(errors)@.len() ==> final(errors)@[i] == old(errors)@[i],
        forall|i: int|
            0 <= i < msgs@.len() ==> (#[trigger] final(errors)@[old(errors)@.len() + i])@ == tname@
                + seq!['.'] + fname@ + seq![':', ' '] + msgs@[i]@,
{
    let n = msgs.len();
    let mut i: usize = 0;
    while i < n
        invariant
            i <= n,
            n == msgs@.len(),
            errors@.len() == old(errors)@.len() + i,
            forall|m: int| 0 <= m < old(errors)@.len() ==> errors@[m] == old(errors)@[m],
            forall|m: int|
                0 <= m < i ==> (#[trigger] errors@[old(errors)@.len() + m])@ == tname@ + seq!['.']
                    + fname@ + seq![':', ' '] + msgs@[m]@,
        decreases n - i,
    {
        let mut p = tname.clone();
        crate::value::push_char(&mut p, '.');
        let mut p2 = p.concat(fname.as_str());
        crate::value::push_char(&mut p2, ':');
        crate::value::push_char(&mut p2, ' ');
        let full = p2.concat(msgs[i].as_str());
        proof {
            assert(full@ =~= tname@ + seq!['.'] + fname@ + seq![':', ' '] + msgs@[i as int]@);
        }
        errors.push(full);
        i = i + 1;
    }
}

/// Compiles the whole configuration into a blueprint, or reports every
/// field's validation messages, in declaration order.
#[verifier::loop_isolation(false)]
#[verifier::rlimit(50)]
pub fn compile_blueprint(cm: &ConfigModule) -> (r: Result<Blueprint, Vec<String>>)
    ensures
        match r {
            Ok(bp) => {
                &&& config_msgs(cm.config.types@, *cm).len() == 0
                &&& blueprint_wf(bp)
                &&& bp.types@.len() == cm.config.types@.len()
                &&& (forall|t: int|
                    0 <= t < cm.config.types@.len() ==> type_matches(
                        #[trigger] bp.types@[t],
                        cm.config.types@[t],
                        *cm,
                        bp.irs@,
                    ))
                &&& (match (bp.schema.query, cm.config.schema.query) {
                    (Some(a), Some(b)) => a@ == b@,
                    (None, None) => true,
                    _ => false,
                })
            },
            Err(msgs) => {
                &&& msgs_view(msgs@) == config_msgs(cm.config.types@, *cm)
                &&& msgs@.len() > 0
            },
        },
{
    let types_in = &cm.config.types;
    let n = types_in.len();
    let mut errors: Vec<String> = Vec::new();
    let mut out_types: Vec<BlueprintType> = Vec::new();
    let mut irs: Vec<IR> = Vec::new();
    let mut t: usize = 0;
    while t < n
        invariant
            t <= n,
            n == types_in@.len(),
            msgs_view(errors@) + config_msgs_from(types_in@, t as int, *cm) == config_msgs(
                types_in@,
                *cm,
            ),
            errors@.len() == 0 ==> {
                &&& out_types@.len() == t
                &&& (forall|k: int|
                    0 <= k < t ==> type_matches(
                        #[trigger] out_types@[k],
                        types_in@[k],
                        *cm,
                        irs@,
                    ))
            },
        decreases n - t,
    {
        let tname = &types_in[t].0;
        let fields_in = &types_in[t].1.fields;
        let fn_count = fields_in.len();
        let mut defs: Vec<FieldDefinition> = Vec::new();
        let ghost errors_at_type = errors@;
        let ghost irs_at_type = irs@;
        let mut f: usize = 0;
        while f < fn_count
            invariant
                f <= fn_count,
                fn_count == fields_in@.len(),
                errors@.len() >= errors_at_type.len(),
                irs@.len() >= irs_at_type.len(),
                forall|i: int| 0 <= i < irs_at_type.len() ==> irs@[i] == irs_at_type[i],
                msgs_view(errors@) + fields_msgs_from(tname@, fields_in@, f as int, *cm)
                    == msgs_view(errors_at_type) + fields_msgs_from(tname@, fields_in@, 0, *cm),
                errors@.len() == errors_at_type.len() ==> {
                    &&& defs@.len() == f
                    &&& (forall|k: int|
                        0 <= k < f ==> def_matches(
                            #[trigger] defs@[k],
                            fields_in@[k],
                            *cm,
                            irs@,
                        ))
                },
            decreases fn_count - f,
        {
            let ghost irs_before = irs@;
            let ghost defs_before = defs@;
            match compile_field(&fields_in[f].0, &fields_in[f].1, cm, &mut irs) {
                Ok(def) => {
                    defs.push(def);
                    proof {
                        assert(field_prefixed_msgs(
                            tname@,
                            fields_in@[f as int].0@,
                            fields_in@[f as int].1,
                            *cm,
                        ) =~= Seq::<Seq<char>>::empty());
                        if errors@.len() == errors_at_type.len() {
                            assert forall|k: int| 0 <= k < defs_before.len() implies def_matches(
                                defs@[k],
                                fields_in@[k],
                                *cm,
                                irs@,
                            ) by {
                                assert(def_matches(
                                    defs_before[k],
                                    fields_in@[k],
                                    *cm,
                                    irs_before,
                                ));
                            }
                        }
                    }
                },
                Err(msgs) => {
                    let ghost errs_before = errors@;
                    push_prefixed(&mut errors, tname, &fields_in[f].0, &msgs);
                    proof {
                        let pm = field_prefixed_msgs(
                            tname@,
                            fields_in@[f as int].0@,
                            fields_in@[f as int].1,
                            *cm,
                        );
                        assert(pm.len() == msgs@.len());
                        assert forall|m: int|
                            0 <= m < msgs_view(errors@).len() implies msgs_view(errors@)[m] == (
                        msgs_view(errs_before) + pm)[m] by {
                            if m < errs_before.len() {
                                assert(errors@[m] == errs_before[m]);
                            } else {
                                let mi = m - errs_before.len();
                                assert(errors@[errs_before.len() as int + mi]@ == tname@
                                    + seq!['.'] + fields_in@[f as int].0@ + seq![':', ' ']
                                    + msgs@[mi]@);
                                assert(pm[mi] == tname@ + seq!['.'] + fields_in@[f as int].0@
                                    + seq![':', ' '] + msgs_view(msgs@)[mi]);
                            }
                        }
                        assert(msgs_view(errors@) =~= msgs_view(errs_before) + pm);
                    }
                },
            }
            f = f + 1;
        }
        if errors.len() == 0 {
            out_types.push(BlueprintType { name: tname.clone(), fields: defs });
            proof {
                assert forall|k: int| 0 <= k < out_types@.len() - 1 implies type_matches(
                    out_types@[k],
                    types_in@[k],
                    *cm,
                    irs@,
                ) by {
                    assert(type_matches(out_types@[k], types_in@[k], *cm, irs_at_type));
                    assert forall|g: int|
                        0 <= g < types_in@[k].1.fields@.len() implies def_matches(
                        out_types@[k].fields@[g],
                        types_in@[k].1.fields@[g],
                        *cm,
                        irs@,
                    ) by {
                        assert(def_matches(
                            out_types@[k].fields@[g],
                            types_in@[k].1.fields@[g],
                            *cm,
                            irs_at_type,
                        ));
                    }
                }
            }
        }
        t = t + 1;
    }
    if errors.len() > 0 {
        proof {
            assert(msgs_view(errors@) =~= config_msgs(types_in@, *cm));
        }
        Err(errors)
    } else {
        proof {
            assert(config_msgs(types_in@, *cm) =~= Seq::<Seq<char>>::empty());
        }
        let bp = Blueprint { schema: clone_schema(&cm.config.schema), types: out_types, irs };
        Ok(bp)
    }
}
} // verus!