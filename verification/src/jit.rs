//! The operation-plan builder: a parsed query document against a compiled
//! blueprint, just in time.
//!
//! The builder walks the document's selection sets, resolves `@skip` and
//! `@include` against the bound variables (omitting skipped fields from the
//! plan entirely), splices fragment spreads and inline fragments in at their
//! point of use, binds argument expressions to concrete values, and attaches
//! each node's resolver by its blueprint pool index, so IR trees are shared,
//! not cloned. Any failure aborts plan construction: no partial plan exists.

use vstd::prelude::*;

use crate::blueprint::{Blueprint, BlueprintType, FieldDefinition};
use crate::config::assoc_get;
use crate::value::{entries_view, Value, ValueView};

verus! {

/// An argument expression in a query document: a literal or a variable
/// reference.
#[derive(Debug, PartialEq)]
pub enum ArgValue {
    Lit(Value),
    Var(String),
}

/// A `@skip` or `@include` directive with its condition expression.
#[derive(Debug, PartialEq)]
pub enum DocDirective {
    Skip(ArgValue),
    Include(ArgValue),
}

/// One selected field in a query document.
#[derive(Debug, PartialEq)]
pub struct SelField {
    pub name: String,
    pub alias: Option<String>,
    pub args: Vec<(String, ArgValue)>,
    pub directives: Vec<DocDirective>,
    pub selection: Vec<Selection>,
}

/// One selection-set entry.
#[derive(Debug, PartialEq)]
pub enum Selection {
    Field(SelField),
    FragmentSpread(String),
    InlineFragment(Vec<Selection>),
}

/// A named fragment definition.
#[derive(Debug, PartialEq)]
pub struct Fragment {
    pub type_condition: String,
    pub selection: Vec<Selection>,
}

/// One operation of a document.
#[derive(Debug, PartialEq)]
pub struct Operation {
    pub name: Option<String>,
    pub selection: Vec<Selection>,
}

/// A parsed query document: operations plus fragment definitions.
#[derive(Debug, PartialEq)]
pub struct Document {
    pub operations: Vec<Operation>,
    pub fragments: Vec<(String, Fragment)>,
}

/// The variable bindings of one request.
#[derive(Debug, PartialEq)]
pub struct Variables {
    pub entries: Vec<(String, Value)>,
}

impl Default for Variables {
    /// No bindings.
    fn default() -> (r: Variables)
        ensures
            r.entries@.len() == 0,
    {
        Variables { entries: Vec::new() }
    }
}

/// Why plan construction was aborted. Every error is terminal: no partial
/// plan is returned.
#[derive(Debug, PartialEq)]
pub enum BuildError {
    /// The requested operation is not in the document.
    OperationNotFound,
    /// The blueprint has no root operation type to start from.
    NoRootOperation,
    /// The current parent type is not in the blueprint.
    TypeNotFound(String),
    /// The selected field is not on the parent type.
    FieldNotFound { owner_type: String, field_name: String },
    /// An argument or directive references a variable that is not bound.
    UndeclaredVariable(String),
    /// A required argument without default is absent.
    MissingRequiredArg { field_name: String, arg_name: String },
    /// A directive condition is not a boolean.
    MalformedDirective { field_name: String },
    /// A fragment spread names no fragment of the document.
    FragmentNotFound(String),
    /// Fragment spreads nest deeper than the document has fragments.
    FragmentCycle,
}

/// One node of an operation plan.
#[derive(Debug, PartialEq)]
pub struct PlanField {
    pub name: String,
    pub output_name: String,
    pub type_of: crate::blueprint::TypeInfo,
    pub args: Vec<(String, Value)>,
    pub resolver: Option<usize>,
    pub children: Vec<PlanField>,
}

/// The mathematical model of a plan node.
pub struct PlanFieldView {
    pub name: Seq<char>,
    pub output_name: Seq<char>,
    pub type_of: Seq<char>,
    pub non_null: bool,
    pub list: bool,
    pub item_non_null: bool,
    pub args: Seq<(Seq<char>, ValueView)>,
    pub resolver: Option<int>,
    pub children: Seq<PlanFieldView>,
}

/// The view of a plan node.
pub open spec fn plan_field_view(f: PlanField) -> PlanFieldView
    decreases f,
    via plan_field_view_decreases
{
    PlanFieldView {
        name: f.name@,
        output_name: f.output_name@,
        type_of: f.type_of.name@,
        non_null: f.type_of.non_null,
        list: f.type_of.list,
        item_non_null: f.type_of.item_non_null,
        args: entries_view(f.args@),
        resolver: match f.resolver {
            Some(id) => Some(id as int),
            None => None,
        },
        children: plan_fields_view(f.children@),
    }
}

/// The views of a sequence of plan nodes.
pub open spec fn plan_fields_view(s: Seq<PlanField>) -> Seq<PlanFieldView>
    decreases s,
    via plan_fields_view_decreases
{
    if s.len() == 0 {
        Seq::empty()
    } else {
        seq![plan_field_view(s[0])] + plan_fields_view(s.skip(1))
    }
}

#[via_fn]
proof fn plan_field_view_decreases(f: PlanField) {
    assert(decreases_to!(f => f.children));
    assert(decreases_to!(f.children => f.children@));
}

#[via_fn]
proof fn plan_fields_view_decreases(s: Seq<PlanField>) {
    if s.len() > 0 {
        assert(decreases_to!(s => s[0]));
        assert(s.skip(1) == s.subrange(1, s.len() as int));
        assert(decreases_to!(s => s.subrange(1, s.len() as int)));
    }
}

/// How the view of a plan-node sequence reads off element by element.
pub proof fn lemma_plan_fields_view(s: Seq<PlanField>)
    ensures
        plan_fields_view(s).len() == s.len(),
        forall|i: int|
            0 <= i < s.len() ==> #[trigger] plan_fields_view(s)[i] == plan_field_view(s[i]),
    decreases s.len(),
{
    if s.len() > 0 {
        lemma_plan_fields_view(s.skip(1));
        assert forall|i: int| 0 <= i < s.len() implies #[trigger] plan_fields_view(s)[i]
            == plan_field_view(s[i]) by {
            if i > 0 {
                assert(plan_fields_view(s)[i] == plan_fields_view(s.skip(1))[i - 1]);
                assert(s.skip(1)[i - 1] == s[i]);
            }
        }
    }
}

impl View for PlanField {
    type V = PlanFieldView;

    open spec fn view(&self) -> PlanFieldView {
        plan_field_view(*self)
    }
}

/// A compiled, executable operation plan: a tree of plan nodes under the
/// root operation type. Immutable once built, reusable across requests.
#[derive(Debug, PartialEq)]
pub struct OperationPlan {
    pub root_type: String,
    pub selection: Vec<PlanField>,
}

/// The mathematical model of an operation plan.
pub struct PlanView {
    pub root_type: Seq<char>,
    pub selection: Seq<PlanFieldView>,
}

impl View for OperationPlan {
    type V = PlanView;

    open spec fn view(&self) -> PlanView {
        PlanView { root_type: self.root_type@, selection: plan_fields_view(self.selection@) }
    }
}

/// Spec-level lookup of a blueprint type by name.
pub open spec fn bp_type_get(types: Seq<BlueprintType>, name: Seq<char>) -> Option<BlueprintType>
    decreases types.len(),
{
    if types.len() == 0 {
        None
    } else if types[0].name@ == name {
        Some(types[0])
    } else {
        bp_type_get(types.skip(1), name)
    }
}

/// Spec-level lookup of a field definition by name.
pub open spec fn bp_field_get(fields: Seq<FieldDefinition>, name: Seq<char>) -> Option<
    FieldDefinition,
>
    decreases fields.len(),
{
    if fields.len() == 0 {
        None
    } else if fields[0].name@ == name {
        Some(fields[0])
    } else {
        bp_field_get(fields.skip(1), name)
    }
}

/// What one argument expression binds to: its literal, or the variable's
/// value, or the undeclared-variable error.
pub open spec fn bind_arg_value(a: ArgValue, vars: Variables) -> Result<ValueView, BuildError> {
    match a {
        ArgValue::Lit(v) => Ok(v@),
        ArgValue::Var(n) => match assoc_get(vars.entries@, n@) {
            Some(v) => Ok(v@),
            None => Err(BuildError::UndeclaredVariable(n)),
        },
    }
}

/// The document's argument list, each expression bound, in document order.
pub open spec fn bind_doc_args(args: Seq<(String, ArgValue)>, vars: Variables) -> Result<
    Seq<(Seq<char>, ValueView)>,
    BuildError,
>
    decreases args.len(),
{
    if args.len() == 0 {
        Ok(Seq::empty())
    } else {
        match bind_arg_value(args[0].1, vars) {
            Err(e) => Err(e),
            Ok(v) => match bind_doc_args(args.skip(1), vars) {
                Err(e) => Err(e),
                Ok(rest) => Ok(seq![(args[0].0@, v)] + rest),
            },
        }
    }
}

/// Whether the document's argument list names `name`.
pub open spec fn doc_args_contain(args: Seq<(String, ArgValue)>, name: Seq<char>) -> bool
    decreases args.len(),
{
    if args.len() == 0 {
        false
    } else if args[0].0@ == name {
        true
    } else {
        doc_args_contain(args.skip(1), name)
    }
}

/// The bindings added for argument schemas the document leaves out: defaults
/// where declared, the missing-required-argument error where the argument is
/// required without default.
pub open spec fn bind_default_args(
    defs: Seq<crate::blueprint::ArgDef>,
    doc_args: Seq<(String, ArgValue)>,
    field_name: String,
) -> Result<Seq<(Seq<char>, ValueView)>, BuildError>
    decreases defs.len(),
{
    if defs.len() == 0 {
        Ok(Seq::empty())
    } else {
        let head: Result<Seq<(Seq<char>, ValueView)>, BuildError> = if doc_args_contain(
            doc_args,
            defs[0].name@,
        ) {
            Ok(Seq::empty())
        } else {
            match defs[0].default_value {
                Some(d) => Ok(seq![(defs[0].name@, d@)]),
                None => if defs[0].required {
                    Err(
                        BuildError::MissingRequiredArg {
                            field_name,
                            arg_name: defs[0].name,
                        },
                    )
                } else {
                    Ok(Seq::empty())
                },
            }
        };
        match head {
            Err(e) => Err(e),
            Ok(h) => match bind_default_args(defs.skip(1), doc_args, field_name) {
                Err(e) => Err(e),
                Ok(rest) => Ok(h + rest),
            },
        }
    }
}

/// Whether one directive lets the field into the plan.
pub open spec fn directive_allows(
    d: DocDirective,
    vars: Variables,
    field_name: String,
) -> Result<bool, BuildError> {
    let cond = match d {
        DocDirective::Skip(a) => a,
        DocDirective::Include(a) => a,
    };
    let b = match cond {
        ArgValue::Lit(Value::Bool(bv)) => Ok(bv),
        ArgValue::Lit(_) => Err(BuildError::MalformedDirective { field_name }),
        ArgValue::Var(n) => match assoc_get(vars.entries@, n@) {
            Some(Value::Bool(bv)) => Ok(bv),
            Some(_) => Err(BuildError::MalformedDirective { field_name }),
            None => Err(BuildError::UndeclaredVariable(n)),
        },
    };
    match b {
        Err(e) => Err(e),
        Ok(c) => match d {
            DocDirective::Skip(_) => Ok(!c),
            DocDirective::Include(_) => Ok(c),
        },
    }
}

/// Whether every directive lets the field into the plan; the first failure
/// wins.
pub open spec fn directives_allow(
    ds: Seq<DocDirective>,
    vars: Variables,
    field_name: String,
) -> Result<bool, BuildError>
    decreases ds.len(),
{
    if ds.len() == 0 {
        Ok(true)
    } else {
        match directive_allows(ds[0], vars, field_name) {
            Err(e) => Err(e),
            Ok(false) => Ok(false),
            Ok(true) => directives_allow(ds.skip(1), vars, field_name),
        }
    }
}

/// What one selection entry contributes to the plan: nothing when a
/// directive omits it, one node for a field, the fragment's nodes for a
/// spread or inline fragment.
pub open spec fn build_one(
    s: Selection,
    parent_type: String,
    bp: Blueprint,
    doc: Document,
    vars: Variables,
    fuel: nat,
) -> Result<Seq<PlanFieldView>, BuildError>
    decreases fuel, s,
    via build_one_decreases
{
    match s {
        Selection::Field(f) => match directives_allow(f.directives@, vars, f.name) {
            Err(e) => Err(e),
            Ok(false) => Ok(Seq::empty()),
            Ok(true) => match bp_type_get(bp.types@, parent_type@) {
                None => Err(BuildError::TypeNotFound(parent_type)),
                Some(bt) => match bp_field_get(bt.fields@, f.name@) {
                    None => Err(
                        BuildError::FieldNotFound {
                            owner_type: parent_type,
                            field_name: f.name,
                        },
                    ),
                    Some(def) => match bind_doc_args(f.args@, vars) {
                        Err(e) => Err(e),
                        Ok(bound) => match bind_default_args(def.args@, f.args@, f.name) {
                            Err(e) => Err(e),
                            Ok(defaults) => match build_selection(
                                f.selection@,
                                def.of_type.name,
                                bp,
                                doc,
                                vars,
                                fuel,
                            ) {
                                Err(e) => Err(e),
                                Ok(ch) => Ok(
                                    seq![
                                        PlanFieldView {
                                            name: f.name@,
                                            output_name: match f.alias {
                                                Some(a) => a@,
                                                None => f.name@,
                                            },
                                            type_of: def.of_type.name@,
                                            non_null: def.of_type.non_null,
                                            list: def.of_type.list,
                                            item_non_null: def.of_type.item_non_null,
                                            args: bound + defaults,
                                            resolver: match def.resolver {
                                                Some(id) => Some(id as int),
                                                None => None,
                                            },
                                            children: ch,
                                        },
                                    ],
                                ),
                            },
                        },
                    },
                },
            },
        },
        Selection::FragmentSpread(n) => match assoc_get(doc.fragments@, n@) {
            None => Err(BuildError::FragmentNotFound(n)),
            Some(frag) => if fuel == 0 {
                Err(BuildError::FragmentCycle)
            } else {
                build_selection(frag.selection@, parent_type, bp, doc, vars, (fuel - 1) as nat)
            },
        },
        Selection::InlineFragment(inner) => build_selection(
            inner@,
            parent_type,
            bp,
            doc,
            vars,
            fuel,
        ),
    }
}

/// What a selection set contributes to the plan, in declaration order; the
/// first failure aborts the whole build.
pub open spec fn build_selection(
    sel: Seq<Selection>,
    parent_type: String,
    bp: Blueprint,
    doc: Document,
    vars: Variables,
    fuel: nat,
) -> Result<Seq<PlanFieldView>, BuildError>
    decreases fuel, sel,
    via build_selection_decreases
{
    if sel.len() == 0 {
        Ok(Seq::empty())
    } else {
        match build_one(sel[0], parent_type, bp, doc, vars, fuel) {
            Err(e) => Err(e),
            Ok(h) => match build_selection(sel.skip(1), parent_type, bp, doc, vars, fuel) {
                Err(e) => Err(e),
                Ok(rest) => Ok(h + rest),
            },
        }
    }
}

#[via_fn]
proof fn build_one_decreases(
    s: Selection,
    parent_type: String,
    bp: Blueprint,
    doc: Document,
    vars: Variables,
    fuel: nat,
) {
    match s {
        Selection::Field(f) => {
            assert(decreases_to!(s => f));
            assert(decreases_to!(f => f.selection));
            assert(decreases_to!(f.selection => f.selection@));
        },
        Selection::InlineFragment(inner) => {
            assert(decreases_to!(s => inner));
            assert(decreases_to!(inner => inner@));
        },
        _ => {},
    }
}

#[via_fn]
proof fn build_selection_decreases(
    sel: Seq<Selection>,
    parent_type: String,
    bp: Blueprint,
    doc: Document,
    vars: Variables,
    fuel: nat,
) {
    if sel.len() > 0 {
        assert(decreases_to!(sel => sel[0]));
        assert(sel.skip(1) == sel.subrange(1, sel.len() as int));
        assert(decreases_to!(sel => sel.subrange(1, sel.len() as int)));
    }
}

/// The operation the request names: the first one when no name is given.
pub open spec fn find_operation(ops: Seq<Operation>, name: Option<String>) -> Option<Operation>
    decreases ops.len(),
{
    match name {
        None => if ops.len() > 0 {
            Some(ops[0])
        } else {
            None
        },
        Some(n) => if ops.len() == 0 {
            None
        } else if (match ops[0].name {
            Some(m) => m@ == n@,
            None => false,
        }) {
            Some(ops[0])
        } else {
            find_operation(ops.skip(1), name)
        },
    }
}

/// What plan building yields for a whole request: the selected operation's
/// plan under the blueprint's query root, or the first error met.
pub open spec fn build_plan_spec(
    bp: Blueprint,
    doc: Document,
    vars: Variables,
    operation_name: Option<String>,
) -> Result<PlanView, BuildError> {
    match bp.schema.query {
        None => Err(BuildError::NoRootOperation),
        Some(root) => match find_operation(doc.operations@, operation_name) {
            None => Err(BuildError::OperationNotFound),
            Some(op) => match build_selection(
                op.selection@,
                root,
                bp,
                doc,
                vars,
                doc.fragments@.len(),
            ) {
                Err(e) => Err(e),
                Ok(sel) => Ok(PlanView { root_type: root@, selection: sel }),
            },
        },
    }
}

/// Plan building is deterministic: the same document, blueprint, variable
/// bindings and operation name always yield the same plan, structurally.
pub proof fn lemma_plan_build_deterministic(
    bp: Blueprint,
    doc: Document,
    vars: Variables,
    operation_name: Option<String>,
    r1: Result<PlanView, BuildError>,
    r2: Result<PlanView, BuildError>,
)
    requires
        r1 == build_plan_spec(bp, doc, vars, operation_name),
        r2 == build_plan_spec(bp, doc, vars, operation_name),
    ensures
        r1 == r2,
{
}

/// Concatenation distributes over plan-node views.
pub proof fn lemma_plan_fields_view_concat(a: Seq<PlanField>, b: Seq<PlanField>)
    ensures
        plan_fields_view(a + b) == plan_fields_view(a) + plan_fields_view(b),
{
    lemma_plan_fields_view(a);
    lemma_plan_fields_view(b);
    lemma_plan_fields_view(a + b);
    assert forall|i: int| 0 <= i < (a + b).len() implies plan_fields_view(a + b)[i]
        == (plan_fields_view(a) + plan_fields_view(b))[i] by {
        if i < a.len() {
            assert((a + b)[i] == a[i]);
        } else {
            assert((a + b)[i] == b[i - a.len()]);
        }
    }
    assert(plan_fields_view(a + b) =~= plan_fields_view(a) + plan_fields_view(b));
}

fn exec_bp_type_get<'a>(types: &'a Vec<BlueprintType>, name: &String, i: usize) -> (r: Option<
    &'a BlueprintType,
>)
    requires
        i <= types.len(),
    ensures
        match r {
            Some(t) => bp_type_get(types@.skip(i as int), name@) == Some(*t),
            None => bp_type_get(types@.skip(i as int), name@) is None,
        },
    decreases types.len() - i,
{
    if i == types.len() {
        None
    } else {
        assert(types@.skip(i as int)[0] == types@[i as int]);
        if types[i].name == *name {
            Some(&types[i])
        } else {
            let r = exec_bp_type_get(types, name, i + 1);
            assert(types@.skip(i as int).skip(1) =~= types@.skip(i as int + 1));
            r
        }
    }
}

fn exec_bp_field_get<'a>(fields: &'a Vec<FieldDefinition>, name: &String, i: usize) -> (r: Option<
    &'a FieldDefinition,
>)
    requires
        i <= fields.len(),
    ensures
        match r {
            Some(d) => bp_field_get(fields@.skip(i as int), name@) == Some(*d),
            None => bp_field_get(fields@.skip(i as int), name@) is None,
        },
    decreases fields.len() - i,
{
    if i == fields.len() {
        None
    } else {
        assert(fields@.skip(i as int)[0] == fields@[i as int]);
        if fields[i].name == *name {
            Some(&fields[i])
        } else {
            let r = exec_bp_field_get(fields, name, i + 1);
            assert(fields@.skip(i as int).skip(1) =~= fields@.skip(i as int + 1));
            r
        }
    }
}

fn exec_var_get<'a>(vars: &'a Variables, name: &String, i: usize) -> (r: Option<&'a Value>)
    requires
        i <= vars.entries.len(),
    ensures
        match r {
            Some(v) => assoc_get(vars.entries@.skip(i as int), name@) == Some(*v),
            None => assoc_get(vars.entries@.skip(i as int), name@) is None,
        },
    decreases vars.entries.len() - i,
{
    if i == vars.entries.len() {
        None
    } else {
        assert(vars.entries@.skip(i as int)[0] == vars.entries@[i as int]);
        if vars.entries[i].0 == *name {
            Some(&vars.entries[i].1)
        } else {
            let r = exec_var_get(vars, name, i + 1);
            assert(vars.entries@.skip(i as int).skip(1) =~= vars.entries@.skip(i as int + 1));
            r
        }
    }
}

fn exec_directives_allow(ds: &Vec<DocDirective>, vars: &Variables, field_name: &String, i: usize) -> (r:
    Result<bool, BuildError>)
    requires
        i <= ds.len(),
    ensures
        match r {
            Ok(b) => directives_allow(ds@.skip(i as int), *vars, *field_name) == Ok::<
                bool,
                BuildError,
            >(b),
            Err(e) => directives_allow(ds@.skip(i as int), *vars, *field_name) == Err::<
                bool,
                BuildError,
            >(e),
        },
    decreases ds.len() - i,
{
    if i == ds.len() {
        Ok(true)
    } else {
        proof {
            assert(ds@.skip(i as int)[0] == ds@[i as int]);
            assert(ds@.skip(i as int).skip(1) =~= ds@.skip(i as int + 1));
        }
        let cond = match &ds[i] {
            DocDirective::Skip(a) => a,
            DocDirective::Include(a) => a,
        };
        let b: Result<bool, BuildError> = match cond {
            ArgValue::Lit(Value::Bool(bv)) => Ok(*bv),
            ArgValue::Lit(_) => Err(
                BuildError::MalformedDirective { field_name: field_name.clone() },
            ),
            ArgValue::Var(n) => {
                proof {
                    assert(vars.entries@.skip(0) =~= vars.entries@);
                }
                match exec_var_get(vars, n, 0) {
                    Some(Value::Bool(bv)) => Ok(*bv),
                    Some(_) => Err(
                        BuildError::MalformedDirective { field_name: field_name.clone() },
                    ),
                    None => Err(BuildError::UndeclaredVariable(n.clone())),
                }
            },
        };
        match b {
            Err(e) => Err(e),
            Ok(c) => {
                let allows = match &ds[i] {
                    DocDirective::Skip(_) => !c,
                    DocDirective::Include(_) => c,
                };
                if allows {
                    exec_directives_allow(ds, vars, field_name, i + 1)
                } else {
                    Ok(false)
                }
            },
        }
    }
}

fn exec_bind_doc_args(args: &Vec<(String, ArgValue)>, vars: &Variables, i: usize) -> (r: Result<
    Vec<(String, Value)>,
    BuildError,
>)
    requires
        i <= args.len(),
    ensures
        match r {
            Ok(v) => bind_doc_args(args@.skip(i as int), *vars) == Ok::<_, BuildError>(
                entries_view(v@),
            ),
            Err(e) => bind_doc_args(args@.skip(i as int), *vars) == Err::<
                Seq<(Seq<char>, ValueView)>,
                _,
            >(e),
        },
    decreases args.len() - i,
{
    if i == args.len() {
        let out: Vec<(String, Value)> = Vec::new();
        proof {
            assert(entries_view(out@) =~= Seq::<(Seq<char>, ValueView)>::empty());
        }
        Ok(out)
    } else {
        proof {
            assert(args@.skip(i as int)[0] == args@[i as int]);
            assert(args@.skip(i as int).skip(1) =~= args@.skip(i as int + 1));
        }
        let bound: Result<Value, BuildError> = match &args[i].1 {
            ArgValue::Lit(v) => Ok(v.clone()),
            ArgValue::Var(n) => {
                proof {
                    assert(vars.entries@.skip(0) =~= vars.entries@);
                }
                match exec_var_get(vars, n, 0) {
                    Some(v) => Ok(v.clone()),
                    None => Err(BuildError::UndeclaredVariable(n.clone())),
                }
            },
        };
        match bound {
            Err(e) => Err(e),
            Ok(v) => match exec_bind_doc_args(args, vars, i + 1) {
                Err(e) => Err(e),
                Ok(mut rest) => {
                    let ghost rest0 = rest@;
                    let ghost keyv = args@[i as int].0@;
                    let ghost valv = v@;
                    let mut out: Vec<(String, Value)> = Vec::new();
                    out.push((args[i].0.clone(), v));
                    out.append(&mut rest);
                    proof {
                        crate::value::lemma_entries_view(out@);
                        crate::value::lemma_entries_view(rest0);
                        assert forall|m: int| 0 <= m < out@.len() implies entries_view(out@)[m]
                            == (seq![(keyv, valv)] + entries_view(rest0))[m] by {
                            if m > 0 {
                                assert(out@[m] == rest0[m - 1]);
                            }
                        }
                        assert(entries_view(out@) =~= seq![(keyv, valv)] + entries_view(rest0));
                    }
                    Ok(out)
                },
            },
        }
    }
}

fn exec_contains_arg(args: &Vec<(String, ArgValue)>, name: &String, i: usize) -> (r: bool)
    requires
        i <= args.len(),
    ensures
        r == doc_args_contain(args@.skip(i as int), name@),
    decreases args.len() - i,
{
    if i == args.len() {
        false
    } else {
        proof {
            assert(args@.skip(i as int)[0] == args@[i as int]);
            assert(args@.skip(i as int).skip(1) =~= args@.skip(i as int + 1));
        }
        if args[i].0 == *name {
            true
        } else {
            exec_contains_arg(args, name, i + 1)
        }
    }
}

fn exec_bind_default_args(
    defs: &Vec<crate::blueprint::ArgDef>,
    doc_args: &Vec<(String, ArgValue)>,
    field_name: &String,
    i: usize,
) -> (r: Result<Vec<(String, Value)>, BuildError>)
    requires
        i <= defs.len(),
    ensures
        match r {
            Ok(v) => bind_default_args(defs@.skip(i as int), doc_args@, *field_name) == Ok::<
                _,
                BuildError,
            >(entries_view(v@)),
            Err(e) => bind_default_args(defs@.skip(i as int), doc_args@, *field_name) == Err::<
                Seq<(Seq<char>, ValueView)>,
                _,
            >(e),
        },
    decreases defs.len() - i,
{
    if i == defs.len() {
        let out: Vec<(String, Value)> = Vec::new();
        proof {
            assert(entries_view(out@) =~= Seq::<(Seq<char>, ValueView)>::empty());
        }
        Ok(out)
    } else {
        proof {
            assert(defs@.skip(i as int)[0] == defs@[i as int]);
            assert(defs@.skip(i as int).skip(1) =~= defs@.skip(i as int + 1));
            assert(doc_args@.skip(0) =~= doc_args@);
        }
        let head: Result<Option<(String, Value)>, BuildError> = if exec_contains_arg(
            doc_args,
            &defs[i].name,
            0,
        ) {
            Ok(None)
        } else {
            match &defs[i].default_value {
                Some(d) => Ok(Some((defs[i].name.clone(), d.clone()))),
                None => if defs[i].required {
                    Err(
                        BuildError::MissingRequiredArg {
                            field_name: field_name.clone(),
                            arg_name: defs[i].name.clone(),
                        },
                    )
                } else {
                    Ok(None)
                },
            }
        };
        match head {
            Err(e) => Err(e),
            Ok(h) => match exec_bind_default_args(defs, doc_args, field_name, i + 1) {
                Err(e) => Err(e),
                Ok(mut rest) => {
                    let ghost rest0 = rest@;
                    match h {
                        None => {
                            proof {
                                assert(Seq::<(Seq<char>, ValueView)>::empty() + entries_view(
                                    rest0,
                                ) =~= entries_view(rest0));
                            }
                            Ok(rest)
                        },
                        Some(pair) => {
                            let ghost keyv = pair.0@;
                            let ghost valv = pair.1@;
                            let mut out: Vec<(String, Value)> = Vec::new();
                            out.push(pair);
                            out.append(&mut rest);
                            proof {
                                crate::value::lemma_entries_view(out@);
                                crate::value::lemma_entries_view(rest0);
                                assert forall|m: int|
                                    0 <= m < out@.len() implies entries_view(out@)[m] == (seq![
                                    (keyv, valv),
                                ] + entries_view(rest0))[m] by {
                                    if m > 0 {
                                        assert(out@[m] == rest0[m - 1]);
                                    }
                                }
                                assert(entries_view(out@) =~= seq![(keyv, valv)] + entries_view(
                                    rest0,
                                ));
                            }
                            Ok(out)
                        },
                    }
                },
            },
        }
    }
}

fn exec_build_one(
    bp: &Blueprint,
    doc: &Document,
    vars: &Variables,
    s: &Selection,
    parent_type: &String,
    fuel: usize,
) -> (r: Result<Vec<PlanField>, BuildError>)
    ensures
        match r {
            Ok(v) => build_one(*s, *parent_type, *bp, *doc, *vars, fuel as nat) == Ok::<
                _,
                BuildError,
            >(plan_fields_view(v@)),
            Err(e) => build_one(*s, *parent_type, *bp, *doc, *vars, fuel as nat) == Err::<
                Seq<PlanFieldView>,
                _,
            >(e),
        },
    decreases fuel, *s,
{
    match s {
        Selection::Field(f) => {
            proof {
                assert(f.directives@.skip(0) =~= f.directives@);
                assert(decreases_to!(*s => *f));
                assert(decreases_to!(*f => f.selection));
                assert(decreases_to!(f.selection => f.selection@));
            }
            match exec_directives_allow(&f.directives, vars, &f.name, 0) {
                Err(e) => Err(e),
                Ok(false) => {
                    let out: Vec<PlanField> = Vec::new();
                    proof {
                        assert(plan_fields_view(out@) =~= Seq::<PlanFieldView>::empty());
                    }
                    Ok(out)
                },
                Ok(true) => {
                    proof {
                        assert(bp.types@.skip(0) =~= bp.types@);
                    }
                    match exec_bp_type_get(&bp.types, parent_type, 0) {
                        None => Err(BuildError::TypeNotFound(parent_type.clone())),
                        Some(bt) => {
                            proof {
                                assert(bt.fields@.skip(0) =~= bt.fields@);
                            }
                            match exec_bp_field_get(&bt.fields, &f.name, 0) {
                                None => Err(
                                    BuildError::FieldNotFound {
                                        owner_type: parent_type.clone(),
                                        field_name: f.name.clone(),
                                    },
                                ),
                                Some(def) => {
                                    proof {
                                        assert(f.args@.skip(0) =~= f.args@);
                                        assert(def.args@.skip(0) =~= def.args@);
                                    }
                                    match exec_bind_doc_args(&f.args, vars, 0) {
                                        Err(e) => Err(e),
                                        Ok(bound) => match exec_bind_default_args(
                                            &def.args,
                                            &f.args,
                                            &f.name,
                                            0,
                                        ) {
                                            Err(e) => Err(e),
                                            Ok(defaults) => {
                                                proof {
                                                    assert(f.selection@.skip(0)
                                                        =~= f.selection@);
                                                }
                                                match exec_build_selection(
                                                    bp,
                                                    doc,
                                                    vars,
                                                    &f.selection,
                                                    0,
                                                    &def.of_type.name,
                                                    fuel,
                                                ) {
                                                    Err(e) => Err(e),
                                                    Ok(children) => {
                                                        let ghost boundv = entries_view(bound@);
                                                        let ghost defaultsv = entries_view(
                                                            defaults@,
                                                        );
                                                        let ghost bound0 = bound@;
                                                        let ghost defaults0 = defaults@;
                                                        let mut args = bound;
                                                        let mut defaults_m = defaults;
                                                        args.append(&mut defaults_m);
                                                        proof {
                                                            crate::value::lemma_entries_view(
                                                                args@,
                                                            );
                                                            crate::value::lemma_entries_view(
                                                                bound0,
                                                            );
                                                            crate::value::lemma_entries_view(
                                                                defaults0,
                                                            );
                                                            assert forall|m: int|
                                                                0 <= m < args@.len() implies
                                                                entries_view(args@)[m] == (boundv
                                                                + defaultsv)[m] by {
                                                                if m < bound0.len() {
                                                                    assert(args@[m] == bound0[m]);
                                                                } else {
                                                                    assert(args@[m] == defaults0[m
                                                                        - bound0.len()]);
                                                                }
                                                            }
                                                            assert(entries_view(args@) =~= boundv
                                                                + defaultsv);
                                                        }
                                                        let output_name = match &f.alias {
                                                            Some(a) => a.clone(),
                                                            None => f.name.clone(),
                                                        };
                                                        let node = PlanField {
                                                            name: f.name.clone(),
                                                            output_name,
                                                            type_of: crate::blueprint::TypeInfo {
                                                                name: def.of_type.name.clone(),
                                                                non_null: def.of_type.non_null,
                                                                list: def.of_type.list,
                                                                item_non_null: def
                                                                    .of_type
                                                                    .item_non_null,
                                                            },
                                                            args,
                                                            resolver: def.resolver,
                                                            children,
                                                        };
                                                        let ghost nodev = node@;
                                                        let mut out: Vec<PlanField> = Vec::new();
                                                        out.push(node);
                                                        proof {
                                                            lemma_plan_fields_view(out@);
                                                            assert(plan_fields_view(out@) =~= seq![
                                                                nodev,
                                                            ]);
                                                        }
                                                        Ok(out)
                                                    },
                                                }
                                            },
                                        },
                                    }
                                },
                            }
                        },
                    }
                },
            }
        },
        Selection::FragmentSpread(n) => {
            proof {
                assert(doc.fragments@.skip(0) =~= doc.fragments@);
            }
            match exec_fragment_get(&doc.fragments, n, 0) {
                None => Err(BuildError::FragmentNotFound(n.clone())),
                Some(frag) => {
                    if fuel == 0 {
                        Err(BuildError::FragmentCycle)
                    } else {
                        proof {
                            assert(frag.selection@.skip(0) =~= frag.selection@);
                        }
                        exec_build_selection(bp, doc, vars, &frag.selection, 0, parent_type, fuel - 1)
                    }
                },
            }
        },
        Selection::InlineFragment(inner) => {
            proof {
                assert(decreases_to!(*s => *inner));
                assert(decreases_to!(*inner => inner@));
                assert(inner@.skip(0) =~= inner@);
            }
            exec_build_selection(bp, doc, vars, inner, 0, parent_type, fuel)
        },
    }
}

fn exec_fragment_get<'a>(frags: &'a Vec<(String, Fragment)>, name: &String, i: usize) -> (r:
    Option<&'a Fragment>)
    requires
        i <= frags.len(),
    ensures
        match r {
            Some(f) => assoc_get(frags@.skip(i as int), name@) == Some(*f),
            None => assoc_get(frags@.skip(i as int), name@) is None,
        },
    decreases frags.len() - i,
{
    if i == frags.len() {
        None
    } else {
        assert(frags@.skip(i as int)[0] == frags@[i as int]);
        if frags[i].0 == *name {
            Some(&frags[i].1)
        } else {
            let r = exec_fragment_get(frags, name, i + 1);
            assert(frags@.skip(i as int).skip(1) =~= frags@.skip(i as int + 1));
            r
        }
    }
}

fn exec_build_selection(
    bp: &Blueprint,
    doc: &Document,
    vars: &Variables,
    sel: &Vec<Selection>,
    i: usize,
    parent_type: &String,
    fuel: usize,
) -> (r: Result<Vec<PlanField>, BuildError>)
    requires
        i <= sel.len(),
    ensures
        match r {
            Ok(v) => build_selection(sel@.skip(i as int), *parent_type, *bp, *doc, *vars, fuel as nat)
                == Ok::<_, BuildError>(plan_fields_view(v@)),
            Err(e) => build_selection(
                sel@.skip(i as int),
                *parent_type,
                *bp,
                *doc,
                *vars,
                fuel as nat,
            ) == Err::<Seq<PlanFieldView>, _>(e),
        },
    decreases fuel, sel@.skip(i as int),
{
    if i == sel.len() {
        let out: Vec<PlanField> = Vec::new();
        proof {
            assert(sel@.skip(i as int).len() == 0);
            assert(plan_fields_view(out@) =~= Seq::<PlanFieldView>::empty());
        }
        Ok(out)
    } else {
        proof {
            assert(sel@.skip(i as int)[0] == sel@[i as int]);
            assert(sel@.skip(i as int).skip(1) =~= sel@.skip(i as int + 1));
            assert(decreases_to!(sel@.skip(i as int) => sel@.skip(i as int)[0]));
            assert(sel@.skip(i as int + 1) == sel@.skip(i as int).subrange(
                1,
                sel@.skip(i as int).len() as int,
            ));
            assert(decreases_to!(sel@.skip(i as int) => sel@.skip(i as int).subrange(
                1,
                sel@.skip(i as int).len() as int,
            )));
        }
        match exec_build_one(bp, doc, vars, &sel[i], parent_type, fuel) {
            Err(e) => Err(e),
            Ok(h) => match exec_build_selection(bp, doc, vars, sel, i + 1, parent_type, fuel) {
                Err(e) => Err(e),
                Ok(mut rest) => {
                    let ghost h0 = h@;
                    let ghost rest0 = rest@;
                    let mut out = h;
                    out.append(&mut rest);
                    proof {
                        lemma_plan_fields_view_concat(h0, rest0);
                        assert(out@ == h0 + rest0);
                    }
                    Ok(out)
                },
            },
        }
    }
}

/// Builds operation plans from one blueprint and one parsed document.
pub struct Builder<'a> {
    pub blueprint: &'a Blueprint,
    pub document: &'a Document,
}

impl<'a> Builder<'a> {
    /// A builder over the given blueprint and document.
    pub fn new(blueprint: &'a Blueprint, document: &'a Document) -> (r: Builder<'a>)
        ensures
            r.blueprint == blueprint,
            r.document == document,
    {
        Builder { blueprint, document }
    }

    /// Builds the executable plan for the named operation (the first one
    /// when no name is given) under the given variable bindings. Any failure
    /// aborts the build: no partial plan is returned.
    pub fn build(&self, variables: &Variables, operation_name: Option<&String>) -> (r: Result<
        OperationPlan,
        BuildError,
    >)
        ensures
            match r {
                Ok(p) => build_plan_spec(
                    *self.blueprint,
                    *self.document,
                    *variables,
                    match operation_name {
                        Some(n) => Some(*n),
                        None => None,
                    },
                ) == Ok::<_, BuildError>(p@),
                Err(e) => build_plan_spec(
                    *self.blueprint,
                    *self.document,
                    *variables,
                    match operation_name {
                        Some(n) => Some(*n),
                        None => None,
                    },
                ) == Err::<PlanView, _>(e),
            },
    {
        let root = match &self.blueprint.schema.query {
            Some(root) => root.clone(),
            None => {
                return Err(BuildError::NoRootOperation);
            },
        };
        proof {
            assert(self.document.operations@.skip(0) =~= self.document.operations@);
        }
        let op = match exec_find_operation(&self.document.operations, operation_name, 0) {
            Some(op) => op,
            None => {
                return Err(BuildError::OperationNotFound);
            },
        };
        let fuel = self.document.fragments.len();
        proof {
            assert(op.selection@.skip(0) =~= op.selection@);
        }
        match exec_build_selection(
            self.blueprint,
            self.document,
            variables,
            &op.selection,
            0,
            &root,
            fuel,
        ) {
            Err(e) => Err(e),
            Ok(selection) => Ok(OperationPlan { root_type: root, selection }),
        }
    }
}

fn exec_find_operation<'b>(
    ops: &'b Vec<Operation>,
    name: Option<&String>,
    i: usize,
) -> (r: Option<&'b Operation>)
    requires
        i <= ops.len(),
    ensures
        match r {
            Some(op) => find_operation(
                ops@.skip(i as int),
                match name {
                    Some(n) => Some(*n),
                    None => None,
                },
            ) == Some(*op),
            None => find_operation(
                ops@.skip(i as int),
                match name {
                    Some(n) => Some(*n),
                    None => None,
                },
            ) is None,
        },
    decreases ops.len() - i,
{
    if i == ops.len() {
        None
    } else {
        proof {
            assert(ops@.skip(i as int)[0] == ops@[i as int]);
            assert(ops@.skip(i as int).skip(1) =~= ops@.skip(i as int + 1));
        }
        match name {
            None => Some(&ops[i]),
            Some(n) => {
                let nn: &String = n;
                let matches_name = match &ops[i].name {
                    Some(m) => *m == *nn,
                    None => false,
                };
                if matches_name {
                    Some(&ops[i])
                } else {
                    exec_find_operation(ops, name, i + 1)
                }
            },
        }
    }
}

} // verus!
