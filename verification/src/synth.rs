//! Response synthesis: the store and the plan in, the response value tree
//! and the error list out.
//!
//! Synth walks the plan in declaration order, reads each node's store entry
//! (or, for nodes without a resolver, the parent's value under the node's
//! name), and applies GraphQL null propagation: a non-nullable node whose
//! entry is an error or null nulls its nearest nullable ancestor, recording
//! one error with the path of the original failure; a nullable node absorbs
//! the failure and only that node becomes null. List values synthesize each
//! element independently; a failing element nulls its own slot unless the
//! element type itself is non-nullable, in which case the failure moves to
//! the list's own null-propagation target.

use vstd::prelude::*;

use crate::exec::{Store, StoreEntryView};
use crate::jit::{OperationPlan, PlanField, PlanFieldView, PlanView};
use crate::value::{Value, ValueView};

verus! {

/// One step of a response path: an output field name or a list index.
#[derive(Debug, Clone, PartialEq)]
pub enum PathSeg {
    Key(String),
    Index(usize),
}

/// The mathematical model of a path step.
pub enum PathSegView {
    Key(Seq<char>),
    Index(int),
}

impl View for PathSeg {
    type V = PathSegView;

    open spec fn view(&self) -> PathSegView {
        match *self {
            PathSeg::Key(k) => PathSegView::Key(k@),
            PathSeg::Index(i) => PathSegView::Index(i as int),
        }
    }
}

/// One response-level error: what failed and where.
#[derive(Debug, Clone, PartialEq)]
pub struct ErrorRecord {
    pub message: String,
    pub path: Vec<PathSeg>,
}

/// The mathematical model of an error record.
pub struct ErrView {
    pub message: Seq<char>,
    pub path: Seq<PathSegView>,
}

impl View for ErrorRecord {
    type V = ErrView;

    open spec fn view(&self) -> ErrView {
        ErrView { message: self.message@, path: self.path@.map_values(|p: PathSeg| p@) }
    }
}

/// The views of an error list.
pub open spec fn errs_view(v: Seq<ErrorRecord>) -> Seq<ErrView> {
    v.map_values(|e: ErrorRecord| e@)
}

/// A spec-complete GraphQL response: the data tree, if one survives null
/// propagation, and the ordered error list.
#[derive(Debug, PartialEq)]
pub struct Response {
    pub data: Option<Value>,
    pub errors: Vec<ErrorRecord>,
}

/// The raw material of one node: its store entry where it has a resolver,
/// the parent's value under the node's name otherwise (absent keys read as
/// null, never as an error).
pub open spec fn raw_of(
    f: PlanFieldView,
    id: int,
    store: Seq<StoreEntryView>,
    parent: Option<ValueView>,
) -> Result<ValueView, Seq<char>> {
    match f.resolver {
        Some(_) => if 0 <= id < store.len() {
            match store[id] {
                Some(r) => r,
                None => Err("field was not resolved"@),
            }
        } else {
            Err("field was not resolved"@)
        },
        None => match parent {
            Some(p) => match p.get(f.name) {
                Some(v) => Ok(v),
                None => Ok(ValueView::Null),
            },
            None => Ok(ValueView::Null),
        },
    }
}

/// What synthesizing one node yields: its value, or a propagated failure
/// when the node is non-nullable and failed, plus every error recorded in
/// its subtree. The path in a record points at the original failing field.
pub open spec fn synth_field(
    f: PlanFieldView,
    id: int,
    store: Seq<StoreEntryView>,
    parent: Option<ValueView>,
    path: Seq<PathSegView>,
) -> (Result<ValueView, ()>, Seq<ErrView>)
    decreases f, 2int, 0int,
    via synth_field_decreases
{
    let here = path.push(PathSegView::Key(f.output_name));
    match raw_of(f, id, store, parent) {
        Err(msg) => {
            let rec = ErrView { message: msg, path: here };
            if f.non_null {
                (Err(()), seq![rec])
            } else {
                (Ok(ValueView::Null), seq![rec])
            }
        },
        Ok(v) => match v {
            ValueView::Null => if f.non_null {
                (Err(()), seq![ErrView { message: "non-nullable field is null"@, path: here }])
            } else {
                (Ok(ValueView::Null), Seq::empty())
            },
            _ => if f.list {
                match v {
                    ValueView::List(items) => {
                        let (r, errs) = synth_list(f, id, store, items, here, 0);
                        match r {
                            Ok(elems) => (Ok(ValueView::List(elems)), errs),
                            Err(_) => if f.non_null {
                                (Err(()), errs)
                            } else {
                                (Ok(ValueView::Null), errs)
                            },
                        }
                    },
                    _ => (
                        if f.non_null {
                            Err(())
                        } else {
                            Ok(ValueView::Null)
                        },
                        seq![
                            ErrView {
                                message: "expected a list"@,
                                path: here,
                            },
                        ],
                    ),
                }
            } else if f.children.len() > 0 {
                let (r, errs) = synth_fields(f.children, id + 1, store, Some(v), here);
                match r {
                    Ok(entries) => (Ok(ValueView::Obj(entries)), errs),
                    Err(_) => if f.non_null {
                        (Err(()), errs)
                    } else {
                        (Ok(ValueView::Null), errs)
                    },
                }
            } else {
                (Ok(v), Seq::empty())
            },
        },
    }
}

/// What synthesizing a node sequence yields: the output entries in
/// declaration order; one propagated child failure fails the whole group,
/// but every sibling is still synthesized and every error kept.
pub open spec fn synth_fields(
    s: Seq<PlanFieldView>,
    next: int,
    store: Seq<StoreEntryView>,
    parent: Option<ValueView>,
    path: Seq<PathSegView>,
) -> (Result<Seq<(Seq<char>, ValueView)>, ()>, Seq<ErrView>)
    decreases s, 2int, 0int,
    via synth_fields_decreases
{
    if s.len() == 0 {
        (Ok(Seq::empty()), Seq::empty())
    } else {
        let (r0, e0) = synth_field(s[0], next, store, parent, path);
        let (r1, e1) = synth_fields(
            s.skip(1),
            next + crate::rules::complexity_of(s[0]),
            store,
            parent,
            path,
        );
        let combined = match (r0, r1) {
            (Ok(v), Ok(rest)) => Ok(seq![(s[0].output_name, v)] + rest),
            _ => Err(()),
        };
        (combined, e0 + e1)
    }
}

/// What synthesizing the list elements from `idx` on yields: each element
/// independently; a failing element nulls its slot, unless elements are
/// non-nullable, in which case the failure moves to the list itself.
pub open spec fn synth_list(
    f: PlanFieldView,
    id: int,
    store: Seq<StoreEntryView>,
    items: Seq<ValueView>,
    path: Seq<PathSegView>,
    idx: int,
) -> (Result<Seq<ValueView>, ()>, Seq<ErrView>)
    decreases f, 1int, items.len() - idx,
    via synth_list_decreases
{
    if idx < 0 || idx >= items.len() {
        (Ok(Seq::empty()), Seq::empty())
    } else {
        let (elem, e0): (Result<ValueView, ()>, Seq<ErrView>) = if f.children.len() == 0 {
            (Ok(items[idx]), Seq::empty())
        } else {
            let (r, errs) = synth_fields(
                f.children,
                id + 1,
                store,
                Some(items[idx]),
                path.push(PathSegView::Index(idx)),
            );
            match r {
                Ok(entries) => (Ok(ValueView::Obj(entries)), errs),
                Err(_) => if f.item_non_null {
                    (Err(()), errs)
                } else {
                    (Ok(ValueView::Null), errs)
                },
            }
        };
        let (rest, e1) = synth_list(f, id, store, items, path, idx + 1);
        let combined = match (elem, rest) {
            (Ok(v), Ok(vs)) => Ok(seq![v] + vs),
            _ => Err(()),
        };
        (combined, e0 + e1)
    }
}

#[via_fn]
proof fn synth_field_decreases(
    f: PlanFieldView,
    id: int,
    store: Seq<StoreEntryView>,
    parent: Option<ValueView>,
    path: Seq<PathSegView>,
) {
    assert(decreases_to!(f => f.children));
}

#[via_fn]
proof fn synth_fields_decreases(
    s: Seq<PlanFieldView>,
    next: int,
    store: Seq<StoreEntryView>,
    parent: Option<ValueView>,
    path: Seq<PathSegView>,
) {
    if s.len() > 0 {
        assert(decreases_to!(s => s[0]));
        assert(s.skip(1) == s.subrange(1, s.len() as int));
        assert(decreases_to!(s => s.subrange(1, s.len() as int)));
    }
}

#[via_fn]
proof fn synth_list_decreases(
    f: PlanFieldView,
    id: int,
    store: Seq<StoreEntryView>,
    items: Seq<ValueView>,
    path: Seq<PathSegView>,
    idx: int,
) {
    assert(decreases_to!(f => f.children));
}

/// What the whole plan synthesizes to: the response data (absent exactly
/// when a non-nullable top-level failure propagated all the way up) and the
/// ordered error list.
pub open spec fn synth_plan(plan: PlanView, store: Seq<StoreEntryView>) -> (
    Option<ValueView>,
    Seq<ErrView>,
) {
    let (r, errs) = synth_fields(plan.selection, 0, store, None, Seq::empty());
    match r {
        Ok(entries) => (Some(ValueView::Obj(entries)), errs),
        Err(_) => (None, errs),
    }
}

/// A node-level failure on a non-nullable field nulls the nearest nullable
/// ancestor and records exactly one error, whose path names the original
/// failing field: here, a nullable parent object with one non-nullable
/// child whose store entry is an error.
pub proof fn lemma_null_propagates_to_nullable_ancestor(
    parent: PlanFieldView,
    child: PlanFieldView,
    id: int,
    store: Seq<StoreEntryView>,
    pval: ValueView,
    msg: Seq<char>,
)
    requires
        !parent.non_null,
        !parent.list,
        parent.children == seq![child],
        parent.resolver is Some,
        0 <= id,
        id + 1 < store.len(),
        store[id] == Some(Ok::<ValueView, Seq<char>>(pval)),
        !(pval is Null),
        child.non_null,
        child.resolver is Some,
        store[id + 1] == Some(Err::<ValueView, Seq<char>>(msg)),
    ensures
        synth_field(parent, id, store, None, Seq::empty()) == (
            Ok::<ValueView, ()>(ValueView::Null),
            seq![
                ErrView {
                    message: msg,
                    path: seq![
                        PathSegView::Key(parent.output_name),
                        PathSegView::Key(child.output_name),
                    ],
                },
            ],
        ),
{
    let here = Seq::<PathSegView>::empty().push(PathSegView::Key(parent.output_name));
    assert(raw_of(parent, id, store, None) == Ok::<ValueView, Seq<char>>(pval));
    assert(parent.children.len() == 1);
    assert(parent.children[0] == child);
    let (r0, e0) = synth_field(child, id + 1, store, Some(pval), here);
    assert(raw_of(child, id + 1, store, Some(pval)) == Err::<ValueView, Seq<char>>(msg));
    assert(r0 == Err::<ValueView, ()>(()));
    assert(e0 =~= seq![
        ErrView { message: msg, path: here.push(PathSegView::Key(child.output_name)) },
    ]);
    assert(parent.children.skip(1) =~= Seq::<PlanFieldView>::empty());
    let (r1, e1) = synth_fields(
        parent.children.skip(1),
        id + 1 + crate::rules::complexity_of(child),
        store,
        Some(pval),
        here,
    );
    assert(e0 + e1 =~= e0);
    assert(here.push(PathSegView::Key(child.output_name)) =~= seq![
        PathSegView::Key(parent.output_name),
        PathSegView::Key(child.output_name),
    ]);
}

/// A node-level failure on a *nullable* field stops where it happened: only
/// that field becomes null, one error is recorded, and the parent keeps its
/// other data.
pub proof fn lemma_null_stops_at_nullable_field(
    parent: PlanFieldView,
    child: PlanFieldView,
    id: int,
    store: Seq<StoreEntryView>,
    pval: ValueView,
    msg: Seq<char>,
)
    requires
        !parent.non_null,
        !parent.list,
        parent.children == seq![child],
        parent.resolver is Some,
        0 <= id,
        id + 1 < store.len(),
        store[id] == Some(Ok::<ValueView, Seq<char>>(pval)),
        !(pval is Null),
        !child.non_null,
        child.resolver is Some,
        store[id + 1] == Some(Err::<ValueView, Seq<char>>(msg)),
    ensures
        synth_field(parent, id, store, None, Seq::empty()) == (
            Ok::<ValueView, ()>(
                ValueView::Obj(seq![(child.output_name, ValueView::Null)]),
            ),
            seq![
                ErrView {
                    message: msg,
                    path: seq![
                        PathSegView::Key(parent.output_name),
                        PathSegView::Key(child.output_name),
                    ],
                },
            ],
        ),
{
    let here = Seq::<PathSegView>::empty().push(PathSegView::Key(parent.output_name));
    assert(raw_of(parent, id, store, None) == Ok::<ValueView, Seq<char>>(pval));
    assert(parent.children[0] == child);
    let (r0, e0) = synth_field(child, id + 1, store, Some(pval), here);
    assert(raw_of(child, id + 1, store, Some(pval)) == Err::<ValueView, Seq<char>>(msg));
    assert(r0 == Ok::<ValueView, ()>(ValueView::Null));
    assert(parent.children.skip(1) =~= Seq::<PlanFieldView>::empty());
    let (r1, e1) = synth_fields(
        parent.children.skip(1),
        id + 1 + crate::rules::complexity_of(child),
        store,
        Some(pval),
        here,
    );
    assert(e0 + e1 =~= e0);
    assert(here.push(PathSegView::Key(child.output_name)) =~= seq![
        PathSegView::Key(parent.output_name),
        PathSegView::Key(child.output_name),
    ]);
    assert(e0 =~= seq![
        ErrView {
            message: msg,
            path: seq![
                PathSegView::Key(parent.output_name),
                PathSegView::Key(child.output_name),
            ],
        },
    ]);
    let (rr, ee) = synth_fields(parent.children, id + 1, store, Some(pval), here);
    assert(rr == Ok::<Seq<(Seq<char>, ValueView)>, ()>(
        seq![(child.output_name, ValueView::Null)] + Seq::<(Seq<char>, ValueView)>::empty(),
    ));
    assert(seq![(child.output_name, ValueView::Null)] + Seq::<(Seq<char>, ValueView)>::empty()
        =~= seq![(child.output_name, ValueView::Null)]);
}

/// The number of plan nodes in one subtree: the node and everything below.
pub fn node_count(f: &PlanField) -> (r: usize)
    requires
        crate::rules::complexity_of(f@) <= usize::MAX,
    ensures
        r == crate::rules::complexity_of(f@),
    decreases *f,
{
    proof {
        crate::jit::lemma_plan_fields_view(f.children@);
    }
    let mut total: usize = 1;
    let n = f.children.len();
    let ghost cv = f@.children;
    proof {
        assert(cv.take(0) =~= Seq::<PlanFieldView>::empty());
    }
    let mut i: usize = 0;
    while i < n
        invariant
            i <= n,
            n == f.children@.len(),
            cv == f@.children,
            cv.len() == n,
            crate::rules::complexity_of(f@) <= usize::MAX,
            forall|m: int| 0 <= m < n ==> #[trigger] cv[m] == f.children@[m]@,
            total == 1 + crate::rules::complexity_sum(cv.take(i as int)),
        decreases n - i,
    {
        proof {
            assert(decreases_to!(*f => f.children));
            assert(decreases_to!(f.children => f.children@));
            assert(decreases_to!(f.children@ => f.children@[i as int]));
            assert(cv.take(i as int + 1) =~= cv.take(i as int).push(cv[i as int]));
            crate::rules::lemma_complexity_sum_snoc(cv.take(i as int), cv[i as int]);
            lemma_sum_take_bound(cv, i as int);
        }
        let c = node_count(&f.children[i]);
        total = total + c;
        i = i + 1;
    }
    proof {
        assert(cv.take(n as int) =~= cv);
    }
    total
}

/// A prefix's complexity sum never exceeds the whole sequence's.
proof fn lemma_sum_take_bound(s: Seq<PlanFieldView>, i: int)
    requires
        0 <= i < s.len(),
    ensures
        crate::rules::complexity_sum(s.take(i)) + crate::rules::complexity_of(s[i])
            <= crate::rules::complexity_sum(s),
    decreases s.len() - i,
{
    crate::rules::lemma_complexity_sum_snoc(s.take(i), s[i]);
    assert(s.take(i + 1) =~= s.take(i).push(s[i]));
    if i + 1 < s.len() {
        lemma_sum_take_bound(s, i + 1);
        assert(crate::rules::complexity_sum(s.take(i + 1)) <= crate::rules::complexity_sum(s));
    } else {
        assert(s.take(i + 1) =~= s);
    }
}


/// The spec view of an exec path.
pub open spec fn segs_of(path: Seq<PathSeg>) -> Seq<PathSegView> {
    path.map_values(|p: PathSeg| p@)
}

/// A copy of a response path.
fn clone_path(path: &Vec<PathSeg>) -> (r: Vec<PathSeg>)
    ensures
        segs_of(r@) == segs_of(path@),
{
    let mut out: Vec<PathSeg> = Vec::new();
    let n = path.len();
    let mut i: usize = 0;
    while i < n
        invariant
            i <= n,
            n == path@.len(),
            out@.len() == i,
            forall|m: int| 0 <= m < i ==> (#[trigger] out@[m])@ == path@[m]@,
        decreases n - i,
    {
        let seg = match &path[i] {
            PathSeg::Key(k) => PathSeg::Key(k.clone()),
            PathSeg::Index(x) => PathSeg::Index(*x),
        };
        out.push(seg);
        i = i + 1;
    }
    proof {
        assert forall|m: int| 0 <= m < n implies (#[trigger] segs_of(out@)[m]) == segs_of(path@)[m]
            by {
            assert(out@[m]@ == path@[m]@);
        }
        assert(segs_of(out@) =~= segs_of(path@));
    }
    out
}

fn exec_synth_field(
    f: &PlanField,
    id: usize,
    store: &Store,
    parent: Option<&Value>,
    path: &Vec<PathSeg>,
) -> (r: (Result<Value, ()>, Vec<ErrorRecord>))
    requires
        id + crate::rules::complexity_of(f@) <= usize::MAX,
    ensures
        ({
            let (sr, se) = synth_field(
                f@,
                id as int,
                store@,
                match parent {
                    Some(p) => Some(p@),
                    None => None,
                },
                segs_of(path@),
            );
            &&& (match r.0 {
                Ok(v) => sr == Ok::<ValueView, ()>(v@),
                Err(_) => sr is Err,
            })
            &&& errs_view(r.1@) == se
        }),
    decreases *f, 2int, 0int,
{
    let ghost parentv: Option<ValueView> = match parent {
        Some(p) => Some(p@),
        None => None,
    };
    let mut here = clone_path(path);
    here.push(PathSeg::Key(f.output_name.clone()));
    proof {
        assert(segs_of(here@) =~= segs_of(path@).push(PathSegView::Key(f@.output_name)));
    }
    let raw: Result<Value, String> = match f.resolver {
        Some(_) => match store.get(id) {
            Some(e) => match e {
                Ok(v) => Ok(v.clone()),
                Err(m) => Err(m.clone()),
            },
            None => Err(String::from_str("field was not resolved")),
        },
        None => match parent {
            Some(p) => match p.get(&f.name) {
                Some(v) => Ok(v.clone()),
                None => Ok(Value::Null),
            },
            None => Ok(Value::Null),
        },
    };
    proof {
        assert(match raw {
            Ok(ref v) => raw_of(f@, id as int, store@, parentv) == Ok::<ValueView, Seq<char>>(v@),
            Err(ref m) => raw_of(f@, id as int, store@, parentv) == Err::<ValueView, Seq<char>>(
                m@,
            ),
        });
    }
    match raw {
        Err(msg) => {
            let rec = ErrorRecord { message: msg, path: here };
            let mut errs: Vec<ErrorRecord> = Vec::new();
            errs.push(rec);
            proof {
                assert(errs_view(errs@) =~= seq![errs@[0]@]);
            }
            if f.type_of.non_null {
                (Err(()), errs)
            } else {
                (Ok(Value::Null), errs)
            }
        },
        Ok(v) => {
            let is_null = match &v {
                Value::Null => true,
                _ => false,
            };
            if is_null {
                if f.type_of.non_null {
                    let rec = ErrorRecord {
                        message: String::from_str("non-nullable field is null"),
                        path: here,
                    };
                    let mut errs: Vec<ErrorRecord> = Vec::new();
                    errs.push(rec);
                    proof {
                        assert(errs_view(errs@) =~= seq![errs@[0]@]);
                    }
                    (Err(()), errs)
                } else {
                    let errs: Vec<ErrorRecord> = Vec::new();
                    proof {
                        assert(errs_view(errs@) =~= Seq::<ErrView>::empty());
                    }
                    (Ok(Value::Null), errs)
                }
            } else if f.type_of.list {
                match v {
                    Value::List(items) => {
                        proof {
                            crate::value::lemma_values_view(items@);
                        }
                        let (r, errs) = exec_synth_list(f, id, store, &items, &here, 0);
                        match r {
                            Ok(elems) => (Ok(Value::List(elems)), errs),
                            Err(_) => if f.type_of.non_null {
                                (Err(()), errs)
                            } else {
                                (Ok(Value::Null), errs)
                            },
                        }
                    },
                    _ => {
                        let rec = ErrorRecord {
                            message: String::from_str("expected a list"),
                            path: here,
                        };
                        let mut errs: Vec<ErrorRecord> = Vec::new();
                        errs.push(rec);
                        proof {
                            assert(errs_view(errs@) =~= seq![errs@[0]@]);
                        }
                        if f.type_of.non_null {
                            (Err(()), errs)
                        } else {
                            (Ok(Value::Null), errs)
                        }
                    },
                }
            } else if f.children.len() > 0 {
                proof {
                    assert(decreases_to!(*f => f.children));
                    assert(decreases_to!(f.children => f.children@));
                    assert(f.children@.skip(0) =~= f.children@);
                    crate::jit::lemma_plan_fields_view(f.children@);
                    assert(f@.children.skip(0) =~= f@.children);
                }
                let (r, errs) = exec_synth_fields(&f.children, 0, id + 1, store, Some(&v), &here);
                match r {
                    Ok(entries) => (Ok(Value::Obj(entries)), errs),
                    Err(_) => if f.type_of.non_null {
                        (Err(()), errs)
                    } else {
                        (Ok(Value::Null), errs)
                    },
                }
            } else {
                let errs: Vec<ErrorRecord> = Vec::new();
                proof {
                    assert(errs_view(errs@) =~= Seq::<ErrView>::empty());
                }
                (Ok(v), errs)
            }
        },
    }
}

fn exec_synth_fields(
    s: &Vec<PlanField>,
    i: usize,
    next: usize,
    store: &Store,
    parent: Option<&Value>,
    path: &Vec<PathSeg>,
) -> (r: (Result<Vec<(String, Value)>, ()>, Vec<ErrorRecord>))
    requires
        i <= s.len(),
        next + crate::rules::complexity_sum(crate::jit::plan_fields_view(s@).skip(i as int))
            <= usize::MAX,
    ensures
        ({
            let (sr, se) = synth_fields(
                crate::jit::plan_fields_view(s@).skip(i as int),
                next as int,
                store@,
                match parent {
                    Some(p) => Some(p@),
                    None => None,
                },
                segs_of(path@),
            );
            &&& (match r.0 {
                Ok(v) => sr == Ok::<Seq<(Seq<char>, ValueView)>, ()>(
                    crate::value::entries_view(v@),
                ),
                Err(_) => sr is Err,
            })
            &&& errs_view(r.1@) == se
        }),
    decreases s@.skip(i as int), 2int, 0int,
{
    let ghost sv = crate::jit::plan_fields_view(s@);
    proof {
        crate::jit::lemma_plan_fields_view(s@);
    }
    if i == s.len() {
        let out: Vec<(String, Value)> = Vec::new();
        let errs: Vec<ErrorRecord> = Vec::new();
        proof {
            assert(sv.skip(i as int).len() == 0);
            assert(crate::value::entries_view(out@) =~= Seq::<(Seq<char>, ValueView)>::empty());
            assert(errs_view(errs@) =~= Seq::<ErrView>::empty());
        }
        (Ok(out), errs)
    } else {
        proof {
            assert(sv.skip(i as int)[0] == sv[i as int]);
            assert(sv[i as int] == s@[i as int]@);
            assert(sv.skip(i as int).skip(1) =~= sv.skip(i as int + 1));
            assert(s@.skip(i as int)[0] == s@[i as int]);
            assert(decreases_to!(s@.skip(i as int) => s@.skip(i as int)[0]));
            assert(s@.skip(i as int + 1) == s@.skip(i as int).subrange(
                1,
                s@.skip(i as int).len() as int,
            ));
            assert(decreases_to!(s@.skip(i as int) => s@.skip(i as int).subrange(
                1,
                s@.skip(i as int).len() as int,
            )));
            crate::rules::lemma_complexity_skip(sv, i as int);
        }
        let stride = node_count(&s[i]);
        let (r0, e0) = exec_synth_field(&s[i], next, store, parent, path);
        let (r1, mut e1) = exec_synth_fields(s, i + 1, next + stride, store, parent, path);
        let ghost e0v = errs_view(e0@);
        let ghost e1v = errs_view(e1@);
        let ghost e00 = e0@;
        let mut errs = e0;
        errs.append(&mut e1);
        proof {
            assert forall|m: int| 0 <= m < errs@.len() implies errs_view(errs@)[m] == (e0v + e1v)[m]
                by {
                if m < e00.len() {
                    assert(errs@[m] == e00[m]);
                }
            }
            assert(errs_view(errs@) =~= e0v + e1v);
        }
        match (r0, r1) {
            (Ok(v), Ok(rest)) => {
                let ghost restv = crate::value::entries_view(rest@);
                let ghost rest0 = rest@;
                let ghost vv = v@;
                let mut out: Vec<(String, Value)> = Vec::new();
                out.push((s[i].output_name.clone(), v));
                let mut rest_m = rest;
                out.append(&mut rest_m);
                proof {
                    crate::value::lemma_entries_view(out@);
                    crate::value::lemma_entries_view(rest0);
                    assert forall|m: int|
                        0 <= m < out@.len() implies crate::value::entries_view(out@)[m] == (seq![
                        (s@[i as int].output_name@, vv),
                    ] + restv)[m] by {
                        if m > 0 {
                            assert(out@[m] == rest0[m - 1]);
                        }
                    }
                    assert(crate::value::entries_view(out@) =~= seq![
                        (s@[i as int].output_name@, vv),
                    ] + restv);
                }
                (Ok(out), errs)
            },
            _ => (Err(()), errs),
        }
    }
}

fn exec_synth_list(
    f: &PlanField,
    id: usize,
    store: &Store,
    items: &Vec<Value>,
    path: &Vec<PathSeg>,
    idx: usize,
) -> (r: (Result<Vec<Value>, ()>, Vec<ErrorRecord>))
    requires
        idx <= items.len(),
        id + crate::rules::complexity_of(f@) <= usize::MAX,
    ensures
        ({
            let (sr, se) = synth_list(
                f@,
                id as int,
                store@,
                crate::value::values_view(items@),
                segs_of(path@),
                idx as int,
            );
            &&& (match r.0 {
                Ok(v) => sr == Ok::<Seq<ValueView>, ()>(crate::value::values_view(v@)),
                Err(_) => sr is Err,
            })
            &&& errs_view(r.1@) == se
        }),
    decreases *f, 1int, items.len() - idx,
{
    let ghost iv = crate::value::values_view(items@);
    proof {
        crate::value::lemma_values_view(items@);
    }
    if idx == items.len() {
        let out: Vec<Value> = Vec::new();
        let errs: Vec<ErrorRecord> = Vec::new();
        proof {
            assert(crate::value::values_view(out@) =~= Seq::<ValueView>::empty());
            assert(errs_view(errs@) =~= Seq::<ErrView>::empty());
        }
        (Ok(out), errs)
    } else {
        let (elem, e0): (Result<Value, ()>, Vec<ErrorRecord>) = if f.children.len() == 0 {
            let errs: Vec<ErrorRecord> = Vec::new();
            proof {
                assert(errs_view(errs@) =~= Seq::<ErrView>::empty());
                assert(iv[idx as int] == items@[idx as int]@);
            }
            (Ok(items[idx].clone()), errs)
        } else {
            let mut elem_path = clone_path(path);
            elem_path.push(PathSeg::Index(idx));
            proof {
                assert(segs_of(elem_path@) =~= segs_of(path@).push(
                    PathSegView::Index(idx as int),
                ));
                assert(decreases_to!(*f => f.children));
                assert(decreases_to!(f.children => f.children@));
                assert(f.children@.skip(0) =~= f.children@);
                assert(f@.children.skip(0) =~= f@.children);
                assert(iv[idx as int] == items@[idx as int]@);
            }
            let (r, errs) = exec_synth_fields(
                &f.children,
                0,
                id + 1,
                store,
                Some(&items[idx]),
                &elem_path,
            );
            match r {
                Ok(entries) => (Ok(Value::Obj(entries)), errs),
                Err(_) => if f.type_of.item_non_null {
                    (Err(()), errs)
                } else {
                    (Ok(Value::Null), errs)
                },
            }
        };
        let (rest, mut e1) = exec_synth_list(f, id, store, items, path, idx + 1);
        let ghost e0v = errs_view(e0@);
        let ghost e1v = errs_view(e1@);
        let ghost e00 = e0@;
        let mut errs = e0;
        errs.append(&mut e1);
        proof {
            assert forall|m: int| 0 <= m < errs@.len() implies errs_view(errs@)[m] == (e0v + e1v)[m]
                by {
                if m < e00.len() {
                    assert(errs@[m] == e00[m]);
                }
            }
            assert(errs_view(errs@) =~= e0v + e1v);
        }
        match (elem, rest) {
            (Ok(v), Ok(vs)) => {
                let ghost vsv = crate::value::values_view(vs@);
                let ghost vs0 = vs@;
                let ghost vv = v@;
                let mut out: Vec<Value> = Vec::new();
                out.push(v);
                let mut vs_m = vs;
                out.append(&mut vs_m);
                proof {
                    crate::value::lemma_values_view(out@);
                    crate::value::lemma_values_view(vs0);
                    assert forall|m: int|
                        0 <= m < out@.len() implies crate::value::values_view(out@)[m] == (seq![vv]
                        + vsv)[m] by {
                        if m > 0 {
                            assert(out@[m] == vs0[m - 1]);
                        }
                    }
                    assert(crate::value::values_view(out@) =~= seq![vv] + vsv);
                }
                (Ok(out), errs)
            },
            _ => (Err(()), errs),
        }
    }
}

/// The synthesis stage: one plan, one filled store, one response.
#[derive(Debug, PartialEq)]
pub struct Synth {
    pub plan: OperationPlan,
    pub store: Store,
}

impl Synth {
    /// A synthesizer over the given plan and store.
    pub fn new(plan: OperationPlan, store: Store) -> (r: Synth)
        ensures
            r.plan == plan,
            r.store == store,
    {
        Synth { plan, store }
    }

    /// Assembles the response: the data tree in declaration order, under
    /// GraphQL null propagation, plus the ordered error list.
    pub fn synthesize(&self) -> (r: Response)
        requires
            crate::rules::plan_complexity(self.plan@) <= usize::MAX,
        ensures
            ({
                let (data, errs) = synth_plan(self.plan@, self.store@);
                &&& (match r.data {
                    Some(v) => data == Some(v@),
                    None => data is None,
                })
                &&& errs_view(r.errors@) == errs
            }),
    {
        let empty_path: Vec<PathSeg> = Vec::new();
        proof {
            assert(self.plan.selection@.skip(0) =~= self.plan.selection@);
            assert(crate::jit::plan_fields_view(self.plan.selection@).skip(0)
                =~= crate::jit::plan_fields_view(self.plan.selection@));
            assert(segs_of(empty_path@) =~= Seq::<PathSegView>::empty());
        }
        let (r, errors) = exec_synth_fields(&self.plan.selection, 0, 0, &self.store, None, &empty_path);
        match r {
            Ok(entries) => Response { data: Some(Value::Obj(entries)), errors },
            Err(_) => Response { data: None, errors },
        }
    }
}

} // verus!
