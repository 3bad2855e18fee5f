//! The executor's decision core: per-execution store, call preparation, and
//! request batching.
//!
//! Evaluating a plan splits into pure decisions, made here, and the outside
//! work of actually performing calls, done by the surrounding application.
//! `prepare_calls` walks the plan, resolves what needs no outside work, and
//! hands back the rendered calls still owed; `batch_calls` coalesces calls
//! that are structurally the same upstream call; `apply_results` fans each
//! batch's result out to the nodes it serves. Store writes are write-once:
//! a slot once filled never changes.

use vstd::prelude::*;

use crate::blueprint::Blueprint;
use crate::context::{eval_path_string, kv_view, EvalContext, Headers};
use crate::ir::{
    eval_ir_view, request_url_rendered, EvalOutcome, EvalOutcomeView, IrView, RenderedRequest,
    RenderedRequestView,
};
use crate::jit::{OperationPlan, PlanField};
use crate::template::{render_seg_view, render_view, PathLookup, SegView};
use crate::value::{path_view, Value, ValueView};

verus! {

/// The view of a store entry: nothing yet, or the node's result.
pub type StoreEntryView = Option<Result<ValueView, Seq<char>>>;

/// The per-execution store: one write-once slot per plan node, keyed by the
/// node's pre-order position.
#[derive(Debug, PartialEq)]
pub struct Store {
    pub entries: Vec<Option<Result<Value, String>>>,
}

/// The view of one store slot.
pub open spec fn entry_view(e: Option<Result<Value, String>>) -> StoreEntryView {
    match e {
        None => None,
        Some(Ok(v)) => Some(Ok(v@)),
        Some(Err(m)) => Some(Err(m@)),
    }
}

impl View for Store {
    type V = Seq<StoreEntryView>;

    open spec fn view(&self) -> Seq<StoreEntryView> {
        self.entries@.map_values(|e: Option<Result<Value, String>>| entry_view(e))
    }
}

/// What one write-once write does to the store view: the store grows to
/// cover `id`, and the slot is filled only if it was empty.
pub open spec fn set_once_spec(store: Seq<StoreEntryView>, id: int, val: Result<
    ValueView,
    Seq<char>,
>) -> Seq<StoreEntryView> {
    let padded = if id < store.len() {
        store
    } else {
        store + Seq::new((id + 1 - store.len()) as nat, |k: int| None::<Result<ValueView, Seq<char>>>)
    };
    if padded[id] is Some {
        padded
    } else {
        padded.update(id, Some(val))
    }
}

impl Store {
    /// An empty store.
    pub fn new() -> (r: Store)
        ensures
            r@ =~= Seq::<StoreEntryView>::empty(),
    {
        Store { entries: Vec::new() }
    }

    /// The entry of node `id`, if one was written.
    pub fn get<'a>(&'a self, id: usize) -> (r: Option<&'a Result<Value, String>>)
        ensures
            match r {
                Some(e) => id < self@.len() && self@[id as int] == Some(
                    match *e {
                        Ok(v) => Ok::<ValueView, Seq<char>>(v@),
                        Err(ref m) => Err::<ValueView, Seq<char>>(m@),
                    },
                ),
                None => id >= self@.len() || self@[id as int] is None,
            },
    {
        if id < self.entries.len() {
            match &self.entries[id] {
                Some(e) => Some(e),
                None => None,
            }
        } else {
            None
        }
    }

    /// Writes node `id`'s result, once: a slot already written is untouched.
    pub fn set_once(&mut self, id: usize, val: Result<Value, String>)
        ensures
            final(self)@ == set_once_spec(
                old(self)@,
                id as int,
                match val {
                    Ok(v) => Ok::<ValueView, Seq<char>>(v@),
                    Err(ref m) => Err::<ValueView, Seq<char>>(m@),
                },
            ),
    {
        let ghost valv: Result<ValueView, Seq<char>> = match val {
            Ok(ref v) => Ok(v@),
            Err(ref m) => Err(m@),
        };
        let ghost store0 = self@;
        while self.entries.len() <= id
            invariant
                self@.len() >= store0.len(),
                store0.len() > id ==> self@.len() == store0.len(),
                store0.len() <= id + 1 ==> self@.len() <= id + 1,
                forall|k: int| 0 <= k < store0.len() ==> self@[k] == store0[k],
                forall|k: int| store0.len() <= k < self@.len() ==> self@[k] is None,
            decreases id + 1 - self.entries.len(),
        {
            let ghost pre = self@;
            self.entries.push(None);
            proof {
                assert(self@ =~= pre.push(None));
            }
        }
        let ghost padded = self@;
        proof {
            if id < store0.len() {
                assert(padded =~= store0);
            } else {
                assert(padded =~= store0 + Seq::new(
                    (id + 1 - store0.len()) as nat,
                    |k: int| None::<Result<ValueView, Seq<char>>>,
                ));
            }
        }
        let already = match &self.entries[id] {
            Some(_) => true,
            None => false,
        };
        if !already {
            self.entries.set(id, Some(val));
            proof {
                assert(self@ =~= padded.update(id as int, Some(valv)));
            }
        }
    }
}

/// One call the executor still owes: the node it serves, the rendered
/// request, and the path transform to apply to whatever comes back.
#[derive(Debug, PartialEq)]
pub struct PendingCall {
    pub node: usize,
    pub req: RenderedRequest,
    pub post_path: Vec<String>,
}

/// One coalesced upstream call: the rendered request and the indices (into
/// the pending list) of every call it serves.
#[derive(Debug, PartialEq)]
pub struct Batch {
    pub req: RenderedRequest,
    pub members: Vec<usize>,
}

/// A field-for-field copy of a rendered request.
fn clone_request(req: &RenderedRequest) -> (r: RenderedRequest)
    ensures
        r@ == req@,
{
    RenderedRequest {
        kind: req.kind,
        method: req.method,
        url: req.url.clone(),
        payload: req.payload.clone(),
    }
}

/// Coalesces the pending calls into batches: one batch per distinct rendered
/// request, each batch serving exactly the pending calls whose request is
/// that batch's request. Issuing one upstream call per batch therefore makes
/// exactly one call for any set of structurally identical pending calls.
#[verifier::loop_isolation(false)]
pub fn batch_calls(pending: &Vec<PendingCall>) -> (r: Vec<Batch>)
    ensures
        forall|b1: int, b2: int|
            0 <= b1 < r@.len() && 0 <= b2 < r@.len() && b1 != b2 ==> (#[trigger] r@[b1]).req@ != (
            #[trigger] r@[b2]).req@,
        forall|b: int, k: int|
            0 <= b < r@.len() && 0 <= k < pending@.len() ==> ((#[trigger] r@[b].members@.contains(
                k as usize,
            )) <==> pending@[k].req@ == r@[b].req@),
        forall|k: int|
            0 <= k < pending@.len() ==> exists|b: int|
                0 <= b < r@.len() && (#[trigger] pending@[k]).req@ == (#[trigger] r@[b]).req@,
        forall|b: int, m: int|
            0 <= b < r@.len() && 0 <= m < r@[b].members@.len() ==> ((#[trigger] r@[b].members@[m])
                as int) < pending@.len(),
{
    let mut out: Vec<Batch> = Vec::new();
    let n = pending.len();
    let mut k: usize = 0;
    while k < n
        invariant
            k <= n,
            n == pending@.len(),
            forall|b1: int, b2: int|
                0 <= b1 < out@.len() && 0 <= b2 < out@.len() && b1 != b2 ==> (
                #[trigger] out@[b1]).req@ != (#[trigger] out@[b2]).req@,
            forall|b: int, j: int|
                0 <= b < out@.len() && 0 <= j < k ==> ((#[trigger] out@[b].members@.contains(
                    j as usize,
                )) <==> pending@[j].req@ == out@[b].req@),
            forall|b: int, m: int|
                0 <= b < out@.len() && 0 <= m < out@[b].members@.len() ==> ((
                #[trigger] out@[b].members@[m]) as int) < k,
            forall|j: int|
                0 <= j < k ==> exists|b: int|
                    0 <= b < out@.len() && (#[trigger] pending@[j]).req@ == (
                    #[trigger] out@[b]).req@,
        decreases n - k,
    {
        let nb = out.len();
        let mut found: Option<usize> = None;
        let mut b: usize = 0;
        while b < nb
            invariant
                b <= nb,
                nb == out@.len(),
                found is None ==> forall|x: int|
                    0 <= x < b ==> (#[trigger] out@[x]).req@ != pending@[k as int].req@,
                match found {
                    Some(fb) => fb < out@.len() && out@[fb as int].req@ == pending@[k as int].req@,
                    None => true,
                },
            decreases nb - b,
        {
            if out[b].req.same_call(&pending[k].req) {
                found = Some(b);
                b = nb;
            } else {
                b = b + 1;
            }
        }
        match found {
            Some(fb) => {
                let ghost out0 = out@;
                let members = &mut out[fb].members;
                members.push(k);
                proof {
                    assert(out@.len() == out0.len());
                    assert(out@[fb as int].req == out0[fb as int].req);
                    assert(out@[fb as int].members@ == out0[fb as int].members@.push(k));
                    assert(forall|x: int|
                        0 <= x < out@.len() && x != fb ==> out@[x] == out0[x]);
                    assert(forall|x: int|
                        0 <= x < out@.len() ==> (#[trigger] out@[x]).req@ == out0[x].req@);
                    assert forall|j: int| 0 <= j < k + 1 implies exists|b: int|
                        0 <= b < out@.len() && (#[trigger] pending@[j]).req@ == (
                        #[trigger] out@[b]).req@ by {
                        if j < k {
                            let b0 = choose|b: int|
                                0 <= b < out0.len() && pending@[j].req@ == out0[b].req@;
                            assert(pending@[j].req@ == out@[b0].req@);
                        } else {
                            assert(pending@[k as int].req@ == out@[fb as int].req@);
                        }
                    }
                    assert forall|bb: int, j: int|
                        0 <= bb < out@.len() && 0 <= j < k + 1 implies ((
                    #[trigger] out@[bb].members@.contains(j as usize)) <==> pending@[j].req@
                        == out@[bb].req@) by {
                        if j < k {
                            if bb == fb {
                                assert(out0[bb].members@.contains(j as usize) <==> pending@[j].req@
                                    == out0[bb].req@);
                                assert(out@[bb].members@.contains(j as usize)
                                    <==> out0[bb].members@.contains(j as usize)) by {
                                    if out0[bb].members@.contains(j as usize) {
                                        let idx = choose|m: int|
                                            0 <= m < out0[bb].members@.len()
                                                && out0[bb].members@[m] == j as usize;
                                        assert(out@[bb].members@[idx] == j as usize);
                                    }
                                    if out@[bb].members@.contains(j as usize) {
                                        let idx = choose|m: int|
                                            0 <= m < out@[bb].members@.len()
                                                && out@[bb].members@[m] == j as usize;
                                        if idx < out0[bb].members@.len() {
                                            assert(out0[bb].members@[idx] == j as usize);
                                        }
                                    }
                                }
                            } else {
                                assert(out@[bb] == out0[bb]);
                            }
                        } else {
                            if bb == fb {
                                assert(out@[bb].members@[out@[bb].members@.len() - 1]
                                    == k as usize);
                            } else {
                                assert(out@[bb] == out0[bb]);
                                if out@[bb].members@.contains(k as usize) {
                                    let idx = choose|m: int|
                                        0 <= m < out@[bb].members@.len() && out@[bb].members@[m]
                                            == k as usize;
                                    assert((out@[bb].members@[idx] as int) < k);
                                }
                                assert(out@[bb].req@ != out@[fb as int].req@);
                            }
                        }
                    }
                }
            },
            None => {
                let ghost out0 = out@;
                let mut members: Vec<usize> = Vec::new();
                members.push(k);
                let batch = Batch { req: clone_request(&pending[k].req), members };
                out.push(batch);
                proof {
                    let newb = out@.len() - 1;
                    assert(out@[newb].members@ =~= seq![k as usize]);
                    assert forall|j: int| 0 <= j < k + 1 implies exists|b: int|
                        0 <= b < out@.len() && (#[trigger] pending@[j]).req@ == (
                        #[trigger] out@[b]).req@ by {
                        if j < k {
                            let b0 = choose|b: int|
                                0 <= b < out0.len() && pending@[j].req@ == out0[b].req@;
                            assert(pending@[j].req@ == out@[b0].req@);
                        } else {
                            assert(pending@[k as int].req@ == out@[newb].req@);
                        }
                    }
                    assert forall|bb: int, j: int|
                        0 <= bb < out@.len() && 0 <= j < k + 1 implies ((
                    #[trigger] out@[bb].members@.contains(j as usize)) <==> pending@[j].req@
                        == out@[bb].req@) by {
                        if bb < newb {
                            assert(out@[bb] == out0[bb]);
                            if j < k {
                            } else {
                                assert(out@[bb].req@ != pending@[k as int].req@);
                                if out@[bb].members@.contains(k as usize) {
                                    let idx = choose|m: int|
                                        0 <= m < out@[bb].members@.len() && out@[bb].members@[m]
                                            == k as usize;
                                    assert((out@[bb].members@[idx] as int) < k);
                                }
                            }
                        } else {
                            if j < k {
                                if out@[bb].members@.contains(j as usize) {
                                    assert(out@[bb].members@[0] == k as usize);
                                    assert(out@[bb].members@.len() == 1);
                                }
                                assert(pending@[j].req@ != out@[bb].req@) by {
                                    if pending@[j].req@ == out@[bb].req@ {
                                        let wb = choose|x: int|
                                            0 <= x < out0.len() && pending@[j].req@ == out0[x].req@;
                                        assert(out0[wb].req@ == pending@[k as int].req@);
                                    }
                                }
                            } else {
                                assert(out@[bb].members@[0] == k as usize);
                            }
                        }
                    }
                }
            },
        }
        k = k + 1;
    }
    out
}

/// Structurally identical pending calls are served by the same batches: the
/// batching of one is the batching of the other, so one upstream call covers
/// both.
pub proof fn lemma_batching_idempotent(
    batches: Seq<Batch>,
    pending: Seq<PendingCall>,
    k1: int,
    k2: int,
)
    requires
        forall|b: int, k: int|
            0 <= b < batches.len() && 0 <= k < pending.len() ==> ((
            #[trigger] batches[b].members@.contains(k as usize)) <==> pending[k].req@
                == batches[b].req@),
        0 <= k1 < pending.len(),
        0 <= k2 < pending.len(),
        pending[k1].req@ == pending[k2].req@,
    ensures
        forall|b: int|
            0 <= b < batches.len() ==> ((#[trigger] batches[b].members@.contains(k1 as usize))
                <==> batches[b].members@.contains(k2 as usize)),
{
    assert forall|b: int| 0 <= b < batches.len() implies ((
    #[trigger] batches[b].members@.contains(k1 as usize)) <==> batches[b].members@.contains(
        k2 as usize,
    )) by {
        assert(batches[b].members@.contains(k1 as usize) <==> pending[k1].req@ == batches[b].req@);
        assert(batches[b].members@.contains(k2 as usize) <==> pending[k2].req@ == batches[b].req@);
    }
}

/// The request-scoped lookup snapshots: what every node's evaluation context
/// shares.
#[derive(Debug, Clone, PartialEq)]
pub struct RequestContext {
    pub vars: Vec<(String, String)>,
    pub env: Vec<(String, String)>,
    pub headers: Headers,
}

/// Whether two evaluation contexts hold the same data.
pub open spec fn ctx_equiv(c1: EvalContext, c2: EvalContext) -> bool {
    &&& c1.args@ == c2.args@
    &&& kv_view(c1.vars@) == kv_view(c2.vars@)
    &&& kv_view(c1.env@) == kv_view(c2.env@)
    &&& kv_view(c1.headers.entries@) == kv_view(c2.headers.entries@)
}

/// Equal context data resolves every path alike.
pub proof fn lemma_eval_path_congruent(c1: EvalContext, c2: EvalContext, path: Seq<Seq<char>>)
    requires
        ctx_equiv(c1, c2),
    ensures
        eval_path_string(c1, path) == eval_path_string(c2, path),
{
}

/// Equal context data renders every template alike.
pub proof fn lemma_render_congruent(c1: EvalContext, c2: EvalContext, segs: Seq<SegView>)
    requires
        ctx_equiv(c1, c2),
    ensures
        render_view(&c1, segs) == render_view(&c2, segs),
    decreases segs.len(),
{
    if segs.len() > 0 {
        lemma_render_congruent(c1, c2, segs.skip(1));
        match segs[0] {
            SegView::Expr(p) => {
                lemma_eval_path_congruent(c1, c2, p);
            },
            SegView::Lit(_) => {},
        }
        assert(render_seg_view(&c1, segs[0]) == render_seg_view(&c2, segs[0]));
    }
}

/// Equal context data renders every query-parameter list alike.
pub proof fn lemma_query_congruent(
    c1: EvalContext,
    c2: EvalContext,
    q: Seq<(Seq<char>, Seq<SegView>)>,
)
    requires
        ctx_equiv(c1, c2),
    ensures
        crate::ir::query_rendered(&c1, q) == crate::ir::query_rendered(&c2, q),
    decreases q.len(),
{
    if q.len() > 0 {
        lemma_render_congruent(c1, c2, q[0].1);
        if q.len() > 1 {
            lemma_query_congruent(c1, c2, q.skip(1));
        }
    }
}

/// Equal context data evaluates every IR alike.
pub proof fn lemma_eval_ir_congruent(ir: IrView, c1: EvalContext, c2: EvalContext)
    requires
        ctx_equiv(c1, c2),
    ensures
        eval_ir_view(ir, c1) == eval_ir_view(ir, c2),
    decreases ir,
{
    match ir {
        IrView::Http(t) => {
            lemma_render_congruent(c1, c2, t.url);
            lemma_query_congruent(c1, c2, t.query);
        },
        IrView::Cache(_, children) => {
            if children.len() == 1 {
                assert(decreases_to!(ir => children));
                assert(decreases_to!(children => children[0]));
                lemma_eval_ir_congruent(children[0], c1, c2);
            }
        },
        IrView::Select(_, children) => {
            if children.len() == 1 {
                assert(decreases_to!(ir => children));
                assert(decreases_to!(children => children[0]));
                lemma_eval_ir_congruent(children[0], c1, c2);
            }
        },
        IrView::Cond(path, tc, ec) => {
            if tc.len() == 1 {
                assert(decreases_to!(ir => tc));
                assert(decreases_to!(tc => tc[0]));
                lemma_eval_ir_congruent(tc[0], c1, c2);
            }
            if ec.len() == 1 {
                assert(decreases_to!(ir => ec));
                assert(decreases_to!(ec => ec[0]));
                lemma_eval_ir_congruent(ec[0], c1, c2);
            }
        },
        _ => {},
    }
}

/// The evaluation context of one plan node: its bound arguments over the
/// request's shared snapshots.
pub open spec fn node_ctx(f: PlanField, rctx: RequestContext) -> EvalContext {
    EvalContext {
        args: Value::Obj(f.args),
        vars: rctx.vars,
        env: rctx.env,
        headers: rctx.headers,
    }
}

/// The mathematical model of a pending call.
pub struct PendingCallView {
    pub node: int,
    pub req: RenderedRequestView,
    pub post_path: Seq<Seq<char>>,
}

impl View for PendingCall {
    type V = PendingCallView;

    open spec fn view(&self) -> PendingCallView {
        PendingCallView {
            node: self.node as int,
            req: self.req@,
            post_path: path_view(self.post_path@),
        }
    }
}

/// What the node itself contributes, before its children: a resolver whose
/// evaluation finishes locally is written to the store, one that needs
/// outside work becomes a pending call, and a resolver index outside the
/// blueprint's pool is recorded as a resolution error.
pub open spec fn prepare_local_spec(
    bp: Blueprint,
    f: PlanField,
    id: int,
    store: Seq<StoreEntryView>,
    rctx: RequestContext,
) -> (Seq<PendingCallView>, Seq<StoreEntryView>) {
    match f.resolver {
        None => (Seq::empty(), store),
        Some(rid) => if (rid as int) < bp.irs@.len() {
            match eval_ir_view(bp.irs@[rid as int]@, node_ctx(f, rctx)) {
                EvalOutcomeView::Done(v) => (
                    Seq::empty(),
                    set_once_spec(store, id, Ok(v)),
                ),
                EvalOutcomeView::Call(req, post) => (
                    seq![PendingCallView { node: id, req, post_path: post }],
                    store,
                ),
            }
        } else {
            (Seq::empty(), set_once_spec(store, id, Err("unknown resolver"@)))
        },
    }
}

/// What preparing one node yields: the calls still owed, the store with
/// everything local already written, and the next free node position.
pub open spec fn prepare_node_spec(
    bp: Blueprint,
    f: PlanField,
    id: int,
    store: Seq<StoreEntryView>,
    rctx: RequestContext,
) -> (Seq<PendingCallView>, Seq<StoreEntryView>, int)
    decreases f, 0int,
    via prepare_node_spec_decreases
{
    let (calls0, store1) = prepare_local_spec(bp, f, id, store, rctx);
    let (calls1, store2, next) = prepare_fields_spec(bp, f.children@, id + 1, store1, rctx);
    (calls0 + calls1, store2, next)
}

/// What preparing a node sequence yields, left to right.
pub open spec fn prepare_fields_spec(
    bp: Blueprint,
    fields: Seq<PlanField>,
    next: int,
    store: Seq<StoreEntryView>,
    rctx: RequestContext,
) -> (Seq<PendingCallView>, Seq<StoreEntryView>, int)
    decreases fields, 1int,
    via prepare_fields_spec_decreases
{
    if fields.len() == 0 {
        (Seq::empty(), store, next)
    } else {
        let (c0, s1, n1) = prepare_node_spec(bp, fields[0], next, store, rctx);
        let (c1, s2, n2) = prepare_fields_spec(bp, fields.skip(1), n1, s1, rctx);
        (c0 + c1, s2, n2)
    }
}

#[via_fn]
proof fn prepare_node_spec_decreases(
    bp: Blueprint,
    f: PlanField,
    id: int,
    store: Seq<StoreEntryView>,
    rctx: RequestContext,
) {
    assert(decreases_to!(f => f.children));
    assert(decreases_to!(f.children => f.children@));
}

#[via_fn]
proof fn prepare_fields_spec_decreases(
    bp: Blueprint,
    fields: Seq<PlanField>,
    next: int,
    store: Seq<StoreEntryView>,
    rctx: RequestContext,
) {
    if fields.len() > 0 {
        assert(decreases_to!(fields => fields[0]));
        assert(fields.skip(1) == fields.subrange(1, fields.len() as int));
        assert(decreases_to!(fields => fields.subrange(1, fields.len() as int)));
    }
}

/// The views of a pending-call list.
pub open spec fn pending_view(v: Seq<PendingCall>) -> Seq<PendingCallView> {
    v.map_values(|c: PendingCall| c@)
}

fn exec_prepare_node(
    bp: &Blueprint,
    f: &PlanField,
    id: usize,
    store: &mut Store,
    rctx: &RequestContext,
    out: &mut Vec<PendingCall>,
) -> (r: usize)
    requires
        id + crate::rules::complexity_of(f@) <= usize::MAX,
    ensures
        ({
            let (calls, store2, next) = prepare_node_spec(*bp, *f, id as int, old(store)@, *rctx);
            &&& pending_view(final(out)@) == pending_view(old(out)@) + calls
            &&& final(store)@ == store2
            &&& r as int == next
        }),
    decreases *f, 0int,
{
    proof {
        assert(decreases_to!(*f => f.children));
        assert(decreases_to!(f.children => f.children@));
        crate::jit::lemma_plan_fields_view(f.children@);
    }
    let ghost out0 = out@;
    let ghost store_in = store@;
    match f.resolver {
        None => {},
        Some(rid) => {
            if rid < bp.irs.len() {
                let ctx = EvalContext {
                    args: Value::Obj(crate::value::clone_entries(&f.args)),
                    vars: clone_pairs(&rctx.vars),
                    env: clone_pairs(&rctx.env),
                    headers: Headers { entries: clone_pairs(&rctx.headers.entries) },
                };
                proof {
                    let cloned = ctx.args->Obj_0;
                    crate::value::lemma_entries_view(cloned@);
                    crate::value::lemma_entries_view(f.args@);
                    assert(crate::value::entries_view(cloned@) =~= crate::value::entries_view(
                        f.args@,
                    ));
                    assert(ctx_equiv(ctx, node_ctx(*f, *rctx)));
                    lemma_eval_ir_congruent(bp.irs@[rid as int]@, ctx, node_ctx(*f, *rctx));
                }
                match bp.irs[rid].eval(&ctx) {
                    EvalOutcome::Done(v) => {
                        store.set_once(id, Ok(v));
                    },
                    EvalOutcome::Call { req, post_path } => {
                        out.push(PendingCall { node: id, req, post_path });
                        proof {
                            assert forall|m: int| 0 <= m < out@.len() implies pending_view(out@)[m]
                                == (pending_view(out0) + seq![out@[out@.len() - 1]@])[m] by {
                                if m < out0.len() {
                                    assert(out@[m] == out0[m]);
                                }
                            }
                            assert(pending_view(out@) =~= pending_view(out0) + seq![
                                out@[out@.len() - 1]@,
                            ]);
                        }
                    },
                }
            } else {
                store.set_once(id, Err(String::from_str("unknown resolver")));
            }
        },
    }
    proof {
        let (c0, s1) = prepare_local_spec(*bp, *f, id as int, store_in, *rctx);
        if c0.len() == 0 {
            assert(pending_view(out@) =~= pending_view(out0) + c0);
        }
        assert(pending_view(out@) == pending_view(out0) + c0);
        assert(store@ == s1);
        assert(f.children@.skip(0) =~= f.children@);
        assert(f@.children == crate::jit::plan_fields_view(f.children@));
        assert(crate::jit::plan_fields_view(f.children@).skip(0) =~= crate::jit::plan_fields_view(
            f.children@,
        ));
    }
    let ghost out1 = out@;
    let r = exec_prepare_fields(bp, &f.children, 0, id + 1, store, rctx, out);
    proof {
        let (c0, s1) = prepare_local_spec(*bp, *f, id as int, store_in, *rctx);
        let (c1, s2, nx) = prepare_fields_spec(*bp, f.children@, id as int + 1, s1, *rctx);
        assert(pending_view(out@) =~= pending_view(out0) + (c0 + c1));
    }
    r
}

fn exec_prepare_fields(
    bp: &Blueprint,
    fields: &Vec<PlanField>,
    i: usize,
    next: usize,
    store: &mut Store,
    rctx: &RequestContext,
    out: &mut Vec<PendingCall>,
) -> (r: usize)
    requires
        i <= fields.len(),
        next + crate::rules::complexity_sum(crate::jit::plan_fields_view(fields@).skip(i as int))
            <= usize::MAX,
    ensures
        ({
            let (calls, store2, nx) = prepare_fields_spec(
                *bp,
                fields@.skip(i as int),
                next as int,
                old(store)@,
                *rctx,
            );
            &&& pending_view(final(out)@) == pending_view(old(out)@) + calls
            &&& final(store)@ == store2
            &&& r as int == nx
        }),
    decreases fields@.skip(i as int), 1int,
{
    if i == fields.len() {
        proof {
            assert(fields@.skip(i as int).len() == 0);
            assert(pending_view(out@) =~= pending_view(out@) + Seq::<PendingCallView>::empty());
        }
        next
    } else {
        proof {
            assert(fields@.skip(i as int)[0] == fields@[i as int]);
            assert(fields@.skip(i as int).skip(1) =~= fields@.skip(i as int + 1));
            assert(decreases_to!(fields@.skip(i as int) => fields@.skip(i as int)[0]));
            assert(fields@.skip(i as int + 1) == fields@.skip(i as int).subrange(
                1,
                fields@.skip(i as int).len() as int,
            ));
            assert(decreases_to!(fields@.skip(i as int) => fields@.skip(i as int).subrange(
                1,
                fields@.skip(i as int).len() as int,
            )));
            crate::jit::lemma_plan_fields_view(fields@);
            lemma_prepare_next(*bp, fields@[i as int], next as int, store@, *rctx);
            crate::rules::lemma_complexity_skip(crate::jit::plan_fields_view(fields@), i as int);
        }
        let ghost out0 = out@;
        let n1 = exec_prepare_node(bp, &fields[i], next, store, rctx, out);
        let ghost out1 = out@;
        let n2 = exec_prepare_fields(bp, fields, i + 1, n1, store, rctx, out);
        proof {
            let (c0, s1, _) = prepare_node_spec(*bp, fields@[i as int], next as int, old(store)@, *rctx);
            let (c1, s2, _) = prepare_fields_spec(
                *bp,
                fields@.skip(i as int + 1),
                n1 as int,
                s1,
                *rctx,
            );
            assert(pending_view(out@) =~= pending_view(out0) + (c0 + c1));
        }
        n2
    }
}

/// The next free position after preparing a node is the position plus the
/// node's complexity; likewise for a sequence of nodes.
pub proof fn lemma_prepare_next(
    bp: Blueprint,
    f: PlanField,
    id: int,
    store: Seq<StoreEntryView>,
    rctx: RequestContext,
)
    ensures
        prepare_node_spec(bp, f, id, store, rctx).2 == id + crate::rules::complexity_of(f@),
    decreases f, 0int,
{
    let (calls0, store1): (Seq<PendingCallView>, Seq<StoreEntryView>) = match f.resolver {
        None => (Seq::<PendingCallView>::empty(), store),
        Some(rid) => if (rid as int) < bp.irs@.len() {
            match eval_ir_view(bp.irs@[rid as int]@, node_ctx(f, rctx)) {
                EvalOutcomeView::Done(v) => (
                    Seq::<PendingCallView>::empty(),
                    set_once_spec(store, id, Ok(v)),
                ),
                EvalOutcomeView::Call(req, post) => (
                    seq![PendingCallView { node: id, req, post_path: post }],
                    store,
                ),
            }
        } else {
            (Seq::<PendingCallView>::empty(), set_once_spec(store, id, Err("unknown resolver"@)))
        },
    };
    assert(decreases_to!(f => f.children));
    assert(decreases_to!(f.children => f.children@));
    lemma_prepare_fields_next(bp, f.children@, id + 1, store1, rctx);
    crate::jit::lemma_plan_fields_view(f.children@);
    lemma_complexity_views(f.children@);
}

/// See `lemma_prepare_next`.
pub proof fn lemma_prepare_fields_next(
    bp: Blueprint,
    fields: Seq<PlanField>,
    next: int,
    store: Seq<StoreEntryView>,
    rctx: RequestContext,
)
    ensures
        prepare_fields_spec(bp, fields, next, store, rctx).2 == next
            + crate::rules::complexity_sum(crate::jit::plan_fields_view(fields)),
    decreases fields, 1int,
{
    crate::jit::lemma_plan_fields_view(fields);
    if fields.len() == 0 {
    } else {
        assert(decreases_to!(fields => fields[0]));
        assert(fields.skip(1) == fields.subrange(1, fields.len() as int));
        assert(decreases_to!(fields => fields.subrange(1, fields.len() as int)));
        let (c0, s1, n1) = prepare_node_spec(bp, fields[0], next, store, rctx);
        lemma_prepare_next(bp, fields[0], next, store, rctx);
        lemma_prepare_fields_next(bp, fields.skip(1), n1, s1, rctx);
        assert(crate::jit::plan_fields_view(fields).skip(1) =~= crate::jit::plan_fields_view(
            fields.skip(1),
        )) by {
            crate::jit::lemma_plan_fields_view(fields.skip(1));
            assert forall|m: int|
                0 <= m < fields.len() - 1 implies crate::jit::plan_fields_view(fields).skip(1)[m]
                == crate::jit::plan_fields_view(fields.skip(1))[m] by {
                assert(crate::jit::plan_fields_view(fields)[m + 1] == plan_field_view_of(
                    fields[m + 1],
                ));
                assert(fields.skip(1)[m] == fields[m + 1]);
            }
        }
    }
}

/// The view of one plan node, by name.
pub open spec fn plan_field_view_of(f: PlanField) -> crate::jit::PlanFieldView {
    crate::jit::plan_field_view(f)
}

/// `lemma_plan_fields_view`, restated for this module's proofs.
proof fn lemma_complexity_views(s: Seq<PlanField>) {
    crate::jit::lemma_plan_fields_view(s);
}

/// Walks the whole plan: everything resolvable without outside work is
/// written to the store, and the rendered calls still owed come back, in
/// pre-order, each knowing which node it serves.
pub fn prepare_calls(
    bp: &Blueprint,
    plan: &OperationPlan,
    rctx: &RequestContext,
    store: &mut Store,
) -> (r: Vec<PendingCall>)
    requires
        crate::rules::plan_complexity(plan@) <= usize::MAX,
    ensures
        ({
            let (calls, store2, _) = prepare_fields_spec(
                *bp,
                plan.selection@,
                0,
                old(store)@,
                *rctx,
            );
            &&& pending_view(r@) == calls
            &&& final(store)@ == store2
        }),
{
    let mut out: Vec<PendingCall> = Vec::new();
    proof {
        assert(plan.selection@.skip(0) =~= plan.selection@);
        assert(pending_view(out@) =~= Seq::<PendingCallView>::empty());
        assert(crate::jit::plan_fields_view(plan.selection@).skip(0)
            =~= crate::jit::plan_fields_view(plan.selection@));
    }
    exec_prepare_fields(bp, &plan.selection, 0, 0, store, rctx, &mut out);
    out
}

/// String copies of a pair list.
fn clone_pairs(pairs: &Vec<(String, String)>) -> (r: Vec<(String, String)>)
    ensures
        kv_view(r@) == kv_view(pairs@),
{
    let mut out: Vec<(String, String)> = Vec::new();
    let n = pairs.len();
    let mut i: usize = 0;
    while i < n
        invariant
            i <= n,
            n == pairs@.len(),
            out@.len() == i,
            forall|m: int|
                0 <= m < i ==> ((#[trigger] out@[m]).0@ == pairs@[m].0@ && out@[m].1@
                    == pairs@[m].1@),
        decreases n - i,
    {
        out.push((pairs[i].0.clone(), pairs[i].1.clone()));
        i = i + 1;
    }
    proof {
        assert forall|m: int| 0 <= m < n implies kv_view(out@)[m] == kv_view(pairs@)[m] by {
            assert(kv_view(out@)[m] == (out@[m].0@, out@[m].1@));
            assert(kv_view(pairs@)[m] == (pairs@[m].0@, pairs@[m].1@));
        }
        assert(kv_view(out@) =~= kv_view(pairs@));
    }
    out
}

/// What one fanned-out result means for one node: the call's value narrowed
/// to the pending call's path (absent paths yield null), errors passed on.
pub open spec fn node_result(result: Result<Value, String>, post: Vec<String>) -> Result<
    ValueView,
    Seq<char>,
> {
    match result {
        Ok(v) => Ok(
            match v@.get_path(path_view(post@)) {
                Some(x) => x,
                None => ValueView::Null,
            },
        ),
        Err(m) => Err(m@),
    }
}

/// The store after one batch's result is fanned out to the members from
/// index `m` on.
pub open spec fn apply_members_from(
    store: Seq<StoreEntryView>,
    pending: Seq<PendingCall>,
    members: Seq<usize>,
    result: Result<Value, String>,
    m: int,
) -> Seq<StoreEntryView>
    decreases members.len() - m,
{
    if m < 0 || m >= members.len() {
        store
    } else {
        let s1 = if (members[m] as int) < pending.len() {
            set_once_spec(
                store,
                pending[members[m] as int].node as int,
                node_result(result, pending[members[m] as int].post_path),
            )
        } else {
            store
        };
        apply_members_from(s1, pending, members, result, m + 1)
    }
}

/// The store after the batches from index `b` on are applied.
pub open spec fn apply_batches_from(
    store: Seq<StoreEntryView>,
    pending: Seq<PendingCall>,
    batches: Seq<Batch>,
    results: Seq<Result<Value, String>>,
    b: int,
) -> Seq<StoreEntryView>
    decreases batches.len() - b,
{
    if b < 0 || b >= batches.len() || b >= results.len() {
        store
    } else {
        let s1 = apply_members_from(store, pending, batches[b].members@, results[b], 0);
        apply_batches_from(s1, pending, batches, results, b + 1)
    }
}

/// Fans each batch's result out to every node the batch serves, applying
/// each pending call's path transform; every write is write-once.
#[verifier::loop_isolation(false)]
pub fn apply_results(
    store: &mut Store,
    pending: &Vec<PendingCall>,
    batches: &Vec<Batch>,
    results: &Vec<Result<Value, String>>,
)
    requires
        results@.len() == batches@.len(),
    ensures
        final(store)@ == apply_batches_from(old(store)@, pending@, batches@, results@, 0),
{
    let ghost store0 = store@;
    let nb = batches.len();
    let mut b: usize = 0;
    while b < nb
        invariant
            b <= nb,
            apply_batches_from(store@, pending@, batches@, results@, b as int)
                == apply_batches_from(store0, pending@, batches@, results@, 0),
        decreases nb - b,
    {
        let ghost store_b = store@;
        let members_len = batches[b].members.len();
        let mut m: usize = 0;
        while m < members_len
            invariant
                b < nb,
                m <= members_len,
                members_len == batches@[b as int].members@.len(),
                apply_members_from(store@, pending@, batches@[b as int].members@, results@[b as int], m as int)
                    == apply_members_from(store_b, pending@, batches@[b as int].members@, results@[b as int], 0),
            decreases members_len - m,
        {
            let idx = batches[b].members[m];
            if idx < pending.len() {
                let node = pending[idx].node;
                let val: Result<Value, String> = match &results[b] {
                    Ok(v) => {
                        let base = v.clone();
                        match base.get_path(&pending[idx].post_path) {
                            Some(x) => Ok(x.clone()),
                            None => Ok(Value::Null),
                        }
                    },
                    Err(msg) => Err(msg.clone()),
                };
                proof {
                    assert(match val {
                        Ok(ref x) => node_result(results@[b as int], pending@[idx as int].post_path)
                            == Ok::<ValueView, Seq<char>>(x@),
                        Err(ref mm) => node_result(
                            results@[b as int],
                            pending@[idx as int].post_path,
                        ) == Err::<ValueView, Seq<char>>(mm@),
                    });
                }
                store.set_once(node, val);
            }
            m = m + 1;
        }
        b = b + 1;
    }
}

/// A whole GraphQL request: the parsed document, the operation to run, and
/// the variable bindings.
#[derive(Debug, PartialEq)]
pub struct Request {
    pub document: crate::jit::Document,
    pub operation_name: Option<String>,
    pub variables: crate::jit::Variables,
}

impl Request {
    /// Compiles this request's executable plan against a blueprint.
    pub fn create_plan(&self, blueprint: &Blueprint) -> (r: Result<
        OperationPlan,
        crate::jit::BuildError,
    >)
        ensures
            match r {
                Ok(p) => crate::jit::build_plan_spec(
                    *blueprint,
                    self.document,
                    self.variables,
                    self.operation_name,
                ) == Ok::<_, crate::jit::BuildError>(p@),
                Err(e) => crate::jit::build_plan_spec(
                    *blueprint,
                    self.document,
                    self.variables,
                    self.operation_name,
                ) == Err::<crate::jit::PlanView, _>(e),
            },
    {
        let builder = crate::jit::Builder::new(blueprint, &self.document);
        let name_ref = match &self.operation_name {
            Some(n) => Some(n),
            None => None,
        };
        builder.build(&self.variables, name_ref)
    }
}

/// An executor bound to one compiled plan.
#[derive(Debug, PartialEq)]
pub struct ConstValueExecutor {
    pub plan: OperationPlan,
}

impl ConstValueExecutor {
    /// Plans the request against the blueprint; the executor owns the plan.
    pub fn new(request: &Request, blueprint: &Blueprint) -> (r: Result<
        ConstValueExecutor,
        crate::jit::BuildError,
    >)
        ensures
            match r {
                Ok(e) => crate::jit::build_plan_spec(
                    *blueprint,
                    request.document,
                    request.variables,
                    request.operation_name,
                ) == Ok::<_, crate::jit::BuildError>(e.plan@),
                Err(e) => crate::jit::build_plan_spec(
                    *blueprint,
                    request.document,
                    request.variables,
                    request.operation_name,
                ) == Err::<crate::jit::PlanView, _>(e),
            },
    {
        match request.create_plan(blueprint) {
            Ok(plan) => Ok(ConstValueExecutor { plan }),
            Err(e) => Err(e),
        }
    }
}

impl ConstValueExecutor {
    /// The response of this executor's plan over a filled store.
    pub fn respond(self, store: Store) -> (r: crate::synth::Response)
        requires
            crate::rules::plan_complexity(self.plan@) <= usize::MAX,
        ensures
            ({
                let (data, errs) = crate::synth::synth_plan(self.plan@, store@);
                &&& (match r.data {
                    Some(v) => data == Some(v@),
                    None => data is None,
                })
                &&& crate::synth::errs_view(r.errors@) == errs
            }),
    {
        crate::synth::Synth::new(self.plan, store).synthesize()
    }
}

/// One plan evaluation bound to its request context.
#[derive(Debug)]
pub struct ConstValueExec<'a> {
    pub req_context: &'a RequestContext,
}

impl<'a> ConstValueExec<'a> {
    /// An evaluator over the given request context.
    pub fn new(ctx: &'a RequestContext) -> (r: ConstValueExec<'a>)
        ensures
            r.req_context == ctx,
    {
        ConstValueExec { req_context: ctx }
    }

    /// One evaluation step: what the plan still owes under this context.
    pub fn execute(&self, blueprint: &Blueprint, plan: &OperationPlan, store: &mut Store) -> (r:
        Vec<PendingCall>)
        requires
            crate::rules::plan_complexity(plan@) <= usize::MAX,
        ensures
            ({
                let (calls, store2, _) = prepare_fields_spec(
                    *blueprint,
                    plan.selection@,
                    0,
                    old(store)@,
                    *self.req_context,
                );
                &&& pending_view(r@) == calls
                &&& final(store)@ == store2
            }),
    {
        prepare_calls(blueprint, plan, self.req_context, store)
    }
}

/// The just-in-time executor: a blueprint and a request context, planning
/// and preparing one request at a time.
#[derive(Debug, Clone)]
pub struct JITExecutor<'a> {
    pub app_ctx: &'a Blueprint,
    pub req_ctx: &'a RequestContext,
}

impl<'a> JITExecutor<'a> {
    /// An executor over the given blueprint and request context.
    pub fn new(app_ctx: &'a Blueprint, req_ctx: &'a RequestContext) -> (r: JITExecutor<'a>)
        ensures
            r.app_ctx == app_ctx,
            r.req_ctx == req_ctx,
    {
        JITExecutor { app_ctx, req_ctx }
    }

    /// Plans the request; the surrounding application then drives the
    /// prepare, perform, apply loop and synthesizes the response.
    pub fn plan(&self, request: &Request) -> (r: Result<OperationPlan, crate::jit::BuildError>)
        ensures
            match r {
                Ok(p) => crate::jit::build_plan_spec(
                    *self.app_ctx,
                    request.document,
                    request.variables,
                    request.operation_name,
                ) == Ok::<_, crate::jit::BuildError>(p@),
                Err(e) => crate::jit::build_plan_spec(
                    *self.app_ctx,
                    request.document,
                    request.variables,
                    request.operation_name,
                ) == Err::<crate::jit::PlanView, _>(e),
            },
    {
        request.create_plan(self.app_ctx)
    }
}

} // verus!
