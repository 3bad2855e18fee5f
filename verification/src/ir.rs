//! The intermediate representation of field resolution.
//!
//! An IR tree describes how one field's value is produced: a literal, an
//! outbound call built from a compiled request template, or a transform
//! wrapped around a child IR. IR trees are immutable once built and contain
//! no execution state.

use vstd::prelude::*;

use crate::config::Method;
use crate::context::EvalContext;
use crate::template::{render_view, Mustache, PathLookup, SegView};
use crate::value::{canon_str, path_view, truthy, Value, ValueView};

verus! {

/// A compiled outbound HTTP request: URL template plus query parameters,
/// each value itself a template.
#[derive(Debug, Clone, PartialEq)]
pub struct RequestTemplate {
    pub method: Method,
    pub url: Mustache,
    pub query: Vec<(String, Mustache)>,
}

/// The mathematical model of a request template.
pub struct ReqTplView {
    pub method: Method,
    pub url: Seq<SegView>,
    pub query: Seq<(Seq<char>, Seq<SegView>)>,
}

impl View for RequestTemplate {
    type V = ReqTplView;

    open spec fn view(&self) -> ReqTplView {
        ReqTplView {
            method: self.method,
            url: self.url@,
            query: self.query@.map_values(|kv: (String, Mustache)| (kv.0@, kv.1@)),
        }
    }
}

/// The outbound call kinds the executor can be asked to perform.
#[derive(Debug, Clone, PartialEq)]
pub enum IoSpec {
    /// An HTTP call described by a compiled request template.
    Http(RequestTemplate),
    /// An in-process extension call: capability library plus opaque payload.
    Extension { lib: String, payload: Value },
}

/// The intermediate representation of one field's resolution.
#[derive(Debug, PartialEq)]
pub enum IR {
    /// A literal value.
    Const(Value),
    /// An outbound call.
    IO(IoSpec),
    /// A cached wrapper around a child; per-request evaluation is unchanged.
    Cache { max_age: u64, child: Box<IR> },
    /// A transform: the child's value narrowed to a path.
    Select { path: Vec<String>, child: Box<IR> },
    /// A conditional: the argument path picks which child resolves.
    Cond { path: Vec<String>, then_child: Box<IR>, else_child: Box<IR> },
}

/// The mathematical model of an IR tree.
pub enum IrView {
    Const(ValueView),
    Http(ReqTplView),
    Ext(Seq<char>, ValueView),
    Cache(int, Seq<IrView>),
    Select(Seq<Seq<char>>, Seq<IrView>),
    Cond(Seq<Seq<char>>, Seq<IrView>, Seq<IrView>),
}

/// The view of an IR tree; composite nodes carry their child as a singleton
/// sequence.
pub open spec fn ir_view(ir: IR) -> IrView
    decreases ir,
{
    match ir {
        IR::Const(v) => IrView::Const(v@),
        IR::IO(IoSpec::Http(t)) => IrView::Http(t@),
        IR::IO(IoSpec::Extension { lib, payload }) => IrView::Ext(lib@, payload@),
        IR::Cache { max_age, child } => IrView::Cache(max_age as int, seq![ir_view(*child)]),
        IR::Select { path, child } => IrView::Select(
            crate::value::path_view(path@),
            seq![ir_view(*child)],
        ),
        IR::Cond { path, then_child, else_child } => IrView::Cond(
            crate::value::path_view(path@),
            seq![ir_view(*then_child)],
            seq![ir_view(*else_child)],
        ),
    }
}

impl View for IR {
    type V = IrView;

    open spec fn view(&self) -> IrView {
        ir_view(*self)
    }
}

/// What one query parameter renders to: `key=value`.
pub open spec fn query_param_rendered<C: PathLookup>(
    ctx: &C,
    kv: (Seq<char>, Seq<SegView>),
) -> Seq<char> {
    kv.0 + seq!['='] + render_view(ctx, kv.1)
}

/// What a query parameter list renders to: the pairs joined with `&`.
pub open spec fn query_rendered<C: PathLookup>(
    ctx: &C,
    q: Seq<(Seq<char>, Seq<SegView>)>,
) -> Seq<char>
    decreases q.len(),
{
    if q.len() == 0 {
        Seq::empty()
    } else if q.len() == 1 {
        query_param_rendered(ctx, q[0])
    } else {
        query_param_rendered(ctx, q[0]) + seq!['&'] + query_rendered(ctx, q.skip(1))
    }
}

/// What the whole request template renders to: the URL, then `?` and the
/// query parameters when there are any.
pub open spec fn request_url_rendered<C: PathLookup>(ctx: &C, t: ReqTplView) -> Seq<char> {
    if t.query.len() == 0 {
        render_view(ctx, t.url)
    } else {
        render_view(ctx, t.url) + seq!['?'] + query_rendered(ctx, t.query)
    }
}

impl RequestTemplate {
    /// Renders the URL and query against a context. Rendering is total.
    pub fn render_url<C: PathLookup>(&self, ctx: &C) -> (r: String)
        ensures
            r@ == request_url_rendered(ctx, self@),
    {
        let base = self.url.render(ctx);
        if self.query.len() == 0 {
            base
        } else {
            let mut out = base;
            crate::value::push_char(&mut out, '?');
            let q = self.render_query_from(ctx, 0);
            let out2 = out.concat(q.as_str());
            proof {
                assert(self@.query.skip(0) =~= self@.query);
                assert(out2@ =~= render_view(ctx, self@.url) + seq!['?'] + query_rendered(
                    ctx,
                    self@.query,
                ));
            }
            out2
        }
    }

    fn render_query_from<C: PathLookup>(&self, ctx: &C, i: usize) -> (r: String)
        requires
            i <= self.query.len(),
        ensures
            r@ == query_rendered(ctx, self@.query.skip(i as int)),
        decreases self.query.len() - i,
    {
        let ghost qv = self@.query;
        proof {
            assert(qv.len() == self.query@.len());
        }
        if i == self.query.len() {
            proof {
                assert(qv.skip(i as int).len() == 0);
            }
            String::new()
        } else {
            proof {
                assert(qv.skip(i as int)[0] == qv[i as int]);
                assert(qv[i as int] == (self.query@[i as int].0@, self.query@[i as int].1@));
                assert(qv.skip(i as int).skip(1) =~= qv.skip(i as int + 1));
            }
            let mut out = self.query[i].0.clone();
            crate::value::push_char(&mut out, '=');
            let val = self.query[i].1.render(ctx);
            let head = out.concat(val.as_str());
            proof {
                assert(head@ =~= query_param_rendered(ctx, qv.skip(i as int)[0]));
            }
            if i + 1 == self.query.len() {
                proof {
                    assert(qv.skip(i as int).len() == 1);
                }
                head
            } else {
                let mut with_amp = head;
                crate::value::push_char(&mut with_amp, '&');
                let rest = self.render_query_from(ctx, i + 1);
                let out2 = with_amp.concat(rest.as_str());
                proof {
                    assert(out2@ =~= query_param_rendered(ctx, qv.skip(i as int)[0]) + seq!['&']
                        + query_rendered(ctx, qv.skip(i as int + 1)));
                }
                out2
            }
        }
    }
}

/// The kind of a rendered outbound call.
#[derive(Debug, Clone, Copy, PartialEq, Eq, Structural, Hash)]
pub enum CallKind {
    Http,
    Extension,
}

/// A fully rendered outbound call: the batching identity of a resolver call.
/// Two calls are the same upstream call exactly when all fields agree. For
/// an extension call, `url` holds the library path and `payload` the
/// canonical form of the payload value.
#[derive(Debug, Clone, PartialEq)]
pub struct RenderedRequest {
    pub kind: CallKind,
    pub method: Method,
    pub url: String,
    pub payload: String,
}

/// The mathematical model of a rendered call.
pub struct RenderedRequestView {
    pub kind: CallKind,
    pub method: Method,
    pub url: Seq<char>,
    pub payload: Seq<char>,
}

impl View for RenderedRequest {
    type V = RenderedRequestView;

    open spec fn view(&self) -> RenderedRequestView {
        RenderedRequestView {
            kind: self.kind,
            method: self.method,
            url: self.url@,
            payload: self.payload@,
        }
    }
}

impl RenderedRequest {
    /// Whether two rendered calls are the same upstream call.
    pub fn same_call(&self, other: &RenderedRequest) -> (r: bool)
        ensures
            r == (self@ == other@),
    {
        let kind_eq = match (self.kind, other.kind) {
            (CallKind::Http, CallKind::Http) => true,
            (CallKind::Extension, CallKind::Extension) => true,
            _ => false,
        };
        let method_eq = match (self.method, other.method) {
            (Method::Get, Method::Get) => true,
            (Method::Head, Method::Head) => true,
            (Method::Options, Method::Options) => true,
            (Method::Trace, Method::Trace) => true,
            (Method::Put, Method::Put) => true,
            (Method::Post, Method::Post) => true,
            (Method::Delete, Method::Delete) => true,
            (Method::Patch, Method::Patch) => true,
            _ => false,
        };
        kind_eq && method_eq && self.url == other.url && self.payload == other.payload
    }
}

/// The outcome of evaluating an IR node against a context: either a value,
/// or an outbound call to perform, with the path transform to apply to
/// whatever the call returns.
pub enum EvalOutcomeView {
    Done(ValueView),
    Call(RenderedRequestView, Seq<Seq<char>>),
}

/// The executor-facing outcome of IR evaluation.
#[derive(Debug, Clone, PartialEq)]
pub enum EvalOutcome {
    /// The value is available without outside work.
    Done(Value),
    /// An outbound call must be performed; `post_path` narrows its result.
    Call { req: RenderedRequest, post_path: Vec<String> },
}

impl View for EvalOutcome {
    type V = EvalOutcomeView;

    open spec fn view(&self) -> EvalOutcomeView {
        match *self {
            EvalOutcome::Done(v) => EvalOutcomeView::Done(v@),
            EvalOutcome::Call { req, post_path } => EvalOutcomeView::Call(
                req@,
                crate::value::path_view(post_path@),
            ),
        }
    }
}

/// What evaluating an IR view against a context yields: a value, or the
/// rendered call to perform together with the path narrowing its result.
/// Evaluation is deterministic in the IR and the context.
pub open spec fn eval_ir_view(ir: IrView, ctx: EvalContext) -> EvalOutcomeView
    decreases ir,
    via eval_ir_view_decreases
{
    match ir {
        IrView::Const(v) => EvalOutcomeView::Done(v),
        IrView::Http(t) => EvalOutcomeView::Call(
            RenderedRequestView {
                kind: CallKind::Http,
                method: t.method,
                url: request_url_rendered(&ctx, t),
                payload: Seq::empty(),
            },
            Seq::empty(),
        ),
        IrView::Ext(lib, payload) => EvalOutcomeView::Call(
            RenderedRequestView {
                kind: CallKind::Extension,
                method: Method::Get,
                url: lib,
                payload: canon_str(payload),
            },
            Seq::empty(),
        ),
        IrView::Cache(_, children) => if children.len() == 1 {
            eval_ir_view(children[0], ctx)
        } else {
            EvalOutcomeView::Done(ValueView::Null)
        },
        IrView::Select(path, children) => if children.len() == 1 {
            match eval_ir_view(children[0], ctx) {
                EvalOutcomeView::Done(v) => EvalOutcomeView::Done(
                    match v.get_path(path) {
                        Some(x) => x,
                        None => ValueView::Null,
                    },
                ),
                EvalOutcomeView::Call(req, post) => EvalOutcomeView::Call(req, post + path),
            }
        } else {
            EvalOutcomeView::Done(ValueView::Null)
        },
        IrView::Cond(path, then_children, else_children) => if truthy(
            ctx.args@.get_path(path),
        ) {
            if then_children.len() == 1 {
                eval_ir_view(then_children[0], ctx)
            } else {
                EvalOutcomeView::Done(ValueView::Null)
            }
        } else {
            if else_children.len() == 1 {
                eval_ir_view(else_children[0], ctx)
            } else {
                EvalOutcomeView::Done(ValueView::Null)
            }
        },
    }
}

#[via_fn]
proof fn eval_ir_view_decreases(ir: IrView, ctx: EvalContext) {
    match ir {
        IrView::Cache(_, children) => {
            if children.len() == 1 {
                assert(decreases_to!(ir => children));
                assert(decreases_to!(children => children[0]));
            }
        },
        IrView::Select(_, children) => {
            if children.len() == 1 {
                assert(decreases_to!(ir => children));
                assert(decreases_to!(children => children[0]));
            }
        },
        IrView::Cond(_, then_children, else_children) => {
            if then_children.len() == 1 {
                assert(decreases_to!(ir => then_children));
                assert(decreases_to!(then_children => then_children[0]));
            }
            if else_children.len() == 1 {
                assert(decreases_to!(ir => else_children));
                assert(decreases_to!(else_children => else_children[0]));
            }
        },
        _ => {},
    }
}

impl IR {
    /// Evaluates this IR against a context: a literal or transform resolves
    /// at once, an outbound call is handed back rendered, ready to batch.
    pub fn eval(&self, ctx: &EvalContext) -> (r: EvalOutcome)
        ensures
            r@ == eval_ir_view(self@, *ctx),
        decreases *self,
    {
        match self {
            IR::Const(v) => EvalOutcome::Done(v.clone()),
            IR::IO(IoSpec::Http(t)) => {
                let empty_path: Vec<String> = Vec::new();
                proof {
                    assert(path_view(empty_path@) =~= Seq::<Seq<char>>::empty());
                }
                EvalOutcome::Call {
                    req: RenderedRequest {
                        kind: CallKind::Http,
                        method: t.method,
                        url: t.render_url(ctx),
                        payload: String::new(),
                    },
                    post_path: empty_path,
                }
            },
            IR::IO(IoSpec::Extension { lib, payload }) => {
                let empty_path: Vec<String> = Vec::new();
                proof {
                    assert(path_view(empty_path@) =~= Seq::<Seq<char>>::empty());
                }
                EvalOutcome::Call {
                    req: RenderedRequest {
                        kind: CallKind::Extension,
                        method: Method::Get,
                        url: lib.clone(),
                        payload: payload.canon(),
                    },
                    post_path: empty_path,
                }
            },
            IR::Cache { max_age: _, child } => {
                proof {
                    assert(decreases_to!(*self => *child));
                }
                child.eval(ctx)
            },
            IR::Select { path, child } => {
                proof {
                    assert(decreases_to!(*self => *child));
                }
                match child.eval(ctx) {
                    EvalOutcome::Done(v) => EvalOutcome::Done(
                        match v.get_path(path) {
                            Some(x) => x.clone(),
                            None => Value::Null,
                        },
                    ),
                    EvalOutcome::Call { req, post_path } => {
                        let mut post = post_path;
                        let ghost post0 = post@;
                        let mut extra = clone_strings(path);
                        post.append(&mut extra);
                        proof {
                            assert forall|m: int| 0 <= m < post@.len() implies path_view(post@)[m]
                                == (path_view(post0) + path_view(path@))[m] by {
                                if m < post0.len() {
                                    assert(post@[m] == post0[m]);
                                } else {
                                    assert(post@[m]@ == path@[m - post0.len()]@);
                                }
                            }
                            assert(path_view(post@) =~= path_view(post0) + path_view(path@));
                        }
                        EvalOutcome::Call { req, post_path: post }
                    },
                }
            },
            IR::Cond { path, then_child, else_child } => {
                proof {
                    assert(decreases_to!(*self => *then_child));
                    assert(decreases_to!(*self => *else_child));
                }
                let cond = match self_args_path(ctx, path) {
                    Some(v) => v.is_truthy(),
                    None => false,
                };
                if cond {
                    then_child.eval(ctx)
                } else {
                    else_child.eval(ctx)
                }
            },
        }
    }
}

/// The context's bound arguments narrowed to `path`.
fn self_args_path<'a>(ctx: &'a EvalContext, path: &Vec<String>) -> (r: Option<&'a Value>)
    ensures
        match r {
            Some(v) => ctx.args@.get_path(path_view(path@)) == Some(v@),
            None => ctx.args@.get_path(path_view(path@)) is None,
        },
{
    ctx.args.get_path(path)
}

/// String copies of the given path segments.
fn clone_strings(path: &Vec<String>) -> (r: Vec<String>)
    ensures
        r@.len() == path@.len(),
        forall|i: int| 0 <= i < path@.len() ==> (#[trigger] r@[i])@ == path@[i]@,
{
    let mut out: Vec<String> = Vec::new();
    let n = path.len();
    let mut i: usize = 0;
    while i < n
        invariant
            i <= n,
            n == path@.len(),
            out@.len() == i,
            forall|m: int| 0 <= m < i ==> (#[trigger] out@[m])@ == path@[m]@,
        decreases n - i,
    {
        out.push(path[i].clone());
        i = i + 1;
    }
    out
}

} // verus!
