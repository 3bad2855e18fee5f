//! The request-template sublanguage.
//!
//! A template is a string such as `http://host/{{args.id}}?q={{vars.q}}`,
//! compiled once into a sequence of literal and expression segments and then
//! rendered against an execution context. An expression is a dotted path whose
//! first segment names one of the recognized sources (`args`, `vars`,
//! `headers`, `env`). Rendering is total: a path that resolves to nothing
//! contributes the empty string, and the literal text around it still appears.

use vstd::prelude::*;

use crate::value::{path_view, push_char};

verus! {

/// One compiled template segment.
#[derive(Debug, Clone, PartialEq)]
pub enum Segment {
    /// Verbatim text.
    Literal(String),
    /// A dotted path, first element a recognized source keyword.
    Expression(Vec<String>),
}

/// The mathematical model of a segment.
pub enum SegView {
    Lit(Seq<char>),
    Expr(Seq<Seq<char>>),
}

impl View for Segment {
    type V = SegView;

    open spec fn view(&self) -> SegView {
        match *self {
            Segment::Literal(s) => SegView::Lit(s@),
            Segment::Expression(p) => SegView::Expr(path_view(p@)),
        }
    }
}

/// A compiled template: an ordered sequence of segments.
#[derive(Debug, Clone, PartialEq)]
pub struct Mustache {
    pub segments: Vec<Segment>,
}

impl View for Mustache {
    type V = Seq<SegView>;

    open spec fn view(&self) -> Seq<SegView> {
        self.segments@.map_values(|seg: Segment| seg@)
    }
}

/// Template compilation failure: an expression path without segments or with
/// an unrecognized source keyword.
#[derive(Debug, Clone, PartialEq, Eq)]
pub enum TemplateError {
    InvalidPath,
}

/// Whether `s` holds the opening marker `{{` at position `i`.
pub open spec fn is_open_at(s: Seq<char>, i: int) -> bool {
    &&& 0 <= i
    &&& i + 1 < s.len()
    &&& s[i] == '{'
    &&& s[i + 1] == '{'
}

/// Whether `s` holds the closing marker `}}` at position `i`.
pub open spec fn is_close_at(s: Seq<char>, i: int) -> bool {
    &&& 0 <= i
    &&& i + 1 < s.len()
    &&& s[i] == '}'
    &&& s[i + 1] == '}'
}

/// Position of the first `{{` at or after `i`; `s.len()` when there is none.
pub open spec fn find_open(s: Seq<char>, i: int) -> int
    decreases s.len() - i,
{
    if i + 1 >= s.len() {
        s.len() as int
    } else if is_open_at(s, i) {
        i
    } else {
        find_open(s, i + 1)
    }
}

/// Position of the first `}}` at or after `i`; `s.len()` when there is none.
pub open spec fn find_close(s: Seq<char>, i: int) -> int
    decreases s.len() - i,
{
    if i + 1 >= s.len() {
        s.len() as int
    } else if is_close_at(s, i) {
        i
    } else {
        find_close(s, i + 1)
    }
}

/// `find_open` stays between its start and the end of the string.
pub proof fn lemma_find_open_range(s: Seq<char>, i: int)
    requires
        i <= s.len(),
    ensures
        i <= find_open(s, i) <= s.len(),
    decreases s.len() - i,
{
    if i + 1 < s.len() && !is_open_at(s, i) {
        lemma_find_open_range(s, i + 1);
    }
}

/// `find_close` stays between its start and the end of the string.
pub proof fn lemma_find_close_range(s: Seq<char>, i: int)
    requires
        i <= s.len(),
    ensures
        i <= find_close(s, i) <= s.len(),
    decreases s.len() - i,
{
    if i + 1 < s.len() && !is_close_at(s, i) {
        lemma_find_close_range(s, i + 1);
    }
}

/// A found `find_close` really sits on a closing marker.
pub proof fn lemma_find_close_found(s: Seq<char>, i: int)
    requires
        i <= s.len(),
    ensures
        find_close(s, i) == s.len() || is_close_at(s, find_close(s, i)),
    decreases s.len() - i,
{
    if i + 1 < s.len() && !is_close_at(s, i) {
        lemma_find_close_found(s, i + 1);
    }
}

/// Position of the first `.` at or after `i`; `s.len()` when there is none.
pub open spec fn find_dot(s: Seq<char>, i: int) -> int
    decreases s.len() - i,
{
    if i >= s.len() {
        s.len() as int
    } else if s[i] == '.' {
        i
    } else {
        find_dot(s, i + 1)
    }
}

/// `find_dot` stays between its start and the end of the string.
pub proof fn lemma_find_dot_range(s: Seq<char>, i: int)
    requires
        i <= s.len(),
    ensures
        i <= find_dot(s, i) <= s.len(),
    decreases s.len() - i,
{
    if i < s.len() && s[i] != '.' {
        lemma_find_dot_range(s, i + 1);
    }
}

/// Splits on `.`: the parts between dots, in order, empties kept.
pub open spec fn split_dots(s: Seq<char>) -> Seq<Seq<char>>
    decreases s.len(),
    via split_dots_decreases
{
    let j = find_dot(s, 0);
    if j == s.len() {
        seq![s]
    } else {
        seq![s.subrange(0, j)] + split_dots(s.subrange(j + 1, s.len() as int))
    }
}

#[via_fn]
proof fn split_dots_decreases(s: Seq<char>) {
    lemma_find_dot_range(s, 0);
}

/// The recognized path sources.
pub open spec fn is_valid_source(p: Seq<char>) -> bool {
    ||| p == "args"@
    ||| p == "vars"@
    ||| p == "headers"@
    ||| p == "env"@
}

/// The expression text with one leading dot stripped.
pub open spec fn expr_body(expr: Seq<char>) -> Seq<char> {
    if expr.len() > 0 && expr[0] == '.' {
        expr.skip(1)
    } else {
        expr
    }
}

/// Parses the text between `{{` and `}}` into a path: one leading dot is
/// tolerated, every part must be non-empty, and the first part must name a
/// recognized source.
pub open spec fn parse_path(expr: Seq<char>) -> Option<Seq<Seq<char>>> {
    let parts = split_dots(expr_body(expr));
    if parts.len() == 0 || (exists|k: int| 0 <= k < parts.len() && parts[k].len() == 0)
        || !is_valid_source(parts[0]) {
        None
    } else {
        Some(parts)
    }
}

/// Parses the template text from position `i` on. `None` is a rejected
/// expression path; an unclosed `{{` is kept as literal text.
pub open spec fn parse_from(s: Seq<char>, i: int) -> Option<Seq<SegView>>
    decreases s.len() - i,
    via parse_from_decreases
{
    if i >= s.len() {
        Some(Seq::empty())
    } else if is_open_at(s, i) {
        let j = find_close(s, i + 2);
        if j == s.len() {
            Some(seq![SegView::Lit(s.subrange(i, s.len() as int))])
        } else {
            match parse_path(s.subrange(i + 2, j)) {
                None => None,
                Some(path) => match parse_from(s, j + 2) {
                    None => None,
                    Some(rest) => Some(seq![SegView::Expr(path)] + rest),
                },
            }
        }
    } else {
        let j = find_open(s, i);
        let j = if j <= i {
            i + 1
        } else {
            j
        };
        match parse_from(s, j) {
            None => None,
            Some(rest) => Some(seq![SegView::Lit(s.subrange(i, j))] + rest),
        }
    }
}

#[via_fn]
proof fn parse_from_decreases(s: Seq<char>, i: int) {
    if i < s.len() {
        if is_open_at(s, i) {
            lemma_find_close_range(s, i + 2);
            lemma_find_close_found(s, i + 2);
        } else {
            lemma_find_open_range(s, i);
        }
    }
}

/// The whole template text, parsed.
pub open spec fn parse_spec(s: Seq<char>) -> Option<Seq<SegView>> {
    parse_from(s, 0)
}

/// The characters of a string slice, in order.
pub(crate) fn str_chars(s: &str) -> (r: Vec<char>)
    ensures
        r@ == s@,
{
    let n = s.unicode_len();
    let mut out: Vec<char> = Vec::new();
    let mut i: usize = 0;
    while i < n
        invariant
            i <= n,
            n == s@.len(),
            out@ =~= s@.subrange(0, i as int),
        decreases n - i,
    {
        out.push(s.get_char(i));
        i = i + 1;
        proof {
            assert(out@ =~= s@.subrange(0, i as int));
        }
    }
    proof {
        assert(s@.subrange(0, n as int) =~= s@);
    }
    out
}

/// A string holding `chars[from..to]`.
fn build_string(chars: &Vec<char>, from: usize, to: usize) -> (r: String)
    requires
        from <= to <= chars.len(),
    ensures
        r@ == chars@.subrange(from as int, to as int),
{
    let mut out = String::new();
    let mut i: usize = from;
    while i < to
        invariant
            from <= i <= to <= chars.len(),
            out@ =~= chars@.subrange(from as int, i as int),
        decreases to - i,
    {
        push_char(&mut out, chars[i]);
        i = i + 1;
        proof {
            assert(out@ =~= chars@.subrange(from as int, i as int));
        }
    }
    out
}

fn exec_find_open(chars: &Vec<char>, i: usize) -> (r: usize)
    requires
        i <= chars.len(),
    ensures
        r as int == find_open(chars@, i as int),
        i <= r <= chars.len(),
    decreases chars.len() - i,
{
    proof {
        lemma_find_open_range(chars@, i as int);
    }
    if chars.len() - i <= 1 {
        chars.len()
    } else if chars[i] == '{' && chars[i + 1] == '{' {
        i
    } else {
        exec_find_open(chars, i + 1)
    }
}

fn exec_find_close(chars: &Vec<char>, i: usize) -> (r: usize)
    requires
        i <= chars.len(),
    ensures
        r as int == find_close(chars@, i as int),
        i <= r <= chars.len(),
    decreases chars.len() - i,
{
    proof {
        lemma_find_close_range(chars@, i as int);
    }
    if chars.len() - i <= 1 {
        chars.len()
    } else if chars[i] == '}' && chars[i + 1] == '}' {
        i
    } else {
        exec_find_close(chars, i + 1)
    }
}

fn exec_find_dot(chars: &Vec<char>, i: usize) -> (r: usize)
    requires
        i <= chars.len(),
    ensures
        r as int == find_dot(chars@, i as int),
        i <= r <= chars.len(),
    decreases chars.len() - i,
{
    proof {
        lemma_find_dot_range(chars@, i as int);
    }
    if i >= chars.len() {
        chars.len()
    } else if chars[i] == '.' {
        i
    } else {
        exec_find_dot(chars, i + 1)
    }
}

/// Splits `chars[from..]` on dots, mirroring `split_dots`.
fn exec_split_dots(chars: &Vec<char>, from: usize) -> (r: Vec<String>)
    requires
        from <= chars.len(),
    ensures
        path_view(r@) == split_dots(chars@.skip(from as int)),
    decreases chars.len() - from,
{
    let ghost tail = chars@.skip(from as int);
    let j = exec_find_dot(chars, from);
    proof {
        lemma_find_dot_skip(chars@, from as int);
    }
    if j == chars.len() {
        let part = build_string(chars, from, chars.len());
        let mut out: Vec<String> = Vec::new();
        out.push(part);
        proof {
            assert(chars@.subrange(from as int, chars@.len() as int) =~= tail);
            assert(path_view(out@) =~= seq![tail]);
        }
        out
    } else {
        let part = build_string(chars, from, j);
        let mut rest = exec_split_dots(chars, j + 1);
        let ghost rest0 = rest@;
        let ghost partv = part@;
        let mut out: Vec<String> = Vec::new();
        out.push(part);
        out.append(&mut rest);
        proof {
            let d = find_dot(tail, 0);
            let tail2 = tail.subrange(d + 1, tail.len() as int);
            assert(chars@.subrange(j as int + 1, chars@.len() as int) =~= tail2);
            assert(partv =~= tail.subrange(0, d));
            assert(out@.len() == 1 + rest0.len());
            assert(out@[0]@ == partv);
            assert forall|m: int| 0 <= m < out@.len() implies path_view(out@)[m] == (seq![
                tail.subrange(0, d),
            ] + split_dots(tail2))[m] by {
                if m > 0 {
                    assert(out@[m] == rest0[m - 1]);
                    assert(path_view(rest0)[m - 1] == rest0[m - 1]@);
                }
            }
            assert(path_view(out@) =~= seq![tail.subrange(0, d)] + split_dots(tail2));
        }
        out
    }
}

/// `find_dot` looked at from a suffix.
proof fn lemma_find_dot_skip(s: Seq<char>, from: int)
    requires
        0 <= from <= s.len(),
    ensures
        find_dot(s, from) == from + find_dot(s.skip(from), 0),
{
    lemma_find_dot_shift(s, from, from);
}

proof fn lemma_find_dot_shift(s: Seq<char>, from: int, i: int)
    requires
        0 <= from <= i <= s.len(),
    ensures
        find_dot(s, i) == from + find_dot(s.skip(from), i - from),
    decreases s.len() - i,
{
    let t = s.skip(from);
    if i >= s.len() {
        assert(find_dot(t, i - from) == t.len());
    } else if s[i] == '.' {
        assert(t[i - from] == s[i]);
    } else {
        assert(t[i - from] == s[i]);
        lemma_find_dot_shift(s, from, i + 1);
    }
}

/// The views of a sequence of segments.
pub open spec fn segs_view(s: Seq<Segment>) -> Seq<SegView> {
    s.map_values(|seg: Segment| seg@)
}

/// A copy of `chars[from..to]`.
fn sub_chars(chars: &Vec<char>, from: usize, to: usize) -> (r: Vec<char>)
    requires
        from <= to <= chars.len(),
    ensures
        r@ == chars@.subrange(from as int, to as int),
{
    let mut out: Vec<char> = Vec::new();
    let mut i: usize = from;
    while i < to
        invariant
            from <= i <= to <= chars.len(),
            out@ =~= chars@.subrange(from as int, i as int),
        decreases to - i,
    {
        out.push(chars[i]);
        i = i + 1;
        proof {
            assert(out@ =~= chars@.subrange(from as int, i as int));
        }
    }
    out
}

/// Parses the expression text `chars[from..to]` into a path.
#[verifier::loop_isolation(false)]
fn exec_parse_path(chars: &Vec<char>, from: usize, to: usize) -> (r: Option<Vec<String>>)
    requires
        from <= to <= chars.len(),
    ensures
        match r {
            Some(p) => parse_path(chars@.subrange(from as int, to as int)) == Some(
                path_view(p@),
            ),
            None => parse_path(chars@.subrange(from as int, to as int)) is None,
        },
{
    let ghost expr = chars@.subrange(from as int, to as int);
    let ghost bodyv = expr_body(expr);
    let start = if from < to && chars[from] == '.' {
        from + 1
    } else {
        from
    };
    let body = sub_chars(chars, start, to);
    proof {
        if from < to && chars@[from as int] == '.' {
            assert(expr[0] == chars@[from as int]);
            assert(body@ =~= expr.skip(1));
        } else {
            assert(body@ =~= expr);
        }
        assert(body@ == bodyv);
        assert(body@.skip(0) =~= body@);
    }
    let parts = exec_split_dots(&body, 0);
    let ghost partsv = split_dots(body@);
    proof {
        assert(path_view(parts@) == partsv);
        assert(parts@.len() == partsv.len());
    }
    if parts.len() == 0 {
        return None;
    }
    let mut k: usize = 0;
    let n = parts.len();
    while k < n
        invariant
            k <= n,
            n == parts@.len(),
            path_view(parts@) == partsv,
            n == partsv.len(),
            forall|m: int| 0 <= m < k ==> #[trigger] partsv[m].len() > 0,
        decreases n - k,
    {
        if parts[k].as_str().unicode_len() == 0 {
            proof {
                assert(partsv[k as int] == parts@[k as int]@);
                assert(split_dots(expr_body(expr))[k as int].len() == 0);
                assert(exists|kk: int|
                    0 <= kk < split_dots(expr_body(expr)).len() && split_dots(expr_body(expr))[kk].len()
                        == 0);
                assert(parse_path(expr) is None);
            }
            return None;
        }
        proof {
            assert(partsv[k as int] == parts@[k as int]@);
        }
        k = k + 1;
    }
    proof {
        assert(partsv[0] == parts@[0]@);
    }
    let head = &parts[0];
    if *head == String::from_str("args") || *head == String::from_str("vars") || *head
        == String::from_str("headers") || *head == String::from_str("env") {
        Some(parts)
    } else {
        None
    }
}

/// Parses the template text from position `i` on, mirroring `parse_from`.
fn exec_parse_from(chars: &Vec<char>, i: usize) -> (r: Option<Vec<Segment>>)
    requires
        i <= chars.len(),
    ensures
        match r {
            Some(v) => parse_from(chars@, i as int) == Some(segs_view(v@)),
            None => parse_from(chars@, i as int) is None,
        },
    decreases chars.len() - i,
{
    proof {
        if i + 2 <= chars@.len() {
            lemma_find_close_range(chars@, i as int + 2);
            lemma_find_close_found(chars@, i as int + 2);
        }
        lemma_find_open_range(chars@, i as int);
    }
    if i >= chars.len() {
        let out: Vec<Segment> = Vec::new();
        proof {
            assert(segs_view(out@) =~= Seq::<SegView>::empty());
        }
        Some(out)
    } else if chars.len() - i > 1 && chars[i] == '{' && chars[i + 1] == '{' {
        let j = exec_find_close(chars, i + 2);
        if j == chars.len() {
            let lit = build_string(chars, i, chars.len());
            let mut out: Vec<Segment> = Vec::new();
            out.push(Segment::Literal(lit));
            proof {
                assert(segs_view(out@) =~= seq![
                    SegView::Lit(chars@.subrange(i as int, chars@.len() as int)),
                ]);
            }
            Some(out)
        } else {
            match exec_parse_path(chars, i + 2, j) {
                None => None,
                Some(path) => {
                    match exec_parse_from(chars, j + 2) {
                        None => None,
                        Some(mut rest) => {
                            let ghost rest0 = rest@;
                            let ghost pathv = path_view(path@);
                            let mut out: Vec<Segment> = Vec::new();
                            out.push(Segment::Expression(path));
                            out.append(&mut rest);
                            proof {
                                assert(out@.len() == 1 + rest0.len());
                                assert(out@[0]@ == SegView::Expr(pathv));
                                assert forall|m: int| 0 <= m < out@.len() implies segs_view(out@)[m]
                                    == (seq![SegView::Expr(pathv)] + segs_view(rest0))[m] by {
                                    if m > 0 {
                                        assert(out@[m] == rest0[m - 1]);
                                        assert(segs_view(rest0)[m - 1] == rest0[m - 1]@);
                                    }
                                }
                                assert(segs_view(out@) =~= seq![SegView::Expr(pathv)] + segs_view(
                                    rest0,
                                ));
                            }
                            Some(out)
                        },
                    }
                },
            }
        }
    } else {
        let j0 = exec_find_open(chars, i);
        let j = if j0 <= i {
            i + 1
        } else {
            j0
        };
        let lit = build_string(chars, i, j);
        match exec_parse_from(chars, j) {
            None => None,
            Some(mut rest) => {
                let ghost rest0 = rest@;
                let ghost litv = lit@;
                let mut out: Vec<Segment> = Vec::new();
                out.push(Segment::Literal(lit));
                out.append(&mut rest);
                proof {
                    assert(out@.len() == 1 + rest0.len());
                    assert(out@[0]@ == SegView::Lit(litv));
                    assert forall|m: int| 0 <= m < out@.len() implies segs_view(out@)[m] == (seq![
                        SegView::Lit(litv),
                    ] + segs_view(rest0))[m] by {
                        if m > 0 {
                            assert(out@[m] == rest0[m - 1]);
                            assert(segs_view(rest0)[m - 1] == rest0[m - 1]@);
                        }
                    }
                    assert(segs_view(out@) =~= seq![SegView::Lit(litv)] + segs_view(rest0));
                }
                Some(out)
            },
        }
    }
}

impl Mustache {
    /// Compiles a template string once; rejected paths are the only failure.
    pub fn parse(s: &str) -> (r: Result<Mustache, TemplateError>)
        ensures
            match r {
                Ok(m) => parse_spec(s@) == Some(m@),
                Err(e) => parse_spec(s@) is None && e == TemplateError::InvalidPath,
            },
    {
        let chars = str_chars(s);
        match exec_parse_from(&chars, 0) {
            Some(segments) => Ok(Mustache { segments }),
            None => Err(TemplateError::InvalidPath),
        }
    }

    /// Whether every segment is literal text.
    pub fn is_const(&self) -> (r: bool)
        ensures
            r == forall|i: int| 0 <= i < self@.len() ==> (#[trigger] self@[i]) is Lit,
    {
        let n = self.segments.len();
        let mut i: usize = 0;
        while i < n
            invariant
                i <= n,
                n == self.segments@.len(),
                self@.len() == n,
                forall|m: int| 0 <= m < i ==> (#[trigger] self@[m]) is Lit,
            decreases n - i,
        {
            proof {
                assert(self@[i as int] == self.segments@[i as int]@);
            }
            match &self.segments[i] {
                Segment::Literal(_) => {},
                Segment::Expression(_) => {
                    return false;
                },
            }
            i = i + 1;
        }
        true
    }
}

/// A rendering context: a total path lookup. A path that resolves to nothing
/// yields `None`, never an error.
pub trait PathLookup {
    /// What this context holds under a path.
    spec fn lookup_spec(&self, path: Seq<Seq<char>>) -> Option<Seq<char>>;

    /// Resolves a path; `None` for anything the context does not hold.
    fn lookup(&self, path: &Vec<String>) -> (r: Option<String>)
        ensures
            match r {
                Some(v) => self.lookup_spec(path_view(path@)) == Some(v@),
                None => self.lookup_spec(path_view(path@)) is None,
            },
    ;
}

/// What one segment renders to: literal text, or the looked-up value, or
/// nothing when the context does not hold the path.
pub open spec fn render_seg_view<C: PathLookup>(ctx: &C, seg: SegView) -> Seq<char> {
    match seg {
        SegView::Lit(t) => t,
        SegView::Expr(p) => match ctx.lookup_spec(p) {
            Some(v) => v,
            None => Seq::empty(),
        },
    }
}

/// What a segment sequence renders to: the segment renderings, concatenated.
pub open spec fn render_view<C: PathLookup>(ctx: &C, segs: Seq<SegView>) -> Seq<char>
    decreases segs.len(),
{
    if segs.len() == 0 {
        Seq::empty()
    } else {
        render_seg_view(ctx, segs[0]) + render_view(ctx, segs.skip(1))
    }
}

impl Mustache {
    /// Renders the template against a context. Rendering is total: it always
    /// produces a string, missing keys contributing nothing.
    pub fn render<C: PathLookup>(&self, ctx: &C) -> (r: String)
        ensures
            r@ == render_view(ctx, self@),
    {
        proof {
            assert(self@.skip(0) =~= self@);
        }
        self.render_from(ctx, 0)
    }

    fn render_from<C: PathLookup>(&self, ctx: &C, i: usize) -> (r: String)
        requires
            i <= self.segments.len(),
        ensures
            r@ == render_view(ctx, self@.skip(i as int)),
        decreases self.segments.len() - i,
    {
        let n = self.segments.len();
        proof {
            assert(self@.len() == n);
        }
        if i == n {
            assert(self@.skip(i as int).len() == 0);
            String::new()
        } else {
            proof {
                assert(self@.skip(i as int)[0] == self@[i as int]);
                assert(self@[i as int] == self.segments@[i as int]@);
                assert(self@.skip(i as int).skip(1) =~= self@.skip(i as int + 1));
            }
            let head: String = match &self.segments[i] {
                Segment::Literal(t) => t.clone(),
                Segment::Expression(p) => match ctx.lookup(p) {
                    Some(v) => v,
                    None => String::new(),
                },
            };
            let rest = self.render_from(ctx, i + 1);
            head.concat(rest.as_str())
        }
    }
}

/// The literal text of a segment sequence, expressions contributing nothing.
pub open spec fn literals_text(segs: Seq<SegView>) -> Seq<char>
    decreases segs.len(),
{
    if segs.len() == 0 {
        Seq::empty()
    } else {
        (match segs[0] {
            SegView::Lit(t) => t,
            SegView::Expr(_) => Seq::empty(),
        }) + literals_text(segs.skip(1))
    }
}

/// Rendering a template made purely of literal segments returns the literal
/// text unchanged, independent of context contents.
pub proof fn lemma_literal_template_roundtrip<C1: PathLookup, C2: PathLookup>(
    c1: &C1,
    c2: &C2,
    segs: Seq<SegView>,
)
    requires
        forall|i: int| 0 <= i < segs.len() ==> (#[trigger] segs[i]) is Lit,
    ensures
        render_view(c1, segs) == literals_text(segs),
        render_view(c1, segs) == render_view(c2, segs),
    decreases segs.len(),
{
    if segs.len() > 0 {
        assert(segs[0] is Lit);
        assert(forall|i: int|
            0 <= i < segs.skip(1).len() ==> (#[trigger] segs.skip(1)[i]) == segs[i + 1]);
        lemma_literal_template_roundtrip(c1, c2, segs.skip(1));
    }
}

/// A path that resolves to nothing renders as the empty string: the literal
/// text around the expression still appears, and rendering does not fail.
pub proof fn lemma_missing_key_renders_gap<C: PathLookup>(
    ctx: &C,
    before: Seq<char>,
    path: Seq<Seq<char>>,
    after: Seq<char>,
)
    requires
        ctx.lookup_spec(path) is None,
    ensures
        render_view(
            ctx,
            seq![SegView::Lit(before), SegView::Expr(path), SegView::Lit(after)],
        ) == before + after,
{
    let segs = seq![SegView::Lit(before), SegView::Expr(path), SegView::Lit(after)];
    let s1 = seq![SegView::Expr(path), SegView::Lit(after)];
    let s2 = seq![SegView::Lit(after)];
    assert(segs.skip(1) =~= s1);
    assert(s1.skip(1) =~= s2);
    assert(s2.skip(1) =~= Seq::<SegView>::empty());
    assert(render_view(ctx, Seq::<SegView>::empty()) == Seq::<char>::empty());
    assert(render_view(ctx, s2.skip(1)) == Seq::<char>::empty());
    assert(render_view(ctx, s2) =~= after);
    assert(render_view(ctx, s1) =~= after);
    assert(render_view(ctx, segs) =~= before + after);
}


} // verus!
