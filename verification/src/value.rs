//! The JSON-like value model the engine computes over.
//!
//! Upstream transports and configuration readers may use their own value
//! representations; the core works on this one, and the surrounding
//! application converts at the boundary. Contracts speak about values through
//! their mathematical view, [`ValueView`].

use vstd::prelude::*;

verus! {

/// A JSON-like value: the input and output currency of field resolution.
#[derive(Debug, PartialEq)]
pub enum Value {
    Null,
    Bool(bool),
    Num(i64),
    Str(String),
    List(Vec<Value>),
    Obj(Vec<(String, Value)>),
}

/// The mathematical model of a [`Value`].
pub enum ValueView {
    Null,
    Bool(bool),
    Num(int),
    Str(Seq<char>),
    List(Seq<ValueView>),
    Obj(Seq<(Seq<char>, ValueView)>),
}

/// The view of a value: the same tree over mathematical sequences.
pub open spec fn value_view(v: Value) -> ValueView
    decreases v,
    via value_view_decreases
{
    match v {
        Value::Null => ValueView::Null,
        Value::Bool(b) => ValueView::Bool(b),
        Value::Num(n) => ValueView::Num(n as int),
        Value::Str(s) => ValueView::Str(s@),
        Value::List(items) => ValueView::List(values_view(items@)),
        Value::Obj(entries) => ValueView::Obj(entries_view(entries@)),
    }
}

/// The views of a sequence of values.
pub open spec fn values_view(s: Seq<Value>) -> Seq<ValueView>
    decreases s,
    via values_view_decreases
{
    if s.len() == 0 {
        Seq::empty()
    } else {
        seq![value_view(s[0])] + values_view(s.skip(1))
    }
}

/// The views of a sequence of object entries.
pub open spec fn entries_view(s: Seq<(String, Value)>) -> Seq<(Seq<char>, ValueView)>
    decreases s,
    via entries_view_decreases
{
    if s.len() == 0 {
        Seq::empty()
    } else {
        seq![(s[0].0@, value_view(s[0].1))] + entries_view(s.skip(1))
    }
}

#[via_fn]
proof fn value_view_decreases(v: Value) {
    match v {
        Value::List(items) => {
            assert(decreases_to!(v => items));
            assert(decreases_to!(items => items@));
        },
        Value::Obj(entries) => {
            assert(decreases_to!(v => entries));
            assert(decreases_to!(entries => entries@));
        },
        _ => {},
    }
}

#[via_fn]
proof fn values_view_decreases(s: Seq<Value>) {
    if s.len() > 0 {
        assert(decreases_to!(s => s[0]));
        assert(s.skip(1) == s.subrange(1, s.len() as int));
        assert(decreases_to!(s => s.subrange(1, s.len() as int)));
    }
}

#[via_fn]
proof fn entries_view_decreases(s: Seq<(String, Value)>) {
    if s.len() > 0 {
        assert(decreases_to!(s => s[0]));
        assert(decreases_to!(s[0] => s[0].1));
        assert(s.skip(1) == s.subrange(1, s.len() as int));
        assert(decreases_to!(s => s.subrange(1, s.len() as int)));
    }
}

/// How the view of a value sequence reads off element by element.
pub proof fn lemma_values_view(s: Seq<Value>)
    ensures
        values_view(s).len() == s.len(),
        forall|i: int| 0 <= i < s.len() ==> #[trigger] values_view(s)[i] == value_view(s[i]),
    decreases s.len(),
{
    if s.len() > 0 {
        lemma_values_view(s.skip(1));
        assert forall|i: int| 0 <= i < s.len() implies #[trigger] values_view(s)[i] == value_view(
            s[i],
        ) by {
            if i > 0 {
                assert(values_view(s)[i] == values_view(s.skip(1))[i - 1]);
                assert(s.skip(1)[i - 1] == s[i]);
            }
        }
    }
}

/// How the view of an entry sequence reads off element by element.
pub proof fn lemma_entries_view(s: Seq<(String, Value)>)
    ensures
        entries_view(s).len() == s.len(),
        forall|i: int|
            0 <= i < s.len() ==> #[trigger] entries_view(s)[i] == (s[i].0@, value_view(s[i].1)),
    decreases s.len(),
{
    if s.len() > 0 {
        lemma_entries_view(s.skip(1));
        assert forall|i: int| 0 <= i < s.len() implies #[trigger] entries_view(s)[i] == (
            s[i].0@,
            value_view(s[i].1),
        ) by {
            if i > 0 {
                assert(entries_view(s)[i] == entries_view(s.skip(1))[i - 1]);
                assert(s.skip(1)[i - 1] == s[i]);
            }
        }
    }
}

impl View for Value {
    type V = ValueView;

    open spec fn view(&self) -> ValueView {
        value_view(*self)
    }
}

impl Clone for Value {
    /// Deep copy; the copy has the same view.
    fn clone(&self) -> (r: Value)
        ensures
            r@ == self@,
        decreases *self,
    {
        match self {
            Value::Null => Value::Null,
            Value::Bool(b) => Value::Bool(*b),
            Value::Num(n) => Value::Num(*n),
            Value::Str(s) => Value::Str(s.clone()),
            Value::List(items) => {
                proof {
                    assert(decreases_to!(*self => *items));
                }
                let out = clone_values(items);
                proof {
                    lemma_values_view(out@);
                    lemma_values_view(items@);
                    assert forall|i: int| 0 <= i < items@.len() implies values_view(out@)[i]
                        == values_view(items@)[i] by {
                        assert(out@[i]@ == items@[i]@);
                    }
                    assert(values_view(out@) =~= values_view(items@));
                }
                Value::List(out)
            },
            Value::Obj(entries) => {
                proof {
                    assert(decreases_to!(*self => *entries));
                }
                let out = clone_entries(entries);
                proof {
                    lemma_entries_view(out@);
                    lemma_entries_view(entries@);
                    assert forall|i: int| 0 <= i < entries@.len() implies entries_view(out@)[i]
                        == entries_view(entries@)[i] by {
                        assert(out@[i].0@ == entries@[i].0@ && out@[i].1@ == entries@[i].1@);
                    }
                    assert(entries_view(out@) =~= entries_view(entries@));
                }
                Value::Obj(out)
            },
        }
    }
}

/// Deep copy of a vector of values, element by element.
fn clone_values(items: &Vec<Value>) -> (r: Vec<Value>)
    ensures
        r@.len() == items@.len(),
        forall|i: int| 0 <= i < items@.len() ==> #[trigger] r@[i]@ == items@[i]@,
    decreases *items,
{
    let mut out: Vec<Value> = Vec::new();
    let n = items.len();
    let mut i: usize = 0;
    while i < n
        invariant
            i <= n,
            n == items.len(),
            out@.len() == i,
            forall|j: int| 0 <= j < i ==> #[trigger] out@[j]@ == items@[j]@,
        decreases n - i,
    {
        proof {
            assert(decreases_to!(*items => items@));
            assert(decreases_to!(items@ => items@[i as int]));
        }
        out.push(items[i].clone());
        i = i + 1;
    }
    out
}

/// Deep copy of object entries, key and value alike.
pub(crate) fn clone_entries(entries: &Vec<(String, Value)>) -> (r: Vec<(String, Value)>)
    ensures
        r@.len() == entries@.len(),
        forall|i: int|
            0 <= i < entries@.len() ==> ((#[trigger] r@[i]).0@ == entries@[i].0@ && r@[i].1@
                == entries@[i].1@),
    decreases *entries,
{
    let mut out: Vec<(String, Value)> = Vec::new();
    let n = entries.len();
    let mut i: usize = 0;
    while i < n
        invariant
            i <= n,
            n == entries.len(),
            out@.len() == i,
            forall|j: int|
                0 <= j < i ==> ((#[trigger] out@[j]).0@ == entries@[j].0@ && out@[j].1@
                    == entries@[j].1@),
        decreases n - i,
    {
        proof {
            assert(decreases_to!(*entries => entries@));
            assert(decreases_to!(entries@ => entries@[i as int]));
            assert(decreases_to!(entries@[i as int] => entries@[i as int].1));
        }
        let key = entries[i].0.clone();
        let val = entries[i].1.clone();
        out.push((key, val));
        i = i + 1;
    }
    out
}

/// Spec-level lookup of a key among the entries of an object view.
pub open spec fn obj_get_view(entries: Seq<(Seq<char>, ValueView)>, key: Seq<char>) -> Option<
    ValueView,
>
    decreases entries.len(),
{
    if entries.len() == 0 {
        None
    } else if entries[0].0 == key {
        Some(entries[0].1)
    } else {
        obj_get_view(entries.skip(1), key)
    }
}

impl ValueView {
    /// First entry under `key` if this view is an object holding one.
    pub open spec fn get(self, key: Seq<char>) -> Option<ValueView> {
        match self {
            ValueView::Obj(entries) => obj_get_view(entries, key),
            _ => None,
        }
    }

    /// Walks a path of object keys down the value tree.
    pub open spec fn get_path(self, path: Seq<Seq<char>>) -> Option<ValueView>
        decreases path.len(),
    {
        if path.len() == 0 {
            Some(self)
        } else {
            match self.get(path[0]) {
                Some(child) => child.get_path(path.skip(1)),
                None => None,
            }
        }
    }
}

/// The views of a vector of path segments.
pub open spec fn path_view(path: Seq<String>) -> Seq<Seq<char>> {
    path.map_values(|s: String| s@)
}

/// Looks a key up among object entries, first match wins.
fn obj_get_entries<'a>(entries: &'a Vec<(String, Value)>, key: &String, i: usize) -> (r: Option<
    &'a Value,
>)
    requires
        i <= entries.len(),
    ensures
        match r {
            Some(v) => obj_get_view(entries_view(entries@).skip(i as int), key@) == Some(v@),
            None => obj_get_view(entries_view(entries@).skip(i as int), key@) is None,
        },
    decreases entries.len() - i,
{
    let ghost evs = entries_view(entries@);
    proof {
        lemma_entries_view(entries@);
    }
    if i == entries.len() {
        None
    } else {
        assert(evs.skip(i as int)[0] == evs[i as int]);
        if entries[i].0 == *key {
            Some(&entries[i].1)
        } else {
            let r = obj_get_entries(entries, key, i + 1);
            assert(evs.skip(i as int).skip(1) =~= evs.skip(i as int + 1));
            r
        }
    }
}

impl Value {
    /// Looks `key` up if this value is an object.
    pub fn get<'a>(&'a self, key: &String) -> (r: Option<&'a Value>)
        ensures
            match r {
                Some(v) => self@.get(key@) == Some(v@),
                None => self@.get(key@) is None,
            },
    {
        match self {
            Value::Obj(entries) => {
                assert(entries_view(entries@).skip(0) =~= entries_view(entries@));
                obj_get_entries(entries, key, 0)
            },
            _ => None,
        }
    }

    /// Walks a path of object keys down the value tree.
    pub fn get_path<'a>(&'a self, path: &Vec<String>) -> (r: Option<&'a Value>)
        ensures
            match r {
                Some(v) => self@.get_path(path_view(path@)) == Some(v@),
                None => self@.get_path(path_view(path@)) is None,
            },
    {
        assert(path_view(path@).skip(0) =~= path_view(path@));
        self.get_path_from(path, 0)
    }

    fn get_path_from<'a>(&'a self, path: &Vec<String>, i: usize) -> (r: Option<&'a Value>)
        requires
            i <= path.len(),
        ensures
            match r {
                Some(v) => self@.get_path(path_view(path@).skip(i as int)) == Some(v@),
                None => self@.get_path(path_view(path@).skip(i as int)) is None,
            },
        decreases path.len() - i,
    {
        let ghost segs = path_view(path@);
        if i == path.len() {
            assert(segs.skip(i as int).len() == 0);
            Some(self)
        } else {
            assert(segs.skip(i as int)[0] == segs[i as int]);
            assert(segs.skip(i as int).skip(1) =~= segs.skip(i as int + 1));
            match self.get(&path[i]) {
                Some(child) => child.get_path_from(path, i + 1),
                None => None,
            }
        }
    }
}

/// Relies on std `String::push`: appends exactly one character.
#[verifier::external_body]
pub(crate) fn push_char(s: &mut String, c: char)
    ensures
        final(s)@ == old(s)@.push(c),
{
    s.push(c);
}

/// The decimal digit character for `d`.
pub open spec fn digit_char(d: int) -> char {
    if d == 0 {
        '0'
    } else if d == 1 {
        '1'
    } else if d == 2 {
        '2'
    } else if d == 3 {
        '3'
    } else if d == 4 {
        '4'
    } else if d == 5 {
        '5'
    } else if d == 6 {
        '6'
    } else if d == 7 {
        '7'
    } else if d == 8 {
        '8'
    } else {
        '9'
    }
}

/// The decimal digits of `n`, most significant first.
pub open spec fn dec_str(n: nat) -> Seq<char>
    decreases n,
{
    if n < 10 {
        seq![digit_char(n as int)]
    } else {
        dec_str(n / 10).push(digit_char((n % 10) as int))
    }
}

/// The canonical decimal form of an integer, `-` prefixed when negative.
pub open spec fn num_str(n: int) -> Seq<char> {
    if n >= 0 {
        dec_str(n as nat)
    } else {
        seq!['-'] + dec_str((-n) as nat)
    }
}

/// The canonical string form of a scalar view; composites have none.
pub open spec fn scalar_str(v: ValueView) -> Option<Seq<char>> {
    match v {
        ValueView::Null => Some("null"@),
        ValueView::Bool(b) => Some(
            if b {
                "true"@
            } else {
                "false"@
            },
        ),
        ValueView::Num(n) => Some(num_str(n)),
        ValueView::Str(s) => Some(s),
        ValueView::List(_) => None,
        ValueView::Obj(_) => None,
    }
}

/// Scalar items joined with commas; `None` as soon as one item is no scalar.
pub open spec fn join_scalars(items: Seq<ValueView>) -> Option<Seq<char>>
    decreases items.len(),
{
    if items.len() == 0 {
        Some(Seq::empty())
    } else {
        match scalar_str(items[0]) {
            None => None,
            Some(h) => match join_scalars(items.skip(1)) {
                None => None,
                Some(t) => Some(
                    if items.len() == 1 {
                        h
                    } else {
                        h + seq![','] + t
                    },
                ),
            },
        }
    }
}

/// How a value interpolates into a rendered request: scalars canonically,
/// lists comma-joined, objects not at all.
pub open spec fn interpolate_str(v: ValueView) -> Option<Seq<char>> {
    match v {
        ValueView::List(items) => join_scalars(items),
        _ => scalar_str(v),
    }
}

fn digit_to_char(d: u64) -> (r: char)
    requires
        d < 10,
    ensures
        r == digit_char(d as int),
{
    if d == 0 {
        '0'
    } else if d == 1 {
        '1'
    } else if d == 2 {
        '2'
    } else if d == 3 {
        '3'
    } else if d == 4 {
        '4'
    } else if d == 5 {
        '5'
    } else if d == 6 {
        '6'
    } else if d == 7 {
        '7'
    } else if d == 8 {
        '8'
    } else {
        '9'
    }
}

/// The decimal digits of `n`.
fn dec_to_string(n: u64) -> (r: String)
    ensures
        r@ == dec_str(n as nat),
    decreases n,
{
    if n < 10 {
        let mut s = String::new();
        push_char(&mut s, digit_to_char(n));
        proof {
            assert(s@ =~= seq![digit_char(n as int)]);
        }
        s
    } else {
        let mut s = dec_to_string(n / 10);
        push_char(&mut s, digit_to_char(n % 10));
        s
    }
}

/// The canonical decimal form of `n`.
pub fn num_to_string(n: i64) -> (r: String)
    ensures
        r@ == num_str(n as int),
{
    if n >= 0 {
        dec_to_string(n as u64)
    } else {
        let mag: u64 = (-(n as i128)) as u64;
        let mut s = String::new();
        push_char(&mut s, '-');
        let digits = dec_to_string(mag);
        let out = s.concat(digits.as_str());
        proof {
            assert(Seq::<char>::empty().push('-') =~= seq!['-']);
        }
        out
    }
}

impl Value {
    /// The string this value interpolates as, if any: scalars canonically,
    /// lists comma-joined, objects not at all.
    pub fn interpolate(&self) -> (r: Option<String>)
        ensures
            match r {
                Some(s) => interpolate_str(self@) == Some(s@),
                None => interpolate_str(self@) is None,
            },
    {
        match self {
            Value::Null => Some(String::from_str("null")),
            Value::Bool(b) => Some(
                if *b {
                    String::from_str("true")
                } else {
                    String::from_str("false")
                },
            ),
            Value::Num(n) => Some(num_to_string(*n)),
            Value::Str(s) => Some(s.clone()),
            Value::List(items) => {
                proof {
                    lemma_values_view(items@);
                    assert(values_view(items@).skip(0) =~= values_view(items@));
                }
                join_values(items, 0)
            },
            Value::Obj(_) => None,
        }
    }
}

/// Joins the scalar forms of `items[i..]` with commas, mirroring
/// `join_scalars`.
fn join_values(items: &Vec<Value>, i: usize) -> (r: Option<String>)
    requires
        i <= items.len(),
    ensures
        match r {
            Some(s) => join_scalars(values_view(items@).skip(i as int)) == Some(s@),
            None => join_scalars(values_view(items@).skip(i as int)) is None,
        },
    decreases items.len() - i,
{
    let ghost vs = values_view(items@);
    proof {
        lemma_values_view(items@);
        assert(vs.len() == items@.len());
    }
    if i == items.len() {
        proof {
            assert(vs.skip(i as int).len() == 0);
        }
        Some(String::new())
    } else {
        proof {
            assert(vs.skip(i as int)[0] == vs[i as int]);
            assert(vs[i as int] == items@[i as int]@);
            assert(vs.skip(i as int).skip(1) =~= vs.skip(i as int + 1));
        }
        let head = match &items[i] {
            Value::Null => Some(String::from_str("null")),
            Value::Bool(b) => Some(
                if *b {
                    String::from_str("true")
                } else {
                    String::from_str("false")
                },
            ),
            Value::Num(n) => Some(num_to_string(*n)),
            Value::Str(s) => Some(s.clone()),
            Value::List(_) => None,
            Value::Obj(_) => None,
        };
        match head {
            None => None,
            Some(h) => match join_values(items, i + 1) {
                None => None,
                Some(t) => {
                    if i + 1 == items.len() {
                        proof {
                            assert(vs.skip(i as int).len() == 1);
                        }
                        Some(h)
                    } else {
                        let mut out = h;
                        push_char(&mut out, ',');
                        let out2 = out.concat(t.as_str());
                        proof {
                            assert(scalar_str(vs.skip(i as int)[0]) == Some(h@));
                            assert(out2@ =~= h@ + seq![','] + t@);
                        }
                        Some(out2)
                    }
                },
            },
        }
    }
}

/// The canonical form of a value: an injective, length-prefixed rendering
/// used as the batching identity of call payloads. Not meant for display.
pub open spec fn canon_str(v: ValueView) -> Seq<char>
    decreases v,
    via canon_str_decreases
{
    match v {
        ValueView::Null => seq!['n'],
        ValueView::Bool(b) => if b {
            seq!['t']
        } else {
            seq!['f']
        },
        ValueView::Num(n) => seq!['i'] + num_str(n) + seq!['e'],
        ValueView::Str(s) => seq!['s'] + dec_str(s.len()) + seq![':'] + s,
        ValueView::List(items) => seq!['l'] + canon_items(items) + seq!['e'],
        ValueView::Obj(entries) => seq!['d'] + canon_obj_entries(entries) + seq!['e'],
    }
}

/// The canonical forms of list items, concatenated.
pub open spec fn canon_items(items: Seq<ValueView>) -> Seq<char>
    decreases items,
    via canon_items_decreases
{
    if items.len() == 0 {
        Seq::empty()
    } else {
        canon_str(items[0]) + canon_items(items.skip(1))
    }
}

/// The canonical forms of object entries, key then value, concatenated.
pub open spec fn canon_obj_entries(entries: Seq<(Seq<char>, ValueView)>) -> Seq<char>
    decreases entries,
    via canon_obj_entries_decreases
{
    if entries.len() == 0 {
        Seq::empty()
    } else {
        seq!['s'] + dec_str(entries[0].0.len()) + seq![':'] + entries[0].0 + canon_str(
            entries[0].1,
        ) + canon_obj_entries(entries.skip(1))
    }
}

#[via_fn]
proof fn canon_str_decreases(v: ValueView) {
    match v {
        ValueView::List(items) => {
            assert(decreases_to!(v => items));
        },
        ValueView::Obj(entries) => {
            assert(decreases_to!(v => entries));
        },
        _ => {},
    }
}

#[via_fn]
proof fn canon_items_decreases(items: Seq<ValueView>) {
    if items.len() > 0 {
        assert(decreases_to!(items => items[0]));
        assert(items.skip(1) == items.subrange(1, items.len() as int));
        assert(decreases_to!(items => items.subrange(1, items.len() as int)));
    }
}

#[via_fn]
proof fn canon_obj_entries_decreases(entries: Seq<(Seq<char>, ValueView)>) {
    if entries.len() > 0 {
        assert(decreases_to!(entries => entries[0]));
        assert(decreases_to!(entries[0] => entries[0].1));
        assert(entries.skip(1) == entries.subrange(1, entries.len() as int));
        assert(decreases_to!(entries => entries.subrange(1, entries.len() as int)));
        assert(decreases_to!(entries[0] => entries[0].0));
    }
}

impl Value {
    /// The canonical form of this value, the batching identity of payloads.
    pub fn canon(&self) -> (r: String)
        ensures
            r@ == canon_str(self@),
        decreases *self,
    {
        match self {
            Value::Null => {
                let mut s = String::new();
                push_char(&mut s, 'n');
                proof {
                    assert(s@ =~= seq!['n']);
                }
                s
            },
            Value::Bool(b) => {
                let mut s = String::new();
                push_char(&mut s, if *b { 't' } else { 'f' });
                proof {
                    assert(s@ =~= if *b { seq!['t'] } else { seq!['f'] });
                }
                s
            },
            Value::Num(n) => {
                let mut s = String::new();
                push_char(&mut s, 'i');
                let digits = num_to_string(*n);
                let mut out = s.concat(digits.as_str());
                push_char(&mut out, 'e');
                proof {
                    assert(out@ =~= seq!['i'] + num_str(*n as int) + seq!['e']);
                }
                out
            },
            Value::Str(t) => {
                let mut s = String::new();
                push_char(&mut s, 's');
                let len_digits = dec_to_string(t.as_str().unicode_len() as u64);
                let mut out = s.concat(len_digits.as_str());
                push_char(&mut out, ':');
                let out2 = out.concat(t.as_str());
                proof {
                    assert(out2@ =~= seq!['s'] + dec_str(t@.len()) + seq![':'] + t@);
                }
                out2
            },
            Value::List(items) => {
                proof {
                    assert(decreases_to!(*self => *items));
                    lemma_values_view(items@);
                    assert(values_view(items@).skip(0) =~= values_view(items@));
                }
                let mut s = String::new();
                push_char(&mut s, 'l');
                let inner = canon_values(items, 0);
                let mut out = s.concat(inner.as_str());
                push_char(&mut out, 'e');
                proof {
                    assert(out@ =~= seq!['l'] + canon_items(values_view(items@)) + seq!['e']);
                }
                out
            },
            Value::Obj(entries) => {
                proof {
                    assert(decreases_to!(*self => *entries));
                    lemma_entries_view(entries@);
                    assert(entries_view(entries@).skip(0) =~= entries_view(entries@));
                }
                let mut s = String::new();
                push_char(&mut s, 'd');
                let inner = canon_entry_values(entries, 0);
                let mut out = s.concat(inner.as_str());
                push_char(&mut out, 'e');
                proof {
                    assert(out@ =~= seq!['d'] + canon_obj_entries(entries_view(entries@))
                        + seq!['e']);
                }
                out
            },
        }
    }
}

/// Canonical forms of `items[i..]`, concatenated.
fn canon_values(items: &Vec<Value>, i: usize) -> (r: String)
    requires
        i <= items.len(),
    ensures
        r@ == canon_items(values_view(items@).skip(i as int)),
    decreases *items, items.len() - i,
{
    let ghost vs = values_view(items@);
    proof {
        lemma_values_view(items@);
    }
    if i == items.len() {
        proof {
            assert(vs.skip(i as int).len() == 0);
        }
        String::new()
    } else {
        proof {
            assert(vs.skip(i as int)[0] == vs[i as int]);
            assert(vs[i as int] == items@[i as int]@);
            assert(vs.skip(i as int).skip(1) =~= vs.skip(i as int + 1));
            assert(decreases_to!(*items => items@));
            assert(decreases_to!(items@ => items@[i as int]));
        }
        let head = items[i].canon();
        let rest = canon_values(items, i + 1);
        head.concat(rest.as_str())
    }
}

/// Canonical forms of `entries[i..]`, key then value, concatenated.
fn canon_entry_values(entries: &Vec<(String, Value)>, i: usize) -> (r: String)
    requires
        i <= entries.len(),
    ensures
        r@ == canon_obj_entries(entries_view(entries@).skip(i as int)),
    decreases *entries, entries.len() - i,
{
    let ghost evs = entries_view(entries@);
    proof {
        lemma_entries_view(entries@);
    }
    if i == entries.len() {
        proof {
            assert(evs.skip(i as int).len() == 0);
        }
        String::new()
    } else {
        proof {
            assert(evs.skip(i as int)[0] == evs[i as int]);
            assert(evs[i as int] == (entries@[i as int].0@, entries@[i as int].1@));
            assert(evs.skip(i as int).skip(1) =~= evs.skip(i as int + 1));
            assert(decreases_to!(*entries => entries@));
            assert(decreases_to!(entries@ => entries@[i as int]));
            assert(decreases_to!(entries@[i as int] => entries@[i as int].1));
        }
        let mut key_part = String::new();
        push_char(&mut key_part, 's');
        let len_digits = dec_to_string(entries[i].0.as_str().unicode_len() as u64);
        let mut key_out = key_part.concat(len_digits.as_str());
        push_char(&mut key_out, ':');
        let key_full = key_out.concat(entries[i].0.as_str());
        proof {
            assert(key_full@ =~= seq!['s'] + dec_str(entries@[i as int].0@.len()) + seq![':']
                + entries@[i as int].0@);
        }
        let val_part = entries[i].1.canon();
        let rest = canon_entry_values(entries, i + 1);
        let head = key_full.concat(val_part.as_str());
        let out = head.concat(rest.as_str());
        proof {
            assert(out@ =~= canon_obj_entries(evs.skip(i as int)));
        }
        out
    }
}

/// GraphQL-style truthiness of an optional value, as a directive condition
/// or conditional-resolver test reads it.
pub open spec fn truthy(v: Option<ValueView>) -> bool {
    match v {
        Some(ValueView::Null) => false,
        Some(ValueView::Bool(b)) => b,
        Some(_) => true,
        None => false,
    }
}

impl Value {
    /// Whether this value counts as true in a condition.
    pub fn is_truthy(&self) -> (r: bool)
        ensures
            r == truthy(Some(self@)),
    {
        match self {
            Value::Null => false,
            Value::Bool(b) => *b,
            _ => true,
        }
    }
}

} // verus!
