//! Execution-time and configuration-time lookup contexts.
//!
//! Template rendering resolves dotted paths against a context; these are the
//! two contexts the engine itself provides. Environment and header contents
//! are handed in as plain snapshots by the surrounding application, so every
//! lookup here is a pure function of the context value.

use vstd::prelude::*;

use crate::template::PathLookup;
use crate::value::{interpolate_str, path_view, Value};

verus! {

/// Spec-level lookup among string pairs, first match wins.
pub open spec fn kv_get(entries: Seq<(Seq<char>, Seq<char>)>, key: Seq<char>) -> Option<Seq<char>>
    decreases entries.len(),
{
    if entries.len() == 0 {
        None
    } else if entries[0].0 == key {
        Some(entries[0].1)
    } else {
        kv_get(entries.skip(1), key)
    }
}

/// The views of a vector of string pairs.
pub open spec fn kv_view(entries: Seq<(String, String)>) -> Seq<(Seq<char>, Seq<char>)> {
    entries.map_values(|e: (String, String)| (e.0@, e.1@))
}

/// Looks a key up among string pairs, first match wins.
pub fn kv_lookup<'a>(entries: &'a Vec<(String, String)>, key: &String) -> (r: Option<&'a String>)
    ensures
        match r {
            Some(v) => kv_get(kv_view(entries@), key@) == Some(v@),
            None => kv_get(kv_view(entries@), key@) is None,
        },
{
    proof {
        assert(kv_view(entries@).skip(0) =~= kv_view(entries@));
    }
    kv_lookup_from(entries, key, 0)
}

fn kv_lookup_from<'a>(entries: &'a Vec<(String, String)>, key: &String, i: usize) -> (r: Option<
    &'a String,
>)
    requires
        i <= entries.len(),
    ensures
        match r {
            Some(v) => kv_get(kv_view(entries@).skip(i as int), key@) == Some(v@),
            None => kv_get(kv_view(entries@).skip(i as int), key@) is None,
        },
    decreases entries.len() - i,
{
    let ghost evs = kv_view(entries@);
    proof {
        assert(evs.len() == entries@.len());
    }
    if i == entries.len() {
        None
    } else {
        proof {
            assert(evs[i as int] == (entries@[i as int].0@, entries@[i as int].1@));
            assert(evs.skip(i as int)[0] == evs[i as int]);
        }
        if entries[i].0 == *key {
            Some(&entries[i].1)
        } else {
            let r = kv_lookup_from(entries, key, i + 1);
            assert(evs.skip(i as int).skip(1) =~= evs.skip(i as int + 1));
            r
        }
    }
}

/// A snapshot of request headers: name/value pairs in arrival order.
#[derive(Debug, Clone, PartialEq)]
pub struct Headers {
    pub entries: Vec<(String, String)>,
}

impl View for Headers {
    type V = Seq<(Seq<char>, Seq<char>)>;

    open spec fn view(&self) -> Seq<(Seq<char>, Seq<char>)> {
        kv_view(self.entries@)
    }
}

impl Headers {
    /// An empty header snapshot.
    pub fn new() -> (r: Headers)
        ensures
            r@ == Seq::<(Seq<char>, Seq<char>)>::empty(),
    {
        let r = Headers { entries: Vec::new() };
        proof {
            assert(r@ =~= Seq::<(Seq<char>, Seq<char>)>::empty());
        }
        r
    }

    /// The first value under `name`, if any.
    pub fn get<'a>(&'a self, name: &String) -> (r: Option<&'a String>)
        ensures
            match r {
                Some(v) => kv_get(self@, name@) == Some(v@),
                None => kv_get(self@, name@) is None,
            },
    {
        kv_lookup(&self.entries, name)
    }
}

/// Access to a header snapshot.
pub trait HasHeaders {
    /// The headers this context carries.
    spec fn headers_spec(&self) -> Seq<(Seq<char>, Seq<char>)>;

    /// The headers this context carries.
    fn headers(&self) -> (r: &Headers)
        ensures
            r@ == self.headers_spec(),
    ;
}

/// The configuration-reading context: variable and environment snapshots,
/// consulted while configuration is materialized.
#[derive(Debug, Clone, PartialEq)]
pub struct ConfigReaderContext {
    pub vars: Vec<(String, String)>,
    pub env: Vec<(String, String)>,
    pub headers: Headers,
}

/// What `ConfigReaderContext::path_string` resolves: only the `vars` and
/// `env` namespaces, each by its second path part.
pub open spec fn reader_path_string(ctx: ConfigReaderContext, path: Seq<Seq<char>>) -> Option<
    Seq<char>,
> {
    if path.len() < 2 {
        None
    } else if path[0] == "vars"@ {
        kv_get(kv_view(ctx.vars@), path[1])
    } else if path[0] == "env"@ {
        kv_get(kv_view(ctx.env@), path[1])
    } else {
        None
    }
}

impl ConfigReaderContext {
    /// Resolves `vars.*` and `env.*` paths; anything else is absent. An
    /// absent key resolves to `None`, never an error.
    pub fn path_string(&self, path: &Vec<String>) -> (r: Option<String>)
        ensures
            match r {
                Some(v) => reader_path_string(*self, path_view(path@)) == Some(v@),
                None => reader_path_string(*self, path_view(path@)) is None,
            },
    {
        if path.len() < 2 {
            return None;
        }
        proof {
            assert(path_view(path@)[0] == path@[0]@);
            assert(path_view(path@)[1] == path@[1]@);
        }
        let found = if path[0] == String::from_str("vars") {
            kv_lookup(&self.vars, &path[1])
        } else if path[0] == String::from_str("env") {
            kv_lookup(&self.env, &path[1])
        } else {
            None
        };
        match found {
            Some(v) => Some(v.clone()),
            None => None,
        }
    }
}

impl PathLookup for ConfigReaderContext {
    open spec fn lookup_spec(&self, path: Seq<Seq<char>>) -> Option<Seq<char>> {
        reader_path_string(*self, path)
    }

    fn lookup(&self, path: &Vec<String>) -> (r: Option<String>) {
        self.path_string(path)
    }
}

impl HasHeaders for ConfigReaderContext {
    open spec fn headers_spec(&self) -> Seq<(Seq<char>, Seq<char>)> {
        self.headers@
    }

    fn headers(&self) -> (r: &Headers) {
        &self.headers
    }
}

/// The per-field evaluation context: the arguments bound to the plan node
/// plus the request's variable, environment and header snapshots.
#[derive(Debug, Clone, PartialEq)]
pub struct EvalContext {
    pub args: Value,
    pub vars: Vec<(String, String)>,
    pub env: Vec<(String, String)>,
    pub headers: Headers,
}

/// What an evaluation-context path resolves to: `args.*` walks the bound
/// argument object and interpolates the value found there; `vars.*`, `env.*`
/// and `headers.*` read their snapshots by the second path part.
pub open spec fn eval_path_string(ctx: EvalContext, path: Seq<Seq<char>>) -> Option<Seq<char>> {
    if path.len() == 0 {
        None
    } else if path[0] == "args"@ {
        match ctx.args@.get_path(path.skip(1)) {
            Some(v) => interpolate_str(v),
            None => None,
        }
    } else if path.len() < 2 {
        None
    } else if path[0] == "vars"@ {
        kv_get(kv_view(ctx.vars@), path[1])
    } else if path[0] == "env"@ {
        kv_get(kv_view(ctx.env@), path[1])
    } else if path[0] == "headers"@ {
        kv_get(kv_view(ctx.headers.entries@), path[1])
    } else {
        None
    }
}

impl EvalContext {
    /// Resolves a dotted path against the context; an absent key resolves to
    /// `None`, never an error.
    pub fn path_string(&self, path: &Vec<String>) -> (r: Option<String>)
        ensures
            match r {
                Some(v) => eval_path_string(*self, path_view(path@)) == Some(v@),
                None => eval_path_string(*self, path_view(path@)) is None,
            },
    {
        let ghost pv = path_view(path@);
        if path.len() == 0 {
            return None;
        }
        proof {
            assert(pv[0] == path@[0]@);
        }
        if path[0] == String::from_str("args") {
            let mut rest: Vec<String> = Vec::new();
            let mut k: usize = 1;
            let n = path.len();
            while k < n
                invariant
                    1 <= k <= n,
                    n == path@.len(),
                    rest@.len() == k - 1,
                    forall|m: int| 0 <= m < k - 1 ==> #[trigger] rest@[m]@ == path@[m + 1]@,
                decreases n - k,
            {
                rest.push(path[k].clone());
                k = k + 1;
            }
            proof {
                assert forall|m: int| 0 <= m < pv.skip(1).len() implies path_view(rest@)[m]
                    == pv.skip(1)[m] by {
                    assert(rest@[m]@ == path@[m + 1]@);
                }
                assert(path_view(rest@) =~= pv.skip(1));
            }
            match self.args.get_path(&rest) {
                Some(v) => v.interpolate(),
                None => None,
            }
        } else if path.len() < 2 {
            None
        } else {
            proof {
                assert(pv[1] == path@[1]@);
            }
            let found = if path[0] == String::from_str("vars") {
                kv_lookup(&self.vars, &path[1])
            } else if path[0] == String::from_str("env") {
                kv_lookup(&self.env, &path[1])
            } else if path[0] == String::from_str("headers") {
                kv_lookup(&self.headers.entries, &path[1])
            } else {
                None
            };
            match found {
                Some(v) => Some(v.clone()),
                None => None,
            }
        }
    }
}

impl PathLookup for EvalContext {
    open spec fn lookup_spec(&self, path: Seq<Seq<char>>) -> Option<Seq<char>> {
        eval_path_string(*self, path)
    }

    fn lookup(&self, path: &Vec<String>) -> (r: Option<String>) {
        self.path_string(path)
    }
}

impl HasHeaders for EvalContext {
    open spec fn headers_spec(&self) -> Seq<(Seq<char>, Seq<char>)> {
        self.headers@
    }

    fn headers(&self) -> (r: &Headers) {
        &self.headers
    }
}

} // verus!
