//! The decision core of the argument-naming assistant.
//!
//! The assistant asks a language model for name suggestions, one field
//! argument at a time, and retries on transient failures. Asking is outside
//! work the surrounding application performs; what stands here is every
//! decision the loop makes: which suggestion to adopt, how the adopted
//! mapping is finally oriented, and how the retry delay grows.

use vstd::prelude::*;

use crate::config::{assoc_get, Config};

verus! {

/// The argument-naming assistant.
#[derive(Debug, Default, PartialEq)]
pub struct InferArgsName {}

/// Whether `name` is already taken: either a type of the configuration or a
/// suggestion adopted earlier.
pub open spec fn name_taken(
    config: Config,
    mappings: Seq<(String, String)>,
    name: Seq<char>,
) -> bool {
    assoc_get(config.types@, name) is Some || assoc_get(mappings, name) is Some
}

/// The first suggestion that is not already taken.
pub open spec fn first_free(
    config: Config,
    mappings: Seq<(String, String)>,
    suggestions: Seq<String>,
) -> Option<String>
    decreases suggestions.len(),
{
    if suggestions.len() == 0 {
        None
    } else if !name_taken(config, mappings, suggestions[0]@) {
        Some(suggestions[0])
    } else {
        first_free(config, mappings, suggestions.skip(1))
    }
}

fn exec_types_taken(config: &Config, name: &String, i: usize) -> (r: bool)
    requires
        i <= config.types.len(),
    ensures
        r == (assoc_get(config.types@.skip(i as int), name@) is Some),
    decreases config.types.len() - i,
{
    if i == config.types.len() {
        false
    } else {
        assert(config.types@.skip(i as int)[0] == config.types@[i as int]);
        assert(config.types@.skip(i as int).skip(1) =~= config.types@.skip(i as int + 1));
        if config.types[i].0 == *name {
            true
        } else {
            exec_types_taken(config, name, i + 1)
        }
    }
}

fn exec_mapping_taken(mappings: &Vec<(String, String)>, name: &String, i: usize) -> (r: bool)
    requires
        i <= mappings.len(),
    ensures
        r == (assoc_get(mappings@.skip(i as int), name@) is Some),
    decreases mappings.len() - i,
{
    if i == mappings.len() {
        false
    } else {
        assert(mappings@.skip(i as int)[0] == mappings@[i as int]);
        assert(mappings@.skip(i as int).skip(1) =~= mappings@.skip(i as int + 1));
        if mappings[i].0 == *name {
            true
        } else {
            exec_mapping_taken(mappings, name, i + 1)
        }
    }
}

impl InferArgsName {
    /// A fresh assistant.
    pub fn new() -> (r: InferArgsName)
        ensures
            r == (InferArgsName {  }),
    {
        InferArgsName {}
    }

    /// Picks the suggestion to adopt for one argument: the first one that
    /// collides neither with a configured type name nor with an already
    /// adopted suggestion. `None` when every suggestion is taken.
    pub fn choose_suggestion(
        &self,
        config: &Config,
        mappings: &Vec<(String, String)>,
        suggestions: &Vec<String>,
    ) -> (r: Option<String>)
        ensures
            r == first_free(*config, mappings@, suggestions@),
    {
        proof {
            assert(suggestions@.skip(0) =~= suggestions@);
        }
        self.choose_from(config, mappings, suggestions, 0)
    }

    fn choose_from(
        &self,
        config: &Config,
        mappings: &Vec<(String, String)>,
        suggestions: &Vec<String>,
        i: usize,
    ) -> (r: Option<String>)
        requires
            i <= suggestions.len(),
        ensures
            r == first_free(*config, mappings@, suggestions@.skip(i as int)),
        decreases suggestions.len() - i,
    {
        if i == suggestions.len() {
            None
        } else {
            proof {
                assert(suggestions@.skip(i as int)[0] == suggestions@[i as int]);
                assert(suggestions@.skip(i as int).skip(1) =~= suggestions@.skip(i as int + 1));
                assert(config.types@.skip(0) =~= config.types@);
                assert(mappings@.skip(0) =~= mappings@);
            }
            let taken = exec_types_taken(config, &suggestions[i], 0) || exec_mapping_taken(
                mappings,
                &suggestions[i],
                0,
            );
            if !taken {
                Some(suggestions[i].clone())
            } else {
                self.choose_from(config, mappings, suggestions, i + 1)
            }
        }
    }
}

/// The adopted mappings, reoriented: collected as suggestion-to-argument,
/// handed back as argument-to-suggestion.
pub open spec fn inverted(mappings: Seq<(String, String)>) -> Seq<(String, String)> {
    mappings.map_values(|m: (String, String)| (m.1, m.0))
}

/// Turns the suggestion-to-argument mapping around, preserving order.
pub fn invert_mappings(mappings: &Vec<(String, String)>) -> (r: Vec<(String, String)>)
    ensures
        r@.len() == mappings@.len(),
        forall|i: int|
            0 <= i < mappings@.len() ==> ((#[trigger] r@[i]).0@ == mappings@[i].1@ && r@[i].1@
                == mappings@[i].0@),
{
    let mut out: Vec<(String, String)> = Vec::new();
    let n = mappings.len();
    let mut i: usize = 0;
    while i < n
        invariant
            i <= n,
            n == mappings@.len(),
            out@.len() == i,
            forall|m: int|
                0 <= m < i ==> ((#[trigger] out@[m]).0@ == mappings@[m].1@ && out@[m].1@
                    == mappings@[m].0@),
        decreases n - i,
    {
        out.push((mappings[i].1.clone(), mappings[i].0.clone()));
        i = i + 1;
    }
    out
}

/// The retry back-off step after a transient failure: the current delay
/// multiplied by the smaller of its double and one minute, saturating
/// instead of overflowing.
pub fn next_delay(delay: u64) -> (r: u64)
    ensures
        r == (if delay * 2 < 60 {
            if delay * (delay * 2) <= u64::MAX {
                delay * (delay * 2)
            } else {
                u64::MAX as int
            }
        } else {
            if delay * 60 <= u64::MAX {
                delay * 60
            } else {
                u64::MAX as int
            }
        }),
{
    let factor = if delay <= u64::MAX / 2 && delay * 2 < 60 {
        delay * 2
    } else {
        60
    };
    proof {
        if delay > u64::MAX / 2 {
            assert(delay * 2 >= 60) by (nonlinear_arith)
                requires
                    delay > u64::MAX / 2,
            ;
        }
    }
    delay.checked_mul(factor).unwrap_or(u64::MAX)
}

} // verus!
