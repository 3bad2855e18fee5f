//! Validation rules, run against a compiled operation plan before it ever
//! reaches the executor.
//!
//! A rule is pure over the plan: it either passes or fails with a reason,
//! and a plan that fails any rule is never executed.

use vstd::prelude::*;

use crate::jit::{OperationPlan, PlanField, PlanFieldView};

verus! {

/// The complexity of one plan node: one for the node itself plus the
/// complexities of all its children.
pub open spec fn complexity_of(f: PlanFieldView) -> nat
    decreases f,
    via complexity_of_decreases
{
    1 + complexity_sum(f.children)
}

/// The total complexity of a node sequence.
pub open spec fn complexity_sum(s: Seq<PlanFieldView>) -> nat
    decreases s,
    via complexity_sum_decreases
{
    if s.len() == 0 {
        0
    } else {
        complexity_of(s[0]) + complexity_sum(s.skip(1))
    }
}

#[via_fn]
proof fn complexity_of_decreases(f: PlanFieldView) {
    assert(decreases_to!(f => f.children));
}

#[via_fn]
proof fn complexity_sum_decreases(s: Seq<PlanFieldView>) {
    if s.len() > 0 {
        assert(decreases_to!(s => s[0]));
        assert(s.skip(1) == s.subrange(1, s.len() as int));
        assert(decreases_to!(s => s.subrange(1, s.len() as int)));
    }
}

/// The total complexity of a plan: the sum over its top-level selection.
pub open spec fn plan_complexity(p: crate::jit::PlanView) -> nat {
    complexity_sum(p.selection)
}

/// Complexity is strictly additive: a node contributes exactly one plus the
/// sum of its children's complexities.
pub proof fn lemma_complexity_additive(f: PlanFieldView)
    ensures
        complexity_of(f) == 1 + complexity_sum(f.children),
{
}

/// A flat selection of leaf fields has total complexity equal to the number
/// of fields.
pub proof fn lemma_complexity_flat(s: Seq<PlanFieldView>)
    requires
        forall|i: int| 0 <= i < s.len() ==> (#[trigger] s[i]).children.len() == 0,
    ensures
        complexity_sum(s) == s.len(),
    decreases s.len(),
{
    if s.len() > 0 {
        assert(s[0].children.len() == 0);
        assert(complexity_of(s[0]) == 1);
        assert(forall|i: int|
            0 <= i < s.skip(1).len() ==> (#[trigger] s.skip(1)[i]) == s[i + 1]);
        lemma_complexity_flat(s.skip(1));
    }
}

/// The sum over a suffix splits off its first node's complexity.
pub proof fn lemma_complexity_skip(s: Seq<PlanFieldView>, i: int)
    requires
        0 <= i < s.len(),
    ensures
        complexity_sum(s.skip(i)) == complexity_of(s[i]) + complexity_sum(s.skip(i + 1)),
{
    assert(s.skip(i)[0] == s[i]);
    assert(s.skip(i).skip(1) =~= s.skip(i + 1));
}

/// Appending a node adds exactly its complexity to the sum.
pub proof fn lemma_complexity_sum_snoc(s: Seq<PlanFieldView>, x: PlanFieldView)
    ensures
        complexity_sum(s.push(x)) == complexity_sum(s) + complexity_of(x),
    decreases s.len(),
{
    if s.len() == 0 {
        assert(s.push(x)[0] == x);
        assert(s.push(x).skip(1) =~= Seq::<PlanFieldView>::empty());
        assert(complexity_sum(s.push(x).skip(1)) == 0);
        assert(complexity_sum(s.push(x)) == complexity_of(x));
        assert(complexity_sum(s) == 0);
    } else {
        assert(s.push(x)[0] == s[0]);
        assert(s.push(x).skip(1) =~= s.skip(1).push(x));
        lemma_complexity_sum_snoc(s.skip(1), x);
        assert(complexity_sum(s.push(x)) == complexity_of(s[0]) + complexity_sum(
            s.skip(1).push(x),
        ));
        assert(complexity_sum(s) == complexity_of(s[0]) + complexity_sum(s.skip(1)));
    }
}

/// The complexity of `f`, capped at `cap`.
#[verifier::loop_isolation(false)]
fn complexity_upto(f: &PlanField, cap: u128) -> (r: u128)
    requires
        cap >= 1,
        cap <= 0xffff_ffff_ffff_ffff_ffffu128,
    ensures
        complexity_of(f@) >= cap ==> r == cap,
        complexity_of(f@) < cap ==> r == complexity_of(f@),
    decreases *f,
{
    let mut total: u128 = 1;
    let n = f.children.len();
    let ghost cv = f@.children;
    proof {
        crate::jit::lemma_plan_fields_view(f.children@);
        assert(cv.len() == n);
        assert(cv.take(0) =~= Seq::<PlanFieldView>::empty());
    }
    let mut i: usize = 0;
    while i < n
        invariant
            i <= n,
            total <= cap,
            (1 + complexity_sum(cv.take(i as int)) >= cap ==> total == cap),
            (1 + complexity_sum(cv.take(i as int)) < cap ==> total == 1 + complexity_sum(
                cv.take(i as int),
            )),
        decreases n - i,
    {
        proof {
            assert(decreases_to!(*f => f.children));
            assert(decreases_to!(f.children => f.children@));
            assert(decreases_to!(f.children@ => f.children@[i as int]));
            assert(cv[i as int] == f.children@[i as int]@);
        }
        let c = complexity_upto(&f.children[i], cap);
        let t = total + c;
        total = if t > cap {
            cap
        } else {
            t
        };
        proof {
            assert(cv.take(i as int + 1) =~= cv.take(i as int).push(cv[i as int]));
            lemma_complexity_sum_snoc(cv.take(i as int), cv[i as int]);
        }
        i = i + 1;
    }
    proof {
        assert(cv.take(n as int) =~= cv);
    }
    total
}

/// The total complexity of the plan's top-level selection, capped at `cap`.
#[verifier::loop_isolation(false)]
fn plan_complexity_upto(plan: &OperationPlan, cap: u128) -> (r: u128)
    requires
        cap >= 1,
        cap <= 0xffff_ffff_ffff_ffff_ffffu128,
    ensures
        plan_complexity(plan@) >= cap ==> r == cap,
        plan_complexity(plan@) < cap ==> r == plan_complexity(plan@),
{
    let mut total: u128 = 0;
    let n = plan.selection.len();
    let ghost cv = plan@.selection;
    proof {
        crate::jit::lemma_plan_fields_view(plan.selection@);
        assert(cv.len() == n);
        assert(cv.take(0) =~= Seq::<PlanFieldView>::empty());
    }
    let mut i: usize = 0;
    while i < n
        invariant
            i <= n,
            total <= cap,
            (complexity_sum(cv.take(i as int)) >= cap ==> total == cap),
            (complexity_sum(cv.take(i as int)) < cap ==> total == complexity_sum(
                cv.take(i as int),
            )),
        decreases n - i,
    {
        proof {
            assert(cv[i as int] == plan.selection@[i as int]@);
        }
        let c = complexity_upto(&plan.selection[i], cap);
        let t = total + c;
        total = if t > cap {
            cap
        } else {
            t
        };
        proof {
            assert(cv.take(i as int + 1) =~= cv.take(i as int).push(cv[i as int]));
            lemma_complexity_sum_snoc(cv.take(i as int), cv[i as int]);
        }
        i = i + 1;
    }
    proof {
        assert(cv.take(n as int) =~= cv);
    }
    total
}

/// A validation rule: pure over the plan, passing or failing with a reason.
pub trait Rule {
    /// Checks the plan; `Ok` lets it proceed to execution.
    fn validate(&self, plan: &OperationPlan) -> Result<(), String>;
}

/// The query-complexity rule: the plan's total complexity must not exceed
/// the configured budget.
pub struct QueryComplexity(pub usize);

impl QueryComplexity {
    /// A complexity rule with the given budget.
    pub fn new(depth: usize) -> (r: QueryComplexity)
        ensures
            r.0 == depth,
    {
        QueryComplexity(depth)
    }

    /// Passes exactly the plans whose total complexity is within the budget;
    /// the failure carries the fixed reason.
    pub fn check(&self, plan: &OperationPlan) -> (r: Result<(), String>)
        ensures
            r is Ok <==> plan_complexity(plan@) <= self.0,
            r is Err ==> (r->Err_0)@ == "Query Complexity validation failed."@,
    {
        let cap: u128 = self.0 as u128 + 1;
        let total = plan_complexity_upto(plan, cap);
        if total > self.0 as u128 {
            Err(String::from_str("Query Complexity validation failed."))
        } else {
            Ok(())
        }
    }
}

impl Rule for QueryComplexity {
    fn validate(&self, plan: &OperationPlan) -> Result<(), String> {
        self.check(plan)
    }
}

} // verus!
