//! The middleware chain's combination rules. Hook callables live in the
//! host; the library sees each hook's outcome — it replaced the value it
//! was given, left it unchanged, or failed — and folds the outcomes. Values
//! (request contexts, results) are carried as opaque handles the host owns.
//! The order in which hooks are consulted is the dispatch engine's duty
//! (`crate::dispatch`); these folds define what the chain's outcomes mean.

use vstd::prelude::*;

verus! {

/// What one hook did with the value it was handed.
pub enum HookOutcome {
    /// The hook returned a replacement value (a host handle).
    Replaced(u64),
    /// The hook returned nothing; the value stays as it was.
    Unchanged,
    /// The hook raised.
    Failed,
}

/// Folding hook outcomes in the order given: each replacement supersedes
/// the value so far, anything else leaves it.
pub open spec fn apply_hooks(initial: u64, outs: Seq<HookOutcome>) -> u64
    decreases outs.len(),
{
    if outs.len() == 0 {
        initial
    } else {
        let prev = apply_hooks(initial, outs.drop_last());
        match outs.last() {
            HookOutcome::Replaced(c) => c,
            HookOutcome::Unchanged => prev,
            HookOutcome::Failed => prev,
        }
    }
}

/// Folding hook outcomes in reverse order (last hook first), as the
/// after-chain runs.
pub open spec fn apply_hooks_rev(initial: u64, outs: Seq<HookOutcome>) -> u64
    decreases outs.len(),
{
    if outs.len() == 0 {
        initial
    } else {
        let prev = apply_hooks_rev(initial, outs.drop_first());
        match outs[0] {
            HookOutcome::Replaced(c) => c,
            HookOutcome::Unchanged => prev,
            HookOutcome::Failed => prev,
        }
    }
}

/// Combine the before-hooks' outcomes, in registration order: each hook
/// may replace the request context, a hook returning nothing leaves it
/// unchanged, and a hook failure aborts the chain (the dispatch engine
/// then treats it as a handler error).
pub fn execute_before_middlewares(initial: u64, outcomes: &Vec<HookOutcome>) -> (r: Result<
    u64,
    usize,
>)
    ensures
        match r {
            Ok(c) => {
                &&& forall|j: int|
                    0 <= j < outcomes@.len() ==> !(#[trigger] outcomes@[j] matches
                        HookOutcome::Failed)
                &&& c == apply_hooks(initial, outcomes@)
            },
            Err(i) => {
                &&& 0 <= i < outcomes@.len()
                &&& outcomes@[i as int] matches HookOutcome::Failed
                &&& forall|j: int|
                    0 <= j < i ==> !(#[trigger] outcomes@[j] matches HookOutcome::Failed)
            },
        },
{
    let n = outcomes.len();
    let mut acc = initial;
    let mut i: usize = 0;
    while i < n
        invariant
            n == outcomes@.len(),
            i <= n,
            acc == apply_hooks(initial, outcomes@.take(i as int)),
            forall|j: int| 0 <= j < i ==> !(#[trigger] outcomes@[j] matches HookOutcome::Failed),
        decreases n - i,
    {
        proof {
            assert(outcomes@.take(i as int + 1).drop_last() =~= outcomes@.take(i as int));
            assert(outcomes@.take(i as int + 1).last() == outcomes@[i as int]);
        }
        match outcomes[i] {
            HookOutcome::Replaced(c) => {
                acc = c;
            }
            HookOutcome::Unchanged => {}
            HookOutcome::Failed => {
                return Err(i);
            }
        }
        i += 1;
    }
    proof {
        assert(outcomes@.take(n as int) =~= outcomes@);
    }
    Ok(acc)
}

/// Combine the after-hooks' outcomes in reverse registration order: each
/// hook may replace the result; a hook that returns nothing or fails
/// leaves the result as it was.
pub fn execute_after_middlewares(initial: u64, outcomes: &Vec<HookOutcome>) -> (r: u64)
    ensures
        r == apply_hooks_rev(initial, outcomes@),
{
    let n = outcomes.len();
    let mut acc = initial;
    let mut i: usize = n;
    while i > 0
        invariant
            n == outcomes@.len(),
            i <= n,
            acc == apply_hooks_rev(initial, outcomes@.skip(i as int)),
        decreases i,
    {
        i -= 1;
        proof {
            assert(outcomes@.skip(i as int).drop_first() =~= outcomes@.skip(i as int + 1));
            assert(outcomes@.skip(i as int)[0] == outcomes@[i as int]);
        }
        match outcomes[i] {
            HookOutcome::Replaced(c) => {
                acc = c;
            }
            HookOutcome::Unchanged => {}
            HookOutcome::Failed => {}
        }
    }
    proof {
        assert(outcomes@.skip(0) =~= outcomes@);
    }
    acc
}

} // verus!
