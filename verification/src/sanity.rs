//! Checking that a strategy's value trees keep the shrinking contract.
//!
//! The contract, over the model of a value tree:
//! - calling `simplify` or `complicate` while either returns `true` comes to
//!   an end;
//! - after each `simplify` that returns `true`, calling `complicate` until it
//!   returns `false` gives back the value from before that `simplify`;
//! - once `complicate` has returned `false` it keeps returning `false` and
//!   the value stays as it was;
//! - `simplify` eventually returns `false`, and from then on keeps returning
//!   `false` and leaves the value as it was.

use vstd::prelude::*;

use vstd::std_specs::cmp::PartialEqSpec;

use crate::runner::{Config, DEFAULT_MAX_LOCAL_REJECTS, Reason, TestRng, TestRunner};
use crate::strategy::{NewTree, NoShrink, Strategy};
use crate::tree::ValueTree;

verus! {

/// How many times in a row `simplify` or `complicate` may return `true`
/// before the checker gives up on a tree.
pub const SHRINK_LIMIT: u32 = 65536;

/// How many further calls of `complicate` must return `false`, leaving the
/// value alone, once it has returned `false`.
pub const COMPLICATE_RECHECKS: u32 = 15;

/// How many further calls of `simplify` must return `false`, leaving the
/// value alone, once it has returned `false`.
pub const SIMPLIFY_RECHECKS: u32 = 16;

/// How many value trees `check_strategy_sanity` generates and checks.
pub const SANITY_CASES: u32 = 1024;

/// How many times in a row generating a tree may fail before
/// `check_strategy_sanity` gives up.
pub const GENERATION_RETRIES: u32 = 100;

/// Options passed to `check_strategy_sanity()`.
#[derive(Clone, Copy, Debug)]
pub struct CheckStrategySanityOptions {
    /// If true (the default), require that `complicate()` return `true` at
    /// least once after any call to `simplify()` which itself returns true.
    ///
    /// This property is not required by contract, but many strategies are
    /// designed in a way that this is expected to hold.
    pub strict_complicate_after_simplify: bool,
    /// If true, cause local rejects to return an error instead of retrying.
    /// Defaults to false. Useful for testing behaviors around error handling.
    pub error_on_local_rejects: bool,
    /// Keeps the struct open to further fields.
    pub _non_exhaustive: (),
}

impl Default for CheckStrategySanityOptions {
    fn default() -> (o: CheckStrategySanityOptions)
        ensures
            o == default_sanity_options(),
    {
        CheckStrategySanityOptions {
            strict_complicate_after_simplify: true,
            error_on_local_rejects: false,
            _non_exhaustive: (),
        }
    }
}

/// The default options: strict about `complicate` after `simplify`, and
/// retrying on local rejects.
pub open spec fn default_sanity_options() -> CheckStrategySanityOptions {
    CheckStrategySanityOptions {
        strict_complicate_after_simplify: true,
        error_on_local_rejects: false,
        _non_exhaustive: (),
    }
}

/// The options that apply when `options` are passed: the defaults if none.
pub open spec fn options_in_effect(options: Option<CheckStrategySanityOptions>) -> CheckStrategySanityOptions {
    match options {
        Some(o) => o,
        None => default_sanity_options(),
    }
}

/// Cloning a value of type `T` gives back an equal value.
pub open spec fn clone_is_faithful<T: Clone>() -> bool {
    forall|a: T, b: T| #[trigger] cloned(a, b) ==> a == b
}

/// Two values count as the same when they are equal, or when neither of them
/// equals itself (as a NaN does not).
pub open spec fn same_value<V: PartialEq>(a: V, b: V) -> bool {
    (a.eq_spec(&a) || b.eq_spec(&b)) ==> a.eq_spec(&b)
}

/// The state of a tree after `n` calls of `simplify`.
pub open spec fn after_simplify<T: ValueTree>(t: T, n: nat) -> T
    decreases n,
{
    if n == 0 {
        t
    } else {
        after_simplify(t, (n - 1) as nat).simplify_spec().0
    }
}

/// The state of a tree after `n` calls of `complicate`.
pub open spec fn after_complicate<T: ValueTree>(t: T, n: nat) -> T
    decreases n,
{
    if n == 0 {
        t
    } else {
        after_complicate(t, (n - 1) as nat).complicate_spec().0
    }
}

/// One evaluation of `simplify() || complicate()`: the state after it and
/// its result.
pub open spec fn shrink_either<T: ValueTree>(t: T) -> (T, bool) {
    if t.simplify_spec().1 {
        t.simplify_spec()
    } else {
        t.simplify_spec().0.complicate_spec()
    }
}

/// The state of a tree after `n` evaluations of `simplify() || complicate()`.
pub open spec fn shrunk_either<T: ValueTree>(t: T, n: nat) -> T
    decreases n,
{
    if n == 0 {
        t
    } else {
        shrink_either(shrunk_either(t, (n - 1) as nat)).0
    }
}

/// Evaluating `simplify() || complicate()` on the tree returns `false`
/// before it has returned `true` more than `SHRINK_LIMIT` times in a row.
pub open spec fn converges<T: ValueTree>(t: T) -> bool {
    exists|k: nat| k <= SHRINK_LIMIT && !#[trigger] shrink_either(shrunk_either(t, k)).1
}

/// Calling `complicate` over and over from `u` returns `true` exactly `m`
/// times and then `false`.
pub open spec fn settles_after<T: ValueTree>(u: T, m: nat) -> bool {
    &&& forall|j: nat| j < m ==> #[trigger] after_complicate(u, j).complicate_spec().1
    &&& !after_complicate(u, m).complicate_spec().1
}

/// How many `complicate` calls in a row may return `true` after a
/// successful `simplify`: in strict mode the first of them is required, and
/// not counted against the limit.
pub open spec fn complicate_limit(strict: bool) -> nat {
    if strict {
        (SHRINK_LIMIT + 1) as nat
    } else {
        SHRINK_LIMIT as nat
    }
}

/// Once `complicate` has returned `false` at `p`, the next
/// `COMPLICATE_RECHECKS` calls return `false` as well, and the value stays
/// that of `p`.
pub open spec fn complicate_stays_settled<T: ValueTree>(p: T) -> bool where T::Value: PartialEq {
    forall|k: nat|
        1 <= k <= COMPLICATE_RECHECKS ==> {
            &&& same_value(p.current_spec(), #[trigger] after_complicate(p, k).current_spec())
            &&& !after_complicate(p, k).complicate_spec().1
        }
}

/// The contract for one successful `simplify` from `before`: complicating
/// the result (at least once, in strict mode) until `complicate` returns
/// `false` ends within the limit, gives back the value of `before`, and
/// stays put.
pub open spec fn shrink_step_sane<T: ValueTree>(before: T, strict: bool) -> bool where
    T::Value: PartialEq,
 {
    let u = before.simplify_spec().0;
    &&& strict ==> u.complicate_spec().1
    &&& exists|m: nat|
        #![trigger settles_after(u, m)]
        {
            &&& m <= complicate_limit(strict)
            &&& settles_after(u, m)
            &&& same_value(before.current_spec(), after_complicate(u, m + 1).current_spec())
            &&& complicate_stays_settled(after_complicate(u, m))
        }
}

/// Once `simplify` has returned `false` at `e`, the next
/// `SIMPLIFY_RECHECKS` states (after that call and after each further call)
/// keep the value of `e`, and those calls return `false` as well.
pub open spec fn simplify_stays_settled<T: ValueTree>(e: T) -> bool where T::Value: PartialEq {
    forall|k: nat|
        1 <= k <= SIMPLIFY_RECHECKS ==> {
            &&& same_value(e.current_spec(), #[trigger] after_simplify(e, k).current_spec())
            &&& !after_simplify(e, k).simplify_spec().1
        }
}

/// The first `n` calls of `simplify` on `t` all return `true`.
pub open spec fn simplifies_for<T: ValueTree>(t: T, n: nat) -> bool {
    forall|i: nat| i < n ==> #[trigger] after_simplify(t, i).simplify_spec().1
}

/// The tree keeps the shrinking contract: shrinking by
/// `simplify() || complicate()` comes to an end; `simplify` returns `false`
/// after at most `SHRINK_LIMIT` successes, and stays so; and every
/// successful `simplify` on the way keeps the contract of
/// `shrink_step_sane`.
pub open spec fn tree_sane<T: ValueTree>(t: T, strict: bool) -> bool where T::Value: PartialEq {
    &&& converges(t)
    &&& exists|n: nat|
        #![trigger after_simplify(t, n)]
        {
            &&& n <= SHRINK_LIMIT
            &&& simplifies_for(t, n)
            &&& !after_simplify(t, n).simplify_spec().1
            &&& forall|i: nat| i < n ==> shrink_step_sane(#[trigger] after_simplify(t, i), strict)
            &&& simplify_stays_settled(after_simplify(t, n))
        }
}

/// Once `complicate` has returned `false` at `p`, the next
/// `COMPLICATE_RECHECKS` calls return `false` as well (the part of
/// `complicate_stays_settled` that compares no values).
pub open spec fn complicate_stays_false<T: ValueTree>(p: T) -> bool {
    forall|k: nat|
        1 <= k <= COMPLICATE_RECHECKS ==> !#[trigger] after_complicate(p, k).complicate_spec().1
}

/// Once `simplify` has returned `false` at `e`, the next
/// `SIMPLIFY_RECHECKS` calls return `false` as well (the part of
/// `simplify_stays_settled` that compares no values).
pub open spec fn simplify_stays_false<T: ValueTree>(e: T) -> bool {
    forall|k: nat| 1 <= k <= SIMPLIFY_RECHECKS ==> !#[trigger] after_simplify(e, k).simplify_spec().1
}

/// The part of `shrink_step_sane` that compares no values: complicating the
/// result of the successful `simplify` from `before` (at least once, in
/// strict mode) until `complicate` returns `false` ends within the limit,
/// and `complicate` then keeps returning `false`.
pub open spec fn shrink_step_shape<T: ValueTree>(before: T, strict: bool) -> bool {
    let u = before.simplify_spec().0;
    &&& strict ==> u.complicate_spec().1
    &&& exists|m: nat|
        #![trigger settles_after(u, m)]
        {
            &&& m <= complicate_limit(strict)
            &&& settles_after(u, m)
            &&& complicate_stays_false(after_complicate(u, m))
        }
}

/// The part of `tree_sane` that compares no values: shrinking by
/// `simplify() || complicate()` comes to an end; `simplify` returns `false`
/// after at most `SHRINK_LIMIT` successes and keeps returning `false`; and
/// every successful `simplify` on the way keeps `shrink_step_shape`.
pub open spec fn tree_shape_sane<T: ValueTree>(t: T, strict: bool) -> bool {
    &&& converges(t)
    &&& exists|n: nat|
        #![trigger after_simplify(t, n)]
        {
            &&& n <= SHRINK_LIMIT
            &&& simplifies_for(t, n)
            &&& !after_simplify(t, n).simplify_spec().1
            &&& forall|i: nat| i < n ==> shrink_step_shape(#[trigger] after_simplify(t, i), strict)
            &&& simplify_stays_false(after_simplify(t, n))
        }
}

/// A breach of the shrinking contract, or a strategy that cannot generate.
///
/// `num_simplifies` counts the successful calls of `simplify` made on the
/// tree before the one in question; `calls` counts calls made since the
/// state it is measured from.
pub enum SanityViolation<T> {
    /// Generating a tree failed more than `GENERATION_RETRIES` times in a
    /// row; `reason` is the last failure's.
    GenerationFailed { reason: Reason },
    /// `simplify() || complicate()` returned `true` more than
    /// `SHRINK_LIMIT` times in a row; `state` is the state reached.
    NoConvergence { state: T },
    /// In strict mode, `complicate` returned `false` right after `simplify`
    /// returned `true`.
    ComplicateFailed { num_simplifies: u32, before_simplified: T, simplified: T, complicated: T },
    /// `complicate` returned `true` too many times in a row after `simplify`
    /// led to `simplified`; `complicated` is the state reached.
    ComplicateUnending { num_simplifies: u32, simplified: T, complicated: T },
    /// Calling `complicate` until it returned `false` (`calls` times) from
    /// `simplified` did not give back the value of `before_simplified`.
    NotRestored {
        num_simplifies: u32,
        before_simplified: T,
        simplified: T,
        calls: u32,
        complicated: T,
    },
    /// After `complicate` returned `false` at `prev_complicated`, the value
    /// changed within the next `calls` calls.
    ComplicateChangedValue { num_simplifies: u32, prev_complicated: T, calls: u32, complicated: T },
    /// After `complicate` returned `false` at `prev_complicated`, the last of
    /// the next `calls` calls returned `true`.
    ComplicateResumed { num_simplifies: u32, prev_complicated: T, calls: u32, complicated: T },
    /// `simplify` returned `true` more than `SHRINK_LIMIT` times in a row;
    /// `state` is the state reached.
    SimplifyUnending { state: T },
    /// After `simplify` returned `false` at `before_simplified`, the value
    /// changed within the next `calls` calls.
    SimplifyChangedValue { num_simplifies: u32, before_simplified: T, calls: u32, state: T },
    /// After `simplify` returned `false` at `before_simplified`, the last of
    /// the next `calls` calls returned `true`.
    SimplifyResumed { num_simplifies: u32, before_simplified: T, calls: u32, state: T },
}

/// The states along the chain of successful `complicate` calls after the
/// `num_simplifies`-th successful `simplify` of `t`: `p` is reached and is
/// where `complicate` first returns `false`.
pub open spec fn settled_complication<T: ValueTree>(t: T, num_simplifies: nat, p: T, strict: bool) -> bool where
    T::Value: PartialEq,
 {
    let before = after_simplify(t, num_simplifies);
    let u = before.simplify_spec().0;
    &&& simplifies_for(t, (num_simplifies + 1) as nat)
    &&& exists|m: nat|
        #![trigger settles_after(u, m)]
        {
            &&& settles_after(u, m)
            &&& p == after_complicate(u, m)
            &&& m <= complicate_limit(strict)
            &&& strict ==> m >= 1
            &&& T::Value::obeys_eq_spec() ==> same_value(
                before.current_spec(),
                after_complicate(u, m + 1).current_spec(),
            )
        }
}

/// The checks that come before those on the `num_simplifies`-th successful
/// `simplify` all passed: the tree converges, and every earlier successful
/// `simplify` kept the contract of `shrink_step_sane`.
pub open spec fn earlier_steps_passed<T: ValueTree>(t: T, num_simplifies: nat, strict: bool) -> bool where
    T::Value: PartialEq,
 {
    &&& converges(t)
    &&& T::Value::obeys_eq_spec() ==> forall|i: nat|
        i < num_simplifies ==> shrink_step_sane(#[trigger] after_simplify(t, i), strict)
}

/// What a violation reported for the tree `t` shows about it.
pub open spec fn violation_shown<T: ValueTree>(t: T, strict: bool, v: SanityViolation<T>) -> bool where
    T::Value: PartialEq,
 {
    match v {
        SanityViolation::GenerationFailed { .. } => false,
        SanityViolation::NoConvergence { state } => {
            &&& !converges(t)
            &&& state == shrunk_either(t, (SHRINK_LIMIT + 1) as nat)
        },
        SanityViolation::ComplicateFailed { num_simplifies, before_simplified, simplified, complicated } => {
            &&& strict
            &&& earlier_steps_passed(t, num_simplifies as nat, strict)
            &&& simplifies_for(t, (num_simplifies + 1) as nat)
            &&& before_simplified == after_simplify(t, num_simplifies as nat)
            &&& simplified == before_simplified.simplify_spec().0
            &&& simplified.complicate_spec() == (complicated, false)
        },
        SanityViolation::ComplicateUnending { num_simplifies, simplified, complicated } => {
            &&& earlier_steps_passed(t, num_simplifies as nat, strict)
            &&& simplifies_for(t, (num_simplifies + 1) as nat)
            &&& simplified == after_simplify(t, num_simplifies as nat).simplify_spec().0
            &&& forall|j: nat|
                j <= complicate_limit(strict) ==> #[trigger] after_complicate(
                    simplified,
                    j,
                ).complicate_spec().1
            &&& complicated == after_complicate(simplified, complicate_limit(strict) + 1)
        },
        SanityViolation::NotRestored {
            num_simplifies,
            before_simplified,
            simplified,
            calls,
            complicated,
        } => {
            &&& simplifies_for(t, (num_simplifies + 1) as nat)
            &&& before_simplified == after_simplify(t, num_simplifies as nat)
            &&& simplified == before_simplified.simplify_spec().0
            &&& earlier_steps_passed(t, num_simplifies as nat, strict)
            &&& 1 <= calls
            &&& calls - 1 <= complicate_limit(strict)
            &&& strict ==> calls >= 2
            &&& settles_after(simplified, (calls - 1) as nat)
            &&& complicated == after_complicate(simplified, calls as nat)
            &&& T::Value::obeys_eq_spec() ==> !same_value(
                before_simplified.current_spec(),
                complicated.current_spec(),
            )
        },
        SanityViolation::ComplicateChangedValue { num_simplifies, prev_complicated, calls, complicated } => {
            &&& earlier_steps_passed(t, num_simplifies as nat, strict)
            &&& settled_complication(t, num_simplifies as nat, prev_complicated, strict)
            &&& 1 <= calls <= COMPLICATE_RECHECKS
            &&& T::Value::obeys_eq_spec() ==> forall|k: nat|
                1 <= k < calls ==> {
                    &&& same_value(
                        prev_complicated.current_spec(),
                        #[trigger] after_complicate(prev_complicated, k).current_spec(),
                    )
                    &&& !after_complicate(prev_complicated, k).complicate_spec().1
                }
            &&& complicated == after_complicate(prev_complicated, calls as nat)
            &&& T::Value::obeys_eq_spec() ==> !same_value(
                prev_complicated.current_spec(),
                complicated.current_spec(),
            )
        },
        SanityViolation::ComplicateResumed { num_simplifies, prev_complicated, calls, complicated } => {
            &&& earlier_steps_passed(t, num_simplifies as nat, strict)
            &&& settled_complication(t, num_simplifies as nat, prev_complicated, strict)
            &&& 2 <= calls <= COMPLICATE_RECHECKS + 1
            &&& T::Value::obeys_eq_spec() ==> forall|k: nat|
                1 <= k < calls ==> same_value(
                    prev_complicated.current_spec(),
                    #[trigger] after_complicate(prev_complicated, k).current_spec(),
                )
            &&& forall|k: nat|
                1 <= k < calls - 1 ==> !#[trigger] after_complicate(prev_complicated, k).complicate_spec().1
            &&& after_complicate(prev_complicated, (calls - 1) as nat).complicate_spec() == (
                complicated,
                true,
            )
        },
        SanityViolation::SimplifyUnending { state } => {
            &&& earlier_steps_passed(t, (SHRINK_LIMIT + 1) as nat, strict)
            &&& simplifies_for(t, (SHRINK_LIMIT + 1) as nat)
            &&& state == after_simplify(t, (SHRINK_LIMIT + 1) as nat)
        },
        SanityViolation::SimplifyChangedValue { num_simplifies, before_simplified, calls, state } => {
            &&& simplifies_for(t, num_simplifies as nat)
            &&& before_simplified == after_simplify(t, num_simplifies as nat)
            &&& !before_simplified.simplify_spec().1
            &&& earlier_steps_passed(t, num_simplifies as nat, strict)
            &&& 1 <= calls <= SIMPLIFY_RECHECKS
            &&& T::Value::obeys_eq_spec() ==> forall|k: nat|
                1 <= k < calls ==> {
                    &&& same_value(
                        before_simplified.current_spec(),
                        #[trigger] after_simplify(before_simplified, k).current_spec(),
                    )
                    &&& !after_simplify(before_simplified, k).simplify_spec().1
                }
            &&& state == after_simplify(before_simplified, calls as nat)
            &&& T::Value::obeys_eq_spec() ==> !same_value(
                before_simplified.current_spec(),
                state.current_spec(),
            )
        },
        SanityViolation::SimplifyResumed { num_simplifies, before_simplified, calls, state } => {
            &&& simplifies_for(t, num_simplifies as nat)
            &&& before_simplified == after_simplify(t, num_simplifies as nat)
            &&& !before_simplified.simplify_spec().1
            &&& earlier_steps_passed(t, num_simplifies as nat, strict)
            &&& 2 <= calls <= SIMPLIFY_RECHECKS + 1
            &&& T::Value::obeys_eq_spec() ==> forall|k: nat|
                1 <= k < calls ==> same_value(
                    before_simplified.current_spec(),
                    #[trigger] after_simplify(before_simplified, k).current_spec(),
                )
            &&& forall|k: nat|
                1 <= k < calls - 1 ==> !#[trigger] after_simplify(before_simplified, k).simplify_spec().1
            &&& after_simplify(before_simplified, (calls - 1) as nat).simplify_spec() == (state, true)
        },
    }
}

/// `complicate` first returns `false` after one number of successes only.
proof fn lemma_settles_once<T: ValueTree>(u: T, a: nat, b: nat)
    requires
        settles_after(u, a),
        settles_after(u, b),
    ensures
        a == b,
{
    if a < b {
        assert(after_complicate(u, a).complicate_spec().1);
    } else if b < a {
        assert(after_complicate(u, b).complicate_spec().1);
    }
}

/// In a tree that keeps the contract, the `i`-th successful `simplify`
/// keeps the contract of one step; `m` is the number of successful
/// `complicate` calls that follow it.
proof fn lemma_sane_step<T: ValueTree>(t: T, strict: bool, i: nat) -> (m: nat) where
    T::Value: PartialEq,
 
    requires
        tree_sane(t, strict),
        simplifies_for(t, i + 1),
    ensures
        shrink_step_sane(after_simplify(t, i), strict),
        m <= complicate_limit(strict),
        settles_after(after_simplify(t, i).simplify_spec().0, m),
        same_value(
            after_simplify(t, i).current_spec(),
            after_complicate(after_simplify(t, i).simplify_spec().0, m + 1).current_spec(),
        ),
        complicate_stays_settled(after_complicate(after_simplify(t, i).simplify_spec().0, m)),
{
    let n = lemma_sane_chain(t, strict);
    assert(after_simplify(t, i).simplify_spec().1);
    if n <= i {
        assert(after_simplify(t, n).simplify_spec().1);
    }
    assert(shrink_step_sane(after_simplify(t, i), strict));
    let u = after_simplify(t, i).simplify_spec().0;
    choose|m: nat|
        #![trigger settles_after(u, m)]
        {
            &&& m <= complicate_limit(strict)
            &&& settles_after(u, m)
            &&& same_value(after_simplify(t, i).current_spec(), after_complicate(u, m + 1).current_spec())
            &&& complicate_stays_settled(after_complicate(u, m))
        }
}

/// In a tree that keeps the contract, `n` is the number of successful
/// `simplify` calls.
proof fn lemma_sane_chain<T: ValueTree>(t: T, strict: bool) -> (n: nat) where T::Value: PartialEq
    requires
        tree_sane(t, strict),
    ensures
        n <= SHRINK_LIMIT,
        simplifies_for(t, n),
        !after_simplify(t, n).simplify_spec().1,
        forall|i: nat| i < n ==> shrink_step_sane(#[trigger] after_simplify(t, i), strict),
        simplify_stays_settled(after_simplify(t, n)),
{
    choose|n: nat|
        #![trigger after_simplify(t, n)]
        {
            &&& n <= SHRINK_LIMIT
            &&& simplifies_for(t, n)
            &&& !after_simplify(t, n).simplify_spec().1
            &&& forall|i: nat| i < n ==> shrink_step_sane(#[trigger] after_simplify(t, i), strict)
            &&& simplify_stays_settled(after_simplify(t, n))
        }
}

/// The part of the contract that compares no values is part of the
/// contract: a sane tree keeps `tree_shape_sane`.
pub proof fn lemma_sane_has_shape<T: ValueTree>(t: T, strict: bool) where T::Value: PartialEq
    requires
        tree_sane(t, strict),
    ensures
        tree_shape_sane(t, strict),
{
    let n = lemma_sane_chain(t, strict);
    assert forall|i: nat| i < n implies shrink_step_shape(#[trigger] after_simplify(t, i), strict) by {
        assert(simplifies_for(t, i + 1)) by {
            assert forall|j: nat| j < i + 1 implies #[trigger] after_simplify(t, j).simplify_spec().1 by {
                assert(after_simplify(t, j).simplify_spec().1);
            }
        }
        let m = lemma_sane_step(t, strict, i);
        let u = after_simplify(t, i).simplify_spec().0;
        let p = after_complicate(u, m);
        assert forall|k: nat| 1 <= k <= COMPLICATE_RECHECKS implies !#[trigger] after_complicate(p, k).complicate_spec().1 by {
            assert(same_value(p.current_spec(), after_complicate(p, k).current_spec()));
        }
        assert(settles_after(u, m));
    }
    let e = after_simplify(t, n);
    assert forall|k: nat| 1 <= k <= SIMPLIFY_RECHECKS implies !#[trigger] after_simplify(e, k).simplify_spec().1 by {
        assert(same_value(e.current_spec(), after_simplify(e, k).current_spec()));
    }
    assert(after_simplify(t, n) == e);
}


/// Where in the check a violation found on a successful `simplify` lies:
/// the number of successful `simplify` calls before it.
pub open spec fn step_index<T>(v: SanityViolation<T>) -> Option<nat> {
    match v {
        SanityViolation::ComplicateFailed { num_simplifies, .. } => Some(num_simplifies as nat),
        SanityViolation::ComplicateUnending { num_simplifies, .. } => Some(num_simplifies as nat),
        SanityViolation::NotRestored { num_simplifies, .. } => Some(num_simplifies as nat),
        SanityViolation::ComplicateChangedValue { num_simplifies, .. } => Some(num_simplifies as nat),
        SanityViolation::ComplicateResumed { num_simplifies, .. } => Some(num_simplifies as nat),
        _ => None,
    }
}

/// Where in the check a violation found after `simplify` returned `false`
/// lies: the number of successful `simplify` calls before it.
pub open spec fn settle_index<T>(v: SanityViolation<T>) -> Option<nat> {
    match v {
        SanityViolation::SimplifyChangedValue { num_simplifies, .. } => Some(num_simplifies as nat),
        SanityViolation::SimplifyResumed { num_simplifies, .. } => Some(num_simplifies as nat),
        _ => None,
    }
}

/// The `m` of a settled complication: how many `complicate` calls returned
/// `true` after the successful `simplify` from `before`.
proof fn lemma_settled_count<T: ValueTree>(t: T, i: nat, p: T, strict: bool) -> (m: nat) where
    T::Value: PartialEq,
 
    requires
        settled_complication(t, i, p, strict),
    ensures
        settles_after(after_simplify(t, i).simplify_spec().0, m),
        p == after_complicate(after_simplify(t, i).simplify_spec().0, m),
        m <= complicate_limit(strict),
        strict ==> m >= 1,
        T::Value::obeys_eq_spec() ==> same_value(
            after_simplify(t, i).current_spec(),
            after_complicate(after_simplify(t, i).simplify_spec().0, m + 1).current_spec(),
        ),
{
    let u = after_simplify(t, i).simplify_spec().0;
    choose|m: nat|
        #![trigger settles_after(u, m)]
        {
            &&& settles_after(u, m)
            &&& p == after_complicate(u, m)
            &&& m <= complicate_limit(strict)
            &&& strict ==> m >= 1
            &&& T::Value::obeys_eq_spec() ==> same_value(
                after_simplify(t, i).current_spec(),
                after_complicate(u, m + 1).current_spec(),
            )
        }
}

/// A violation found on the `i`-th successful `simplify` shows that step
/// breaks the contract of `shrink_step_sane`.
proof fn lemma_step_violation_breaks_step<T: ValueTree>(t: T, strict: bool, v: SanityViolation<T>) where
    T::Value: PartialEq,
 
    requires
        T::Value::obeys_eq_spec(),
        violation_shown(t, strict, v),
        step_index(v) is Some,
    ensures
        !shrink_step_sane(after_simplify(t, step_index(v)->0), strict),
{
    let i = step_index(v)->0;
    let before = after_simplify(t, i);
    let u = before.simplify_spec().0;
    if shrink_step_sane(before, strict) {
        let m = choose|m: nat|
            #![trigger settles_after(u, m)]
            {
                &&& m <= complicate_limit(strict)
                &&& settles_after(u, m)
                &&& same_value(before.current_spec(), after_complicate(u, m + 1).current_spec())
                &&& complicate_stays_settled(after_complicate(u, m))
            };
        match v {
            SanityViolation::ComplicateUnending { .. } => {
                assert(after_complicate(u, m).complicate_spec().1);
            },
            SanityViolation::NotRestored { calls, .. } => {
                lemma_settles_once(u, m, (calls - 1) as nat);
            },
            SanityViolation::ComplicateChangedValue { prev_complicated, .. } => {
                let m0 = lemma_settled_count(t, i, prev_complicated, strict);
                lemma_settles_once(u, m, m0);
            },
            SanityViolation::ComplicateResumed { prev_complicated, calls, .. } => {
                let m0 = lemma_settled_count(t, i, prev_complicated, strict);
                lemma_settles_once(u, m, m0);
                let k = (calls - 1) as nat;
                assert(same_value(
                    prev_complicated.current_spec(),
                    after_complicate(prev_complicated, k).current_spec(),
                ));
            },
            _ => {},
        }
    }
}

/// The rank of a violation among those that one successful `simplify` can
/// show, in the order the checks are made.
spec fn step_rank<T>(v: SanityViolation<T>) -> nat {
    match v {
        SanityViolation::ComplicateFailed { .. } => 0,
        SanityViolation::ComplicateUnending { .. } => 1,
        SanityViolation::NotRestored { .. } => 2,
        SanityViolation::ComplicateChangedValue { .. } => 3,
        _ => 4,
    }
}

/// Two violations shown on the same successful `simplify` are the same, for
/// ranks in order.
proof fn lemma_same_step_ordered<T: ValueTree>(
    t: T,
    strict: bool,
    v1: SanityViolation<T>,
    v2: SanityViolation<T>,
) where T::Value: PartialEq
    requires
        T::Value::obeys_eq_spec(),
        violation_shown(t, strict, v1),
        violation_shown(t, strict, v2),
        step_index(v1) is Some,
        step_index(v1) == step_index(v2),
        step_rank(v1) <= step_rank(v2),
    ensures
        v1 == v2,
{
    let i = step_index(v1)->0;
    let before = after_simplify(t, i);
    let u = before.simplify_spec().0;
    assert(after_complicate(u, 0) == u);
    match v1 {
        SanityViolation::ComplicateFailed { .. } => {
            match v2 {
                SanityViolation::ComplicateFailed { .. } => {},
                SanityViolation::ComplicateUnending { .. } => {
                    assert(after_complicate(u, 0).complicate_spec().1);
                },
                SanityViolation::NotRestored { .. } => {
                    assert(after_complicate(u, 0).complicate_spec().1);
                },
                SanityViolation::ComplicateChangedValue { prev_complicated, .. } => {
                    lemma_settled_count(t, i, prev_complicated, strict);
                    assert(after_complicate(u, 0).complicate_spec().1);
                },
                SanityViolation::ComplicateResumed { prev_complicated, .. } => {
                    lemma_settled_count(t, i, prev_complicated, strict);
                    assert(after_complicate(u, 0).complicate_spec().1);
                },
                _ => {},
            }
        },
        SanityViolation::ComplicateUnending { .. } => {
            match v2 {
                SanityViolation::ComplicateUnending { .. } => {},
                SanityViolation::NotRestored { calls, .. } => {
                    assert(after_complicate(u, (calls - 1) as nat).complicate_spec().1);
                },
                SanityViolation::ComplicateChangedValue { prev_complicated, .. } => {
                    let m = lemma_settled_count(t, i, prev_complicated, strict);
                    assert(after_complicate(u, m).complicate_spec().1);
                },
                SanityViolation::ComplicateResumed { prev_complicated, .. } => {
                    let m = lemma_settled_count(t, i, prev_complicated, strict);
                    assert(after_complicate(u, m).complicate_spec().1);
                },
                _ => {},
            }
        },
        SanityViolation::NotRestored { calls: c1, .. } => {
            match v2 {
                SanityViolation::NotRestored { calls: c2, .. } => {
                    lemma_settles_once(u, (c1 - 1) as nat, (c2 - 1) as nat);
                },
                SanityViolation::ComplicateChangedValue { prev_complicated, .. } => {
                    let m = lemma_settled_count(t, i, prev_complicated, strict);
                    lemma_settles_once(u, m, (c1 - 1) as nat);
                },
                SanityViolation::ComplicateResumed { prev_complicated, .. } => {
                    let m = lemma_settled_count(t, i, prev_complicated, strict);
                    lemma_settles_once(u, m, (c1 - 1) as nat);
                },
                _ => {},
            }
        },
        SanityViolation::ComplicateChangedValue { prev_complicated: p1, calls: c1, .. } => {
            let m1 = lemma_settled_count(t, i, p1, strict);
            match v2 {
                SanityViolation::ComplicateChangedValue { prev_complicated: p2, calls: c2, .. } => {
                    let m2 = lemma_settled_count(t, i, p2, strict);
                    lemma_settles_once(u, m1, m2);
                    if c1 < c2 {
                        assert(same_value(p1.current_spec(), after_complicate(p1, c1 as nat).current_spec()));
                    } else if c2 < c1 {
                        assert(same_value(p1.current_spec(), after_complicate(p1, c2 as nat).current_spec()));
                    }
                },
                SanityViolation::ComplicateResumed { prev_complicated: p2, calls: c2, .. } => {
                    let m2 = lemma_settled_count(t, i, p2, strict);
                    lemma_settles_once(u, m1, m2);
                    if c1 < c2 {
                        assert(same_value(p1.current_spec(), after_complicate(p1, c1 as nat).current_spec()));
                    } else {
                        assert(same_value(
                            p1.current_spec(),
                            after_complicate(p1, (c2 - 1) as nat).current_spec(),
                        ));
                    }
                },
                _ => {},
            }
        },
        SanityViolation::ComplicateResumed { prev_complicated: p1, calls: c1, .. } => {
            let m1 = lemma_settled_count(t, i, p1, strict);
            match v2 {
                SanityViolation::ComplicateResumed { prev_complicated: p2, calls: c2, .. } => {
                    let m2 = lemma_settled_count(t, i, p2, strict);
                    lemma_settles_once(u, m1, m2);
                    if c1 < c2 {
                        assert(after_complicate(p1, (c1 - 1) as nat).complicate_spec().1);
                    } else if c2 < c1 {
                        assert(after_complicate(p1, (c2 - 1) as nat).complicate_spec().1);
                    }
                },
                _ => {},
            }
        },
        _ => {},
    }
}

/// Two violations shown after `simplify` returned `false` are the same.
proof fn lemma_same_settle<T: ValueTree>(t: T, strict: bool, v1: SanityViolation<T>, v2: SanityViolation<T>) where
    T::Value: PartialEq,
 
    requires
        T::Value::obeys_eq_spec(),
        violation_shown(t, strict, v1),
        violation_shown(t, strict, v2),
        settle_index(v1) is Some,
        settle_index(v2) is Some,
    ensures
        v1 == v2,
{
    let n1 = settle_index(v1)->0;
    let n2 = settle_index(v2)->0;
    if n1 < n2 {
        assert(after_simplify(t, n1).simplify_spec().1);
    } else if n2 < n1 {
        assert(after_simplify(t, n2).simplify_spec().1);
    }
    let e = after_simplify(t, n1);
    match v1 {
        SanityViolation::SimplifyChangedValue { calls: c1, .. } => {
            match v2 {
                SanityViolation::SimplifyChangedValue { calls: c2, .. } => {
                    if c1 < c2 {
                        assert(same_value(e.current_spec(), after_simplify(e, c1 as nat).current_spec()));
                    } else if c2 < c1 {
                        assert(same_value(e.current_spec(), after_simplify(e, c2 as nat).current_spec()));
                    }
                },
                SanityViolation::SimplifyResumed { calls: c2, .. } => {
                    if c1 < c2 {
                        assert(same_value(e.current_spec(), after_simplify(e, c1 as nat).current_spec()));
                    } else {
                        assert(same_value(e.current_spec(), after_simplify(e, (c2 - 1) as nat).current_spec()));
                    }
                },
                _ => {},
            }
        },
        SanityViolation::SimplifyResumed { calls: c1, .. } => {
            match v2 {
                SanityViolation::SimplifyChangedValue { calls: c2, .. } => {
                    if c2 < c1 {
                        assert(same_value(e.current_spec(), after_simplify(e, c2 as nat).current_spec()));
                    } else {
                        assert(same_value(e.current_spec(), after_simplify(e, (c1 - 1) as nat).current_spec()));
                    }
                },
                SanityViolation::SimplifyResumed { calls: c2, .. } => {
                    if c1 < c2 {
                        assert(after_simplify(e, (c1 - 1) as nat).simplify_spec().1);
                    } else if c2 < c1 {
                        assert(after_simplify(e, (c2 - 1) as nat).simplify_spec().1);
                    }
                },
                _ => {},
            }
        },
        _ => {},
    }
}

/// The violation shown for a tree is unique: a tree breaks the contract in
/// one first place, and the checker can report only that one (where the
/// values' equality is specified).
pub proof fn lemma_violation_unique<T: ValueTree>(
    t: T,
    strict: bool,
    v1: SanityViolation<T>,
    v2: SanityViolation<T>,
) where T::Value: PartialEq
    requires
        T::Value::obeys_eq_spec(),
        violation_shown(t, strict, v1),
        violation_shown(t, strict, v2),
    ensures
        v1 == v2,
{
    if v1 is SimplifyUnending {
        lemma_convergence_bounds_simplify(t);
    } else if v2 is SimplifyUnending {
        lemma_convergence_bounds_simplify(t);
    } else if v1 is NoConvergence || v2 is NoConvergence {
    } else if step_index(v1) is Some && step_index(v2) is Some {
        let i = step_index(v1)->0;
        let j = step_index(v2)->0;
        if i < j {
            lemma_step_violation_breaks_step(t, strict, v1);
        } else if j < i {
            lemma_step_violation_breaks_step(t, strict, v2);
        } else if step_rank(v1) <= step_rank(v2) {
            lemma_same_step_ordered(t, strict, v1, v2);
        } else {
            lemma_same_step_ordered(t, strict, v2, v1);
        }
    } else if step_index(v1) is Some && settle_index(v2) is Some {
        let i = step_index(v1)->0;
        let n = settle_index(v2)->0;
        if n <= i {
            assert(after_simplify(t, n).simplify_spec().1);
        } else {
            lemma_step_violation_breaks_step(t, strict, v1);
        }
    } else if settle_index(v1) is Some && step_index(v2) is Some {
        let n = settle_index(v1)->0;
        let i = step_index(v2)->0;
        if n <= i {
            assert(after_simplify(t, n).simplify_spec().1);
        } else {
            lemma_step_violation_breaks_step(t, strict, v2);
        }
    } else if settle_index(v1) is Some && settle_index(v2) is Some {
        lemma_same_settle(t, strict, v1, v2);
    }
}

/// Every violation that the checker can report for a tree is a breach of the
/// shrinking contract: a tree for which one is shown is not sane.
pub proof fn lemma_violation_breaks_contract<T: ValueTree>(
    t: T,
    strict: bool,
    v: SanityViolation<T>,
) where T::Value: PartialEq
    requires
        T::Value::obeys_eq_spec(),
        violation_shown(t, strict, v),
    ensures
        !tree_sane(t, strict),
{
    if tree_sane(t, strict) {
        match v {
            SanityViolation::GenerationFailed { .. } => {},
            SanityViolation::NoConvergence { .. } => {},
            SanityViolation::ComplicateFailed { num_simplifies, .. } => {
                lemma_sane_step(t, strict, num_simplifies as nat);
            },
            SanityViolation::ComplicateUnending { num_simplifies, simplified, .. } => {
                let m = lemma_sane_step(t, strict, num_simplifies as nat);
                assert(after_complicate(simplified, m).complicate_spec().1);
            },
            SanityViolation::NotRestored { num_simplifies, simplified, calls, .. } => {
                let m = lemma_sane_step(t, strict, num_simplifies as nat);
                lemma_settles_once(simplified, m, (calls - 1) as nat);
            },
            SanityViolation::ComplicateChangedValue { num_simplifies, prev_complicated, .. } => {
                let u = after_simplify(t, num_simplifies as nat).simplify_spec().0;
                let m = lemma_sane_step(t, strict, num_simplifies as nat);
                let m0 = choose|m: nat| #[trigger] settles_after(u, m) && prev_complicated == after_complicate(u, m);
                lemma_settles_once(u, m, m0);
            },
            SanityViolation::ComplicateResumed { num_simplifies, prev_complicated, calls, .. } => {
                let u = after_simplify(t, num_simplifies as nat).simplify_spec().0;
                let m = lemma_sane_step(t, strict, num_simplifies as nat);
                let m0 = choose|m: nat| #[trigger] settles_after(u, m) && prev_complicated == after_complicate(u, m);
                lemma_settles_once(u, m, m0);
                let k = (calls - 1) as nat;
                assert(same_value(prev_complicated.current_spec(), after_complicate(prev_complicated, k).current_spec()));
            },
            SanityViolation::SimplifyUnending { .. } => {
                let n = lemma_sane_chain(t, strict);
                assert(after_simplify(t, n).simplify_spec().1);
            },
            SanityViolation::SimplifyChangedValue { num_simplifies, .. } => {
                let n = lemma_sane_chain(t, strict);
                let i = num_simplifies as nat;
                if n < i {
                    assert(after_simplify(t, n).simplify_spec().1);
                }
                if i < n {
                    assert(after_simplify(t, i).simplify_spec().1);
                }
            },
            SanityViolation::SimplifyResumed { num_simplifies, calls, .. } => {
                let n = lemma_sane_chain(t, strict);
                let i = num_simplifies as nat;
                if n < i {
                    assert(after_simplify(t, n).simplify_spec().1);
                }
                if i < n {
                    assert(after_simplify(t, i).simplify_spec().1);
                }
                let e = after_simplify(t, i);
                let k = (calls - 1) as nat;
                assert(same_value(e.current_spec(), after_simplify(e, k).current_spec()));
            },
        }
    }
}

/// A value compares as the same as itself, whatever its `PartialEq` does.
proof fn lemma_same_value_reflexive<V: PartialEq>(v: V)
    ensures
        same_value(v, v),
{
}

/// Simplifying a tree that never shrinks leaves it as it is.
proof fn lemma_no_shrink_stays<T: ValueTree>(t: NoShrink<T>, n: nat)
    ensures
        after_simplify(t, n) == t,
    decreases n,
{
    if n > 0 {
        lemma_no_shrink_stays(t, (n - 1) as nat);
    }
}

/// A tree wrapped in `NoShrink` keeps the shrinking contract, in strict mode
/// too: it is already as simple as it gets, and its value never moves.
pub proof fn lemma_no_shrink_keeps_contract<T: ValueTree>(t: NoShrink<T>, strict: bool) where
    T::Value: PartialEq,
 
    ensures
        tree_sane(t, strict),
{
    assert(shrunk_either(t, 0) == t);
    assert(!shrink_either(shrunk_either(t, 0)).1);
    lemma_no_shrink_stays(t, 0);
    assert forall|k: nat| 1 <= k <= SIMPLIFY_RECHECKS implies {
        &&& same_value(t.current_spec(), #[trigger] after_simplify(t, k).current_spec())
        &&& !after_simplify(t, k).simplify_spec().1
    } by {
        lemma_no_shrink_stays(t, k);
        lemma_same_value_reflexive(t.current_spec());
    }
    assert(simplify_stays_settled(after_simplify(t, 0)));
    assert(simplifies_for(t, 0));
}


/// Shrinking a boxed tree shrinks the tree inside the box.
proof fn lemma_box_iterates<T: ValueTree>(t: T, n: nat)
    ensures
        after_simplify(Box::new(t), n) == Box::new(after_simplify(t, n)),
        after_complicate(Box::new(t), n) == Box::new(after_complicate(t, n)),
        shrunk_either(Box::new(t), n) == Box::new(shrunk_either(t, n)),
        shrink_either(Box::new(t)) == (Box::new(shrink_either(t).0), shrink_either(t).1),
    decreases n,
{
    if n > 0 {
        lemma_box_iterates(t, (n - 1) as nat);
    }
}

/// `lemma_box_iterates`, for every tree and count.
proof fn lemma_box_iterates_all<T: ValueTree>()
    ensures
        forall|x: T, n: nat|
            #[trigger] after_simplify(Box::new(x), n) == Box::new(after_simplify(x, n)),
        forall|x: T, n: nat|
            #[trigger] after_complicate(Box::new(x), n) == Box::new(after_complicate(x, n)),
        forall|x: T, n: nat|
            #[trigger] shrunk_either(Box::new(x), n) == Box::new(shrunk_either(x, n)),
{
    assert forall|x: T, n: nat|
        #[trigger] after_simplify(Box::new(x), n) == Box::new(after_simplify(x, n)) by {
        lemma_box_iterates(x, n);
    }
    assert forall|x: T, n: nat|
        #[trigger] after_complicate(Box::new(x), n) == Box::new(after_complicate(x, n)) by {
        lemma_box_iterates(x, n);
    }
    assert forall|x: T, n: nat|
        #[trigger] shrunk_either(Box::new(x), n) == Box::new(shrunk_either(x, n)) by {
        lemma_box_iterates(x, n);
    }
}

/// The contract for one successful `simplify` holds for a boxed tree
/// exactly when it holds for the tree inside.
proof fn lemma_box_step<T: ValueTree>(x: T, strict: bool) where T::Value: PartialEq
    ensures
        shrink_step_sane(Box::new(x), strict) == shrink_step_sane(x, strict),
        simplify_stays_settled(Box::new(x)) == simplify_stays_settled(x),
{
    lemma_box_iterates_all::<T>();
    let u = x.simplify_spec().0;
    let bu = Box::new(x).simplify_spec().0;
    assert(bu == Box::new(u));
    assert forall|m: nat| #[trigger] settles_after(bu, m) == settles_after(u, m) by {
        assert(after_complicate(bu, m) == Box::new(after_complicate(u, m)));
        if settles_after(u, m) {
            assert forall|j: nat| j < m implies #[trigger] after_complicate(bu, j).complicate_spec().1 by {
                assert(after_complicate(bu, j) == Box::new(after_complicate(u, j)));
                assert(after_complicate(u, j).complicate_spec().1);
            }
        }
        if settles_after(bu, m) {
            assert forall|j: nat| j < m implies #[trigger] after_complicate(u, j).complicate_spec().1 by {
                assert(after_complicate(bu, j) == Box::new(after_complicate(u, j)));
                assert(after_complicate(bu, j).complicate_spec().1);
            }
        }
    }
    assert forall|p: T| #[trigger] complicate_stays_settled(Box::new(p)) == complicate_stays_settled(p) by {
        if complicate_stays_settled(p) {
            assert forall|k: nat| 1 <= k <= COMPLICATE_RECHECKS implies {
                &&& same_value(Box::new(p).current_spec(), #[trigger] after_complicate(Box::new(p), k).current_spec())
                &&& !after_complicate(Box::new(p), k).complicate_spec().1
            } by {
                assert(after_complicate(Box::new(p), k) == Box::new(after_complicate(p, k)));
                assert(same_value(p.current_spec(), after_complicate(p, k).current_spec()));
            }
        }
        if complicate_stays_settled(Box::new(p)) {
            assert forall|k: nat| 1 <= k <= COMPLICATE_RECHECKS implies {
                &&& same_value(p.current_spec(), #[trigger] after_complicate(p, k).current_spec())
                &&& !after_complicate(p, k).complicate_spec().1
            } by {
                assert(after_complicate(Box::new(p), k) == Box::new(after_complicate(p, k)));
                assert(same_value(Box::new(p).current_spec(), after_complicate(Box::new(p), k).current_spec()));
            }
        }
    }
    if shrink_step_sane(x, strict) {
        let m = choose|m: nat|
            #![trigger settles_after(u, m)]
            {
                &&& m <= complicate_limit(strict)
                &&& settles_after(u, m)
                &&& same_value(x.current_spec(), after_complicate(u, m + 1).current_spec())
                &&& complicate_stays_settled(after_complicate(u, m))
            };
        assert(settles_after(bu, m));
        assert(after_complicate(bu, m) == Box::new(after_complicate(u, m)));
        assert(after_complicate(bu, m + 1) == Box::new(after_complicate(u, m + 1)));
        assert(complicate_stays_settled(Box::new(after_complicate(u, m))));
    }
    if shrink_step_sane(Box::new(x), strict) {
        let m = choose|m: nat|
            #![trigger settles_after(bu, m)]
            {
                &&& m <= complicate_limit(strict)
                &&& settles_after(bu, m)
                &&& same_value(Box::new(x).current_spec(), after_complicate(bu, m + 1).current_spec())
                &&& complicate_stays_settled(after_complicate(bu, m))
            };
        assert(settles_after(u, m));
        assert(after_complicate(bu, m) == Box::new(after_complicate(u, m)));
        assert(after_complicate(bu, m + 1) == Box::new(after_complicate(u, m + 1)));
        assert(complicate_stays_settled(after_complicate(u, m)));
    }
    if simplify_stays_settled(x) {
        assert forall|k: nat| 1 <= k <= SIMPLIFY_RECHECKS implies {
            &&& same_value(Box::new(x).current_spec(), #[trigger] after_simplify(Box::new(x), k).current_spec())
            &&& !after_simplify(Box::new(x), k).simplify_spec().1
        } by {
            assert(after_simplify(Box::new(x), k) == Box::new(after_simplify(x, k)));
            assert(same_value(x.current_spec(), after_simplify(x, k).current_spec()));
        }
    }
    if simplify_stays_settled(Box::new(x)) {
        assert forall|k: nat| 1 <= k <= SIMPLIFY_RECHECKS implies {
            &&& same_value(x.current_spec(), #[trigger] after_simplify(x, k).current_spec())
            &&& !after_simplify(x, k).simplify_spec().1
        } by {
            assert(after_simplify(Box::new(x), k) == Box::new(after_simplify(x, k)));
            assert(same_value(Box::new(x).current_spec(), after_simplify(Box::new(x), k).current_spec()));
        }
    }
}

/// A boxed tree keeps the shrinking contract exactly when the tree inside
/// the box does.
pub proof fn lemma_box_keeps_contract<T: ValueTree>(t: T, strict: bool) where T::Value: PartialEq
    ensures
        tree_sane(Box::new(t), strict) == tree_sane(t, strict),
{
    lemma_box_iterates_all::<T>();
    let bt = Box::new(t);
    assert forall|k: nat| #[trigger] shrink_either(shrunk_either(bt, k)).1 == shrink_either(shrunk_either(t, k)).1 by {
        lemma_box_iterates(shrunk_either(t, k), 0);
        assert(shrunk_either(bt, k) == Box::new(shrunk_either(t, k)));
    }
    if converges(t) {
        let k = choose|k: nat| k <= SHRINK_LIMIT && !#[trigger] shrink_either(shrunk_either(t, k)).1;
        assert(shrink_either(shrunk_either(bt, k)).1 == shrink_either(shrunk_either(t, k)).1);
    }
    if converges(bt) {
        let k = choose|k: nat| k <= SHRINK_LIMIT && !#[trigger] shrink_either(shrunk_either(bt, k)).1;
        assert(shrink_either(shrunk_either(bt, k)).1 == shrink_either(shrunk_either(t, k)).1);
    }
    assert forall|i: nat| #[trigger] after_simplify(bt, i).simplify_spec().1 == after_simplify(t, i).simplify_spec().1 by {
        assert(after_simplify(bt, i) == Box::new(after_simplify(t, i)));
    }
    assert forall|n: nat| #[trigger] simplifies_for(bt, n) == simplifies_for(t, n) by {
        if simplifies_for(t, n) {
            assert forall|i: nat| i < n implies #[trigger] after_simplify(bt, i).simplify_spec().1 by {
                assert(after_simplify(t, i).simplify_spec().1);
            }
        }
        if simplifies_for(bt, n) {
            assert forall|i: nat| i < n implies #[trigger] after_simplify(t, i).simplify_spec().1 by {
                assert(after_simplify(bt, i).simplify_spec().1);
            }
        }
    }
    assert forall|i: nat|
        #![trigger after_simplify(t, i)]
        #![trigger after_simplify(bt, i)]
        shrink_step_sane(after_simplify(bt, i), strict) == shrink_step_sane(after_simplify(t, i), strict)
        && simplify_stays_settled(after_simplify(bt, i)) == simplify_stays_settled(after_simplify(t, i)) by {
        assert(after_simplify(bt, i) == Box::new(after_simplify(t, i)));
        lemma_box_step(after_simplify(t, i), strict);
    }
    if tree_sane(t, strict) {
        let n = choose|n: nat|
            #![trigger after_simplify(t, n)]
            {
                &&& n <= SHRINK_LIMIT
                &&& simplifies_for(t, n)
                &&& !after_simplify(t, n).simplify_spec().1
                &&& forall|i: nat| i < n ==> shrink_step_sane(#[trigger] after_simplify(t, i), strict)
                &&& simplify_stays_settled(after_simplify(t, n))
            };
        assert(simplifies_for(bt, n));
        assert(!after_simplify(bt, n).simplify_spec().1);
        assert(forall|i: nat| i < n ==> shrink_step_sane(#[trigger] after_simplify(bt, i), strict));
        assert(simplify_stays_settled(after_simplify(bt, n)));
    }
    if tree_sane(bt, strict) {
        let n = choose|n: nat|
            #![trigger after_simplify(bt, n)]
            {
                &&& n <= SHRINK_LIMIT
                &&& simplifies_for(bt, n)
                &&& !after_simplify(bt, n).simplify_spec().1
                &&& forall|i: nat| i < n ==> shrink_step_sane(#[trigger] after_simplify(bt, i), strict)
                &&& simplify_stays_settled(after_simplify(bt, n))
            };
        assert(simplifies_for(t, n));
        assert(!after_simplify(t, n).simplify_spec().1);
        assert(forall|i: nat| i < n ==> shrink_step_sane(#[trigger] after_simplify(t, i), strict));
        assert(simplify_stays_settled(after_simplify(t, n)));
    }
}

/// While `simplify` keeps returning `true`, shrinking by
/// `simplify() || complicate()` only simplifies.
proof fn lemma_simplifying_is_shrinking<T: ValueTree>(t: T, n: nat)
    requires
        simplifies_for(t, n),
    ensures
        shrunk_either(t, n) == after_simplify(t, n),
    decreases n,
{
    if n > 0 {
        lemma_simplifying_is_shrinking(t, (n - 1) as nat);
        assert(after_simplify(t, (n - 1) as nat).simplify_spec().1);
    }
}

/// A tree on which shrinking by `simplify() || complicate()` comes to an
/// end within the limit cannot go on simplifying past the limit: so the
/// checker never reports `SimplifyUnending` for a tree that passed the
/// convergence check.
pub proof fn lemma_convergence_bounds_simplify<T: ValueTree>(t: T)
    requires
        converges(t),
    ensures
        !simplifies_for(t, (SHRINK_LIMIT + 1) as nat),
{
    if simplifies_for(t, (SHRINK_LIMIT + 1) as nat) {
        let k = choose|k: nat| k <= SHRINK_LIMIT && !#[trigger] shrink_either(shrunk_either(t, k)).1;
        assert(simplifies_for(t, k)) by {
            assert forall|i: nat| i < k implies #[trigger] after_simplify(t, i).simplify_spec().1 by {}
        }
        lemma_simplifying_is_shrinking(t, k);
        assert(after_simplify(t, k).simplify_spec().1);
    }
}


/// Cloning a `NoShrink` is faithful whenever cloning its content is.
pub proof fn lemma_no_shrink_clone_is_faithful<T: Clone>()
    requires
        clone_is_faithful::<T>(),
    ensures
        clone_is_faithful::<NoShrink<T>>(),
{
    assert forall|a: NoShrink<T>, b: NoShrink<T>| #[trigger] cloned(a, b) implies a == b by {
        if vstd::pervasive::strictly_cloned(a, b) {
            assert(cloned(a.inner(), b.inner()));
            NoShrink::lemma_wrap(a.inner(), a);
            NoShrink::lemma_wrap(b.inner(), b);
        }
    }
}


/// Returns a copy of `x`.
fn duplicate<T: Clone>(x: &T) -> (r: T)
    requires
        clone_is_faithful::<T>(),
    ensures
        r == *x,
{
    let r = x.clone();
    assert(vstd::pervasive::strictly_cloned(*x, r));
    assert(cloned(*x, r));
    r
}

/// Whether two values count as the same (see `same_value`).
fn same<V: PartialEq>(a: &V, b: &V) -> (r: bool)
    ensures
        V::obeys_eq_spec() ==> r == same_value(*a, *b),
{
    !(a.eq(a) || b.eq(b)) || a.eq(b)
}

/// Whether shrinking a copy of the tree by `simplify() || complicate()`
/// comes to an end within the limit; if not, the state reached.
fn check_convergence<T: ValueTree + Clone>(tree: &T) -> (r: Result<(), T>)
    requires
        clone_is_faithful::<T>(),
    ensures
        r is Ok == converges(*tree),
        r matches Err(state) ==> state == shrunk_either(*tree, (SHRINK_LIMIT + 1) as nat),
{
    let mut state = duplicate(tree);
    let mut count: u32 = 0;
    loop
        invariant
            count <= SHRINK_LIMIT,
            state == shrunk_either(*tree, count as nat),
            forall|j: nat| j < count ==> #[trigger] shrink_either(shrunk_either(*tree, j)).1,
        decreases SHRINK_LIMIT - count,
    {
        let ghost before = state;
        let progressed = state.simplify() || state.complicate();
        assert(progressed == shrink_either(before).1 && state == shrink_either(before).0);
        if !progressed {
            return Ok(());
        }
        assert(shrunk_either(*tree, (count + 1) as nat) == state);
        count += 1;
        if count > SHRINK_LIMIT {
            return Err(state);
        }
    }
}

/// Checks, on the states that follow `prev_complicated` (where `complicate`
/// returned `false`), that `complicate` keeps returning `false` and the value
/// stays put.
fn check_complicate_settled<T: ValueTree + Clone>(
    Ghost(t): Ghost<T>,
    strict: bool,
    num_simplifies: u32,
    prev_complicated: T,
    complicated: T,
) -> (r: Result<(), SanityViolation<T>>) where T::Value: PartialEq
    requires
        earlier_steps_passed(t, num_simplifies as nat, strict),
        settled_complication(t, num_simplifies as nat, prev_complicated, strict),
        !prev_complicated.complicate_spec().1,
        complicated == prev_complicated.complicate_spec().0,
    ensures
        T::Value::obeys_eq_spec() && r is Ok ==> complicate_stays_settled(prev_complicated),
        r is Ok ==> complicate_stays_false(prev_complicated),
        r matches Err(v) ==> violation_shown(t, strict, v),
{
    let ghost p = prev_complicated;
    let mut complicated = complicated;
    let mut calls: u32 = 1;
    assert(after_complicate(p, 0) == p);
    while calls <= COMPLICATE_RECHECKS
        invariant
            p == prev_complicated,
            earlier_steps_passed(t, num_simplifies as nat, strict),
            settled_complication(t, num_simplifies as nat, p, strict),
            1 <= calls <= COMPLICATE_RECHECKS + 1,
            complicated == after_complicate(p, calls as nat),
            T::Value::obeys_eq_spec() ==> forall|k: nat|
                1 <= k < calls ==> {
                    &&& same_value(p.current_spec(), #[trigger] after_complicate(p, k).current_spec())
                    &&& !after_complicate(p, k).complicate_spec().1
                },
            forall|k: nat| 1 <= k < calls ==> !#[trigger] after_complicate(p, k).complicate_spec().1,
        decreases COMPLICATE_RECHECKS + 1 - calls,
    {
        if !same(&prev_complicated.current(), &complicated.current()) {
            return Err(
                SanityViolation::ComplicateChangedValue {
                    num_simplifies,
                    prev_complicated,
                    calls,
                    complicated,
                },
            );
        }
        let ghost settled_value = complicated.current_spec();
        assert(settled_value == after_complicate(p, calls as nat).current_spec());
        let resumed = complicated.complicate();
        assert(after_complicate(p, (calls + 1) as nat) == complicated);
        if resumed {
            return Err(
                SanityViolation::ComplicateResumed {
                    num_simplifies,
                    prev_complicated,
                    calls: calls + 1,
                    complicated,
                },
            );
        }
        calls += 1;
    }
    Ok(())
}

/// Checks, on the states that follow `before_simplified` (where `simplify`
/// returned `false`), that `simplify` keeps returning `false` and the value
/// stays put.
fn check_simplify_settled<T: ValueTree + Clone>(
    Ghost(t): Ghost<T>,
    strict: bool,
    num_simplifies: u32,
    before_simplified: T,
    state: T,
) -> (r: Result<(), SanityViolation<T>>) where T::Value: PartialEq
    requires
        earlier_steps_passed(t, num_simplifies as nat, strict),
        simplifies_for(t, num_simplifies as nat),
        before_simplified == after_simplify(t, num_simplifies as nat),
        !before_simplified.simplify_spec().1,
        state == before_simplified.simplify_spec().0,
    ensures
        T::Value::obeys_eq_spec() && r is Ok ==> simplify_stays_settled(before_simplified),
        r is Ok ==> simplify_stays_false(before_simplified),
        r matches Err(v) ==> violation_shown(t, strict, v),
{
    let ghost e = before_simplified;
    let mut state = state;
    let mut calls: u32 = 1;
    assert(after_simplify(e, 0) == e);
    while calls <= SIMPLIFY_RECHECKS
        invariant
            e == before_simplified,
            earlier_steps_passed(t, num_simplifies as nat, strict),
            simplifies_for(t, num_simplifies as nat),
            e == after_simplify(t, num_simplifies as nat),
            !e.simplify_spec().1,
            1 <= calls <= SIMPLIFY_RECHECKS + 1,
            state == after_simplify(e, calls as nat),
            T::Value::obeys_eq_spec() ==> forall|k: nat|
                1 <= k < calls ==> {
                    &&& same_value(e.current_spec(), #[trigger] after_simplify(e, k).current_spec())
                    &&& !after_simplify(e, k).simplify_spec().1
                },
            forall|k: nat| 1 <= k < calls ==> !#[trigger] after_simplify(e, k).simplify_spec().1,
        decreases SIMPLIFY_RECHECKS + 1 - calls,
    {
        if !same(&before_simplified.current(), &state.current()) {
            return Err(
                SanityViolation::SimplifyChangedValue { num_simplifies, before_simplified, calls, state },
            );
        }
        let ghost settled_value = state.current_spec();
        assert(settled_value == after_simplify(e, calls as nat).current_spec());
        let resumed = state.simplify();
        assert(after_simplify(e, (calls + 1) as nat) == state);
        if resumed {
            return Err(
                SanityViolation::SimplifyResumed {
                    num_simplifies,
                    before_simplified,
                    calls: calls + 1,
                    state,
                },
            );
        }
        calls += 1;
    }
    Ok(())
}


/// Checks the contract for one successful `simplify`, from
/// `before_simplified` to `simplified`: complicating a copy of `simplified`
/// until `complicate` returns `false` ends within the limit, gives back the
/// value from before, and stays put.
fn check_shrink_step<T: ValueTree + Clone>(
    Ghost(t): Ghost<T>,
    strict: bool,
    num_simplifies: u32,
    before_simplified: &T,
    simplified: T,
) -> (r: Result<(), SanityViolation<T>>) where T::Value: PartialEq
    requires
        clone_is_faithful::<T>(),
        num_simplifies <= SHRINK_LIMIT,
        earlier_steps_passed(t, num_simplifies as nat, strict),
        simplifies_for(t, (num_simplifies + 1) as nat),
        *before_simplified == after_simplify(t, num_simplifies as nat),
        before_simplified.simplify_spec() == (simplified, true),
    ensures
        T::Value::obeys_eq_spec() && r is Ok ==> shrink_step_sane(*before_simplified, strict),
        r is Ok ==> shrink_step_shape(*before_simplified, strict),
        r matches Err(v) ==> violation_shown(t, strict, v),
{
    let ghost u = simplified;
    let limit: u32 = if strict {
        SHRINK_LIMIT + 1
    } else {
        SHRINK_LIMIT
    };
    let mut complicated = duplicate(&simplified);
    let mut calls: u32 = 0;
    assert(after_complicate(u, 0) == u);
    if strict {
        if !complicated.complicate() {
            return Err(
                SanityViolation::ComplicateFailed {
                    num_simplifies,
                    before_simplified: duplicate(before_simplified),
                    simplified,
                    complicated,
                },
            );
        }
        calls = 1;
        assert(after_complicate(u, 1) == complicated);
    }
    let mut prev_complicated = duplicate(&complicated);
    loop
        invariant
            clone_is_faithful::<T>(),
            earlier_steps_passed(t, num_simplifies as nat, strict),
            simplifies_for(t, (num_simplifies + 1) as nat),
            *before_simplified == after_simplify(t, num_simplifies as nat),
            before_simplified.simplify_spec() == (u, true),
            simplified == u,
            limit == complicate_limit(strict),
            calls <= limit,
            strict ==> calls >= 1,
            complicated == after_complicate(u, calls as nat),
            prev_complicated == complicated,
            forall|j: nat| j < calls ==> #[trigger] after_complicate(u, j).complicate_spec().1,
        decreases limit - calls,
    {
        let more = complicated.complicate();
        assert(after_complicate(u, (calls + 1) as nat) == complicated);
        if !more {
            assert(settles_after(u, calls as nat));
            if !same(&before_simplified.current(), &complicated.current()) {
                return Err(
                    SanityViolation::NotRestored {
                        num_simplifies,
                        before_simplified: duplicate(before_simplified),
                        simplified,
                        calls: calls + 1,
                        complicated,
                    },
                );
            }
            assert(settles_after(after_simplify(t, num_simplifies as nat).simplify_spec().0, calls as nat));
            let r = check_complicate_settled(
                Ghost(t),
                strict,
                num_simplifies,
                prev_complicated,
                complicated,
            );
            proof {
                if T::Value::obeys_eq_spec() && r is Ok {
                    assert(strict ==> after_complicate(u, 0).complicate_spec().1);
                }
            }
            return r;
        }
        prev_complicated = duplicate(&complicated);
        calls += 1;
        if calls > limit {
            return Err(
                SanityViolation::ComplicateUnending { num_simplifies, simplified, complicated },
            );
        }
    }
}


/// Checks that one value tree keeps the shrinking contract (see
/// `tree_sane`), in strict mode also requiring that `complicate` succeeds
/// right after each successful `simplify`.
///
/// The tree is shrunk itself; the checks that must not disturb it run on
/// copies.
pub fn check_tree_sanity<T: ValueTree + Clone>(tree: T, strict: bool) -> (r: Result<
    (),
    SanityViolation<T>,
>) where T::Value: PartialEq
    requires
        clone_is_faithful::<T>(),
    ensures
        T::Value::obeys_eq_spec() ==> (r is Ok <==> tree_sane(tree, strict)),
        r is Ok ==> tree_shape_sane(tree, strict),
        r matches Err(v) ==> violation_shown(tree, strict, v),
        !(r matches Err(SanityViolation::SimplifyUnending { .. })),
{
    let ghost t = tree;
    if let Err(state) = check_convergence(&tree) {
        return Err(SanityViolation::NoConvergence { state });
    }
    let mut state = tree;
    let mut num_simplifies: u32 = 0;
    assert(after_simplify(t, 0) == t);
    loop
        invariant
            clone_is_faithful::<T>(),
            t == tree,
            converges(t),
            num_simplifies <= SHRINK_LIMIT,
            state == after_simplify(t, num_simplifies as nat),
            simplifies_for(t, num_simplifies as nat),
            T::Value::obeys_eq_spec() ==> forall|i: nat|
                i < num_simplifies ==> shrink_step_sane(#[trigger] after_simplify(t, i), strict),
            forall|i: nat| i < num_simplifies ==> shrink_step_shape(#[trigger] after_simplify(t, i), strict),
        decreases SHRINK_LIMIT - num_simplifies,
    {
        let before_simplified = duplicate(&state);
        let more = state.simplify();
        assert(after_simplify(t, (num_simplifies + 1) as nat) == state);
        if !more {
            let r = check_simplify_settled(
                Ghost(t),
                strict,
                num_simplifies,
                before_simplified,
                state,
            );
            proof {
                lemma_convergence_bounds_simplify(t);
                if T::Value::obeys_eq_spec() {
                    if r is Ok {
                        assert(after_simplify(t, num_simplifies as nat) == before_simplified);
                    } else {
                        lemma_violation_breaks_contract(t, strict, r->Err_0);
                    }
                }
            }
            return r;
        }
        assert(simplifies_for(t, (num_simplifies + 1) as nat));
        let step = check_shrink_step(
            Ghost(t),
            strict,
            num_simplifies,
            &before_simplified,
            duplicate(&state),
        );
        if let Err(v) = step {
            proof {
                lemma_convergence_bounds_simplify(t);
                if T::Value::obeys_eq_spec() {
                    lemma_violation_breaks_contract(t, strict, v);
                }
            }
            return Err(v);
        }
        num_simplifies += 1;
        if num_simplifies > SHRINK_LIMIT {
            let v = SanityViolation::SimplifyUnending { state };
            proof {
                lemma_convergence_bounds_simplify(t);
            }
            return Err(v);
        }
    }
}


/// The runner that a sanity check with these options hands to the
/// strategy: it tolerates no local rejection when `error_on_local_rejects`
/// is set, and the default number otherwise.
pub open spec fn sanity_runner_spec(options: CheckStrategySanityOptions) -> TestRunner {
    TestRunner::fresh(
        if options.error_on_local_rejects {
            0
        } else {
            DEFAULT_MAX_LOCAL_REJECTS
        },
    )
}

/// Makes the runner that a sanity check with these options hands to the
/// strategy (see `sanity_runner_spec`).
pub fn sanity_runner(options: &CheckStrategySanityOptions) -> (r: TestRunner)
    ensures
        r == sanity_runner_spec(*options),
        r.max_local_rejects_spec() == (if options.error_on_local_rejects {
            0
        } else {
            DEFAULT_MAX_LOCAL_REJECTS
        }),
        r.local_rejects_spec() == 0,
{
    let mut config = Config::default();
    if options.error_on_local_rejects {
        config.max_local_rejects = 0;
    }
    TestRunner::new(config)
}

/// One round of generation: `new_tree` is called from `runner`, after
/// `failed` failures in a row, and called again while it fails, until it
/// has failed `GENERATION_RETRIES + 1` times in a row. The runner after the
/// round, and what its last call returned.
pub open spec fn generate_round<S: Strategy>(strategy: S, runner: TestRunner, failed: nat) -> (
    TestRunner,
    NewTree<S>,
)
    decreases GENERATION_RETRIES - failed,
{
    let (next, result) = strategy.new_tree_spec(runner);
    if result is Ok || failed >= GENERATION_RETRIES {
        (next, result)
    } else {
        generate_round(strategy, next, failed + 1)
    }
}

/// The runner after `k` rounds of generation starting from `runner`.
pub open spec fn runner_after_rounds<S: Strategy>(strategy: S, runner: TestRunner, k: nat) -> TestRunner
    decreases k,
{
    if k == 0 {
        runner
    } else {
        generate_round(strategy, runner_after_rounds(strategy, runner, (k - 1) as nat), 0).0
    }
}

/// What round `k` of a sanity check of `strategy` with the options `in_effect`
/// draws: the tree, or the reason of the last of too many failures in a row.
pub open spec fn sanity_draw<S: Strategy>(
    strategy: S,
    in_effect: CheckStrategySanityOptions,
    k: nat,
) -> NewTree<S> {
    let start = sanity_runner_spec(in_effect);
    generate_round(strategy, runner_after_rounds(strategy, start, k), 0).1
}

/// Round `k` of a sanity check draws a tree, and that tree keeps the part
/// of the shrinking contract that compares no values, and the whole contract
/// where the values' equality is specified.
pub open spec fn round_passes<S: Strategy>(
    strategy: S,
    in_effect: CheckStrategySanityOptions,
    k: nat,
) -> bool where S::Value: PartialEq {
    &&& sanity_draw(strategy, in_effect, k) is Ok
    &&& tree_shape_sane(
        sanity_draw(strategy, in_effect, k)->Ok_0,
        in_effect.strict_complicate_after_simplify,
    )
    &&& S::Value::obeys_eq_spec() ==> tree_sane(
        sanity_draw(strategy, in_effect, k)->Ok_0,
        in_effect.strict_complicate_after_simplify,
    )
}

/// How a sanity check of `strategy` with the options `in_effect` may end:
/// - it passes only if every round passes, and (where the values' equality
///   is specified) it passes if every round does;
/// - it fails to generate, with reason `reason`, only if some round drew
///   `Err(reason)` and every earlier round passed;
/// - it reports any other violation only if some round drew a tree for
///   which that violation is shown, and every earlier round passed.
pub open spec fn sanity_outcome<S: Strategy>(
    strategy: S,
    in_effect: CheckStrategySanityOptions,
    r: Result<(), SanityViolation<S::Tree>>,
) -> bool where S::Value: PartialEq {
    &&& r is Ok ==> forall|k: nat| k < SANITY_CASES ==> #[trigger] round_passes(strategy, in_effect, k)
    &&& S::Value::obeys_eq_spec() ==> (r is Ok <==> forall|k: nat|
        k < SANITY_CASES ==> #[trigger] round_passes(strategy, in_effect, k))
    &&& r matches Err(SanityViolation::GenerationFailed { reason }) ==> exists|k: nat|
        {
            &&& k < SANITY_CASES
            &&& #[trigger] sanity_draw(strategy, in_effect, k) == Err::<S::Tree, Reason>(reason)
            &&& forall|j: nat| j < k ==> #[trigger] round_passes(strategy, in_effect, j)
        }
    &&& r matches Err(v) ==> (v is GenerationFailed || exists|k: nat|
        {
            &&& k < SANITY_CASES
            &&& #[trigger] sanity_draw(strategy, in_effect, k) is Ok
            &&& violation_shown(
                sanity_draw(strategy, in_effect, k)->Ok_0,
                in_effect.strict_complicate_after_simplify,
                v,
            )
            &&& forall|j: nat| j < k ==> #[trigger] round_passes(strategy, in_effect, j)
        })
}

/// The round at which a sanity check that ended with violation `v` stopped:
/// every earlier round passed, and this one drew what `v` reports.
proof fn lemma_failing_round<S: Strategy>(
    strategy: S,
    in_effect: CheckStrategySanityOptions,
    v: SanityViolation<S::Tree>,
) -> (k: nat) where S::Value: PartialEq
    requires
        sanity_outcome(strategy, in_effect, Err(v)),
    ensures
        k < SANITY_CASES,
        forall|j: nat| j < k ==> #[trigger] round_passes(strategy, in_effect, j),
        v matches SanityViolation::GenerationFailed { reason } ==> sanity_draw(strategy, in_effect, k)
            == Err::<S::Tree, Reason>(reason),
        !(v is GenerationFailed) ==> {
            &&& sanity_draw(strategy, in_effect, k) is Ok
            &&& violation_shown(
                sanity_draw(strategy, in_effect, k)->Ok_0,
                in_effect.strict_complicate_after_simplify,
                v,
            )
        },
{
    if let SanityViolation::GenerationFailed { reason } = v {
        choose|k: nat|
            {
                &&& k < SANITY_CASES
                &&& #[trigger] sanity_draw(strategy, in_effect, k) == Err::<S::Tree, Reason>(reason)
                &&& forall|j: nat| j < k ==> #[trigger] round_passes(strategy, in_effect, j)
            }
    } else {
        choose|k: nat|
            {
                &&& k < SANITY_CASES
                &&& #[trigger] sanity_draw(strategy, in_effect, k) is Ok
                &&& violation_shown(
                    sanity_draw(strategy, in_effect, k)->Ok_0,
                    in_effect.strict_complicate_after_simplify,
                    v,
                )
                &&& forall|j: nat| j < k ==> #[trigger] round_passes(strategy, in_effect, j)
            }
    }
}

/// A sanity check can end in one way only (where the values' equality is
/// specified): the first round that does not pass decides the result.
pub proof fn lemma_sanity_outcome_unique<S: Strategy>(
    strategy: S,
    in_effect: CheckStrategySanityOptions,
    r1: Result<(), SanityViolation<S::Tree>>,
    r2: Result<(), SanityViolation<S::Tree>>,
) where S::Value: PartialEq
    requires
        S::Value::obeys_eq_spec(),
        sanity_outcome(strategy, in_effect, r1),
        sanity_outcome(strategy, in_effect, r2),
    ensures
        r1 == r2,
{
    let strict = in_effect.strict_complicate_after_simplify;
    if let (Err(v1), Err(v2)) = (r1, r2) {
        let k1 = lemma_failing_round(strategy, in_effect, v1);
        let k2 = lemma_failing_round(strategy, in_effect, v2);
        if k1 < k2 {
            assert(round_passes(strategy, in_effect, k1));
            if !(v1 is GenerationFailed) {
                lemma_violation_breaks_contract(sanity_draw(strategy, in_effect, k1)->Ok_0, strict, v1);
            }
        } else if k2 < k1 {
            assert(round_passes(strategy, in_effect, k2));
            if !(v2 is GenerationFailed) {
                lemma_violation_breaks_contract(sanity_draw(strategy, in_effect, k2)->Ok_0, strict, v2);
            }
        } else if !(v1 is GenerationFailed) && !(v2 is GenerationFailed) {
            lemma_violation_unique(sanity_draw(strategy, in_effect, k1)->Ok_0, strict, v1, v2);
        }
        assert(v1 == v2);
    } else if let (Ok(a), Ok(b)) = (r1, r2) {
        let () = a;
        let () = b;
        assert(a == b);
    } else {
        assert(false);
    }
}

/// Passing no options is passing the default options, for every value
/// type: the checks hand the strategy the same runner and admit the same
/// outcomes.
pub proof fn lemma_no_options_admit_default_outcomes<S: Strategy>(strategy: S) where
    S::Value: PartialEq,
    ensures
        sanity_runner_spec(options_in_effect(None)) == sanity_runner_spec(
            options_in_effect(Some(default_sanity_options())),
        ),
        forall|r: Result<(), SanityViolation<S::Tree>>|
            #[trigger] sanity_outcome(strategy, options_in_effect(None), r) == sanity_outcome(
                strategy,
                options_in_effect(Some(default_sanity_options())),
                r,
            ),
{
}

/// Passing no options is passing the default options: where the values'
/// equality is specified, the two checks end in the same way.
pub proof fn lemma_no_options_are_default<S: Strategy>(
    strategy: S,
    r1: Result<(), SanityViolation<S::Tree>>,
    r2: Result<(), SanityViolation<S::Tree>>,
) where S::Value: PartialEq
    requires
        S::Value::obeys_eq_spec(),
        sanity_outcome(strategy, options_in_effect(None), r1),
        sanity_outcome(strategy, options_in_effect(Some(default_sanity_options())), r2),
    ensures
        options_in_effect(None) == options_in_effect(Some(default_sanity_options())),
        r1 == r2,
{
    lemma_sanity_outcome_unique(strategy, options_in_effect(None), r1, r2);
}

/// The runner after `k` calls of `new_tree`, one after another, starting
/// from `runner`.
pub open spec fn runner_after_calls<S: Strategy>(strategy: S, runner: TestRunner, k: nat) -> TestRunner
    decreases k,
{
    if k == 0 {
        runner
    } else {
        strategy.new_tree_spec(runner_after_calls(strategy, runner, (k - 1) as nat)).0
    }
}

/// The strategy generates a tree from every runner.
pub open spec fn never_fails<S: Strategy>(strategy: S) -> bool {
    forall|r: TestRunner| (#[trigger] strategy.new_tree_spec(r)).1 is Ok
}

/// A round whose first call generates a tree is that one call.
proof fn lemma_round_of_one_call<S: Strategy>(strategy: S, runner: TestRunner)
    requires
        strategy.new_tree_spec(runner).1 is Ok,
    ensures
        generate_round(strategy, runner, 0) == strategy.new_tree_spec(runner),
{
}

/// The rounds of a sanity check share one runner: for a strategy that never
/// fails, each round is one call of `new_tree`, and round `k` is the call
/// made on the runner that the `k` calls before it left, starting from the
/// runner the check makes.
pub proof fn lemma_rounds_share_one_runner<S: Strategy>(
    strategy: S,
    in_effect: CheckStrategySanityOptions,
    k: nat,
)
    requires
        never_fails(strategy),
    ensures
        sanity_draw(strategy, in_effect, k) == strategy.new_tree_spec(
            runner_after_calls(strategy, sanity_runner_spec(in_effect), k),
        ).1,
{
    let start = sanity_runner_spec(in_effect);
    lemma_rounds_are_calls(strategy, start, k);
    let r = runner_after_calls(strategy, start, k);
    assert(strategy.new_tree_spec(r).1 is Ok);
    lemma_round_of_one_call(strategy, r);
}

/// For a strategy that never fails, `k` rounds are `k` calls.
proof fn lemma_rounds_are_calls<S: Strategy>(strategy: S, runner: TestRunner, k: nat)
    requires
        never_fails(strategy),
    ensures
        runner_after_rounds(strategy, runner, k) == runner_after_calls(strategy, runner, k),
    decreases k,
{
    if k > 0 {
        lemma_rounds_are_calls(strategy, runner, (k - 1) as nat);
        let r = runner_after_calls(strategy, runner, (k - 1) as nat);
        assert(strategy.new_tree_spec(r).1 is Ok);
        lemma_round_of_one_call(strategy, r);
    }
}

/// The runner is not renewed between rounds: for a strategy that records
/// one local rejection on each call and generates a tree whenever the runner
/// accepts the rejection, round `k` of a check that tolerates local
/// rejections draws from a runner with the default budget and generator that
/// has recorded exactly `k` rejections.
pub proof fn lemma_rounds_count_rejections<S: Strategy>(
    strategy: S,
    in_effect: CheckStrategySanityOptions,
    k: nat,
)
    requires
        !in_effect.error_on_local_rejects,
        k < SANITY_CASES,
        forall|r: TestRunner|
            r.local_rejects_spec() < r.max_local_rejects_spec() ==> {
                &&& (#[trigger] strategy.new_tree_spec(r)).0 == r.after_reject()
                &&& strategy.new_tree_spec(r).1 is Ok
            },
    ensures
        exists|r: TestRunner|
            {
                &&& r.max_local_rejects_spec() == DEFAULT_MAX_LOCAL_REJECTS
                &&& r.local_rejects_spec() == k
                &&& r.rng_spec() == TestRng::default_spec()
                &&& sanity_draw(strategy, in_effect, k) == (#[trigger] strategy.new_tree_spec(r)).1
            },
{
    let start = sanity_runner_spec(in_effect);
    TestRunner::lemma_fresh(DEFAULT_MAX_LOCAL_REJECTS, TestRng::default_spec());
    lemma_rejections_counted(strategy, start, k);
    let r = runner_after_rounds(strategy, start, k);
    lemma_round_of_one_call(strategy, r);
    assert(sanity_draw(strategy, in_effect, k) == strategy.new_tree_spec(r).1);
}

/// The runner after `k` rounds of such a strategy has recorded `k`
/// rejections and keeps its budget and generator.
proof fn lemma_rejections_counted<S: Strategy>(strategy: S, start: TestRunner, k: nat)
    requires
        start.max_local_rejects_spec() == DEFAULT_MAX_LOCAL_REJECTS,
        start.local_rejects_spec() == 0,
        start.rng_spec() == TestRng::default_spec(),
        k <= SANITY_CASES,
        forall|r: TestRunner|
            r.local_rejects_spec() < r.max_local_rejects_spec() ==> {
                &&& (#[trigger] strategy.new_tree_spec(r)).0 == r.after_reject()
                &&& strategy.new_tree_spec(r).1 is Ok
            },
    ensures
        runner_after_rounds(strategy, start, k).max_local_rejects_spec() == DEFAULT_MAX_LOCAL_REJECTS,
        runner_after_rounds(strategy, start, k).local_rejects_spec() == k,
        runner_after_rounds(strategy, start, k).rng_spec() == TestRng::default_spec(),
    decreases k,
{
    if k > 0 {
        lemma_rejections_counted(strategy, start, (k - 1) as nat);
        let r = runner_after_rounds(strategy, start, (k - 1) as nat);
        assert(strategy.new_tree_spec(r).1 is Ok);
        lemma_round_of_one_call(strategy, r);
        TestRunner::lemma_after_reject(r);
    }
}

/// Runs some tests on the given strategy to ensure that it upholds the
/// simplify/complicate contract.
///
/// Runs `SANITY_CASES` rounds on one runner (see `sanity_runner`). Each
/// round generates a tree, retrying up to `GENERATION_RETRIES` times in a
/// row when generation fails, and checks the tree with `check_tree_sanity`.
/// The check stops at the first round that cannot generate a tree or whose
/// tree breaks the contract; how it ends is `sanity_outcome`.
///
/// `options` configure the test; if `None`, the defaults are used. Note that
/// the defaults check for a property which is not actually required by the
/// contract (see `strict_complicate_after_simplify`).
pub fn check_strategy_sanity<S: Strategy>(
    strategy: S,
    options: Option<CheckStrategySanityOptions>,
) -> (r: Result<(), SanityViolation<S::Tree>>) where S::Tree: Clone, S::Value: PartialEq
    requires
        clone_is_faithful::<S::Tree>(),
    ensures
        sanity_outcome(strategy, options_in_effect(options), r),
{
    let in_effect = match options {
        Some(o) => o,
        None => CheckStrategySanityOptions::default(),
    };
    let strict = in_effect.strict_complicate_after_simplify;
    let mut runner = sanity_runner(&in_effect);
    let ghost start = runner;
    let mut case: u32 = 0;
    while case < SANITY_CASES
        invariant
            clone_is_faithful::<S::Tree>(),
            in_effect == options_in_effect(options),
            strict == in_effect.strict_complicate_after_simplify,
            start == sanity_runner_spec(in_effect),
            case <= SANITY_CASES,
            runner == runner_after_rounds(strategy, start, case as nat),
            forall|j: nat| j < case ==> #[trigger] round_passes(strategy, in_effect, j),
        decreases SANITY_CASES - case,
    {
        let ghost round_start = runner;
        let mut gen_tries: u32 = 0;
        let mut generated: Option<S::Tree> = None;
        while generated.is_none()
            invariant
                in_effect == options_in_effect(options),
                start == sanity_runner_spec(in_effect),
                round_start == runner_after_rounds(strategy, start, case as nat),
                case < SANITY_CASES,
                forall|j: nat| j < case ==> #[trigger] round_passes(strategy, in_effect, j),
                gen_tries <= GENERATION_RETRIES,
                generated is None ==> generate_round(strategy, runner, gen_tries as nat)
                    == generate_round(strategy, round_start, 0),
                generated matches Some(t) ==> (runner, Ok::<S::Tree, Reason>(t))
                    == generate_round(strategy, round_start, 0),
            decreases GENERATION_RETRIES + 1 - gen_tries + (if generated is None {
                1int
            } else {
                0int
            }),
        {
            let ghost before = runner;
            match strategy.new_tree(&mut runner) {
                Ok(tree) => {
                    generated = Some(tree);
                },
                Err(reason) => {
                    gen_tries += 1;
                    if gen_tries > GENERATION_RETRIES {
                        assert(generate_round(strategy, before, GENERATION_RETRIES as nat) == (
                            runner,
                            Err::<S::Tree, Reason>(reason),
                        ));
                        assert(sanity_draw(strategy, in_effect, case as nat) == Err::<S::Tree, Reason>(reason));
                        assert(!round_passes(strategy, in_effect, case as nat));
                        return Err(SanityViolation::GenerationFailed { reason });
                    }
                },
            }
        }
        let tree = generated.unwrap();
        let ghost t = tree;
        assert(sanity_draw(strategy, in_effect, case as nat) == Ok::<S::Tree, Reason>(t));
        assert(runner == runner_after_rounds(strategy, start, (case + 1) as nat));
        let verdict = check_tree_sanity(tree, strict);
        if let Err(v) = verdict {
            proof {
                if S::Value::obeys_eq_spec() {
                    lemma_violation_breaks_contract(t, strict, v);
                    assert(!round_passes(strategy, in_effect, case as nat));
                }
            }
            return Err(v);
        }
        assert(round_passes(strategy, in_effect, case as nat));
        case += 1;
    }
    Ok(())
}

} // verus!
