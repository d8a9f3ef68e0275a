//! Value trees: a generated value together with the state machine that
//! shrinks it.

use vstd::prelude::*;

verus! {

/// A generated value and its associated shrinker.
///
/// Conceptually, a value tree is a spectrum between a "minimally complex"
/// value and a starting, randomly chosen value; for numbers this is a binary
/// search. `simplify` notionally moves the current value halfway towards the
/// simplest one; `complicate` partially undoes the last simplification.
///
/// The model of an implementation is given by three spec functions: the
/// current value, and the state and result of one call to `simplify` or to
/// `complicate`. The exec methods are held to them, so both are
/// deterministic functions of the state.
pub trait ValueTree: Sized {
    /// The type of the value produced by this tree.
    type Value;

    /// The current value of a tree in this state.
    spec fn current_spec(&self) -> Self::Value;

    /// The state after one call to `simplify`, and what that call returns.
    spec fn simplify_spec(&self) -> (Self, bool);

    /// The state after one call to `complicate`, and what that call returns.
    spec fn complicate_spec(&self) -> (Self, bool);

    /// Returns the current value.
    fn current(&self) -> (v: Self::Value)
        ensures
            v == self.current_spec(),
    ;

    /// Attempts to simplify the current value; returns whether any state
    /// changed.
    fn simplify(&mut self) -> (changed: bool)
        ensures
            (*final(self), changed) == old(self).simplify_spec(),
    ;

    /// Attempts to partially undo the last simplification; returns whether
    /// any state changed.
    fn complicate(&mut self) -> (changed: bool)
        ensures
            (*final(self), changed) == old(self).complicate_spec(),
    ;
}

/// The state of a tree after a sequence of calls, `true` standing for
/// `simplify` and `false` for `complicate`.
pub open spec fn after_calls<T: ValueTree>(t: T, calls: Seq<bool>) -> T
    decreases calls.len(),
{
    if calls.len() == 0 {
        t
    } else {
        let before = after_calls(t, calls.drop_last());
        if calls.last() {
            before.simplify_spec().0
        } else {
            before.complicate_spec().0
        }
    }
}

/// What a call returns on a tree in state `t`: `simplify` for `true`,
/// `complicate` for `false`.
pub open spec fn call_result<T: ValueTree>(t: T, call: bool) -> bool {
    if call {
        t.simplify_spec().1
    } else {
        t.complicate_spec().1
    }
}

/// A boxed tree shrinks as the tree inside it does.
impl<T: ValueTree> ValueTree for Box<T> {
    type Value = T::Value;

    open spec fn current_spec(&self) -> T::Value {
        (**self).current_spec()
    }

    open spec fn simplify_spec(&self) -> (Box<T>, bool) {
        (Box::new((**self).simplify_spec().0), (**self).simplify_spec().1)
    }

    open spec fn complicate_spec(&self) -> (Box<T>, bool) {
        (Box::new((**self).complicate_spec().0), (**self).complicate_spec().1)
    }

    fn current(&self) -> (v: T::Value) {
        (**self).current()
    }

    fn simplify(&mut self) -> (changed: bool) {
        (**self).simplify()
    }

    fn complicate(&mut self) -> (changed: bool) {
        (**self).complicate()
    }
}

} // verus!
