//! Strategies: recipes for generating value trees.

use std::rc::Rc;
use std::sync::Arc;

use vstd::prelude::*;

use crate::map::{
    Filter, FilterMap, Flatten, IndFlatten, IndFlattenMap, MapInto, Mapped, Perturb, Shuffle, Union,
};
use crate::runner::{Reason, TestRng, TestRunner};
use crate::tree::{after_calls, call_result, ValueTree};

verus! {

/// A new value tree from a strategy when `Ok`, or the reason when a tree
/// could not be produced (for instance because a filter rejected too much).
pub type NewTree<S> = Result<<S as Strategy>::Tree, Reason>;

/// A strategy for producing arbitrary values of a given type.
///
/// `new_tree_spec` is the model of an implementation: what one call of
/// `new_tree` returns and how it leaves the runner, given the runner's
/// state. A strategy is expected to be deterministic in this way (given the
/// runner in a particular state it produces the same tree every time); the
/// model holds implementations to it.
pub trait Strategy {
    /// The value tree generated by this strategy.
    type Tree: ValueTree<Value = Self::Value>;

    /// The type of value produced by this strategy.
    type Value;

    /// The runner after one call of `new_tree` from `runner`, and what that
    /// call returns.
    spec fn new_tree_spec(&self, runner: TestRunner) -> (TestRunner, NewTree<Self>);

    /// Generates a new value tree from the given runner.
    ///
    /// This may fail if there are constraints on the generated value and the
    /// generator is unable to produce anything that satisfies them.
    fn new_tree(&self, runner: &mut TestRunner) -> (r: NewTree<Self>)
        ensures
            (*final(runner), r) == self.new_tree_spec(*old(runner)),
    ;

    /// Returns a strategy which produces values transformed by the function
    /// `fun`. Shrinking continues to take place in terms of the source value.
    fn prop_map<O, F: Fn(Self::Value) -> O>(self, fun: F) -> (r: Mapped<Self, F>) where Self: Sized
        ensures
            r.source() == self,
            r.fun() == fun,
    {
        Mapped::new(self, fun)
    }

    /// Returns a strategy which produces values of type `O` by converting
    /// the values of this strategy with `Into<O>`.
    fn prop_map_into<O>(self) -> (r: MapInto<Self, O>) where Self: Sized, Self::Value: Into<O>
        ensures
            r.source() == self,
    {
        MapInto::new(self)
    }

    /// Returns a strategy which produces values transformed by the function
    /// `fun`, which is additionally given a random number generator. During
    /// shrinking, `fun` is always called with an identical generator, so a
    /// pure `fun` always performs the same perturbation.
    fn prop_perturb<O, F: Fn(Self::Value, TestRng) -> O>(self, fun: F) -> (r: Perturb<Self, F>) where
        Self: Sized,
        ensures
            r.source() == self,
            r.fun() == fun,
    {
        Perturb::new(self, fun)
    }

    /// Maps values produced by this strategy into new strategies and picks
    /// values from those strategies. Shrinking shrinks both the picked values
    /// and the input used to derive the strategies.
    fn prop_flat_map<D, F: Fn(Self::Value) -> D>(self, fun: F) -> (r: Flatten<Mapped<Self, F>>) where
        Self: Sized,
        ensures
            r.source().source() == self,
            r.source().fun() == fun,
    {
        Flatten::new(Mapped::new(self, fun))
    }

    /// Maps values produced by this strategy into new strategies and picks
    /// values from those strategies, considering the new strategies to be
    /// independent: shrinking does not shrink the input that produced them.
    fn prop_ind_flat_map<D, F: Fn(Self::Value) -> D>(self, fun: F) -> (r: IndFlatten<
        Mapped<Self, F>,
    >) where Self: Sized
        ensures
            r.source().source() == self,
            r.source().fun() == fun,
    {
        IndFlatten::new(Mapped::new(self, fun))
    }

    /// Like `prop_ind_flat_map`, but produces pairs of the input generated
    /// from this strategy and a value of the derived strategy.
    fn prop_ind_flat_map2<D, F: Fn(Self::Value) -> D>(self, fun: F) -> (r: IndFlattenMap<
        Self,
        F,
    >) where Self: Sized
        ensures
            r.source() == self,
            r.fun() == fun,
    {
        IndFlattenMap::new(self, fun)
    }

    /// Returns a strategy which only produces values accepted by `fun`;
    /// `whence` is recorded as the reason for each rejection.
    fn prop_filter<F: Fn(&Self::Value) -> bool>(self, whence: Reason, fun: F) -> (r: Filter<Self, F>) where
        Self: Sized,
        ensures
            r.source() == self,
            r.whence() == whence,
            r.fun() == fun,
    {
        Filter::new(self, whence, fun)
    }

    /// Returns a strategy which only produces transformed values where `fun`
    /// returns `Some(value)` and rejects those where it returns `None`,
    /// recording `whence`.
    fn prop_filter_map<O, F: Fn(Self::Value) -> Option<O>>(self, whence: Reason, fun: F) -> (r: FilterMap<
        Self,
        F,
    >) where Self: Sized
        ensures
            r.source() == self,
            r.whence() == whence,
            r.fun() == fun,
    {
        FilterMap::new(self, whence, fun)
    }

    /// Returns a strategy which picks uniformly from `self` and `other`.
    fn prop_union(self, other: Self) -> (r: Union<Self>) where Self: Sized
        ensures
            r.options() == seq![self, other],
    {
        let mut options = Vec::new();
        options.push(self);
        options.push(other);
        Union::new(options)
    }

    /// Shuffles the contents of the values produced by this strategy.
    fn prop_shuffle(self) -> (r: Shuffle<Self>) where Self: Sized
        ensures
            r.source() == self,
    {
        Shuffle::new(self)
    }

    /// Wraps this strategy to prevent values from being subject to
    /// shrinking.
    fn no_shrink(self) -> (r: NoShrink<Self>) where Self: Sized
        ensures
            r.inner() == self,
    {
        NoShrink(self)
    }
}

/// Wraps a strategy or a value tree to suppress shrinking of generated
/// values.
#[derive(Copy, Debug)]
pub struct NoShrink<T>(T);

/// A copy of a wrapper wraps a copy of its content.
impl<T: Clone> Clone for NoShrink<T> {
    fn clone(&self) -> (r: NoShrink<T>)
        ensures
            cloned(self.inner(), r.inner()),
    {
        let inner = self.0.clone();
        proof {
            assert(vstd::pervasive::strictly_cloned(self.0, inner));
        }
        NoShrink(inner)
    }
}

impl<T> NoShrink<T> {
    /// The wrapped strategy or value tree.
    pub closed spec fn inner(&self) -> T {
        self.0
    }

    /// `t` wrapped.
    pub closed spec fn wrap(t: T) -> NoShrink<T> {
        NoShrink(t)
    }

    /// Wrapping `t` gives the wrapper whose content is `t`, and a wrapper is
    /// its content wrapped.
    pub proof fn lemma_wrap(t: T, n: NoShrink<T>)
        ensures
            NoShrink::wrap(t).inner() == t,
            NoShrink::wrap(n.inner()) == n,
    {
    }
}

impl<T: Strategy> Strategy for NoShrink<T> {
    type Tree = NoShrink<T::Tree>;

    type Value = T::Value;

    open spec fn new_tree_spec(&self, runner: TestRunner) -> (TestRunner, NewTree<Self>) {
        let (next, inner) = self.inner().new_tree_spec(runner);
        (
            next,
            match inner {
                Ok(tree) => Ok(NoShrink::wrap(tree)),
                Err(reason) => Err(reason),
            },
        )
    }

    fn new_tree(&self, runner: &mut TestRunner) -> (r: NewTree<Self>) {
        match self.0.new_tree(runner) {
            Ok(tree) => Ok(NoShrink(tree)),
            Err(e) => Err(e),
        }
    }
}

impl<T: ValueTree> ValueTree for NoShrink<T> {
    type Value = T::Value;

    open spec fn current_spec(&self) -> T::Value {
        self.inner().current_spec()
    }

    open spec fn simplify_spec(&self) -> (NoShrink<T>, bool) {
        (*self, false)
    }

    open spec fn complicate_spec(&self) -> (NoShrink<T>, bool) {
        (*self, false)
    }

    fn current(&self) -> (v: T::Value) {
        self.0.current()
    }

    fn simplify(&mut self) -> (changed: bool) {
        false
    }

    fn complicate(&mut self) -> (changed: bool) {
        false
    }
}

/// Values wrapped by `NoShrink` are never shrunk: whatever sequence of
/// `simplify` and `complicate` calls is made, each returns `false`, and the
/// tree, and so its value, stays as it was.
pub proof fn lemma_no_shrink_never_shrinks<T: ValueTree>(n: NoShrink<T>, calls: Seq<bool>)
    ensures
        after_calls(n, calls) == n,
        after_calls(n, calls).current_spec() == n.inner().current_spec(),
        forall|i: int| 0 <= i < calls.len() ==> !call_result(#[trigger] after_calls(n, calls.take(i)), calls[i]),
    decreases calls.len(),
{
    if calls.len() > 0 {
        lemma_no_shrink_never_shrinks(n, calls.drop_last());
    }
    assert forall|i: int| 0 <= i < calls.len() implies !call_result(#[trigger] after_calls(n, calls.take(i)), calls[i]) by {
        lemma_no_shrink_never_shrinks(n, calls.take(i));
    }
}

/// A boxed strategy generates what the strategy inside it does.
impl<S: Strategy + ?Sized> Strategy for Box<S> {
    type Tree = S::Tree;

    type Value = S::Value;

    open spec fn new_tree_spec(&self, runner: TestRunner) -> (TestRunner, NewTree<Self>) {
        (**self).new_tree_spec(runner)
    }

    fn new_tree(&self, runner: &mut TestRunner) -> (r: NewTree<Self>) {
        (**self).new_tree(runner)
    }
}

/// A shared reference to a strategy generates what the strategy does.
impl<'a, S: Strategy + ?Sized> Strategy for &'a S {
    type Tree = S::Tree;

    type Value = S::Value;

    open spec fn new_tree_spec(&self, runner: TestRunner) -> (TestRunner, NewTree<Self>) {
        (**self).new_tree_spec(runner)
    }

    fn new_tree(&self, runner: &mut TestRunner) -> (r: NewTree<Self>) {
        (**self).new_tree(runner)
    }
}

/// A unique reference to a strategy generates what the strategy does.
impl<'a, S: Strategy + ?Sized> Strategy for &'a mut S {
    type Tree = S::Tree;

    type Value = S::Value;

    open spec fn new_tree_spec(&self, runner: TestRunner) -> (TestRunner, NewTree<Self>) {
        (**self).new_tree_spec(runner)
    }

    fn new_tree(&self, runner: &mut TestRunner) -> (r: NewTree<Self>) {
        (**self).new_tree(runner)
    }
}

/// A reference-counted strategy generates what the strategy inside it does.
impl<S: Strategy + ?Sized> Strategy for Rc<S> {
    type Tree = S::Tree;

    type Value = S::Value;

    open spec fn new_tree_spec(&self, runner: TestRunner) -> (TestRunner, NewTree<Self>) {
        (**self).new_tree_spec(runner)
    }

    fn new_tree(&self, runner: &mut TestRunner) -> (r: NewTree<Self>) {
        (**self).new_tree(runner)
    }
}

/// An atomically reference-counted strategy generates what the strategy
/// inside it does.
impl<S: Strategy + ?Sized> Strategy for Arc<S> {
    type Tree = S::Tree;

    type Value = S::Value;

    open spec fn new_tree_spec(&self, runner: TestRunner) -> (TestRunner, NewTree<Self>) {
        (**self).new_tree_spec(runner)
    }

    fn new_tree(&self, runner: &mut TestRunner) -> (r: NewTree<Self>) {
        (**self).new_tree(runner)
    }
}

/// Wrapping a strategy in `NoShrink` makes exactly one call of the wrapped
/// strategy: the runner is left as that call leaves it, a tree is generated
/// exactly when that call generates one, and it is that call's tree, wrapped
/// (so its value is that tree's value); a failure is passed on unchanged.
pub proof fn lemma_no_shrink_generates_inner<S: Strategy>(n: NoShrink<S>, runner: TestRunner)
    ensures
        n.new_tree_spec(runner).0 == n.inner().new_tree_spec(runner).0,
        n.new_tree_spec(runner).1 is Ok <==> n.inner().new_tree_spec(runner).1 is Ok,
        n.inner().new_tree_spec(runner).1 matches Ok(t) ==> {
            &&& n.new_tree_spec(runner).1->Ok_0.inner() == t
            &&& n.new_tree_spec(runner).1->Ok_0.current_spec() == t.current_spec()
        },
        n.inner().new_tree_spec(runner).1 matches Err(e) ==> n.new_tree_spec(runner).1 == Err::<
            NoShrink<S::Tree>,
            Reason,
        >(e),
{
    if let Ok(t) = n.inner().new_tree_spec(runner).1 {
        NoShrink::lemma_wrap(t, n.new_tree_spec(runner).1->Ok_0);
    }
}

/// A boxed strategy's call is exactly one call of the strategy inside: the
/// same result, and the runner left in the same state.
pub proof fn lemma_box_generates_inner<S: Strategy + ?Sized>(b: Box<S>, runner: TestRunner)
    ensures
        <Box<S> as Strategy>::new_tree_spec(&b, runner) == <S as Strategy>::new_tree_spec(&*b, runner),
{
}

/// A call through a shared reference is exactly one call of the strategy
/// referred to: the same result, and the runner left in the same state.
pub proof fn lemma_ref_generates_inner<'a, S: Strategy + ?Sized>(s: &'a S, runner: TestRunner)
    ensures
        <&'a S as Strategy>::new_tree_spec(&s, runner) == <S as Strategy>::new_tree_spec(s, runner),
{
}

/// A call through a unique reference is exactly one call of the strategy
/// referred to: the same result, and the runner left in the same state.
pub proof fn lemma_mut_ref_generates_inner<'a, S: Strategy + ?Sized>(s: &'a mut S, runner: TestRunner)
    ensures
        <&'a mut S as Strategy>::new_tree_spec(&old(s), runner) == <S as Strategy>::new_tree_spec(&*old(s), runner),
{
}

/// A reference-counted strategy's call is exactly one call of the strategy
/// inside: the same result, and the runner left in the same state.
pub proof fn lemma_rc_generates_inner<S: Strategy + ?Sized>(s: Rc<S>, runner: TestRunner)
    ensures
        <Rc<S> as Strategy>::new_tree_spec(&s, runner) == <S as Strategy>::new_tree_spec(&*s, runner),
{
}

/// An atomically reference-counted strategy's call is exactly one call of
/// the strategy inside: the same result, and the runner left in the same
/// state.
pub proof fn lemma_arc_generates_inner<S: Strategy + ?Sized>(s: Arc<S>, runner: TestRunner)
    ensures
        <Arc<S> as Strategy>::new_tree_spec(&s, runner) == <S as Strategy>::new_tree_spec(&*s, runner),
{
}

} // verus!
