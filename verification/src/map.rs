//! What the mapping and flattening combinators of `Strategy` build: the
//! source strategy together with the function given. Generating values from
//! these combinations is not part of this crate.

use std::marker::PhantomData;
use std::sync::Arc;

use vstd::prelude::*;

use crate::runner::Reason;

verus! {

/// The combination that `prop_map` builds: a source strategy and the
/// function its values are to be transformed by.
pub struct Mapped<S, F> {
    source: S,
    fun: Arc<F>,
}

impl<S, F> Mapped<S, F> {
    /// The strategy whose values are mapped.
    pub closed spec fn source(&self) -> S {
        self.source
    }

    /// The function the values are mapped by.
    pub closed spec fn fun(&self) -> F {
        *self.fun
    }

    /// Maps the values of `source` by `fun`.
    pub fn new(source: S, fun: F) -> (r: Mapped<S, F>)
        ensures
            r.source() == source,
            r.fun() == fun,
    {
        Mapped { source, fun: Arc::new(fun) }
    }
}

/// A strategy that picks a value from the strategy that each value of the
/// inner strategy (usually a `Mapped`) is, taking the derived strategies as
/// independent of one another.
pub struct IndFlatten<S>(S);

impl<S> IndFlatten<S> {
    /// The strategy of strategies.
    pub closed spec fn source(&self) -> S {
        self.0
    }

    /// Flattens `source`.
    pub fn new(source: S) -> (r: IndFlatten<S>)
        ensures
            r.source() == source,
    {
        IndFlatten(source)
    }
}

/// The combination that `prop_ind_flat_map2` builds: each value of the
/// source is to be paired with a value of the strategy `fun` derives from
/// it, taking the derived strategies as independent.
pub struct IndFlattenMap<S, F> {
    source: S,
    fun: Arc<F>,
}

impl<S, F> IndFlattenMap<S, F> {
    /// The strategy whose values the derived strategies are made from.
    pub closed spec fn source(&self) -> S {
        self.source
    }

    /// The function that derives a strategy from each value.
    pub closed spec fn fun(&self) -> F {
        *self.fun
    }

    /// Pairs the values of `source` with values derived by `fun`.
    pub fn new(source: S, fun: F) -> (r: IndFlattenMap<S, F>)
        ensures
            r.source() == source,
            r.fun() == fun,
    {
        IndFlattenMap { source, fun: Arc::new(fun) }
    }
}

/// The combination that `prop_perturb` builds: a source strategy and the
/// function its values are to be transformed by, which is also handed a
/// random number generator.
pub struct Perturb<S, F> {
    source: S,
    fun: Arc<F>,
}

impl<S, F> Perturb<S, F> {
    /// The strategy whose values are perturbed.
    pub closed spec fn source(&self) -> S {
        self.source
    }

    /// The function the values are perturbed by.
    pub closed spec fn fun(&self) -> F {
        *self.fun
    }

    /// Perturbs the values of `source` by `fun`.
    pub fn new(source: S, fun: F) -> (r: Perturb<S, F>)
        ensures
            r.source() == source,
            r.fun() == fun,
    {
        Perturb { source, fun: Arc::new(fun) }
    }
}

/// The combination that `prop_flat_map` builds around a `Mapped`: values
/// are to be picked from the strategies that the source's values are mapped
/// to, shrinking both the picked value and the source value.
pub struct Flatten<S> {
    source: Arc<S>,
}

impl<S> Flatten<S> {
    /// The strategy of strategies.
    pub closed spec fn source(&self) -> S {
        *self.source
    }

    /// Flattens `source`.
    pub fn new(source: S) -> (r: Flatten<S>)
        ensures
            r.source() == source,
    {
        Flatten { source: Arc::new(source) }
    }
}

/// The combination that `prop_map_into` builds: a source strategy whose
/// values are to be converted into `O`.
pub struct MapInto<S, O> {
    source: S,
    output: PhantomData<O>,
}

impl<S, O> MapInto<S, O> {
    /// The strategy whose values are converted.
    pub closed spec fn source(&self) -> S {
        self.source
    }

    /// Converts the values of `source`.
    pub fn new(source: S) -> (r: MapInto<S, O>)
        ensures
            r.source() == source,
    {
        MapInto { source, output: PhantomData }
    }
}

/// The combination that `prop_filter` builds: a source strategy, the reason
/// recorded when a value is rejected, and the predicate values must meet.
pub struct Filter<S, F> {
    source: S,
    whence: Reason,
    fun: Arc<F>,
}

impl<S, F> Filter<S, F> {
    /// The strategy whose values are filtered.
    pub closed spec fn source(&self) -> S {
        self.source
    }

    /// The reason recorded for a rejected value.
    pub closed spec fn whence(&self) -> Reason {
        self.whence
    }

    /// The predicate that values must meet.
    pub closed spec fn fun(&self) -> F {
        *self.fun
    }

    /// Filters the values of `source` by `fun`, recording `whence` on
    /// rejection.
    pub fn new(source: S, whence: Reason, fun: F) -> (r: Filter<S, F>)
        ensures
            r.source() == source,
            r.whence() == whence,
            r.fun() == fun,
    {
        Filter { source, whence, fun: Arc::new(fun) }
    }
}

/// The combination that `prop_filter_map` builds: a source strategy, the
/// reason recorded when a value is rejected, and the function that maps a
/// value to `Some` of the value to produce, or `None` to reject it.
pub struct FilterMap<S, F> {
    source: S,
    whence: Reason,
    fun: Arc<F>,
}

impl<S, F> FilterMap<S, F> {
    /// The strategy whose values are filtered and mapped.
    pub closed spec fn source(&self) -> S {
        self.source
    }

    /// The reason recorded for a rejected value.
    pub closed spec fn whence(&self) -> Reason {
        self.whence
    }

    /// The function that maps or rejects values.
    pub closed spec fn fun(&self) -> F {
        *self.fun
    }

    /// Maps the values of `source` by `fun`, rejecting those it maps to
    /// `None` and recording `whence`.
    pub fn new(source: S, whence: Reason, fun: F) -> (r: FilterMap<S, F>)
        ensures
            r.source() == source,
            r.whence() == whence,
            r.fun() == fun,
    {
        FilterMap { source, whence, fun: Arc::new(fun) }
    }
}

/// The combination that `prop_union` builds: strategies to pick from
/// uniformly.
pub struct Union<S> {
    options: Vec<S>,
}

impl<S> Union<S> {
    /// The strategies picked from, in order.
    pub closed spec fn options(&self) -> Seq<S> {
        self.options@
    }

    /// Picks uniformly from `options`.
    pub fn new(options: Vec<S>) -> (r: Union<S>)
        ensures
            r.options() == options@,
    {
        Union { options }
    }
}

/// The combination that `prop_shuffle` builds: a source strategy whose
/// values are to be shuffled.
pub struct Shuffle<S>(S);

impl<S> Shuffle<S> {
    /// The strategy whose values are shuffled.
    pub closed spec fn source(&self) -> S {
        self.0
    }

    /// Shuffles the values of `source`.
    pub fn new(source: S) -> (r: Shuffle<S>)
        ensures
            r.source() == source,
    {
        Shuffle(source)
    }
}

} // verus!
