# proptest strategy traits, verified

The core traits of a property-testing library — `Strategy`, which generates
value trees from a test runner, and `ValueTree`, the state machine that
shrinks a generated value — together with a checker that a strategy's value
trees keep the shrinking contract. Everything under `src/` is verified with
Verus.

- `src/runner.rs`: the runner that strategies are handed (its configuration,
  its budget of local rejections, and its random generator `TestRng`, held
  as its seed) and `Reason`.
- `src/tree.rs`: `ValueTree`, whose implementations state their model as
  spec functions (current value, and the effect of one `simplify` or
  `complicate`), and its implementation for `Box`.
- `src/strategy.rs`: `Strategy`, whose implementations state their model as
  a spec function of the runner's state (`new_tree_spec`), `NoShrink`, and
  the strategies that forward to another (`Box`, `&`, `&mut`, `Rc`, `Arc`).
- `src/map.rs`: what the combinators `prop_map`, `prop_map_into`,
  `prop_perturb`, `prop_flat_map`, `prop_ind_flat_map`, `prop_ind_flat_map2`,
  `prop_filter`, `prop_filter_map`, `prop_union` and `prop_shuffle` build:
  the source strategy and the function or reason given. They are not
  strategies here: generating from them, which would call the user's closure
  (and, for `prop_perturb`, draw from the generator), is left out.
- `src/sanity.rs`: the shrinking contract as spec functions (`tree_sane`),
  the checkers `check_tree_sanity` and `check_strategy_sanity` with exact
  contracts, and the laws proved about them.
- `app/lib.rs`: a front for the checker that panics with a description of
  the violation found.

Not here:

- `BoxedStrategy`, `SBoxedStrategy`, `boxed` and `sboxed`, and boxed value
  trees of unsized type: they erase types through `dyn Strategy<Value = T, ..>`
  and `dyn ValueTree<Value = T>`, trait objects with associated-type bindings,
  which Verus does not accept.
- `prop_recursive`, which works on boxed strategies, left out as above.
- Drawing random numbers: `TestRng` holds the generator's seed, and nothing
  here draws from it.
