use std::rc::Rc;
use std::sync::Arc;

use proptest::runner::{Reason, TestRng, TestRunner};
use proptest::sanity::{
    check_strategy_sanity, check_tree_sanity, CheckStrategySanityOptions, SanityViolation,
    SHRINK_LIMIT,
};
use proptest::strategy::Strategy;
use proptest::tree::ValueTree;

/// A binary search from a starting value down towards zero, the state
/// machine that the value tree documentation describes.
#[derive(Clone, Debug)]
struct BinarySearch {
    lo: u32,
    curr: u32,
    hi: u32,
}

impl BinarySearch {
    fn new(start: u32) -> Self {
        BinarySearch { lo: 0, curr: start, hi: start }
    }

    fn reposition(&mut self) -> bool {
        let interval = self.hi - self.lo;
        let new_mid = self.lo + interval / 2;
        if new_mid == self.curr {
            false
        } else {
            self.curr = new_mid;
            true
        }
    }
}

impl ValueTree for BinarySearch {
    type Value = u32;

    fn current_spec(&self) -> u32 {
        self.curr
    }

    fn simplify_spec(&self) -> (Self, bool) {
        let mut next = self.clone();
        let changed = next.simplify();
        (next, changed)
    }

    fn complicate_spec(&self) -> (Self, bool) {
        let mut next = self.clone();
        let changed = next.complicate();
        (next, changed)
    }

    fn current(&self) -> u32 {
        self.curr
    }

    fn simplify(&mut self) -> bool {
        if self.hi <= self.lo {
            return false;
        }
        self.hi = self.curr;
        self.reposition()
    }

    fn complicate(&mut self) -> bool {
        if self.hi <= self.lo {
            return false;
        }
        self.lo = self.curr + 1;
        self.reposition()
    }
}

/// Generates binary searches from one starting point.
#[derive(Debug)]
struct Numbers {
    start: u32,
}

fn numbers(start: u32) -> Numbers {
    Numbers { start }
}

/// Starting points that the strategy tests run through.
const STARTS: [u32; 7] = [0, 1, 2, 3, 100, 65_535, 4_000_000_000];

impl Strategy for Numbers {
    type Tree = BinarySearch;
    type Value = u32;

    fn new_tree_spec(&self, runner: TestRunner) -> (TestRunner, Result<BinarySearch, Reason>) {
        (runner, Ok(BinarySearch::new(self.start)))
    }

    fn new_tree(&self, _runner: &mut TestRunner) -> Result<BinarySearch, Reason> {
        Ok(BinarySearch::new(self.start))
    }
}

/// A value tree given by tables: the value in each state, and the state and
/// result of `simplify` and of `complicate` in each state.
#[derive(Debug)]
struct Script<V> {
    values: Vec<V>,
    simplify: Vec<(usize, bool)>,
    complicate: Vec<(usize, bool)>,
}

#[derive(Debug)]
struct Scripted<V> {
    script: Rc<Script<V>>,
    state: usize,
}

impl<V> Clone for Scripted<V> {
    fn clone(&self) -> Self {
        Scripted { script: self.script.clone(), state: self.state }
    }
}

fn scripted<V>(values: Vec<V>, simplify: Vec<(usize, bool)>, complicate: Vec<(usize, bool)>) -> Scripted<V> {
    Scripted { script: Rc::new(Script { values, simplify, complicate }), state: 0 }
}

impl<V: Clone> ValueTree for Scripted<V> {
    type Value = V;

    fn current_spec(&self) -> V {
        self.current()
    }

    fn simplify_spec(&self) -> (Self, bool) {
        let mut next = self.clone();
        let changed = next.simplify();
        (next, changed)
    }

    fn complicate_spec(&self) -> (Self, bool) {
        let mut next = self.clone();
        let changed = next.complicate();
        (next, changed)
    }

    fn current(&self) -> V {
        self.script.values[self.state].clone()
    }

    fn simplify(&mut self) -> bool {
        let (next, changed) = self.script.simplify[self.state];
        self.state = next;
        changed
    }

    fn complicate(&mut self) -> bool {
        let (next, changed) = self.script.complicate[self.state];
        self.state = next;
        changed
    }
}

/// A strategy that always hands out the same scripted tree.
#[derive(Debug)]
struct Always<V>(Scripted<V>);

impl<V: Clone + std::fmt::Debug> Strategy for Always<V> {
    type Tree = Scripted<V>;
    type Value = V;

    fn new_tree_spec(&self, runner: TestRunner) -> (TestRunner, Result<Scripted<V>, Reason>) {
        (runner, Ok(self.0.clone()))
    }

    fn new_tree(&self, _runner: &mut TestRunner) -> Result<Scripted<V>, Reason> {
        Ok(self.0.clone())
    }
}

fn strict() -> Option<CheckStrategySanityOptions> {
    Some(CheckStrategySanityOptions {
        strict_complicate_after_simplify: true,
        error_on_local_rejects: false,
        _non_exhaustive: (),
    })
}

fn lenient() -> Option<CheckStrategySanityOptions> {
    Some(CheckStrategySanityOptions {
        strict_complicate_after_simplify: false,
        error_on_local_rejects: false,
        _non_exhaustive: (),
    })
}

#[test]
fn binary_search_passes_the_check() {
    for start in STARTS {
        assert!(check_strategy_sanity(numbers(start), None).is_ok());
    }
}

#[test]
fn binary_search_passes_the_lenient_check() {
    for start in STARTS {
        assert!(check_strategy_sanity(numbers(start), lenient()).is_ok());
    }
}

#[test]
fn binary_search_tree_passes_both_modes() {
    for start in [0u32, 1, 2, 3, 100, 4_000_000_000] {
        assert!(check_tree_sanity(BinarySearch::new(start), true).is_ok());
        assert!(check_tree_sanity(BinarySearch::new(start), false).is_ok());
    }
}

#[test]
fn no_shrink_strategy_passes_the_check() {
    for start in STARTS {
        assert!(check_strategy_sanity(numbers(start).no_shrink(), None).is_ok());
    }
}

#[test]
fn no_shrink_tree_never_shrinks() {
    let mut runner = TestRunner::new(Default::default());
    let mut tree = numbers(1).no_shrink().new_tree(&mut runner).ok().unwrap();
    assert_eq!(tree.current(), 1);
    assert!(!tree.simplify());
    assert!(!tree.complicate());
    assert_eq!(tree.current(), 1);
}

#[test]
fn no_shrink_hides_a_broken_tree() {
    // Simplifying this tree changes its value although it reports no change.
    let broken = scripted(vec![1, 2], vec![(1, false), (1, false)], vec![(0, false), (1, false)]);
    assert!(check_tree_sanity(broken.clone(), true).is_err());
    assert!(check_strategy_sanity(Always(broken).no_shrink(), None).is_ok());
}

#[test]
fn proxies_generate_as_the_inner_strategy() {
    assert!(check_strategy_sanity(Box::new(numbers(37)), None).is_ok());
    assert!(check_strategy_sanity(Rc::new(numbers(37)), None).is_ok());
    assert!(check_strategy_sanity(Arc::new(numbers(37)), None).is_ok());
    let s = numbers(37);
    assert!(check_strategy_sanity(&s, None).is_ok());
    let mut m = numbers(37);
    assert!(check_strategy_sanity(&mut m, None).is_ok());
}

#[test]
fn boxed_tree_shrinks_as_its_content() {
    let mut plain = BinarySearch::new(10);
    let mut boxed = Box::new(BinarySearch::new(10));
    for _ in 0..5 {
        assert_eq!(plain.simplify(), boxed.simplify());
        assert_eq!(plain.current(), boxed.current());
        assert_eq!(plain.complicate(), boxed.complicate());
        assert_eq!(plain.current(), boxed.current());
    }
    assert!(check_tree_sanity(Box::new(BinarySearch::new(77)), true).is_ok());
}

#[test]
fn endless_shrinking_is_no_convergence() {
    let tree = scripted(vec![0], vec![(0, true)], vec![(0, true)]);
    match check_tree_sanity(tree, true) {
        Err(SanityViolation::NoConvergence { state }) => assert_eq!(state.state, 0),
        _ => panic!("expected NoConvergence"),
    }
}

#[test]
fn strict_mode_wants_complicate_after_simplify() {
    // One simplification, then nothing can be undone; the value never moves.
    let tree = scripted(vec![5, 5], vec![(1, true), (1, false)], vec![(0, false), (1, false)]);
    match check_tree_sanity(tree.clone(), true) {
        Err(SanityViolation::ComplicateFailed { num_simplifies, before_simplified, simplified, complicated }) => {
            assert_eq!(num_simplifies, 0);
            assert_eq!(before_simplified.state, 0);
            assert_eq!(simplified.state, 1);
            assert_eq!(complicated.state, 1);
        },
        _ => panic!("expected ComplicateFailed"),
    }
    assert!(check_tree_sanity(tree, false).is_ok());
}

#[test]
fn endless_complication_is_reported() {
    // 0 -simplify-> 1 -simplify-> 2 (settled); complicate at 1 never stops.
    let tree = scripted(
        vec![3, 2, 1],
        vec![(1, true), (2, true), (2, false)],
        vec![(0, false), (1, true), (2, false)],
    );
    match check_tree_sanity(tree, true) {
        Err(SanityViolation::ComplicateUnending { num_simplifies, simplified, complicated }) => {
            assert_eq!(num_simplifies, 0);
            assert_eq!(simplified.state, 1);
            assert_eq!(complicated.state, 1);
        },
        _ => panic!("expected ComplicateUnending"),
    }
}

#[test]
fn complicating_back_must_restore_the_value() {
    // Simplifying 10 gives 5, and nothing brings 10 back.
    let tree = scripted(vec![10, 5], vec![(1, true), (1, false)], vec![(0, false), (1, false)]);
    match check_tree_sanity(tree, false) {
        Err(SanityViolation::NotRestored { num_simplifies, before_simplified, simplified, calls, complicated }) => {
            assert_eq!(num_simplifies, 0);
            assert_eq!(before_simplified.current(), 10);
            assert_eq!(simplified.current(), 5);
            assert_eq!(calls, 1);
            assert_eq!(complicated.current(), 5);
        },
        _ => panic!("expected NotRestored"),
    }
}

/// 0 (10) -simplify-> 1 (5); 1 -complicate-> 2 (10, true);
/// 2 -complicate-> 3 (10, false); 3 -complicate-> 4 (`last`, `resumes`).
fn settles_then(last: i32, resumes: bool) -> Scripted<i32> {
    scripted(
        vec![10, 5, 10, 10, last],
        vec![(1, true), (1, false), (2, false), (3, false), (4, false)],
        vec![(0, false), (2, true), (3, false), (4, resumes), (4, false)],
    )
}

#[test]
fn settled_complicate_must_keep_the_value() {
    match check_tree_sanity(settles_then(99, false), true) {
        Err(SanityViolation::ComplicateChangedValue { num_simplifies, prev_complicated, calls, complicated }) => {
            assert_eq!(num_simplifies, 0);
            assert_eq!(prev_complicated.state, 2);
            assert_eq!(calls, 2);
            assert_eq!(complicated.current(), 99);
        },
        _ => panic!("expected ComplicateChangedValue"),
    }
}

#[test]
fn settled_complicate_must_stay_false() {
    match check_tree_sanity(settles_then(10, true), true) {
        Err(SanityViolation::ComplicateResumed { num_simplifies, prev_complicated, calls, complicated }) => {
            assert_eq!(num_simplifies, 0);
            assert_eq!(prev_complicated.state, 2);
            assert_eq!(calls, 2);
            assert_eq!(complicated.state, 4);
        },
        _ => panic!("expected ComplicateResumed"),
    }
    assert!(check_tree_sanity(settles_then(10, false), true).is_ok());
}

#[test]
fn failed_simplify_must_keep_the_value() {
    let tree = scripted(vec![1, 2], vec![(1, false), (1, false)], vec![(0, false), (1, false)]);
    match check_tree_sanity(tree, true) {
        Err(SanityViolation::SimplifyChangedValue { num_simplifies, before_simplified, calls, state }) => {
            assert_eq!(num_simplifies, 0);
            assert_eq!(before_simplified.state, 0);
            assert_eq!(calls, 1);
            assert_eq!(state.current(), 2);
        },
        _ => panic!("expected SimplifyChangedValue"),
    }
}

#[test]
fn failed_simplify_must_stay_false() {
    let tree = scripted(
        vec![1, 1, 1],
        vec![(1, false), (2, true), (2, false)],
        vec![(0, false), (1, false), (2, false)],
    );
    match check_tree_sanity(tree, true) {
        Err(SanityViolation::SimplifyResumed { num_simplifies, before_simplified, calls, state }) => {
            assert_eq!(num_simplifies, 0);
            assert_eq!(before_simplified.state, 0);
            assert_eq!(calls, 2);
            assert_eq!(state.state, 2);
        },
        _ => panic!("expected SimplifyResumed"),
    }
}

#[test]
fn values_that_are_not_equal_to_themselves_count_as_the_same() {
    let nan_to_nan = scripted(
        vec![f64::NAN, f64::NAN],
        vec![(1, false), (1, false)],
        vec![(0, false), (1, false)],
    );
    assert!(check_tree_sanity(nan_to_nan, true).is_ok());
    let nan_to_number = scripted(vec![f64::NAN, 3.0], vec![(1, false), (1, false)], vec![(0, false), (1, false)]);
    assert!(matches!(
        check_tree_sanity(nan_to_number, true),
        Err(SanityViolation::SimplifyChangedValue { .. })
    ));
}

#[test]
fn violations_found_through_a_strategy_are_reported() {
    let tree = scripted(vec![10, 5], vec![(1, true), (1, false)], vec![(0, false), (1, false)]);
    assert!(matches!(
        check_strategy_sanity(Always(tree), lenient()),
        Err(SanityViolation::NotRestored { .. })
    ));
}

#[test]
fn strict_is_the_default() {
    let tree = scripted(vec![5, 5], vec![(1, true), (1, false)], vec![(0, false), (1, false)]);
    assert!(matches!(
        check_strategy_sanity(Always(tree.clone()), None),
        Err(SanityViolation::ComplicateFailed { .. })
    ));
    assert!(matches!(
        check_strategy_sanity(Always(tree.clone()), strict()),
        Err(SanityViolation::ComplicateFailed { .. })
    ));
    assert!(check_strategy_sanity(Always(tree), lenient()).is_ok());
}

/// A strategy that cannot produce anything.
#[derive(Debug)]
struct Never;

impl Strategy for Never {
    type Tree = BinarySearch;
    type Value = u32;

    fn new_tree_spec(&self, runner: TestRunner) -> (TestRunner, Result<BinarySearch, Reason>) {
        (runner, Err(Reason::new("nothing to give".to_string())))
    }

    fn new_tree(&self, _runner: &mut TestRunner) -> Result<BinarySearch, Reason> {
        Err(Reason::new("nothing to give".to_string()))
    }
}

#[test]
fn generation_gives_up_when_nothing_comes() {
    match check_strategy_sanity(&Never, None) {
        Err(SanityViolation::GenerationFailed { reason }) => assert_eq!(reason.message(), "nothing to give"),
        _ => panic!("expected GenerationFailed"),
    }
}

/// A strategy that fails, recording a local rejection each time, until the
/// runner has recorded `failures` of them; from then on it hands out trees.
/// What it does depends on the runner's state alone.
#[derive(Debug)]
struct FailsUntil {
    failures: u32,
}

impl Strategy for FailsUntil {
    type Tree = BinarySearch;
    type Value = u32;

    fn new_tree_spec(&self, runner: TestRunner) -> (TestRunner, Result<BinarySearch, Reason>) {
        let mut next = runner;
        let result = self.new_tree(&mut next);
        (next, result)
    }

    fn new_tree(&self, runner: &mut TestRunner) -> Result<BinarySearch, Reason> {
        if runner.local_rejects() < self.failures {
            runner.reject_local(Reason::new("not yet".to_string()))?;
            Err(Reason::new("not yet".to_string()))
        } else {
            Ok(BinarySearch::new(runner.local_rejects()))
        }
    }
}

#[test]
fn generation_retries_a_hundred_times() {
    // The first round fails 100 times in a row, then generates.
    assert!(check_strategy_sanity(FailsUntil { failures: 100 }, None).is_ok());
}

#[test]
fn generation_gives_up_after_a_hundred_retries() {
    // 101 failures in a row end the check.
    match check_strategy_sanity(FailsUntil { failures: 101 }, None) {
        Err(SanityViolation::GenerationFailed { reason }) => assert_eq!(reason.message(), "not yet"),
        _ => panic!("expected GenerationFailed"),
    }
}

#[test]
fn generation_failures_count_in_a_row_only() {
    let mut runner = TestRunner::new(Default::default());
    let strategy = FailsUntil { failures: 2 };
    assert!(strategy.new_tree(&mut runner).is_err());
    assert!(strategy.new_tree(&mut runner).is_err());
    assert_eq!(strategy.new_tree(&mut runner).ok().unwrap().current(), 2);
    assert_eq!(runner.local_rejects(), 2);
}

/// A strategy that records a local rejection before handing out each tree,
/// and fails when the runner refuses it.
#[derive(Debug)]
struct Picky;

impl Strategy for Picky {
    type Tree = BinarySearch;
    type Value = u32;

    fn new_tree_spec(&self, runner: TestRunner) -> (TestRunner, Result<BinarySearch, Reason>) {
        let mut next = runner;
        let result = self.new_tree(&mut next);
        (next, result)
    }

    fn new_tree(&self, runner: &mut TestRunner) -> Result<BinarySearch, Reason> {
        runner.reject_local(Reason::new("odd".to_string()))?;
        Ok(BinarySearch::new(runner.local_rejects()))
    }
}

#[test]
fn local_rejects_can_be_made_errors() {
    let options = Some(CheckStrategySanityOptions {
        strict_complicate_after_simplify: true,
        error_on_local_rejects: true,
        _non_exhaustive: (),
    });
    match check_strategy_sanity(Picky, options) {
        Err(SanityViolation::GenerationFailed { reason }) => assert_eq!(reason.message(), "Too many local rejects"),
        _ => panic!("expected GenerationFailed"),
    }
    assert!(check_strategy_sanity(Picky, None).is_ok());
}

#[test]
fn shrink_limit_is_65536() {
    assert_eq!(SHRINK_LIMIT, 65536);
}

#[test]
fn boxing_a_broken_tree_keeps_it_broken() {
    let broken = scripted(vec![10, 5], vec![(1, true), (1, false)], vec![(0, false), (1, false)]);
    assert!(matches!(
        check_tree_sanity(Box::new(broken), false),
        Err(SanityViolation::NotRestored { .. })
    ));
}

#[test]
fn endless_simplify_is_caught_as_no_convergence() {
    let tree = scripted(vec![0, 1], vec![(1, true), (0, true)], vec![(0, false), (1, false)]);
    assert!(matches!(
        check_tree_sanity(tree, false),
        Err(SanityViolation::NoConvergence { .. })
    ));
}

#[test]
fn no_shrink_passes_the_inner_error_on() {
    let mut runner = TestRunner::new(Default::default());
    match Never.no_shrink().new_tree(&mut runner) {
        Err(reason) => assert_eq!(reason.message(), "nothing to give"),
        Ok(_) => panic!("expected the inner error"),
    }
}

#[test]
fn no_convergence_reports_the_state_reached() {
    // Simplify flips between two states forever.
    let tree = scripted(vec![0, 1], vec![(1, true), (0, true)], vec![(0, false), (1, false)]);
    match check_tree_sanity(tree, true) {
        // 65537 flips from state 0 end in state 1.
        Err(SanityViolation::NoConvergence { state }) => assert_eq!(state.state, 1),
        _ => panic!("expected NoConvergence"),
    }
}

#[test]
fn the_first_broken_step_is_reported() {
    // The first simplify (10 -> 5) is undone properly; the second (5 -> 2)
    // cannot be undone, and the value also drifts once simplify is done.
    let tree = scripted(
        vec![10, 5, 10, 2, 7],
        vec![(1, true), (3, true), (2, false), (4, false), (4, false)],
        vec![(0, false), (2, true), (2, false), (3, false), (4, false)],
    );
    match check_tree_sanity(tree, false) {
        Err(SanityViolation::NotRestored { num_simplifies, .. }) => assert_eq!(num_simplifies, 1),
        other => panic!("expected NotRestored, got {:?}", other.is_ok()),
    }
}

#[test]
fn combinators_build_their_strategies() {
    let _mapped = numbers(1).prop_map(|v: u32| v + 1);
    let _flat = numbers(1).prop_ind_flat_map(numbers);
    let _pairs = numbers(1).prop_ind_flat_map2(numbers);
}

#[test]
fn more_combinators_build_their_strategies() {
    let _into = numbers(1).prop_map_into::<u64>();
    let _flat = numbers(1).prop_flat_map(numbers);
    let _even = numbers(1).prop_filter(Reason::new("odd".to_string()), |v: &u32| v % 2 == 0);
    let _halves = numbers(1).prop_filter_map(Reason::new("odd".to_string()), |v: u32| {
        if v % 2 == 0 { Some(v / 2) } else { None }
    });
    let _either = numbers(1).prop_union(numbers(2));
    let _shuffled = numbers(1).prop_shuffle();
    let _perturbed = numbers(1).prop_perturb(|v: u32, rng: TestRng| v ^ u32::from(rng.seed()[0]));
}

#[test]
fn a_no_shrink_tree_clones_faithfully() {
    let mut runner = TestRunner::new(Default::default());
    let tree = numbers(1).no_shrink().new_tree(&mut runner).ok().unwrap();
    let copy = tree.clone();
    assert_eq!(copy.current(), tree.current());
}
