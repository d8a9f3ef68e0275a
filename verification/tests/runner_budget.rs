use proptest::runner::{Config, Reason, TestRng, TestRunner, DEFAULT_MAX_LOCAL_REJECTS};
use proptest::sanity::{sanity_runner, CheckStrategySanityOptions, COMPLICATE_RECHECKS, SIMPLIFY_RECHECKS};

#[test]
fn default_config_allows_65536_local_rejects() {
    let config = Config::default();
    assert_eq!(config.max_local_rejects, 65536);
    assert_eq!(DEFAULT_MAX_LOCAL_REJECTS, 65536);
}

#[test]
fn local_rejects_are_counted_until_the_budget_is_spent() {
    let mut runner = TestRunner::new(Config { max_local_rejects: 2 });
    assert_eq!(runner.max_local_rejects(), 2);
    assert_eq!(runner.local_rejects(), 0);
    assert!(runner.reject_local(Reason::new("a".to_string())).is_ok());
    assert!(runner.reject_local(Reason::new("b".to_string())).is_ok());
    assert_eq!(runner.local_rejects(), 2);
    let refused = runner.reject_local(Reason::new("c".to_string()));
    assert_eq!(refused.err().unwrap().message(), "Too many local rejects");
    assert_eq!(runner.local_rejects(), 2);
}

#[test]
fn a_zero_budget_refuses_the_first_reject() {
    let mut runner = TestRunner::new(Config { max_local_rejects: 0 });
    assert!(runner.reject_local(Reason::new("a".to_string())).is_err());
    assert_eq!(runner.local_rejects(), 0);
}

#[test]
fn reason_keeps_its_text() {
    assert_eq!(Reason::new("why not".to_string()).message(), "why not");
}

#[test]
fn default_options_are_strict_and_retry_local_rejects() {
    let options = CheckStrategySanityOptions::default();
    assert!(options.strict_complicate_after_simplify);
    assert!(!options.error_on_local_rejects);
}

#[test]
fn recheck_counts() {
    assert_eq!(COMPLICATE_RECHECKS, 15);
    assert_eq!(SIMPLIFY_RECHECKS, 16);
}

#[test]
fn sanity_runner_follows_the_options() {
    let strict_errors = CheckStrategySanityOptions {
        strict_complicate_after_simplify: true,
        error_on_local_rejects: true,
        _non_exhaustive: (),
    };
    let runner = sanity_runner(&strict_errors);
    assert_eq!(runner.max_local_rejects(), 0);
    assert_eq!(runner.local_rejects(), 0);
    let runner = sanity_runner(&CheckStrategySanityOptions::default());
    assert_eq!(runner.max_local_rejects(), 65536);
    assert_eq!(runner.local_rejects(), 0);
}

#[test]
fn a_generator_keeps_its_seed() {
    let seed = [7u8, 1, 2, 3, 4, 5, 6, 7, 8, 9, 10, 11, 12, 13, 14, 255];
    assert_eq!(TestRng::from_seed(seed).seed(), seed);
}

#[test]
fn a_new_runner_starts_from_the_zero_seed() {
    let runner = TestRunner::new(Default::default());
    assert_eq!(runner.rng().seed(), [0u8; 16]);
}

#[test]
fn a_runner_keeps_the_generator_it_is_given() {
    let seed = [9u8; 16];
    let mut runner = TestRunner::new_with_rng(Config { max_local_rejects: 3 }, TestRng::from_seed(seed));
    assert_eq!(runner.rng().seed(), seed);
    assert_eq!(runner.max_local_rejects(), 3);
    assert_eq!(runner.local_rejects(), 0);
    assert!(runner.reject_local(Reason::new("a".to_string())).is_ok());
    assert_eq!(runner.rng().seed(), seed);
    assert_eq!(runner.local_rejects(), 1);
}
