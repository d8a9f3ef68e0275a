//! The parts of a test runner that strategies see: its configuration, the
//! reason a value could not be produced, and the budget of local rejections.

use vstd::prelude::*;

verus! {

/// The default number of local rejections a runner tolerates.
pub const DEFAULT_MAX_LOCAL_REJECTS: u32 = 65536;

/// Why a strategy could not produce a value (or a test case was rejected).
pub struct Reason {
    message: String,
}

impl Reason {
    /// The text of the reason, as a sequence of characters.
    pub closed spec fn text(&self) -> Seq<char> {
        self.message@
    }

    /// Makes a reason from its text.
    pub fn new(message: String) -> (r: Reason)
        ensures
            r.text() == message@,
    {
        Reason { message }
    }

    /// The text of the reason.
    pub fn message(&self) -> (s: &str)
        ensures
            s@ == self.text(),
    {
        self.message.as_str()
    }
}

/// Configuration of a test runner, as far as strategies depend on it.
pub struct Config {
    /// How many local rejections (values filtered away inside a strategy)
    /// are tolerated before generation fails.
    pub max_local_rejects: u32,
}

impl Default for Config {
    fn default() -> (c: Config)
        ensures
            c.max_local_rejects == DEFAULT_MAX_LOCAL_REJECTS,
    {
        Config { max_local_rejects: DEFAULT_MAX_LOCAL_REJECTS }
    }
}

/// The state of a test runner's random number generator, held as its seed.
#[derive(Clone, Copy, Debug)]
pub struct TestRng {
    seed: [u8; 16],
}

impl TestRng {
    /// The generator's state.
    pub closed spec fn seed_spec(&self) -> Seq<u8> {
        self.seed@
    }

    /// The generator in the state given by `seed`.
    pub fn from_seed(seed: [u8; 16]) -> (r: TestRng)
        ensures
            r.seed_spec() == seed@,
    {
        TestRng { seed }
    }

    /// The generator seeded with the all-zero seed, the seed a runner starts
    /// with unless another is given.
    pub closed spec fn default_spec() -> TestRng {
        TestRng { seed: [0, 0, 0, 0, 0, 0, 0, 0, 0, 0, 0, 0, 0, 0, 0, 0] }
    }

    /// The generator's state.
    pub fn seed(&self) -> (s: [u8; 16])
        ensures
            s@ == self.seed_spec(),
    {
        self.seed
    }
}

/// The state that a strategy is handed while generating a value tree.
pub struct TestRunner {
    config: Config,
    local_rejects: u32,
    rng: TestRng,
}

impl TestRunner {
    /// The runner never records more local rejections than it tolerates.
    #[verifier::type_invariant]
    spec fn within_budget(&self) -> bool {
        self.local_rejects <= self.config.max_local_rejects
    }

    /// The configuration the runner was made with.
    pub closed spec fn max_local_rejects_spec(&self) -> u32 {
        self.config.max_local_rejects
    }

    /// How many local rejections have been recorded so far.
    pub closed spec fn local_rejects_spec(&self) -> u32 {
        self.local_rejects
    }

    /// The runner's random number generator.
    pub closed spec fn rng_spec(&self) -> TestRng {
        self.rng
    }

    /// This runner after one more local rejection has been recorded.
    pub closed spec fn after_reject(&self) -> TestRunner {
        TestRunner { local_rejects: (self.local_rejects + 1) as u32, ..*self }
    }

    /// Recording a rejection keeps the budget and counts one more rejection.
    pub proof fn lemma_after_reject(runner: TestRunner)
        requires
            runner.local_rejects_spec() < runner.max_local_rejects_spec(),
        ensures
            runner.after_reject().max_local_rejects_spec() == runner.max_local_rejects_spec(),
            runner.after_reject().local_rejects_spec() == runner.local_rejects_spec() + 1,
            runner.after_reject().rng_spec() == runner.rng_spec(),
    {
    }

    /// The runner that tolerates `max_local_rejects` local rejections, has
    /// recorded none yet, and has its generator in the state `rng`.
    pub closed spec fn fresh_with_rng(max_local_rejects: u32, rng: TestRng) -> TestRunner {
        TestRunner { config: Config { max_local_rejects }, local_rejects: 0, rng }
    }

    /// The runner that tolerates `max_local_rejects` local rejections, has
    /// recorded none yet, and has its generator seeded with
    /// the all-zero seed.
    pub open spec fn fresh(max_local_rejects: u32) -> TestRunner {
        TestRunner::fresh_with_rng(max_local_rejects, TestRng::default_spec())
    }

    /// What `fresh_with_rng` makes: a runner with that budget and generator,
    /// and no rejections yet.
    pub proof fn lemma_fresh(max_local_rejects: u32, rng: TestRng)
        ensures
            TestRunner::fresh_with_rng(max_local_rejects, rng).max_local_rejects_spec()
                == max_local_rejects,
            TestRunner::fresh_with_rng(max_local_rejects, rng).local_rejects_spec() == 0,
            TestRunner::fresh_with_rng(max_local_rejects, rng).rng_spec() == rng,
    {
    }

    /// A runner with the given configuration and generator that has rejected
    /// nothing yet.
    pub fn new_with_rng(config: Config, rng: TestRng) -> (r: TestRunner)
        ensures
            r == TestRunner::fresh_with_rng(config.max_local_rejects, rng),
            r.max_local_rejects_spec() == config.max_local_rejects,
            r.local_rejects_spec() == 0,
            r.rng_spec() == rng,
    {
        TestRunner { config, local_rejects: 0, rng }
    }

    /// The runner's random number generator.
    pub fn rng(&self) -> (r: &TestRng)
        ensures
            *r == self.rng_spec(),
    {
        &self.rng
    }

    /// A runner with the given configuration that has rejected nothing yet,
    /// its generator seeded with the all-zero seed, so that runs are
    /// repeatable.
    pub fn new(config: Config) -> (r: TestRunner)
        ensures
            r == TestRunner::fresh(config.max_local_rejects),
            r.max_local_rejects_spec() == config.max_local_rejects,
            r.local_rejects_spec() == 0,
            r.rng_spec() == TestRng::default_spec(),
    {
        TestRunner::new_with_rng(config, TestRng { seed: [0, 0, 0, 0, 0, 0, 0, 0, 0, 0, 0, 0, 0, 0, 0, 0] })
    }

    /// The number of local rejections recorded so far.
    pub fn local_rejects(&self) -> (n: u32)
        ensures
            n == self.local_rejects_spec(),
            n <= self.max_local_rejects_spec(),
    {
        proof {
            use_type_invariant(self);
        }
        self.local_rejects
    }

    /// The most local rejections this runner tolerates.
    pub fn max_local_rejects(&self) -> (n: u32)
        ensures
            n == self.max_local_rejects_spec(),
    {
        self.config.max_local_rejects
    }

    /// Records that a strategy discarded a value for the given reason.
    ///
    /// Fails with "Too many local rejects", recording nothing, once the
    /// budget of local rejections is spent; otherwise counts the rejection.
    pub fn reject_local(&mut self, _whence: Reason) -> (r: Result<(), Reason>)
        ensures
            final(self).max_local_rejects_spec() == old(self).max_local_rejects_spec(),
            old(self).local_rejects_spec() >= old(self).max_local_rejects_spec() ==> {
                &&& r is Err
                &&& r->Err_0.text() == "Too many local rejects"@
                &&& *final(self) == *old(self)
            },
            old(self).local_rejects_spec() < old(self).max_local_rejects_spec() ==> {
                &&& r is Ok
                &&& *final(self) == old(self).after_reject()
                &&& final(self).local_rejects_spec() == old(self).local_rejects_spec() + 1
            },
    {
        proof {
            use_type_invariant(&*self);
        }
        if self.local_rejects >= self.config.max_local_rejects {
            Err(Reason::new("Too many local rejects".to_owned()))
        } else {
            self.local_rejects = self.local_rejects + 1;
            Ok(())
        }
    }
}

} // verus!
