use vstd::prelude::*;

verus! {

/// Why a generation request was refused before any work started.
#[derive(Debug, Clone, Copy, PartialEq, Eq, Structural)]
pub enum ConfigError {
    /// The timestep is not positive.
    NonPositiveStep,
    /// The noise matrix does not hold exactly four entries.
    MalformedNoise,
    /// No worker would run.
    NoWorkers,
    /// A stride of zero would never advance through a path.
    ZeroStride,
}

/// Why a generation request failed.
#[derive(Debug, Clone, Copy, PartialEq, Eq, Structural)]
pub enum GenerateError {
    /// The request was refused before any worker started.
    Config(ConfigError),
    /// A worker did not deliver its path; `collected` paths had arrived by then.
    WorkerFailed { collected: usize },
}

/// The engine's side of a generation request: how many paths, of how many
/// steps, on how many workers, and the view applied to each finished path.
#[derive(Debug, Clone, Copy, PartialEq, Eq, Structural)]
pub struct EngineConfig {
    pub step_count: usize,
    pub n_paths: usize,
    pub worker_count: usize,
    pub skip: Option<usize>,
    pub stride: Option<usize>,
}

/// The error, if any, that a request with these settings is refused with;
/// the timestep is checked first, then the noise matrix, the workers and the stride.
pub open spec fn config_error(
    step_positive: bool,
    noise_len: nat,
    worker_count: nat,
    stride: Option<usize>,
) -> Option<ConfigError> {
    if !step_positive {
        Some(ConfigError::NonPositiveStep)
    } else if noise_len != 4 {
        Some(ConfigError::MalformedNoise)
    } else if worker_count == 0 {
        Some(ConfigError::NoWorkers)
    } else if stride == Some(0usize) {
        Some(ConfigError::ZeroStride)
    } else {
        None
    }
}

impl EngineConfig {
    /// Settings that the engine can run with.
    pub open spec fn wf(&self) -> bool {
        &&& self.worker_count > 0
        &&& self.stride != Some(0usize)
    }

    /// Checks a request. `step_positive` tells whether the timestep is above
    /// zero, `noise_len` how many entries the noise matrix has.
    pub fn new(
        step_count: usize,
        n_paths: usize,
        worker_count: usize,
        skip: Option<usize>,
        stride: Option<usize>,
        step_positive: bool,
        noise_len: usize,
    ) -> (r: Result<EngineConfig, ConfigError>)
        ensures
            match config_error(step_positive, noise_len as nat, worker_count as nat, stride) {
                Some(e) => r == Err::<EngineConfig, ConfigError>(e),
                None => r == Ok::<EngineConfig, ConfigError>(
                    EngineConfig { step_count, n_paths, worker_count, skip, stride },
                ),
            },
            r is Ok ==> r->Ok_0.wf(),
    {
        if !step_positive {
            Err(ConfigError::NonPositiveStep)
        } else if noise_len != 4 {
            Err(ConfigError::MalformedNoise)
        } else if worker_count == 0 {
            Err(ConfigError::NoWorkers)
        } else if stride == Some(0usize) {
            Err(ConfigError::ZeroStride)
        } else {
            Ok(EngineConfig { step_count, n_paths, worker_count, skip, stride })
        }
    }
}

/// One attempt to claim a unit of work from a counter that has recorded
/// `claimed` claims out of `n_paths`: the new counter value when the claim
/// succeeds, `None` once the quota is used up. A successful claim's index is
/// the counter value before it.
pub fn next_claim(claimed: usize, n_paths: usize) -> (r: Option<usize>)
    ensures
        r == (if claimed < n_paths {
            Some((claimed + 1) as usize)
        } else {
            None::<usize>
        }),
{
    if claimed < n_paths {
        Some(claimed + 1)
    } else {
        None
    }
}

/// The counter value after `attempts` claim attempts on a fresh counter, the
/// attempts taken in the order in which the counter saw them.
pub open spec fn counter_after(n_paths: nat, attempts: nat) -> nat
    decreases attempts,
{
    if attempts == 0 {
        0
    } else {
        let c = counter_after(n_paths, (attempts - 1) as nat);
        if c < n_paths {
            c + 1
        } else {
            c
        }
    }
}

/// The index granted by attempt `j` (counting from zero), if it succeeded.
pub open spec fn claim_index(n_paths: nat, j: nat) -> Option<nat> {
    let c = counter_after(n_paths, j);
    if c < n_paths {
        Some(c)
    } else {
        None
    }
}

/// How many of the first `attempts` attempts succeeded.
pub open spec fn claims_granted(n_paths: nat, attempts: nat) -> nat
    decreases attempts,
{
    if attempts == 0 {
        0
    } else {
        claims_granted(n_paths, (attempts - 1) as nat) + if claim_index(
            n_paths,
            (attempts - 1) as nat,
        ) is Some {
            1nat
        } else {
            0nat
        }
    }
}

proof fn lemma_counter_after(n_paths: nat, attempts: nat)
    ensures
        counter_after(n_paths, attempts) == if attempts < n_paths {
            attempts
        } else {
            n_paths
        },
        claims_granted(n_paths, attempts) == counter_after(n_paths, attempts),
    decreases attempts,
{
    if attempts > 0 {
        lemma_counter_after(n_paths, (attempts - 1) as nat);
    }
}

/// Claims are exclusive: however the attempts of the workers interleave, the
/// `j`-th attempt that the counter sees is granted index `j` while
/// `j < n_paths` and nothing after, so no index is granted twice and, once
/// every worker has been refused, exactly `n_paths` claims have succeeded.
pub proof fn lemma_claims_exclusive(n_paths: nat, attempts: nat)
    ensures
        forall|j: nat|
            j < attempts ==> #[trigger] claim_index(n_paths, j) == if j < n_paths {
                Some(j)
            } else {
                None::<nat>
            },
        forall|j1: nat, j2: nat|
            j1 < attempts && j2 < attempts && (#[trigger] claim_index(n_paths, j1)) is Some
                && claim_index(n_paths, j1) == #[trigger] claim_index(n_paths, j2) ==> j1 == j2,
        claims_granted(n_paths, attempts) == if attempts < n_paths {
            attempts
        } else {
            n_paths
        },
        attempts > n_paths ==> claims_granted(n_paths, attempts) == n_paths,
{
    assert forall|j: nat| j < attempts implies #[trigger] claim_index(n_paths, j) == if j
        < n_paths {
        Some(j)
    } else {
        None::<nat>
    } by {
        lemma_counter_after(n_paths, j);
    }
    lemma_counter_after(n_paths, attempts);
}


/// The collection point of a generation request: it receives finished paths
/// one at a time until it holds the requested number of them.
pub struct Collector<T> {
    paths: Vec<T>,
    total: usize,
}

impl<T> Collector<T> {
    /// The paths received so far, in the order of arrival.
    pub closed spec fn held(&self) -> Seq<T> {
        self.paths@
    }

    /// The number of paths requested.
    pub closed spec fn total(&self) -> nat {
        self.total as nat
    }

    /// Never more paths than requested.
    pub open spec fn wf(&self) -> bool {
        self.held().len() <= self.total()
    }

    /// All requested paths have arrived.
    pub open spec fn complete(&self) -> bool {
        self.held().len() == self.total()
    }

    /// The progress report that the collector gives: (completed, total).
    pub open spec fn report(&self) -> (nat, nat) {
        (self.held().len(), self.total())
    }

    /// `self` is what `prev` becomes when one more path arrives.
    pub open spec fn follows(&self, prev: &Self) -> bool {
        &&& self.total() == prev.total()
        &&& self.held().len() == prev.held().len() + 1
        &&& self.held().subrange(0, prev.held().len() as int) == prev.held()
    }

    /// An empty collector for `total` paths.
    pub fn new(total: usize) -> (c: Collector<T>)
        ensures
            c.held() == Seq::<T>::empty(),
            c.total() == total,
            c.wf(),
    {
        Collector { paths: Vec::new(), total }
    }

    /// The number of paths received so far.
    pub fn completed(&self) -> (r: usize)
        ensures
            r == self.held().len(),
    {
        self.paths.len()
    }

    /// Whether every requested path has arrived.
    pub fn is_complete(&self) -> (r: bool)
        ensures
            r == self.complete(),
    {
        self.paths.len() == self.total
    }

    /// Receives one path and returns the progress report that follows:
    /// the number of paths held, and the number requested.
    pub fn push(&mut self, path: T) -> (r: (usize, usize))
        requires
            old(self).held().len() < old(self).total(),
        ensures
            final(self).held() == old(self).held().push(path),
            final(self).total() == old(self).total(),
            final(self).follows(old(self)),
            final(self).wf(),
            r.0 == final(self).held().len(),
            r.1 == final(self).total(),
    {
        self.paths.push(path);
        proof {
            assert(self.paths@.subrange(0, old(self).paths@.len() as int) =~= old(self).paths@);
        }
        (self.paths.len(), self.total)
    }

    /// The failure to report when a worker does not deliver: it carries the
    /// number of paths that had arrived.
    pub fn failure(&self) -> (e: GenerateError)
        ensures
            e == (GenerateError::WorkerFailed { collected: self.held().len() as usize }),
    {
        GenerateError::WorkerFailed { collected: self.paths.len() }
    }

    /// The finished ensemble, once every requested path has arrived.
    pub fn finish(self) -> (r: Vec<T>)
        requires
            self.complete(),
        ensures
            r@ == self.held(),
            r@.len() == self.total(),
    {
        self.paths
    }
}

proof fn lemma_reports_upto<T>(states: Seq<Collector<T>>, k: int)
    requires
        0 <= k < states.len(),
        states[0].held().len() == 0,
        forall|i: int| 0 < i < states.len() ==> #[trigger] states[i].follows(&states[i - 1]),
    ensures
        states[k].report() == (k as nat, states[0].total()),
    decreases k,
{
    if k > 0 {
        lemma_reports_upto(states, k - 1);
        assert(states[k].follows(&states[k - 1]));
    }
}

/// Progress only moves forward: along the states that a collector passes
/// through from empty, one arrival at a time, the completed count of the
/// reports never decreases (it is the number of arrivals), the total stays
/// put, and the last report equals the total once the collector is complete.
pub proof fn lemma_progress_monotone<T>(states: Seq<Collector<T>>)
    requires
        states.len() > 0,
        states[0].held().len() == 0,
        forall|i: int| 0 < i < states.len() ==> #[trigger] states[i].follows(&states[i - 1]),
    ensures
        forall|i: int, j: int|
            0 <= i <= j < states.len() ==> (#[trigger] states[i].report()).0 <= (
            #[trigger] states[j].report()).0 && states[i].report().1 == states[j].report().1,
        forall|i: int| 0 <= i < states.len() ==> (#[trigger] states[i].report()).0 == i,
        states.last().complete() ==> states.last().report() == (
        states[0].total(),
        states[0].total(),
        ),
{
    assert forall|i: int| 0 <= i < states.len() implies (#[trigger] states[i].report()) == (
    i as nat,
    states[0].total(),
    ) by {
        lemma_reports_upto(states, i);
    }
}

} // verus!
