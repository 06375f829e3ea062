use vstd::prelude::*;

use crate::grid::{rendered, serial, total, MandelConfig};
use crate::strategies::{
    job_steal, job_steal_join, rayon_join, rayon_par_iter, rust_scoped_pool, scoped_thread_pool_,
    simple_parallel_,
    StrategyError,
};

verus! {

/// The partitioning strategies that the harness can run.
#[derive(Clone, Copy, Debug, PartialEq, Eq, Structural)]
pub enum Strategy {
    Serial,
    ScopedThreadPool,
    SimpleParallel,
    ScopedPool,
    RayonJoin,
    RayonParIter,
    JobSteal,
    JobStealJoin,
}

impl Strategy {
    /// Whether starting the strategy's pool can fail for this worker count.
    /// A jobsteal pool of one thread is the caller's own and always starts.
    pub open spec fn may_fail(&self, num_threads: u32) -> bool {
        match self {
            Strategy::Serial
            | Strategy::ScopedThreadPool
            | Strategy::SimpleParallel
            | Strategy::ScopedPool => false,
            Strategy::JobSteal | Strategy::JobStealJoin => num_threads != 1,
            Strategy::RayonJoin | Strategy::RayonParIter => true,
        }
    }
}

/// Fills the whole buffer with the chosen strategy.
pub fn run_strategy<F: Fn(u32, u32) -> u32 + Sync + Send>(
    strategy: Strategy,
    mandel_config: &MandelConfig,
    pixel: &F,
    image: &mut Vec<u32>,
) -> (r: Result<(), StrategyError>)
    requires
        mandel_config.wf(),
        total(pixel),
        old(image)@.len() == mandel_config.area(),
    ensures
        r is Ok ==> rendered(pixel, mandel_config.img_size as nat, final(image)@),
        r is Err ==> strategy.may_fail(mandel_config.num_threads) && final(image)@ == old(image)@,
        !strategy.may_fail(mandel_config.num_threads) ==> r is Ok,
{
    match strategy {
        Strategy::Serial => {
            serial(mandel_config, pixel, image);
            Ok(())
        },
        Strategy::ScopedThreadPool => {
            scoped_thread_pool_(mandel_config, pixel, image);
            Ok(())
        },
        Strategy::SimpleParallel => {
            simple_parallel_(mandel_config, pixel, image);
            Ok(())
        },
        Strategy::ScopedPool => {
            rust_scoped_pool(mandel_config, pixel, image);
            Ok(())
        },
        Strategy::RayonJoin => rayon_join(mandel_config, pixel, image),
        Strategy::RayonParIter => rayon_par_iter(mandel_config, pixel, image),
        Strategy::JobSteal => job_steal(mandel_config, pixel, image),
        Strategy::JobStealJoin => job_steal_join(mandel_config, pixel, image),
    }
}

/// Relies on time::precise_time_ns: the current value of a high-resolution
/// counter in nanoseconds. Nothing is known of the value.
#[verifier::external_body]
fn now_ns() -> (r: u64) {
    time::precise_time_ns()
}

/// Nanoseconds from `start` to `end`; zero if the counter went backwards.
pub fn elapsed_ns(start: u64, end: u64) -> (r: u64)
    ensures
        end >= start ==> r == end - start,
        end < start ==> r == 0,
{
    if end >= start {
        end - start
    } else {
        0
    }
}

/// Runs `strategy` `num_of_runs` times, timing each run. Every run refills
/// the whole buffer. A failed run ends the measurement and is returned.
pub fn measure<F: Fn(u32, u32) -> u32 + Sync + Send>(
    strategy: Strategy,
    mandel_config: &MandelConfig,
    pixel: &F,
    image: &mut Vec<u32>,
) -> (r: Result<Vec<u64>, StrategyError>)
    requires
        mandel_config.wf(),
        total(pixel),
        old(image)@.len() == mandel_config.area(),
    ensures
        final(image)@.len() == mandel_config.area(),
        r matches Ok(samples) ==> samples@.len() == mandel_config.num_of_runs,
        r is Ok && mandel_config.num_of_runs > 0 ==> rendered(
            pixel,
            mandel_config.img_size as nat,
            final(image)@,
        ),
        r is Err ==> strategy.may_fail(mandel_config.num_threads),
        !strategy.may_fail(mandel_config.num_threads) ==> r is Ok,
{
    let runs = mandel_config.num_of_runs;
    let mut samples: Vec<u64> = Vec::new();
    let mut k: u32 = 0;
    while k < runs
        invariant
            mandel_config.wf(),
            total(pixel),
            runs == mandel_config.num_of_runs,
            k <= runs,
            samples@.len() == k,
            image@.len() == mandel_config.area(),
            k > 0 ==> rendered(pixel, mandel_config.img_size as nat, image@),
        decreases runs - k,
    {
        let start = now_ns();
        let outcome = run_strategy(strategy, mandel_config, pixel, image);
        let end = now_ns();
        match outcome {
            Ok(()) => {},
            Err(e) => {
                return Err(e);
            },
        }
        samples.push(elapsed_ns(start, end));
        k = k + 1;
    }
    Ok(samples)
}

/// Sum of the samples.
pub open spec fn sum_of(s: Seq<u64>) -> int
    decreases s.len(),
{
    if s.len() == 0 {
        0
    } else {
        sum_of(s.drop_last()) + s.last()
    }
}

/// Minimum, maximum and mean of a non-empty run of duration samples.
#[derive(Clone, Copy, Debug)]
pub struct BenchStats {
    pub min: u64,
    pub max: u64,
    /// The arithmetic mean, rounded down.
    pub mean: u64,
    pub total: u128,
    pub count: usize,
}

/// A sum of `k` samples is at most `k` times the largest sample value.
proof fn lemma_sum_bounds(s: Seq<u64>)
    ensures
        0 <= sum_of(s) <= s.len() * 0xffff_ffff_ffff_ffff,
    decreases s.len(),
{
    if s.len() > 0 {
        lemma_sum_bounds(s.drop_last());
    }
}

/// Statistics of the samples: `None` exactly when there are none.
pub fn summarize(samples: &Vec<u64>) -> (r: Option<BenchStats>)
    ensures
        r is None <==> samples@.len() == 0,
        r matches Some(st) ==> {
            &&& st.count == samples@.len()
            &&& st.total == sum_of(samples@)
            &&& st.mean == sum_of(samples@) / (samples@.len() as int)
            &&& exists|i: int| 0 <= i < samples@.len() && samples@[i] == st.min
            &&& exists|i: int| 0 <= i < samples@.len() && samples@[i] == st.max
            &&& forall|i: int| 0 <= i < samples@.len() ==> st.min <= #[trigger] samples@[i] <= st.max
        },
{
    let n = samples.len();
    if n == 0 {
        return None;
    }
    let mut min: u64 = samples[0];
    let mut max: u64 = samples[0];
    let mut total: u128 = 0;
    let mut i: usize = 0;
    while i < n
        invariant
            n == samples@.len(),
            n > 0,
            i <= n,
            total == sum_of(samples@.subrange(0, i as int)),
            exists|j: int| 0 <= j < n && samples@[j] == min,
            exists|j: int| 0 <= j < n && samples@[j] == max,
            forall|j: int| 0 <= j < i ==> min <= #[trigger] samples@[j] <= max,
            min <= samples@[0] <= max,
        decreases n - i,
    {
        let v = samples[i];
        proof {
            let pre = samples@.subrange(0, i as int);
            let next = samples@.subrange(0, i + 1);
            assert(next.drop_last() == pre);
            lemma_sum_bounds(next);
            assert(next.len() * 0xffff_ffff_ffff_ffff <= 0xffff_ffff_ffff_ffff_ffff_ffff_ffff_ffff)
                by (nonlinear_arith)
                requires
                    next.len() <= usize::MAX,
            ;
        }
        total = total + v as u128;
        if v < min {
            min = v;
        }
        if v > max {
            max = v;
        }
        i = i + 1;
    }
    proof {
        assert(samples@.subrange(0, n as int) == samples@);
        lemma_sum_bounds(samples@);
        let t = total as int;
        assert(t / (n as int) <= 0xffff_ffff_ffff_ffff) by (nonlinear_arith)
            requires
                t <= n * 0xffff_ffff_ffff_ffff,
                n > 0,
        ;
    }
    let mean = (total / (n as u128)) as u64;
    Some(BenchStats { min, max, mean, total, count: n })
}

} // verus!
