use vstd::prelude::*;
use std::time::Duration;
use crate::utils::{clock_elapsed, clock_now};

verus! {

/// A named measurement: how often to run the work, after how many untimed runs, and the
/// durations of the last timed runs.
pub struct Benchmark {
    name: String,
    iterations: usize,
    warmup_iterations: usize,
    results: Vec<Duration>,
}

impl Benchmark {
    /// The benchmark's name.
    pub closed spec fn label(&self) -> Seq<char> {
        self.name@
    }

    /// Timed runs per measurement.
    pub closed spec fn timed_runs(&self) -> usize {
        self.iterations
    }

    /// Untimed runs before the timed ones.
    pub closed spec fn warmup_runs(&self) -> usize {
        self.warmup_iterations
    }

    /// The durations of the last timed runs, in order.
    pub closed spec fn durations(&self) -> Seq<Duration> {
        self.results@
    }

    /// A benchmark of 100 timed runs after 10 untimed ones.
    pub fn new(name: &str) -> (b: Self)
        ensures
            b.label() == name@,
            b.timed_runs() == 100,
            b.warmup_runs() == 10,
            b.durations().len() == 0,
    {
        Benchmark { name: name.to_owned(), iterations: 100, warmup_iterations: 10, results: Vec::new() }
    }

    /// The same benchmark with `iterations` timed runs.
    pub fn with_iterations(self, iterations: usize) -> (b: Self)
        ensures
            b.label() == self.label(),
            b.timed_runs() == iterations,
            b.warmup_runs() == self.warmup_runs(),
            b.durations() == self.durations(),
    {
        let mut s = self;
        s.iterations = iterations;
        s
    }

    /// The same benchmark with `warmup` untimed runs.
    pub fn with_warmup(self, warmup: usize) -> (b: Self)
        ensures
            b.label() == self.label(),
            b.timed_runs() == self.timed_runs(),
            b.warmup_runs() == warmup,
            b.durations() == self.durations(),
    {
        let mut s = self;
        s.warmup_iterations = warmup;
        s
    }

    /// Runs `f` the untimed times, then the timed times, keeping one duration per timed run
    /// (the durations are the clock's: nothing more is stated of them).
    pub fn measure<F, R>(&mut self, f: F)
        where
            F: Fn() -> R,
        requires
            f.requires(()),
        ensures
            final(self).durations().len() == old(self).timed_runs(),
            final(self).label() == old(self).label(),
            final(self).timed_runs() == old(self).timed_runs(),
            final(self).warmup_runs() == old(self).warmup_runs(),
    {
        let mut w: usize = 0;
        while w < self.warmup_iterations
            invariant
                f.requires(()),
            decreases self.warmup_iterations - w,
        {
            let _ = f();
            w += 1;
        }
        self.results.clear();
        let mut i: usize = 0;
        while i < self.iterations
            invariant
                f.requires(()),
                i <= self.iterations,
                self.results@.len() == i,
                self.name == old(self).name,
                self.iterations == old(self).iterations,
                self.warmup_iterations == old(self).warmup_iterations,
            decreases self.iterations - i,
        {
            let start = clock_now();
            let _ = f();
            let elapsed = clock_elapsed(&start);
            self.results.push(elapsed);
            i += 1;
        }
    }

    /// The benchmark's name.
    pub fn name(&self) -> (r: &str)
        ensures
            r@ == self.label(),
    {
        self.name.as_str()
    }

    /// Timed runs per measurement.
    pub fn iterations(&self) -> (r: usize)
        ensures
            r == self.timed_runs(),
    {
        self.iterations
    }

    /// The durations of the last timed runs.
    pub fn results(&self) -> (r: &Vec<Duration>)
        ensures
            r@ == self.durations(),
    {
        &self.results
    }
}

/// `Duration::clone`: `Duration` is `Copy`, and its clone is the same duration.
pub assume_specification[ <Duration as Clone>::clone ](d: &Duration) -> (r: Duration)
    ensures
        r == *d,
;

/// The statistics of a measurement.
#[derive(Debug, Clone, Default)]
pub struct BenchmarkResult {
    pub name: String,
    pub iterations: usize,
    pub mean: Duration,
    pub median: Duration,
    pub min: Duration,
    pub max: Duration,
    pub std_dev: Duration,
    pub total: Duration,
}

/// The results of several measurements, in the order they were added.
pub struct BenchmarkSuite {
    benchmarks: Vec<BenchmarkResult>,
}

impl BenchmarkSuite {
    /// The names of the results, in order.
    pub closed spec fn names(&self) -> Seq<Seq<char>> {
        self.benchmarks@.map_values(|r: BenchmarkResult| r.name@)
    }

    /// The results, in order.
    pub closed spec fn all_results(&self) -> Seq<BenchmarkResult> {
        self.benchmarks@
    }

    /// A suite with no result.
    pub fn new() -> (s: Self)
        ensures
            s.all_results().len() == 0,
    {
        BenchmarkSuite { benchmarks: Vec::new() }
    }

    /// Appends a result.
    pub fn add_result(&mut self, result: BenchmarkResult)
        ensures
            final(self).all_results() == old(self).all_results().push(result),
    {
        self.benchmarks.push(result);
    }

    /// The results, in order.
    pub fn results(&self) -> (r: &Vec<BenchmarkResult>)
        ensures
            r@ == self.all_results(),
    {
        &self.benchmarks
    }
}

/// The sum of some durations in nanoseconds.
pub open spec fn nanos_sum(s: Seq<u64>) -> int
    decreases s.len(),
{
    if s.len() == 0 {
        0
    } else {
        nanos_sum(s.drop_last()) + s.last()
    }
}

/// `s` is in ascending order.
pub open spec fn ascending(s: Seq<u64>) -> bool {
    forall|i: int, j: int| 0 <= i <= j < s.len() ==> s[i] <= s[j]
}

/// The statistics of some timed runs, in nanoseconds; the spread, which needs floating point,
/// is not among them.
#[derive(Debug, Clone, Copy, PartialEq, Eq, Structural)]
pub struct DurationStats {
    pub total: u128,
    pub mean: u128,
    pub median: u64,
    pub min: u64,
    pub max: u64,
}

fn sorted_copy(v: &[u64]) -> (r: Vec<u64>)
    ensures
        ascending(r@),
        r@.to_multiset() == v@.to_multiset(),
{
    broadcast use vstd::seq_lib::group_to_multiset_ensures;

    let mut r: Vec<u64> = Vec::new();
    let mut i: usize = 0;
    assert(v@.take(0) =~= Seq::<u64>::empty());
    while i < v.len()
        invariant
            i <= v@.len(),
            ascending(r@),
            r@.to_multiset() == v@.take(i as int).to_multiset(),
        decreases v@.len() - i,
    {
        let x = v[i];
        let mut pos: usize = 0;
        while pos < r.len() && r[pos] <= x
            invariant
                pos <= r@.len(),
                forall|k: int| 0 <= k < pos ==> r@[k] <= x,
            decreases r@.len() - pos,
        {
            pos += 1;
        }
        let ghost before = r@;
        r.insert(pos, x);
        proof {
            vstd::seq_lib::to_multiset_insert(before, pos as int, x);
            assert(v@.take(i + 1) =~= v@.take(i as int).push(x));
            vstd::seq_lib::to_multiset_build(v@.take(i as int), x);
            assert forall|a: int, b: int| 0 <= a <= b < r@.len() implies r@[a] <= r@[b] by {
                if b < pos {
                } else if b == pos {
                    if a < pos {
                        assert(r@[a] == before[a]);
                    }
                } else {
                    assert(r@[b] == before[b - 1]);
                    if a < pos {
                        assert(r@[a] == before[a]);
                        assert(before[pos as int] > x);
                    } else if a == pos {
                        assert(before[pos as int] > x);
                    } else {
                        assert(r@[a] == before[a - 1]);
                    }
                }
            }
        }
        i += 1;
    }
    assert(v@.take(v@.len() as int) =~= v@);
    r
}

/// The statistics of timed runs given in nanoseconds: their total, their mean (rounded
/// down), their median (the middle one in ascending order, the upper of the two middle ones
/// for an even count), their least and greatest; none for no run.
pub fn summarize(nanos: &[u64]) -> (r: Option<DurationStats>)
    ensures
        (nanos@.len() == 0) == (r is None),
        r matches Some(s) ==> {
            &&& s.total == nanos_sum(nanos@)
            &&& s.mean == nanos_sum(nanos@) / (nanos@.len() as int)
            &&& nanos@.contains(s.min) && forall|i: int| 0 <= i < nanos@.len() ==> s.min <= nanos@[i]
            &&& nanos@.contains(s.max) && forall|i: int| 0 <= i < nanos@.len() ==> nanos@[i] <= s.max
            &&& exists|srt: Seq<u64>|
                ascending(srt) && srt.to_multiset() == nanos@.to_multiset() && srt.len() == nanos@.len()
                    && s.median == srt[(nanos@.len() / 2) as int]
        },
{
    broadcast use vstd::seq_lib::group_to_multiset_ensures;

    let n = nanos.len();
    if n == 0 {
        return None;
    }
    let mut total: u128 = 0;
    let mut lo: u64 = nanos[0];
    let mut hi: u64 = nanos[0];
    let mut i: usize = 0;
    assert(nanos@.take(0) =~= Seq::<u64>::empty());
    while i < n
        invariant
            n == nanos@.len(),
            0 < n,
            i <= n,
            total == nanos_sum(nanos@.take(i as int)),
            total <= i * 0xFFFF_FFFF_FFFF_FFFFu64,
            nanos@.contains(lo) && nanos@.contains(hi),
            forall|k: int| 0 <= k < i ==> lo <= nanos@[k] && nanos@[k] <= hi,
            lo <= nanos@[0] && nanos@[0] <= hi,
        decreases n - i,
    {
        let x = nanos[i];
        proof {
            assert(nanos@.take(i + 1).drop_last() =~= nanos@.take(i as int));
            assert(total + x <= (i + 1) * 0xFFFF_FFFF_FFFF_FFFFu64);
            assert((i + 1) * 0xFFFF_FFFF_FFFF_FFFFu64 <= 0x1_0000_0000_0000_0000 * 0xFFFF_FFFF_FFFF_FFFFu64) by (nonlinear_arith)
                requires
                    i + 1 <= 0x1_0000_0000_0000_0000,
            ;
        }
        total = total + x as u128;
        if x < lo {
            lo = x;
        }
        if x > hi {
            hi = x;
        }
        i += 1;
    }
    assert(nanos@.take(n as int) =~= nanos@);
    let sorted = sorted_copy(nanos);
    proof {
        vstd::seq_lib::to_multiset_len(sorted@);
        vstd::seq_lib::to_multiset_len(nanos@);
    }
    let median = sorted[n / 2];
    Some(DurationStats { total, mean: total / (n as u128), median, min: lo, max: hi })
}

} // verus!
