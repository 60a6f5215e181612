use vstd::prelude::*;

verus! {

/// One reading of memory use.
#[derive(Debug, Clone, Copy)]
pub struct MemorySample {
    pub timestamp_ms: u64,
    pub allocated_bytes: u64,
    pub cached_bytes: u64,
}

/// The allocated bytes of the first `n` samples, summed.
pub open spec fn allocated_sum(samples: Seq<MemorySample>, n: int) -> int
    decreases n,
{
    if n <= 0 {
        0
    } else {
        allocated_sum(samples, n - 1) + samples[n - 1].allocated_bytes
    }
}

proof fn lemma_allocated_sum_monotone(samples: Seq<MemorySample>, a: int, b: int)
    requires
        0 <= a <= b <= samples.len(),
    ensures
        allocated_sum(samples, a) <= allocated_sum(samples, b),
    decreases b - a,
{
    if a < b {
        lemma_allocated_sum_monotone(samples, a, b - 1);
    }
}

/// The mean allocated bytes of the samples (rounded down); 0 when there is none.
pub fn average_allocated(samples: &[MemorySample]) -> (r: u64)
    requires
        allocated_sum(samples@, samples@.len() as int) <= u64::MAX,
    ensures
        samples@.len() == 0 ==> r == 0,
        samples@.len() > 0 ==> r == allocated_sum(samples@, samples@.len() as int) / (samples@.len() as int),
{
    if samples.len() == 0 {
        return 0;
    }
    let mut sum: u64 = 0;
    let mut i: usize = 0;
    while i < samples.len()
        invariant
            i <= samples@.len(),
            sum == allocated_sum(samples@, i as int),
            allocated_sum(samples@, samples@.len() as int) <= u64::MAX,
        decreases samples@.len() - i,
    {
        proof {
            lemma_allocated_sum_monotone(samples@, i + 1, samples@.len() as int);
        }
        sum = sum + samples[i].allocated_bytes;
        i += 1;
    }
    sum / (samples.len() as u64)
}

} // verus!
