use vstd::prelude::*;
use crate::types::{DeviceType, Token};

verus! {

/// The phase a request is in: reading its prompt, or generating.
#[derive(Debug, Clone, Copy, PartialEq, Eq, Structural)]
pub enum RequestPhase {
    Prefill,
    Decode,
}

/// Runs prompt reading and token generation on separate devices.
pub struct PrefillDecodeDisaggregation {
    prefill_device: DeviceType,
    decode_device: DeviceType,
    kv_transfer_overhead_us: u64,
}

impl PrefillDecodeDisaggregation {
    /// The fixed transfer cost is the one set at construction.
    #[verifier::type_invariant]
    spec fn overhead_is_fixed(&self) -> bool {
        self.kv_transfer_overhead_us == 100
    }

    /// The device that reads prompts.
    pub closed spec fn prefill_on(&self) -> DeviceType {
        self.prefill_device
    }

    /// The device that generates.
    pub closed spec fn decode_on(&self) -> DeviceType {
        self.decode_device
    }

    /// The fixed cost, in microseconds, of moving a KV cache between the devices.
    pub closed spec fn transfer_overhead(&self) -> u64 {
        self.kv_transfer_overhead_us
    }

    /// Splits the phases between two devices, with a fixed transfer cost of 100 µs.
    pub fn new(prefill_device: DeviceType, decode_device: DeviceType) -> (d: Self)
        ensures
            d.prefill_on() == prefill_device,
            d.decode_on() == decode_device,
            d.transfer_overhead() == 100,
    {
        PrefillDecodeDisaggregation { prefill_device, decode_device, kv_transfer_overhead_us: 100 }
    }

    /// Splitting pays off for prompts longer than 512 tokens or batches of more than 8.
    pub fn should_disaggregate(&self, prompt_len: usize, batch_size: usize) -> (r: bool)
        ensures
            r == (prompt_len > 512 || batch_size > 8),
    {
        prompt_len > 512 || batch_size > 8
    }

    /// The transfer cost in microseconds: the fixed part plus one per thousand bytes.
    pub fn estimate_overhead(&self, prompt_len: usize, kv_size: usize) -> (r: u64)
        ensures
            r == 100 + kv_size / 1000,
            r == self.transfer_overhead() + kv_size / 1000,
    {
        proof {
            use_type_invariant(self);
        }
        self.kv_transfer_overhead_us + (kv_size as u64 / 1000)
    }
}


/// A request as the batch scheduler sees it. `temperature` and `top_p` are carried untouched;
/// they hold IEEE-754 single-precision values by their bit patterns (`f32::to_bits`).
#[derive(Debug, Clone)]
pub struct InferenceRequest2 {
    pub id: String,
    pub tokens: Vec<Token>,
    pub max_length: usize,
    pub temperature: u32,
    pub top_p: u32,
    pub phase: RequestPhase,
    pub prompt_len: usize,
    pub generated_len: usize,
    pub is_complete: bool,
    pub priority: i32,
    pub arrival_time: u64,
}

/// The bit pattern of 1.0.
pub const ONE_BITS: u32 = 0x3F80_0000u32;

/// The bit pattern of 0.9 (the nearest single-precision value).
pub const POINT_NINE_BITS: u32 = 0x3F66_6666u32;

impl InferenceRequest2 {
    /// A request in the prompt phase, with temperature 1.0, top-p 0.9, priority 0 and nothing
    /// generated.
    pub fn new(id: String, tokens: Vec<Token>, max_length: usize) -> (r: Self)
        ensures
            r.id@ == id@,
            r.tokens@ == tokens@,
            r.max_length == max_length,
            r.temperature == ONE_BITS,
            r.top_p == POINT_NINE_BITS,
            r.phase == RequestPhase::Prefill,
            r.prompt_len == 0,
            r.generated_len == 0,
            !r.is_complete,
            r.priority == 0,
            r.arrival_time == 0,
    {
        InferenceRequest2 {
            id,
            tokens,
            max_length,
            temperature: ONE_BITS,
            top_p: POINT_NINE_BITS,
            phase: RequestPhase::Prefill,
            prompt_len: 0,
            generated_len: 0,
            is_complete: false,
            priority: 0,
            arrival_time: 0,
        }
    }

    /// The same request with the given sampling settings (as bit patterns).
    pub fn with_sampling(self, temperature: u32, top_p: u32) -> (r: Self)
        ensures
            r.temperature == temperature,
            r.top_p == top_p,
            r.id == self.id,
            r.tokens == self.tokens,
            r.max_length == self.max_length,
            r.phase == self.phase,
            r.prompt_len == self.prompt_len,
            r.generated_len == self.generated_len,
            r.is_complete == self.is_complete,
            r.priority == self.priority,
            r.arrival_time == self.arrival_time,
    {
        let mut s = self;
        s.temperature = temperature;
        s.top_p = top_p;
        s
    }

    /// The same request with the given priority.
    pub fn with_priority(self, priority: i32) -> (r: Self)
        ensures
            r.priority == priority,
            r.id == self.id,
            r.tokens == self.tokens,
            r.max_length == self.max_length,
            r.temperature == self.temperature,
            r.top_p == self.top_p,
            r.phase == self.phase,
            r.prompt_len == self.prompt_len,
            r.generated_len == self.generated_len,
            r.is_complete == self.is_complete,
            r.arrival_time == self.arrival_time,
    {
        let mut s = self;
        s.priority = priority;
        s
    }

    /// One processing step: a prompt-phase request records its prompt length and moves to
    /// generating; a generating request counts one more token and completes once it reaches
    /// its maximum length or its last token is 0. Returns whether the request is to be queued
    /// for generation again.
    pub fn complete_step(&mut self) -> (requeue: bool)
        requires
            old(self).phase == RequestPhase::Decode ==> old(self).generated_len < usize::MAX,
        ensures
            final(self).id == old(self).id,
            final(self).tokens == old(self).tokens,
            final(self).max_length == old(self).max_length,
            final(self).temperature == old(self).temperature,
            final(self).top_p == old(self).top_p,
            final(self).priority == old(self).priority,
            final(self).arrival_time == old(self).arrival_time,
            old(self).phase == RequestPhase::Prefill ==> {
                &&& requeue
                &&& final(self).phase == RequestPhase::Decode
                &&& final(self).prompt_len == old(self).tokens@.len()
                &&& final(self).generated_len == old(self).generated_len
                &&& final(self).is_complete == old(self).is_complete
            },
            old(self).phase == RequestPhase::Decode ==> {
                let done = old(self).generated_len + 1 >= old(self).max_length || (old(self).tokens@.len()
                    > 0 && old(self).tokens@.last() == 0);
                &&& requeue == !done
                &&& final(self).phase == RequestPhase::Decode
                &&& final(self).prompt_len == old(self).prompt_len
                &&& final(self).generated_len == old(self).generated_len + 1
                &&& final(self).is_complete == (done || old(self).is_complete)
            },
    {
        match self.phase {
            RequestPhase::Prefill => {
                self.prompt_len = self.tokens.len();
                self.phase = RequestPhase::Decode;
                true
            },
            RequestPhase::Decode => {
                self.generated_len += 1;
                let n = self.tokens.len();
                let ends = n > 0 && self.tokens[n - 1] == 0;
                if self.generated_len >= self.max_length || ends {
                    self.is_complete = true;
                    false
                } else {
                    true
                }
            },
        }
    }
}

/// How many queued prompts and how many queued generations one batch takes: prompts first,
/// up to `max_prefill_batch_size`; then, when mixing is on and room is left in
/// `max_batch_size`, generations to fill it.
pub fn plan_batch(
    prefill_queued: usize,
    decode_queued: usize,
    max_batch_size: usize,
    max_prefill_batch_size: usize,
    enable_mingle: bool,
) -> (r: (usize, usize))
    ensures
        r.0 == (if prefill_queued < max_prefill_batch_size {
            prefill_queued
        } else {
            max_prefill_batch_size
        }),
        r.1 == (if enable_mingle && r.0 < max_batch_size {
            if max_batch_size - r.0 < decode_queued {
                (max_batch_size - r.0) as usize
            } else {
                decode_queued
            }
        } else {
            0
        }),
{
    let prefill = if prefill_queued < max_prefill_batch_size {
        prefill_queued
    } else {
        max_prefill_batch_size
    };
    let decode = if enable_mingle && prefill < max_batch_size {
        let room = max_batch_size - prefill;
        if room < decode_queued {
            room
        } else {
            decode_queued
        }
    } else {
        0
    };
    (prefill, decode)
}

/// The sum of the first `n` latencies.
pub open spec fn latency_sum(h: Seq<u64>, n: int) -> int
    decreases n,
{
    if n <= 0 {
        0
    } else {
        latency_sum(h, n - 1) + h[n - 1]
    }
}

/// The next batch size: one smaller (not below 1) when the mean recorded latency is over the
/// target, one larger (not above 128) when it is under half the target; the mean of no
/// record is the target.
pub open spec fn spec_adapt(history: Seq<u64>, target: u64, last: usize) -> usize {
    let avg = if history.len() > 0 {
        latency_sum(history, history.len() as int) / (history.len() as int)
    } else {
        target as int
    };
    if avg > target && last > 1 {
        (last - 1) as usize
    } else if avg < target / 2 {
        if last + 1 < 128 {
            (last + 1) as usize
        } else {
            128
        }
    } else {
        last
    }
}

/// The batch size the adaptive scheduler moves to after a batch.
pub fn adapt_batch_size(history: &[u64], target_latency_ms: u64, last_batch_size: usize) -> (r: usize)
    requires
        latency_sum(history@, history@.len() as int) <= u64::MAX,
        last_batch_size < usize::MAX,
    ensures
        r == spec_adapt(history@, target_latency_ms, last_batch_size),
{
    let avg: u64 = if history.len() > 0 {
        let mut sum: u64 = 0;
        let mut i: usize = 0;
        while i < history.len()
            invariant
                i <= history@.len(),
                sum == latency_sum(history@, i as int),
                latency_sum(history@, history@.len() as int) <= u64::MAX,
            decreases history@.len() - i,
        {
            proof {
                lemma_latency_sum_monotone(history@, i + 1, history@.len() as int);
            }
            sum = sum + history[i];
            i += 1;
        }
        sum / (history.len() as u64)
    } else {
        target_latency_ms
    };
    if avg > target_latency_ms && last_batch_size > 1 {
        last_batch_size - 1
    } else if avg < target_latency_ms / 2 {
        if last_batch_size + 1 < 128 {
            last_batch_size + 1
        } else {
            128
        }
    } else {
        last_batch_size
    }
}

proof fn lemma_latency_sum_monotone(h: Seq<u64>, a: int, b: int)
    requires
        0 <= a <= b <= h.len(),
    ensures
        latency_sum(h, a) <= latency_sum(h, b),
    decreases b - a,
{
    if a < b {
        lemma_latency_sum_monotone(h, a, b - 1);
    }
}

/// Records a latency; once more than 100 are held, the oldest goes.
pub fn record_latency(history: &mut Vec<u64>, latency_ms: u64)
    ensures
        final(history)@ == (if old(history)@.len() >= 100 {
            old(history)@.push(latency_ms).drop_first()
        } else {
            old(history)@.push(latency_ms)
        }),
        old(history)@.len() <= 100 ==> final(history)@.len() <= 100,
{
    history.push(latency_ms);
    if history.len() > 100 {
        history.remove(0);
        proof {
            assert(history@ =~= old(history)@.push(latency_ms).drop_first());
        }
    }
}

} // verus!
