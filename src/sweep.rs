use vstd::prelude::*;
use vstd::arithmetic::power2::{pow2, lemma_pow2_strictly_increases};
use vstd::bits::{lemma_u64_shl_is_mul, lemma_u64_pow2_no_overflow};
use crate::error::HarnessError;

verus! {

/// Every element is smaller than every element after it.
pub open spec fn strictly_increasing(s: Seq<u64>) -> bool {
    forall|i: int, j: int| 0 <= i < j < s.len() ==> s[i] < s[j]
}

/// The sizes `2^d` for `d` in `min_log ..= max_log`, in that order.
pub open spec fn pow2_range(min_log: nat, max_log: nat) -> Seq<u64> {
    if min_log > max_log {
        Seq::empty()
    } else {
        Seq::new((max_log - min_log + 1) as nat, |i: int| pow2((min_log + i) as nat) as u64)
    }
}

/// Element-wise sum of sizes and jitter offsets.
pub open spec fn jittered(sizes: Seq<u64>, jitter: Seq<u64>) -> Seq<u64> {
    Seq::new(sizes.len(), |i: int| (sizes[i] + jitter[i]) as u64)
}

/// Whether every jittered size fits in a `u64`.
pub open spec fn jitter_fits(sizes: Seq<u64>, jitter: Seq<u64>) -> bool {
    forall|i: int| 0 <= i < sizes.len() ==> sizes[i] + jitter[i] <= u64::MAX
}

/// One entry of a sweep plan: an input size and the number of timed
/// repetitions to run at that size.
#[derive(Debug, Clone, Copy, PartialEq, Eq, Structural)]
pub struct PlanEntry {
    pub size: u64,
    pub repetitions: usize,
}

/// The mathematical content of a [`SweepSpec`].
pub struct SweepModel {
    pub sizes: Seq<u64>,
    pub default_repetitions: usize,
    pub large_threshold: u64,
    pub repetition_floor: usize,
}

impl SweepModel {
    /// Sizes strictly increase, and the sampling effort never falls below a
    /// positive floor.
    pub open spec fn wf(self) -> bool {
        &&& strictly_increasing(self.sizes)
        &&& self.repetition_floor >= 1
        &&& self.default_repetitions >= self.repetition_floor
    }

    /// Sizes past the large-input threshold run at the floor; all others run
    /// at the default count.
    pub open spec fn repetitions_for(self, size: u64) -> usize {
        if size > self.large_threshold {
            self.repetition_floor
        } else {
            self.default_repetitions
        }
    }

    pub open spec fn entry(self, i: int) -> PlanEntry {
        PlanEntry {
            size: self.sizes[i],
            repetitions: self.repetitions_for(self.sizes[i]),
        }
    }

    /// One entry per size, in the order of the sizes.
    pub open spec fn plan(self) -> Seq<PlanEntry> {
        Seq::new(self.sizes.len(), |i: int| self.entry(i))
    }
}

/// The plan of a well-formed sweep visits its sizes in strictly increasing
/// order, never runs fewer repetitions than the floor, and runs exactly the
/// floor at every size past the large-input threshold, whatever the default
/// count.
pub proof fn lemma_plan_respects_policy(spec: SweepModel)
    requires
        spec.wf(),
    ensures
        spec.plan().len() == spec.sizes.len(),
        forall|i: int| 0 <= i < spec.plan().len() ==> #[trigger] spec.plan()[i].size == spec.sizes[i],
        forall|i: int, j: int|
            0 <= i < j < spec.plan().len() ==> #[trigger] spec.plan()[i].size
                < #[trigger] spec.plan()[j].size,
        forall|i: int|
            0 <= i < spec.plan().len() ==> #[trigger] spec.plan()[i].repetitions
                >= spec.repetition_floor,
        forall|i: int|
            0 <= i < spec.plan().len() && spec.plan()[i].size > spec.large_threshold
                ==> #[trigger] spec.plan()[i].repetitions == spec.repetition_floor,
{
    let p = spec.plan();
    assert forall|i: int| 0 <= i < p.len() implies #[trigger] p[i].repetitions
        >= spec.repetition_floor && p[i].repetitions == spec.repetitions_for(p[i].size) by {
        assert(p[i] == spec.entry(i));
    }
    assert forall|i: int, j: int| 0 <= i < j < p.len() implies #[trigger] p[i].size
        < #[trigger] p[j].size by {
        assert(p[i] == spec.entry(i));
        assert(p[j] == spec.entry(j));
    }
}

/// A size sweep: an ordered list of input sizes with a repetition policy.
pub struct SweepSpec {
    sizes: Vec<u64>,
    default_repetitions: usize,
    large_threshold: u64,
    repetition_floor: usize,
}

impl View for SweepSpec {
    type V = SweepModel;

    closed spec fn view(&self) -> SweepModel {
        SweepModel {
            sizes: self.sizes@,
            default_repetitions: self.default_repetitions,
            large_threshold: self.large_threshold,
            repetition_floor: self.repetition_floor,
        }
    }
}

/// Checks that every size is smaller than the next one.
fn is_strictly_increasing(sizes: &Vec<u64>) -> (r: bool)
    ensures
        r == strictly_increasing(sizes@),
{
    let n = sizes.len();
    if n == 0 {
        return true;
    }
    let mut k: usize = 1;
    while k < n
        invariant
            n == sizes@.len(),
            1 <= k <= n,
            strictly_increasing(sizes@.take(k as int)),
        decreases n - k,
    {
        if sizes[k - 1] >= sizes[k] {
            assert(!(sizes@[k - 1] < sizes@[k as int]));
            return false;
        }
        assert(strictly_increasing(sizes@.take(k + 1))) by {
            let prev = sizes@.take(k as int);
            let next = sizes@.take(k + 1);
            assert forall|i: int, j: int| 0 <= i < j < k + 1 implies #[trigger] next[i]
                < #[trigger] next[j] by {
                if j < k {
                    assert(prev[i] < prev[j]);
                } else if i < k - 1 {
                    assert(prev[i] < prev[k - 1]);
                }
            }
        }
        k = k + 1;
    }
    assert(sizes@.take(n as int) =~= sizes@);
    true
}

impl SweepSpec {
    #[verifier::type_invariant]
    spec fn inv(&self) -> bool {
        self@.wf()
    }

    /// Builds a sweep over `sizes`. Sizes must strictly increase, the floor
    /// must be positive and the default repetition count must not lie below
    /// it; each of these is checked in that order.
    pub fn new(
        sizes: Vec<u64>,
        default_repetitions: usize,
        large_threshold: u64,
        repetition_floor: usize,
    ) -> (r: Result<SweepSpec, HarnessError>)
        ensures
            !strictly_increasing(sizes@) ==> r == Err::<SweepSpec, HarnessError>(
                HarnessError::NonMonotonicSizes,
            ),
            strictly_increasing(sizes@) && repetition_floor == 0 ==> r == Err::<
                SweepSpec,
                HarnessError,
            >(HarnessError::ZeroRepetitionFloor),
            strictly_increasing(sizes@) && repetition_floor >= 1 && default_repetitions
                < repetition_floor ==> r == Err::<SweepSpec, HarnessError>(
                HarnessError::RepetitionsBelowFloor,
            ),
            r is Ok <==> strictly_increasing(sizes@) && repetition_floor >= 1
                && default_repetitions >= repetition_floor,
            r matches Ok(s) ==> s@ == (SweepModel {
                sizes: sizes@,
                default_repetitions,
                large_threshold,
                repetition_floor,
            }),
    {
        if !is_strictly_increasing(&sizes) {
            return Err(HarnessError::NonMonotonicSizes);
        }
        if repetition_floor == 0 {
            return Err(HarnessError::ZeroRepetitionFloor);
        }
        if default_repetitions < repetition_floor {
            return Err(HarnessError::RepetitionsBelowFloor);
        }
        Ok(SweepSpec { sizes, default_repetitions, large_threshold, repetition_floor })
    }

    /// The sizes of the sweep, in the order in which they are visited.
    pub fn sizes(&self) -> (r: &Vec<u64>)
        ensures
            r@ == self@.sizes,
            self@.wf(),
    {
        proof {
            use_type_invariant(self);
        }
        &self.sizes
    }

    pub fn default_repetitions(&self) -> (r: usize)
        ensures
            r == self@.default_repetitions,
    {
        self.default_repetitions
    }

    pub fn large_threshold(&self) -> (r: u64)
        ensures
            r == self@.large_threshold,
    {
        self.large_threshold
    }

    pub fn repetition_floor(&self) -> (r: usize)
        ensures
            r == self@.repetition_floor,
    {
        self.repetition_floor
    }

    /// Number of timed repetitions at `size`: the floor past the large-input
    /// threshold, the default count otherwise.
    pub fn repetitions_for(&self, size: u64) -> (r: usize)
        ensures
            r == self@.repetitions_for(size),
            r >= self@.repetition_floor >= 1,
    {
        proof {
            use_type_invariant(self);
        }
        if size > self.large_threshold {
            self.repetition_floor
        } else {
            self.default_repetitions
        }
    }

    /// The plan of the sweep: each size with its repetition count, in
    /// increasing order of size.
    pub fn plan(&self) -> (r: Vec<PlanEntry>)
        ensures
            r@ == self@.plan(),
            self@.wf(),
    {
        proof {
            use_type_invariant(self);
        }
        let n = self.sizes.len();
        let mut out: Vec<PlanEntry> = Vec::new();
        let mut i: usize = 0;
        while i < n
            invariant
                n == self.sizes@.len(),
                i <= n,
                out@ == self@.plan().take(i as int),
            decreases n - i,
        {
            let size = self.sizes[i];
            let entry = PlanEntry { size, repetitions: self.repetitions_for(size) };
            out.push(entry);
            proof {
                assert(self@.plan().take(i + 1) =~= self@.plan().take(i as int).push(entry));
            }
            i = i + 1;
        }
        proof {
            assert(self@.plan().take(n as int) =~= self@.plan());
        }
        out
    }
}

/// The sizes `2^d` for each `d` from `min_log` to `max_log`, both included;
/// empty when `min_log > max_log`.
pub fn pow2_sizes(min_log: u32, max_log: u32) -> (r: Vec<u64>)
    requires
        max_log < 64,
    ensures
        r@ == pow2_range(min_log as nat, max_log as nat),
        strictly_increasing(r@),
{
    let mut out: Vec<u64> = Vec::new();
    if min_log > max_log {
        assert(out@ =~= pow2_range(min_log as nat, max_log as nat));
        return out;
    }
    let ghost full = pow2_range(min_log as nat, max_log as nat);
    let mut d: u32 = min_log;
    while d <= max_log
        invariant
            min_log <= d <= max_log + 1,
            max_log < 64,
            full == pow2_range(min_log as nat, max_log as nat),
            out@ == full.take(d - min_log),
        decreases max_log + 1 - d,
    {
        proof {
            lemma_u64_pow2_no_overflow(d as nat);
            lemma_u64_shl_is_mul(1u64, d as u64);
        }
        let size: u64 = 1u64 << (d as u64);
        out.push(size);
        proof {
            assert(full.take(d + 1 - min_log) =~= full.take(d - min_log).push(size));
        }
        d = d + 1;
    }
    proof {
        assert(full.take(max_log + 1 - min_log) =~= full);
        assert forall|i: int, j: int| 0 <= i < j < full.len() implies full[i] < full[j] by {
            lemma_pow2_strictly_increases((min_log + i) as nat, (min_log + j) as nat);
            lemma_u64_pow2_no_overflow((min_log + j) as nat);
        }
    }
    out
}

/// Adds to each size its jitter offset. Returns `None` when the two lists
/// differ in length or a sum does not fit in a `u64`.
pub fn add_jitter(sizes: &Vec<u64>, jitter: &Vec<u64>) -> (r: Option<Vec<u64>>)
    ensures
        r is Some <==> sizes@.len() == jitter@.len() && jitter_fits(sizes@, jitter@),
        r matches Some(v) ==> v@ == jittered(sizes@, jitter@),
{
    let n = sizes.len();
    if jitter.len() != n {
        return None;
    }
    let mut out: Vec<u64> = Vec::new();
    let mut i: usize = 0;
    while i < n
        invariant
            n == sizes@.len(),
            n == jitter@.len(),
            i <= n,
            forall|k: int| 0 <= k < i ==> sizes@[k] + jitter@[k] <= u64::MAX,
            out@ == jittered(sizes@, jitter@).take(i as int),
        decreases n - i,
    {
        let s = sizes[i];
        let j = jitter[i];
        if s > u64::MAX - j {
            return None;
        }
        out.push(s + j);
        proof {
            assert(jittered(sizes@, jitter@).take(i + 1) =~= jittered(sizes@, jitter@).take(
                i as int,
            ).push((s + j) as u64));
        }
        i = i + 1;
    }
    proof {
        assert(jittered(sizes@, jitter@).take(n as int) =~= jittered(sizes@, jitter@));
    }
    Some(out)
}

} // verus!
