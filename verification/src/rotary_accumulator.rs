//! Turns raw quadrature counts into whole detents, keeping the incomplete
//! part of a detent for the next sample.

use vstd::prelude::*;
use crate::fixed_point::{tdiv, trem, lemma_trem_bounds};

verus! {

pub struct DetentAccumulator {
    counts_per_detent: i32,
    remainder: i32,
}

impl DetentAccumulator {
    #[verifier::type_invariant]
    spec fn partial_detent_below_one(self) -> bool {
        &&& 0 < self.counts_per_detent <= i16::MAX
        &&& -self.counts_per_detent < self.remainder < self.counts_per_detent
    }

    /// Counts that make one detent.
    pub closed spec fn counts_per_detent(self) -> int {
        self.counts_per_detent as int
    }

    /// Counts of the detent in progress; negative while turning backwards.
    pub closed spec fn remainder(self) -> int {
        self.remainder as int
    }

    pub fn new(counts_per_detent: i16) -> (a: Self)
        requires
            counts_per_detent > 0,
        ensures
            a.counts_per_detent() == counts_per_detent as int,
            a.remainder() == 0,
    {
        DetentAccumulator { counts_per_detent: counts_per_detent as i32, remainder: 0 }
    }

    /// Adds raw quadrature counts and returns the number of completed detents,
    /// truncated toward zero; the rest is kept.  Positive and negative partial
    /// movements cancel, so contact bounce does not become an event.
    pub fn push(&mut self, counts: i16) -> (detents: i16)
        ensures
            final(self).counts_per_detent() == old(self).counts_per_detent(),
            detents == tdiv(old(self).remainder() + counts, old(self).counts_per_detent()),
            final(self).remainder() == trem(old(self).remainder() + counts, old(self).counts_per_detent()),
            detents * final(self).counts_per_detent() + final(self).remainder() == old(self).remainder() + counts,
            -final(self).counts_per_detent() < final(self).remainder() < final(self).counts_per_detent(),
            old(self).remainder() + counts >= 0 ==> final(self).remainder() >= 0 && detents >= 0,
            old(self).remainder() + counts <= 0 ==> final(self).remainder() <= 0 && detents <= 0,
    {
        proof {
            use_type_invariant(&*self);
        }
        let total = self.remainder + counts as i32;
        let cpd = self.counts_per_detent;
        let detents = total / cpd;
        proof {
            lemma_trem_bounds(total as int, cpd as int);
            lemma_detents_fit(total as int, cpd as int, self.remainder as int, counts as int);
        }
        self.remainder = total % cpd;
        detents as i16
    }
}

proof fn lemma_detents_fit(total: int, cpd: int, rem: int, counts: int)
    requires
        0 < cpd <= 32767,
        -cpd < rem < cpd,
        -32768 <= counts <= 32767,
        total == rem + counts,
    ensures
        -32768 <= tdiv(total, cpd) <= 32767,
{
    if cpd == 1 {
        assert(rem == 0);
        assert(tdiv(total, 1) == total);
    } else if total >= 0 {
        vstd::arithmetic::div_mod::lemma_div_is_ordered(total, cpd + 32767, cpd);
        assert((cpd + 32767) / cpd <= 32767) by (nonlinear_arith)
            requires
                2 <= cpd <= 32767,
        ;
    } else {
        vstd::arithmetic::div_mod::lemma_div_is_ordered(-total, cpd + 32768, cpd);
        assert((cpd + 32768) / cpd <= 32768) by (nonlinear_arith)
            requires
                2 <= cpd <= 32767,
        ;
    }
}

/// A run of samples through the accumulator: total detents reported and the
/// counts of the detent still in progress.
pub open spec fn accumulate_run(counts_per_detent: int, remainder: int, samples: Seq<i16>) -> (int, int)
    decreases samples.len(),
{
    if samples.len() == 0 {
        (0, remainder)
    } else {
        let (detents, rem) = accumulate_run(counts_per_detent, remainder, samples.drop_last());
        let total = rem + samples.last();
        (detents + tdiv(total, counts_per_detent), trem(total, counts_per_detent))
    }
}

pub open spec fn total_counts(samples: Seq<i16>) -> int
    decreases samples.len(),
{
    if samples.len() == 0 {
        0
    } else {
        total_counts(samples.drop_last()) + samples.last()
    }
}

/// No count is lost or invented: over any run of samples, the detents
/// reported times the counts per detent plus the counts still in progress
/// equal the counts fed plus those in progress at the start, and the part in
/// progress stays below one detent; from a fresh accumulator the detents
/// reported stay within one detent of the counts fed.
pub proof fn lemma_counts_are_conserved(counts_per_detent: int, remainder: int, samples: Seq<i16>)
    requires
        counts_per_detent > 0,
    ensures
        ({
            let (detents, rem) = accumulate_run(counts_per_detent, remainder, samples);
            &&& detents * counts_per_detent + rem == total_counts(samples) + remainder
            &&& samples.len() > 0 ==> -counts_per_detent < rem < counts_per_detent
            &&& -counts_per_detent < remainder < counts_per_detent ==> -counts_per_detent < rem < counts_per_detent
            &&& remainder == 0 ==> -counts_per_detent < detents * counts_per_detent - total_counts(samples)
                < counts_per_detent
        }),
    decreases samples.len(),
{
    if samples.len() > 0 {
        lemma_counts_are_conserved(counts_per_detent, remainder, samples.drop_last());
        let (detents, rem) = accumulate_run(counts_per_detent, remainder, samples.drop_last());
        let total = rem + samples.last();
        lemma_trem_bounds(total, counts_per_detent);
        assert((detents + tdiv(total, counts_per_detent)) * counts_per_detent == detents * counts_per_detent
            + tdiv(total, counts_per_detent) * counts_per_detent) by (nonlinear_arith);
    }
}

} // verus!
