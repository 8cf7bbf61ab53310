//! Decoder for the left-half rotary encoder (9 pulse / 18 click).
//!
//! Phase A is the clock: one debounced A level change is one click.  Phase B
//! is the direction bit: at A's edge the direction is the new A level XOR B's
//! last debounced level, i.e. the level B held during travel before the edge.
//! B never emits anything by itself.  A level counts as settled once it has
//! been sampled [`DEBOUNCE_SAMPLES`] times in a row.

use vstd::prelude::*;

verus! {

/// One physical detent click.
///
/// `Clockwise` is the datasheet's CW rotation, the raw (A, B) sequence
/// 11 -> 01 -> 00 -> 10 -> 11.
#[derive(Clone, Copy, Debug, PartialEq, Eq, Structural)]
pub enum Detent {
    Clockwise,
    CounterClockwise,
}

/// Consecutive identical samples required before a level counts as settled.
pub const DEBOUNCE_SAMPLES: u8 = 16;

/// The decoder's state as plain values.
pub struct DecoderView {
    pub stable_a: bool,
    pub stable_b: bool,
    pub candidate_a: bool,
    pub candidate_b: bool,
    pub run_a: u8,
    pub run_b: u8,
}

/// Length of a run of identical samples after one more sample: one more,
/// saturating at `u8::MAX`, when the level repeats; a fresh run of one otherwise.
pub open spec fn next_run(run: u8, repeated: bool) -> u8 {
    if !repeated {
        1
    } else if run == u8::MAX {
        u8::MAX
    } else {
        (run + 1) as u8
    }
}

/// The direction of a click whose settled A level becomes `new_a` while B's
/// settled level is `b`.
pub open spec fn detent_direction(new_a: bool, b: bool) -> Detent {
    if new_a != b {
        Detent::Clockwise
    } else {
        Detent::CounterClockwise
    }
}

/// One raw sample `(a, b)` fed to a decoder in state `v`: the new state and
/// the click it reports, if any.
pub open spec fn decoder_step(v: DecoderView, a: bool, b: bool) -> (DecoderView, Option<Detent>) {
    let run_a = next_run(v.run_a, a == v.candidate_a);
    let run_b = next_run(v.run_b, b == v.candidate_b);
    let a_settles = run_a >= DEBOUNCE_SAMPLES && a != v.stable_a;
    let b_settles = run_b >= DEBOUNCE_SAMPLES && b != v.stable_b;
    let next = DecoderView {
        stable_a: if a_settles { a } else { v.stable_a },
        stable_b: if b_settles { b } else { v.stable_b },
        candidate_a: a,
        candidate_b: b,
        run_a: run_a,
        run_b: run_b,
    };
    (next, if a_settles { Some(detent_direction(a, v.stable_b)) } else { None })
}

/// A sequence of raw samples fed in order: the final state and the clicks
/// reported, in order.
pub open spec fn decoder_feed(v: DecoderView, samples: Seq<(bool, bool)>) -> (DecoderView, Seq<Detent>)
    decreases samples.len(),
{
    if samples.len() == 0 {
        (v, Seq::empty())
    } else {
        let (before, clicks) = decoder_feed(v, samples.drop_last());
        let (after, click) = decoder_step(before, samples.last().0, samples.last().1);
        (after, match click {
            Some(d) => clicks.push(d),
            None => clicks,
        })
    }
}

/// A decoder just made with both phases settled at `(a, b)`.
pub open spec fn fresh_decoder(a: bool, b: bool) -> DecoderView {
    DecoderView {
        stable_a: a,
        stable_b: b,
        candidate_a: a,
        candidate_b: b,
        run_a: DEBOUNCE_SAMPLES,
        run_b: DEBOUNCE_SAMPLES,
    }
}

/// A settled run of a level always agrees with the settled level.
pub open spec fn decoder_wf(v: DecoderView) -> bool {
    &&& v.run_a >= 1
    &&& v.run_b >= 1
    &&& v.run_a >= DEBOUNCE_SAMPLES ==> v.candidate_a == v.stable_a
    &&& v.run_b >= DEBOUNCE_SAMPLES ==> v.candidate_b == v.stable_b
}

/// The decoder at rest: the last A samples settled on the settled A level.
pub open spec fn a_at_rest(v: DecoderView) -> bool {
    v.candidate_a == v.stable_a
}

pub struct ClockedDetentDecoder {
    stable_a: bool,
    stable_b: bool,
    candidate_a: bool,
    candidate_b: bool,
    run_a: u8,
    run_b: u8,
}

impl View for ClockedDetentDecoder {
    type V = DecoderView;

    closed spec fn view(&self) -> DecoderView {
        DecoderView {
            stable_a: self.stable_a,
            stable_b: self.stable_b,
            candidate_a: self.candidate_a,
            candidate_b: self.candidate_b,
            run_a: self.run_a,
            run_b: self.run_b,
        }
    }
}

impl ClockedDetentDecoder {
    /// A decoder whose phases are taken as already settled at the given levels.
    pub fn new(a_high: bool, b_high: bool) -> (d: Self)
        ensures
            d@ == fresh_decoder(a_high, b_high),
            decoder_wf(d@),
    {
        ClockedDetentDecoder {
            stable_a: a_high,
            stable_b: b_high,
            candidate_a: a_high,
            candidate_b: b_high,
            run_a: DEBOUNCE_SAMPLES,
            run_b: DEBOUNCE_SAMPLES,
        }
    }

    /// Feeds one raw sample of both phases; returns a detent when phase A
    /// completes a debounced level change.
    pub fn update(&mut self, a_high: bool, b_high: bool) -> (r: Option<Detent>)
        ensures
            (final(self)@, r) == decoder_step(old(self)@, a_high, b_high),
            decoder_wf(old(self)@) ==> decoder_wf(final(self)@),
            (r is Some) <==> (a_high != old(self)@.stable_a && a_high == old(self)@.candidate_a && old(
                self,
            )@.run_a >= DEBOUNCE_SAMPLES - 1),
            r is Some ==> final(self)@.stable_a == a_high,
            r is None ==> final(self)@.stable_a == old(self)@.stable_a,
            r is Some ==> (r == Some(Detent::Clockwise) <==> a_high != old(self)@.stable_b),
            final(self)@.stable_b == (if b_high == old(self)@.candidate_b && old(self)@.run_b >= DEBOUNCE_SAMPLES - 1 {
                b_high
            } else {
                old(self)@.stable_b
            }),
            final(self)@.candidate_a == a_high,
            final(self)@.candidate_b == b_high,
    {
        if a_high == self.candidate_a {
            self.run_a = self.run_a.saturating_add(1);
        } else {
            self.candidate_a = a_high;
            self.run_a = 1;
        }
        if b_high == self.candidate_b {
            self.run_b = self.run_b.saturating_add(1);
        } else {
            self.candidate_b = b_high;
            self.run_b = 1;
        }

        let mut detent = None;
        if self.run_a >= DEBOUNCE_SAMPLES && self.candidate_a != self.stable_a {
            self.stable_a = self.candidate_a;
            // Direction from B's level held during travel, before this edge.
            detent = Some(
                if self.stable_a != self.stable_b {
                    Detent::Clockwise
                } else {
                    Detent::CounterClockwise
                },
            );
        }
        // B is promoted only after the direction was taken, so that when both
        // phases settle in the same sample the pre-edge B level decides.
        if self.run_b >= DEBOUNCE_SAMPLES && self.candidate_b != self.stable_b {
            self.stable_b = self.candidate_b;
        }
        detent
    }
}

// ---------------------------------------------------------------------------
// Laws
// ---------------------------------------------------------------------------

/// Feeding `s1` then `s2` is feeding their concatenation.
pub proof fn lemma_feed_concat(v: DecoderView, s1: Seq<(bool, bool)>, s2: Seq<(bool, bool)>)
    ensures
        decoder_feed(v, s1 + s2).0 == decoder_feed(decoder_feed(v, s1).0, s2).0,
        decoder_feed(v, s1 + s2).1 == decoder_feed(v, s1).1 + decoder_feed(decoder_feed(v, s1).0, s2).1,
    decreases s2.len(),
{
    if s2.len() == 0 {
        assert(s1 + s2 =~= s1);
        assert(decoder_feed(v, s1).1 + Seq::<Detent>::empty() =~= decoder_feed(v, s1).1);
    } else {
        lemma_feed_concat(v, s1, s2.drop_last());
        assert((s1 + s2).drop_last() =~= s1 + s2.drop_last());
        assert((s1 + s2).last() == s2.last());
        let mid = decoder_feed(v, s1);
        let (_, click) = decoder_step(decoder_feed(mid.0, s2.drop_last()).0, s2.last().0, s2.last().1);
        match click {
            Some(d) => {
                assert(mid.1 + decoder_feed(mid.0, s2.drop_last()).1.push(d)
                    =~= (mid.1 + decoder_feed(mid.0, s2.drop_last()).1).push(d));
            },
            None => {},
        }
    }
}

/// Samples whose A level is the settled A level never report a click and
/// never change the settled A level, whatever B does: chatter on B, or A
/// resting where it is, is silent.
pub proof fn lemma_quiet_a_never_emits(v: DecoderView, samples: Seq<(bool, bool)>)
    requires
        forall|i: int| 0 <= i < samples.len() ==> (#[trigger] samples[i]).0 == v.stable_a,
    ensures
        decoder_feed(v, samples).1 == Seq::<Detent>::empty(),
        decoder_feed(v, samples).0.stable_a == v.stable_a,
    decreases samples.len(),
{
    if samples.len() > 0 {
        assert forall|i: int| 0 <= i < samples.drop_last().len() implies (
        #[trigger] samples.drop_last()[i]).0 == v.stable_a by {
            assert(samples.drop_last()[i] == samples[i]);
        }
        lemma_quiet_a_never_emits(v, samples.drop_last());
        assert(samples.last() == samples[samples.len() - 1]);
    }
}

/// Feeding the same sample `n` times.
pub open spec fn repeated(a: bool, b: bool, n: nat) -> Seq<(bool, bool)> {
    Seq::new(n, |i: int| (a, b))
}

proof fn lemma_hold_progress(v: DecoderView, a: bool, b: bool, n: nat)
    requires
        decoder_wf(v),
    ensures
        ({
            let (w, clicks) = decoder_feed(v, repeated(a, b, n));
            &&& decoder_wf(w)
            &&& n >= 1 ==> w.candidate_a == a && w.candidate_b == b
            &&& n >= 1 && v.candidate_a == a ==> w.run_a >= if v.run_a + n > 255 { 255 } else { v.run_a + n }
            &&& n >= 1 && v.candidate_a != a ==> w.run_a >= if n > 255 { 255 } else { n }
            &&& n >= 1 && v.candidate_b == b ==> w.run_b >= if v.run_b + n > 255 { 255 } else { v.run_b + n }
            &&& n >= 1 && v.candidate_b != b ==> w.run_b >= if n > 255 { 255 } else { n }
            &&& w.stable_a == v.stable_a ==> clicks.len() == 0
            &&& w.stable_a != v.stable_a ==> w.stable_a == a && clicks.len() == 1
        }),
    decreases n,
{
    if n > 0 {
        let prev = repeated(a, b, (n - 1) as nat);
        assert(repeated(a, b, n).drop_last() =~= prev);
        lemma_hold_progress(v, a, b, (n - 1) as nat);
        let (u, _) = decoder_feed(v, prev);
        if u.stable_a != v.stable_a {
            assert(u.stable_a == a);
        }
    }
}

/// A sample held for [`DEBOUNCE_SAMPLES`] samples is adopted as the settled
/// level of both phases, with exactly one click when the A level changed and
/// none otherwise; the click's direction follows the rule of
/// [`detent_direction`] on the B level settled before the A edge.
pub proof fn lemma_held_sample_settles(v: DecoderView, a: bool, b: bool, n: nat)
    requires
        decoder_wf(v),
        n >= DEBOUNCE_SAMPLES,
    ensures
        ({
            let (w, clicks) = decoder_feed(v, repeated(a, b, n));
            &&& w.stable_a == a
            &&& w.stable_b == b
            &&& clicks.len() == (if a != v.stable_a { 1nat } else { 0nat })
        }),
{
    lemma_hold_progress(v, a, b, n);
}

/// From rest, an A glitch of fewer than [`DEBOUNCE_SAMPLES`] samples followed
/// by A back at its settled level reports no click and leaves the settled A
/// level unchanged.
pub proof fn lemma_short_glitch_is_ignored(
    v: DecoderView,
    glitch: Seq<(bool, bool)>,
    after: Seq<(bool, bool)>,
)
    requires
        decoder_wf(v),
        a_at_rest(v),
        glitch.len() < DEBOUNCE_SAMPLES,
        forall|i: int| 0 <= i < after.len() ==> (#[trigger] after[i]).0 == v.stable_a,
    ensures
        decoder_feed(v, glitch + after).1 == Seq::<Detent>::empty(),
        decoder_feed(v, glitch + after).0.stable_a == v.stable_a,
{
    lemma_glitch_prefix(v, glitch);
    lemma_feed_concat(v, glitch, after);
    let mid = decoder_feed(v, glitch).0;
    lemma_quiet_a_never_emits(mid, after);
    assert(decoder_feed(v, glitch).1 + Seq::<Detent>::empty() =~= Seq::<Detent>::empty());
}

proof fn lemma_glitch_prefix(v: DecoderView, glitch: Seq<(bool, bool)>)
    requires
        decoder_wf(v),
        a_at_rest(v),
        glitch.len() < DEBOUNCE_SAMPLES,
    ensures
        decoder_feed(v, glitch).1 == Seq::<Detent>::empty(),
        decoder_feed(v, glitch).0.stable_a == v.stable_a,
        decoder_feed(v, glitch).0.candidate_a != v.stable_a ==> decoder_feed(v, glitch).0.run_a <= glitch.len(),
    decreases glitch.len(),
{
    if glitch.len() > 0 {
        lemma_glitch_prefix(v, glitch.drop_last());
    }
}

/// Both phases at rest: the last samples of each phase agree with its settled level.
pub open spec fn at_rest(v: DecoderView) -> bool {
    v.candidate_a == v.stable_a && v.candidate_b == v.stable_b
}

proof fn lemma_hold_from_rest(v: DecoderView, a: bool, b: bool, n: nat)
    requires
        decoder_wf(v),
        at_rest(v),
    ensures
        ({
            let (w, clicks) = decoder_feed(v, repeated(a, b, n));
            &&& decoder_wf(w)
            &&& n >= 1 ==> w.candidate_a == a && w.candidate_b == b
            &&& a != v.stable_a && 1 <= n < DEBOUNCE_SAMPLES ==> w.run_a == n
            &&& a != v.stable_a && n < DEBOUNCE_SAMPLES ==> w.stable_a == v.stable_a && clicks.len() == 0
            &&& a != v.stable_a && n >= DEBOUNCE_SAMPLES ==> w.run_a >= DEBOUNCE_SAMPLES && w.stable_a == a
                && clicks == seq![detent_direction(a, v.stable_b)]
            &&& a == v.stable_a ==> w.stable_a == v.stable_a && clicks.len() == 0
            &&& b != v.stable_b && 1 <= n < DEBOUNCE_SAMPLES ==> w.run_b == n
            &&& b != v.stable_b && n < DEBOUNCE_SAMPLES ==> w.stable_b == v.stable_b
            &&& b != v.stable_b && n >= DEBOUNCE_SAMPLES ==> w.run_b >= DEBOUNCE_SAMPLES && w.stable_b == b
            &&& b == v.stable_b ==> w.stable_b == v.stable_b
        }),
    decreases n,
{
    if n > 0 {
        let prev = repeated(a, b, (n - 1) as nat);
        assert(repeated(a, b, n).drop_last() =~= prev);
        assert(repeated(a, b, n).last() == (a, b));
        lemma_hold_from_rest(v, a, b, (n - 1) as nat);
        let (u, clicks) = decoder_feed(v, prev);
        if a != v.stable_a && n == DEBOUNCE_SAMPLES {
            assert(clicks.push(detent_direction(a, v.stable_b)) =~= seq![detent_direction(a, v.stable_b)]);
        }
    }
}

/// The raw samples of a run of segments, each segment a sample `(a, b)`
/// held for a number of samples.
pub open spec fn segment_samples(segments: Seq<(bool, bool, nat)>) -> Seq<(bool, bool)>
    decreases segments.len(),
{
    if segments.len() == 0 {
        Seq::empty()
    } else {
        let s = segments.last();
        segment_samples(segments.drop_last()) + repeated(s.0, s.1, s.2)
    }
}

/// The clicks a rotation through settled segments makes: one per change of
/// the A level between consecutive segments, in the direction given by the
/// new A level and the B level of the segment before.
pub open spec fn segment_clicks(a0: bool, b0: bool, segments: Seq<(bool, bool, nat)>) -> Seq<Detent>
    decreases segments.len(),
{
    if segments.len() == 0 {
        Seq::empty()
    } else {
        let s = segments.last();
        let before = segments.drop_last();
        let (pa, pb) = if before.len() == 0 {
            (a0, b0)
        } else {
            (before.last().0, before.last().1)
        };
        let earlier = segment_clicks(a0, b0, before);
        if s.0 != pa {
            earlier.push(detent_direction(s.0, pb))
        } else {
            earlier
        }
    }
}

/// Every debounced change of A is exactly one click: from rest, a rotation
/// whose every level is held for at least [`DEBOUNCE_SAMPLES`] samples
/// reports one click per change of the A level, clockwise exactly when the
/// new A level differs from the B level held before the edge, and ends at
/// rest on the last levels.
pub proof fn lemma_settled_rotation_clicks(v: DecoderView, segments: Seq<(bool, bool, nat)>)
    requires
        decoder_wf(v),
        at_rest(v),
        forall|i: int| 0 <= i < segments.len() ==> (#[trigger] segments[i]).2 >= DEBOUNCE_SAMPLES,
    ensures
        decoder_feed(v, segment_samples(segments)).1 == segment_clicks(v.stable_a, v.stable_b, segments),
        decoder_wf(decoder_feed(v, segment_samples(segments)).0),
        at_rest(decoder_feed(v, segment_samples(segments)).0),
        segments.len() > 0 ==> decoder_feed(v, segment_samples(segments)).0.stable_a == segments.last().0
            && decoder_feed(v, segment_samples(segments)).0.stable_b == segments.last().1,
        segments.len() == 0 ==> decoder_feed(v, segment_samples(segments)).0 == v,
    decreases segments.len(),
{
    if segments.len() > 0 {
        let before = segments.drop_last();
        let s = segments.last();
        assert forall|i: int| 0 <= i < before.len() implies (#[trigger] before[i]).2 >= DEBOUNCE_SAMPLES by {
            assert(before[i] == segments[i]);
        }
        assert(s == segments[segments.len() - 1]);
        lemma_settled_rotation_clicks(v, before);
        let mid = decoder_feed(v, segment_samples(before));
        lemma_feed_concat(v, segment_samples(before), repeated(s.0, s.1, s.2));
        lemma_hold_from_rest(mid.0, s.0, s.1, s.2);
        let last = decoder_feed(mid.0, repeated(s.0, s.1, s.2));
        if s.0 != mid.0.stable_a {
            assert(mid.1 + seq![detent_direction(s.0, mid.0.stable_b)] =~= mid.1.push(
                detent_direction(s.0, mid.0.stable_b),
            ));
        } else {
            assert(mid.1 + last.1 =~= mid.1);
        }
    } else {
        assert(segment_samples(segments) =~= Seq::<(bool, bool)>::empty());
    }
}

/// A fresh decoder starts settled: any number of samples at its start levels
/// report nothing; then, with A flipped, the first fifteen samples report
/// nothing and the sixteenth reports one click, clockwise exactly when the
/// new A level differs from B.
pub proof fn lemma_fresh_decoder_clicks_on_sixteenth(a: bool, b: bool, n: nat)
    ensures
        ({
            let (rest, quiet) = decoder_feed(fresh_decoder(a, b), repeated(a, b, n));
            let (before, waiting) = decoder_feed(rest, repeated(!a, b, (DEBOUNCE_SAMPLES - 1) as nat));
            &&& quiet == Seq::<Detent>::empty()
            &&& waiting == Seq::<Detent>::empty()
            &&& decoder_step(before, !a, b).1 == Some(detent_direction(!a, b))
        }),
{
    let v = fresh_decoder(a, b);
    lemma_hold_from_rest(v, a, b, n);
    let rest = decoder_feed(v, repeated(a, b, n)).0;
    if n == 0 {
        assert(rest == v);
    }
    lemma_hold_from_rest(rest, !a, b, (DEBOUNCE_SAMPLES - 1) as nat);
    lemma_hold_from_rest(rest, !a, b, DEBOUNCE_SAMPLES as nat);
    assert(repeated(!a, b, DEBOUNCE_SAMPLES as nat).drop_last() =~= repeated(!a, b, (DEBOUNCE_SAMPLES - 1) as nat));
    assert(repeated(!a, b, DEBOUNCE_SAMPLES as nat).last() == (!a, b));
}

// ---------------------------------------------------------------------------
// When a call reports a click, in terms of the samples fed since `new`
// ---------------------------------------------------------------------------

/// Whether the last `k` samples all have the A level of the last one.
pub open spec fn held_a(h: Seq<(bool, bool)>, k: nat) -> bool {
    h.len() >= k && forall|i: int| h.len() - k <= i < h.len() ==> (#[trigger] h[i]).0 == h.last().0
}

/// Whether the last `k` samples all have the B level of the last one.
pub open spec fn held_b(h: Seq<(bool, bool)>, k: nat) -> bool {
    h.len() >= k && forall|i: int| h.len() - k <= i < h.len() ==> (#[trigger] h[i]).1 == h.last().1
}

/// The settled A level after samples `h` from start level `a0`: it becomes a
/// sample's A level when that level differs from it and was held for the
/// last [`DEBOUNCE_SAMPLES`] samples.
pub open spec fn settled_a(a0: bool, h: Seq<(bool, bool)>) -> bool
    decreases h.len(),
{
    if h.len() == 0 {
        a0
    } else {
        let before = settled_a(a0, h.drop_last());
        if h.last().0 != before && held_a(h, DEBOUNCE_SAMPLES as nat) {
            h.last().0
        } else {
            before
        }
    }
}

/// The settled B level after samples `h` from start level `b0`: the B level
/// of the latest sample that ended a run of [`DEBOUNCE_SAMPLES`] equal B levels.
pub open spec fn settled_b(b0: bool, h: Seq<(bool, bool)>) -> bool
    decreases h.len(),
{
    if h.len() == 0 {
        b0
    } else if held_b(h, DEBOUNCE_SAMPLES as nat) {
        h.last().1
    } else {
        settled_b(b0, h.drop_last())
    }
}

/// Number of trailing samples sharing the last sample's A level.
pub open spec fn tail_run_a(h: Seq<(bool, bool)>) -> nat
    decreases h.len(),
{
    if h.len() == 0 {
        0
    } else if h.len() == 1 {
        1
    } else if h[h.len() - 2].0 == h.last().0 {
        tail_run_a(h.drop_last()) + 1
    } else {
        1
    }
}

/// Number of trailing samples sharing the last sample's B level.
pub open spec fn tail_run_b(h: Seq<(bool, bool)>) -> nat
    decreases h.len(),
{
    if h.len() == 0 {
        0
    } else if h.len() == 1 {
        1
    } else if h[h.len() - 2].1 == h.last().1 {
        tail_run_b(h.drop_last()) + 1
    } else {
        1
    }
}

pub open spec fn capped(n: int) -> int {
    if n > 255 {
        255
    } else {
        n
    }
}

proof fn lemma_tail_run_held(h: Seq<(bool, bool)>, k: nat)
    requires
        k >= 1,
    ensures
        held_a(h, k) <==> (h.len() > 0 && tail_run_a(h) >= k),
        held_b(h, k) <==> (h.len() > 0 && tail_run_b(h) >= k),
    decreases h.len(),
{
    if h.len() >= 2 {
        let g = h.drop_last();
        if k >= 2 {
            lemma_tail_run_held(g, (k - 1) as nat);
            if held_a(h, k) {
                assert(h[h.len() - 2].0 == h.last().0);
                assert forall|i: int| g.len() - (k - 1) <= i < g.len() implies (#[trigger] g[i]).0 == g.last().0 by {
                    assert(g[i] == h[i]);
                    assert(g.last() == h[h.len() - 2]);
                }
            }
            if h.len() > 0 && tail_run_a(h) >= k {
                assert(h[h.len() - 2].0 == h.last().0);
                assert forall|i: int| h.len() - k <= i < h.len() implies (#[trigger] h[i]).0 == h.last().0 by {
                    if i < h.len() - 1 {
                        assert(h[i] == g[i]);
                        assert(g.last() == h[h.len() - 2]);
                    }
                }
            }
            if held_b(h, k) {
                assert(h[h.len() - 2].1 == h.last().1);
                assert forall|i: int| g.len() - (k - 1) <= i < g.len() implies (#[trigger] g[i]).1 == g.last().1 by {
                    assert(g[i] == h[i]);
                    assert(g.last() == h[h.len() - 2]);
                }
            }
            if h.len() > 0 && tail_run_b(h) >= k {
                assert(h[h.len() - 2].1 == h.last().1);
                assert forall|i: int| h.len() - k <= i < h.len() implies (#[trigger] h[i]).1 == h.last().1 by {
                    if i < h.len() - 1 {
                        assert(h[i] == g[i]);
                        assert(g.last() == h[h.len() - 2]);
                    }
                }
            }
        } else {
            assert(h[h.len() - 1] == h.last());
        }
    } else if h.len() == 1 {
        if k == 1 {
            assert(h[0] == h.last());
        }
    }
}

proof fn lemma_settled_at_start(a0: bool, b0: bool, h: Seq<(bool, bool)>)
    ensures
        (forall|i: int| 0 <= i < h.len() ==> (#[trigger] h[i]).0 == a0) ==> settled_a(a0, h) == a0,
        (forall|i: int| 0 <= i < h.len() ==> (#[trigger] h[i]).1 == b0) ==> settled_b(b0, h) == b0,
    decreases h.len(),
{
    if h.len() > 0 {
        lemma_settled_at_start(a0, b0, h.drop_last());
        let g = h.drop_last();
        if forall|i: int| 0 <= i < h.len() ==> (#[trigger] h[i]).0 == a0 {
            assert forall|i: int| 0 <= i < g.len() implies (#[trigger] g[i]).0 == a0 by {
                assert(g[i] == h[i]);
            }
            assert(h.last() == h[h.len() - 1]);
        }
        if forall|i: int| 0 <= i < h.len() ==> (#[trigger] h[i]).1 == b0 {
            assert forall|i: int| 0 <= i < g.len() implies (#[trigger] g[i]).1 == b0 by {
                assert(g[i] == h[i]);
            }
            assert(h.last() == h[h.len() - 1]);
        }
    }
}

/// The decoder state after samples `h` from a fresh decoder, described by the samples alone.
proof fn lemma_state_from_history(a0: bool, b0: bool, h: Seq<(bool, bool)>)
    ensures
        ({
            let w = decoder_feed(fresh_decoder(a0, b0), h).0;
            &&& w.stable_a == settled_a(a0, h)
            &&& w.stable_b == settled_b(b0, h)
            &&& w.candidate_a == (if h.len() == 0 { a0 } else { h.last().0 })
            &&& w.candidate_b == (if h.len() == 0 { b0 } else { h.last().1 })
            &&& w.run_a as int == capped(
                if forall|i: int| 0 <= i < h.len() ==> (#[trigger] h[i]).0 == a0 {
                    DEBOUNCE_SAMPLES + h.len()
                } else {
                    tail_run_a(h) as int
                },
            )
            &&& w.run_b as int == capped(
                if forall|i: int| 0 <= i < h.len() ==> (#[trigger] h[i]).1 == b0 {
                    DEBOUNCE_SAMPLES + h.len()
                } else {
                    tail_run_b(h) as int
                },
            )
        }),
    decreases h.len(),
{
    if h.len() > 0 {
        let g = h.drop_last();
        let (a, b) = h.last();
        lemma_state_from_history(a0, b0, g);
        lemma_settled_at_start(a0, b0, g);
        lemma_settled_at_start(a0, b0, h);
        lemma_tail_run_held(h, DEBOUNCE_SAMPLES as nat);
        assert(h.last() == h[h.len() - 1]);
        if g.len() > 0 {
            assert(g.last() == h[h.len() - 2]);
        }
        let all_a_h = forall|i: int| 0 <= i < h.len() ==> (#[trigger] h[i]).0 == a0;
        let all_a_g = forall|i: int| 0 <= i < g.len() ==> (#[trigger] g[i]).0 == a0;
        let all_b_h = forall|i: int| 0 <= i < h.len() ==> (#[trigger] h[i]).1 == b0;
        let all_b_g = forall|i: int| 0 <= i < g.len() ==> (#[trigger] g[i]).1 == b0;
        if all_a_h {
            assert forall|i: int| 0 <= i < g.len() implies (#[trigger] g[i]).0 == a0 by {
                assert(g[i] == h[i]);
            }
        }
        if all_a_g && a == a0 {
            assert forall|i: int| 0 <= i < h.len() implies (#[trigger] h[i]).0 == a0 by {
                if i < g.len() {
                    assert(g[i] == h[i]);
                }
            }
        }
        if all_b_h {
            assert forall|i: int| 0 <= i < g.len() implies (#[trigger] g[i]).1 == b0 by {
                assert(g[i] == h[i]);
            }
        }
        if all_b_g && b == b0 {
            assert forall|i: int| 0 <= i < h.len() implies (#[trigger] h[i]).1 == b0 by {
                if i < g.len() {
                    assert(g[i] == h[i]);
                }
            }
        }
        if !all_a_h && all_a_g && g.len() > 0 {
            assert(g[g.len() - 1].0 == a0);
        }
        if !all_b_h && all_b_g && g.len() > 0 {
            assert(g[g.len() - 1].1 == b0);
        }
    }
}

/// Exactly when a call reports a click, in terms of the samples fed since the
/// decoder was made at `(a0, b0)`: a sample `(a, b)` after samples `h` reports
/// a click exactly when `a` differs from the settled A level and the last
/// [`DEBOUNCE_SAMPLES`] samples, this one included, all had A level `a`; the
/// click is clockwise exactly when `a` differs from the settled B level, the B
/// level of the latest earlier sample that ended a run of
/// [`DEBOUNCE_SAMPLES`] equal B levels (`b0` if none).  A change of B alone
/// never reports a click.
pub proof fn lemma_click_characterization(a0: bool, b0: bool, h: Seq<(bool, bool)>, a: bool, b: bool)
    ensures
        decoder_step(decoder_feed(fresh_decoder(a0, b0), h).0, a, b).1 == (if a != settled_a(a0, h) && held_a(
            h.push((a, b)),
            DEBOUNCE_SAMPLES as nat,
        ) {
            Some(detent_direction(a, settled_b(b0, h)))
        } else {
            None
        }),
{
    let h2 = h.push((a, b));
    lemma_state_from_history(a0, b0, h);
    lemma_state_from_history(a0, b0, h2);
    assert(h2.drop_last() =~= h);
    assert(h2.last() == (a, b));
    assert(decoder_feed(fresh_decoder(a0, b0), h2).0 == decoder_step(decoder_feed(fresh_decoder(a0, b0), h).0, a, b).0);
    lemma_tail_run_held(h2, DEBOUNCE_SAMPLES as nat);
    lemma_settled_at_start(a0, b0, h);
    if forall|i: int| 0 <= i < h2.len() ==> (#[trigger] h2[i]).0 == a0 {
        assert(h2[h2.len() - 1].0 == a0);
        assert forall|i: int| 0 <= i < h.len() implies (#[trigger] h[i]).0 == a0 by {
            assert(h[i] == h2[i]);
        }
    }
}

} // verus!
