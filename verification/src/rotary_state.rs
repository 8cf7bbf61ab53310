//! Debounced phase-A state of the encoder fitted to ReeL: one stable A
//! transition is one mechanical click, and phase B captured at the first A
//! edge gives its direction.

use vstd::prelude::*;

verus! {

#[derive(Clone, Copy, Debug, PartialEq, Eq, Structural)]
pub enum EncoderDirection {
    Clockwise,
    CounterClockwise,
}

/// Tracks only the debounced phase-A level.
pub struct RotaryState {
    stable_a_low: bool,
}

impl View for RotaryState {
    type V = bool;

    /// Whether the settled A level is low.
    closed spec fn view(&self) -> bool {
        self.stable_a_low
    }
}

impl RotaryState {
    pub fn new(a_low: bool) -> (s: Self)
        ensures
            s@ == a_low,
    {
        RotaryState { stable_a_low: a_low }
    }

    /// Takes a newly settled A level.  A level equal to the current one is
    /// bounce that returned and reports nothing; a changed level is one click,
    /// clockwise when the new A level differs from B's level at the A edge.
    pub fn settle(&mut self, b_low_at_a_edge: bool, settled_a_low: bool) -> (r: Option<EncoderDirection>)
        ensures
            settled_a_low == old(self)@ ==> r is None && final(self)@ == old(self)@,
            settled_a_low != old(self)@ ==> final(self)@ == settled_a_low && r == Some(
                if settled_a_low != b_low_at_a_edge {
                    EncoderDirection::Clockwise
                } else {
                    EncoderDirection::CounterClockwise
                },
            ),
    {
        if settled_a_low == self.stable_a_low {
            return None;
        }
        self.stable_a_low = settled_a_low;
        Some(
            if settled_a_low != b_low_at_a_edge {
                EncoderDirection::Clockwise
            } else {
                EncoderDirection::CounterClockwise
            },
        )
    }
}

} // verus!
