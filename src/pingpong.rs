//! Ping-pong buffering: two resource slots that swap roles every frame.
//!
//! At any time one slot is the current input (read by the shader) and the
//! other the current output (rendered into); each frame is drawn with the
//! current roles, which are then swapped.
use vstd::prelude::*;

verus! {

/// One of the two slots.
#[derive(Clone, Copy, Debug, PartialEq, Eq, Structural)]
pub enum Slot {
    A,
    B,
}

/// The roles of the two slots in one frame.
#[derive(Clone, Copy, Debug, PartialEq, Eq, Structural)]
pub struct Frame {
    pub input: Slot,
    pub output: Slot,
}

/// The slot that is not `s`.
pub open spec fn other(s: Slot) -> Slot {
    match s {
        Slot::A => Slot::B,
        Slot::B => Slot::A,
    }
}

/// The roles in a frame whose input is `s`.
pub open spec fn frame_of(s: Slot) -> Frame {
    Frame { input: s, output: other(s) }
}

/// The input slot after `n` frames, starting with `B` as input.
pub open spec fn input_after(n: nat) -> Slot
    decreases n,
{
    if n == 0 {
        Slot::B
    } else {
        other(input_after((n - 1) as nat))
    }
}

/// The state of a ping-pong pair: which slot is the current input.
#[derive(Clone, Copy, Debug, PartialEq, Eq, Structural)]
pub struct PingPong {
    input: Slot,
}

impl PingPong {
    /// The current input slot.
    pub closed spec fn input_spec(&self) -> Slot {
        self.input
    }

    /// A pair that starts with `B` as input and `A` as output.
    pub fn new() -> (r: Self)
        ensures
            r.input_spec() == input_after(0),
    {
        PingPong { input: Slot::B }
    }

    /// The roles of the slots in the next frame.
    pub fn current(&self) -> (r: Frame)
        ensures
            r == frame_of(self.input_spec()),
    {
        let output = match self.input {
            Slot::A => Slot::B,
            Slot::B => Slot::A,
        };
        Frame { input: self.input, output }
    }

    /// The roles of the slots in the frame about to be drawn; afterwards
    /// the roles are swapped.
    pub fn next_frame(&mut self) -> (r: Frame)
        ensures
            r == frame_of(old(self).input_spec()),
            final(self).input_spec() == other(old(self).input_spec()),
    {
        let r = self.current();
        self.input = r.output;
        r
    }
}

/// Ping-pong roles: in frame `n + 1` (after `n` frames) slot `B` is read and
/// `A` written when `n` is even, the other way round when it is odd; in
/// every frame exactly one slot is the input.
pub proof fn lemma_ping_pong(n: nat)
    ensures
        input_after(n) == (if n % 2 == 0 {
            Slot::B
        } else {
            Slot::A
        }),
        frame_of(input_after(n)).input != frame_of(input_after(n)).output,
        frame_of(input_after(n + 1)) == (Frame {
            input: frame_of(input_after(n)).output,
            output: frame_of(input_after(n)).input,
        }),
    decreases n,
{
    if n > 0 {
        lemma_ping_pong((n - 1) as nat);
    }
}

} // verus!
