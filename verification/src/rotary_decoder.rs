//! Decoding of cumulative signed A-edge counters captured after 1 ms of A stability.
use vstd::prelude::*;

verus! {

/// One physical detent click.
#[derive(Clone, Copy, Debug, PartialEq, Eq, Structural)]
pub enum Detent {
    Clockwise,
    CounterClockwise,
}

/// One captured frame: cumulative positive and negative A-edge counts and the frame number.
#[derive(Clone, Copy, Debug, Default, PartialEq, Eq, Structural)]
pub struct Frame {
    pub positive: u32,
    pub negative: u32,
    pub sequence: u32,
}

/// Difference `a - b` modulo 2^32, as `u32::wrapping_sub` computes it.
pub open spec fn wrap_sub(a: u32, b: u32) -> u32 {
    if a >= b { (a - b) as u32 } else { (a - b + 0x1_0000_0000) as u32 }
}

/// What one frame produces after `previous`: `None` when the frame does not directly
/// follow `previous`, otherwise the emitted detent (if the interval holds an odd number of A edges).
pub open spec fn frame_output(previous: Frame, frame: Frame) -> Option<Detent> {
    let positive = wrap_sub(frame.positive, previous.positive);
    let negative = wrap_sub(frame.negative, previous.negative);
    if (positive + negative) % 2 == 0 {
        None
    } else if positive > negative {
        Some(Detent::Clockwise)
    } else {
        Some(Detent::CounterClockwise)
    }
}

/// Whether `frame` is the frame that directly follows `previous`.
pub open spec fn follows(previous: Frame, frame: Frame) -> bool {
    wrap_sub(frame.sequence, previous.sequence) == 1
}

pub struct ClockedDetentDecoder {
    pub previous: Frame,
    pub faulted: bool,
}

impl ClockedDetentDecoder {
    pub fn new() -> (r: Self)
        ensures
            r.previous == (Frame { positive: 0, negative: 0, sequence: 0 }),
            !r.faulted,
    {
        Self { previous: Frame { positive: 0, negative: 0, sequence: 0 }, faulted: false }
    }

    /// Missing frames are unrecoverable: never emit a combined interval.
    /// Wrap is valid provided fewer than 2^32 edges occur per frame.
    pub fn update(&mut self, frame: Frame) -> (r: Result<Option<Detent>, ()>)
        ensures
            old(self).faulted || !follows(old(self).previous, frame) ==> {
                &&& r is Err
                &&& final(self).faulted
                &&& final(self).previous == old(self).previous
            },
            !old(self).faulted && follows(old(self).previous, frame) ==> {
                &&& r == Ok::<Option<Detent>, ()>(frame_output(old(self).previous, frame))
                &&& !final(self).faulted
                &&& final(self).previous == frame
            },
    {
        if self.faulted || frame.sequence.wrapping_sub(self.previous.sequence) != 1 {
            self.faulted = true;
            return Err(());
        }
        let positive = frame.positive.wrapping_sub(self.previous.positive);
        let negative = frame.negative.wrapping_sub(self.previous.negative);
        self.previous = frame;
        let sum = positive.wrapping_add(negative);
        assert((sum & 1 == 0) <==> ((positive as int + negative as int) % 2 == 0)) by (bit_vector)
            requires
                sum == (if positive as int + negative as int > u32::MAX {
                    (positive as int + negative as int - 0x1_0000_0000) as u32
                } else {
                    (positive as int + negative as int) as u32
                }),
        ;
        if sum & 1 == 0 {
            return Ok(None);
        }
        Ok(Some(if positive > negative { Detent::Clockwise } else { Detent::CounterClockwise }))
    }
}

} // verus!
