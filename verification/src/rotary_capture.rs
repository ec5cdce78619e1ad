//! Decisions of the signed A-edge capture: which PPI group starts active, when start-up must
//! fail, when an interrupt's captured frame is accepted, and how faults latch.
//!
//! The circuit counts A edges into a positive or a negative counter depending on whether A
//! and B were equal (group EQ) or not (group NE) before the edge; B edges only switch groups.
use vstd::prelude::*;
use crate::rotary_decoder::{wrap_sub, Frame};

verus! {

/// Every PPI channel of the circuit.
pub const ALL_CHANNELS: u32 = 0x1ff;
/// Channels of the EQ group (A counts positive, then switches to NE; B switches to NE).
pub const EQ_CHANNELS: u32 = 0x07;
/// Channels of the NE group (A counts negative, then switches to EQ; B switches to EQ).
pub const NE_CHANNELS: u32 = 0x38;
/// Channels that capture a frame after the quiet time.
pub const FRAME_CHANNELS: u32 = 0x1c0;
/// Frames queued between the interrupt and the decoder.
pub const FRAME_QUEUE_CAPACITY: usize = 64;

/// An edge during start-up seeding: the initial EQ/NE group cannot be established safely.
pub const FAULT_STARTUP: u8 = 1;
/// A captured frame was overwritten, or the frame sequence is discontinuous.
pub const FAULT_OVERWRITE: u8 = 2;
/// The frame queue was full.
pub const FAULT_QUEUE_FULL: u8 = 3;
/// The decoder received a missing or duplicate frame.
pub const FAULT_SEQUENCE: u8 = 4;
/// The direction output queue was full.
pub const FAULT_OUTPUT_FULL: u8 = 5;

/// The channels enabled at start-up for the resting levels of A and B.
pub fn initial_channels(a_high: bool, b_high: bool) -> (r: u32)
    ensures
        r == FRAME_CHANNELS | (if a_high == b_high { EQ_CHANNELS } else { NE_CHANNELS }),
{
    FRAME_CHANNELS | if a_high == b_high {
        EQ_CHANNELS
    } else {
        NE_CHANNELS
    }
}

/// The fault of a start-up that saw an A or B event while seeding, if any.
pub fn startup_fault(a_event: bool, b_event: bool) -> (r: Option<u8>)
    ensures
        r == if a_event || b_event { Some(FAULT_STARTUP) } else { None::<u8> },
{
    if a_event || b_event {
        Some(FAULT_STARTUP)
    } else {
        None
    }
}

/// The latched fault after reporting `code`: the first fault stays until reset.
pub fn latch_fault(current: u8, code: u8) -> (r: u8)
    ensures
        r == if current == 0 { code } else { current },
{
    if current == 0 {
        code
    } else {
        current
    }
}

/// Whether the interrupt accepts a frame: the frame counter read before and after copying
/// agree, directly follows the last accepted frame, and no new capture happened meanwhile.
pub fn frame_accepted(first: u32, second: u32, last_sequence: u32, captured_again: bool) -> (r: bool)
    ensures
        r == (first == second && wrap_sub(first, last_sequence) == 1 && !captured_again),
{
    first == second && first.wrapping_sub(last_sequence) == 1 && !captured_again
}

/// The frame the interrupt copies out, numbered with the frame counter.
pub fn captured_frame(positive: u32, negative: u32, sequence: u32) -> (r: Frame)
    ensures
        r == (Frame { positive, negative, sequence }),
{
    Frame { positive, negative, sequence }
}

/// What a receive returns: a frame while no fault is latched, else the fault.
pub fn receive_result(frame: Option<Frame>, fault: u8) -> (r: Result<Frame, u8>)
    ensures
        r == match frame {
            Some(f) => if fault == 0 { Ok::<Frame, u8>(f) } else { Err(fault) },
            None => Err(fault),
        },
{
    match frame {
        Some(f) => if fault == 0 {
            Ok(f)
        } else {
            Err(fault)
        },
        None => Err(fault),
    }
}

/// Faults latch: once a fault is reported, later reports do not change it.
pub proof fn law_first_fault_is_kept(first: u8, later: Seq<u8>)
    requires
        first != 0,
    ensures
        later.fold_left(first, |current: u8, code: u8| if current == 0 { code } else { current }) == first,
    decreases later.len(),
{
    if later.len() > 0 {
        law_first_fault_is_kept(first, later.drop_last());
    }
}

} // verus!
