//! Frame timing and delayed consumers, not proof of peripheral timing.
use rmk_config_reel::rotary_decoder::{ClockedDetentDecoder, Detent, Frame};

/// Ideal sequential event model of the capture circuit, not a GPIOTE/PPI timing simulation.
struct Capture {
    state: u8,
    equal: bool,
    counters: Frame,
    deadline: Option<u64>,
    frames: Vec<Frame>,
}

impl Capture {
    fn new(state: u8) -> Self {
        Self {
            state,
            equal: state >> 1 == state & 1,
            counters: Frame::default(),
            deadline: None,
            frames: Vec::new(),
        }
    }

    fn advance(&mut self, time: u64) {
        if self.deadline.is_some_and(|deadline| time >= deadline) {
            self.counters.sequence = self.counters.sequence.wrapping_add(1);
            self.frames.push(self.counters);
            self.deadline = None;
        }
    }

    fn edge(&mut self, time: u64, next: u8) {
        self.advance(time);
        let changed = self.state ^ next;
        assert!(
            changed == 1 || changed == 2,
            "model requires separately acquired A/B edges"
        );
        if changed == 2 {
            if self.equal {
                self.counters.positive = self.counters.positive.wrapping_add(1);
            } else {
                self.counters.negative = self.counters.negative.wrapping_add(1);
            }
            self.deadline = Some(time + 1000);
        }
        self.equal = !self.equal;
        self.state = next;
    }

    fn decode(&self) -> Vec<Detent> {
        let mut decoder = ClockedDetentDecoder::new();
        self.frames
            .iter()
            .filter_map(|frame| decoder.update(*frame).unwrap())
            .collect()
    }
}

#[test]
fn b_chatter_does_not_postpone_a_deadline_or_add_frames() {
    let mut capture = Capture::new(0);
    capture.edge(10, 2);
    for time in (20..2000).step_by(10) {
        capture.edge(time, capture.state ^ 1);
    }
    capture.advance(100_000);
    assert_eq!(capture.frames.len(), 1);
    assert_eq!(capture.decode(), [Detent::Clockwise]);
}

#[test]
fn every_a_edge_restarts_quiet_time_and_bounce_returns_cancel() {
    let mut capture = Capture::new(0);
    capture.edge(10, 2);
    capture.edge(900, 0);
    capture.advance(1899);
    assert!(capture.frames.is_empty());
    capture.advance(1900);
    assert_eq!(capture.frames.len(), 1);
    assert!(capture.decode().is_empty());
    capture.advance(100_000);
    assert_eq!(capture.frames.len(), 1);
}

#[test]
fn cpu_delay_keeps_opposite_clicks_separate() {
    let mut capture = Capture::new(0);
    capture.edge(10, 2);
    capture.edge(20, 3);
    capture.edge(2010, 2);
    capture.edge(2020, 0);
    capture.advance(3020);
    assert_eq!(
        capture.decode(),
        [Detent::Clockwise, Detent::CounterClockwise]
    );
    // A capture overwritten before IRQ service must not merge the clicks.
    assert!(
        ClockedDetentDecoder::new()
            .update(capture.frames[1])
            .is_err()
    );
}
