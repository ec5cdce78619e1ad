//! Synthetic regressions; all raw single-bit edges reach the ideal capture model.
use rmk_config_reel::rotary_decoder::{ClockedDetentDecoder, Detent, Frame};

/// Ideal sequential event model of the capture circuit, not a GPIOTE/PPI timing simulation.
struct Capture {
    state: u8,
    equal: bool,
    counters: Frame,
    deadline: Option<u64>,
    frames: Vec<Frame>,
}

impl Capture {
    fn new(state: u8) -> Self {
        Self {
            state,
            equal: state >> 1 == state & 1,
            counters: Frame::default(),
            deadline: None,
            frames: Vec::new(),
        }
    }

    fn advance(&mut self, time: u64) {
        if self.deadline.is_some_and(|deadline| time >= deadline) {
            self.counters.sequence = self.counters.sequence.wrapping_add(1);
            self.frames.push(self.counters);
            self.deadline = None;
        }
    }

    fn edge(&mut self, time: u64, next: u8) {
        self.advance(time);
        let changed = self.state ^ next;
        assert!(
            changed == 1 || changed == 2,
            "model requires separately acquired A/B edges"
        );
        if changed == 2 {
            if self.equal {
                self.counters.positive = self.counters.positive.wrapping_add(1);
            } else {
                self.counters.negative = self.counters.negative.wrapping_add(1);
            }
            self.deadline = Some(time + 1000);
        }
        self.equal = !self.equal;
        self.state = next;
    }

    fn decode(&self) -> Vec<Detent> {
        let mut decoder = ClockedDetentDecoder::new();
        self.frames
            .iter()
            .filter_map(|frame| decoder.update(*frame).unwrap())
            .collect()
    }
}

#[test]
fn cancelled_first_a_edge_does_not_override_complete_movement() {
    for start in 0..4 {
        let mut capture = Capture::new(start);
        for (time, state) in [
            (10, start ^ 2),
            (20, start),
            (30, start ^ 1),
            (40, start ^ 3),
        ] {
            capture.edge(time, state);
        }
        capture.advance(1040);
        let expected = if start >> 1 == start & 1 {
            Detent::CounterClockwise
        } else {
            Detent::Clockwise
        };
        assert_eq!(capture.decode(), [expected]);
    }
}

#[test]
fn cancelled_a_window_cannot_donate_movement_to_next_click() {
    // Two CW A edges return A to its original level while moving around
    // an entire quadrature cycle. Consume their even interval before CCW.
    let mut capture = Capture::new(0);
    for (time, state) in [(10, 2), (20, 3), (30, 1), (40, 0)] {
        capture.edge(time, state);
    }
    capture.advance(1030);
    assert!(capture.decode().is_empty());
    capture.edge(1040, 1);
    capture.edge(1050, 3);
    capture.advance(2050);
    assert_eq!(capture.decode(), [Detent::CounterClockwise]);
}
