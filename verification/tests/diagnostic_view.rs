use rmk_config_reel::rotary_decoder::Detent;
use rmk_config_reel::rotary_diagnostics::{record_lines, record_text, title, DiagnosticRenderer};
use rmk_config_reel::rotary_sampled_decoder::{ClockedDetentDecoder, Decision, DecisionSource};
use rmk_config_reel::rotary_trace::{CaptureState, Record, Sample, Trace, Trigger};

fn record(number: u64, decision: Decision) -> Record {
    let decoder = ClockedDetentDecoder::new(false, false);
    Record {
        number,
        sample: Sample {
            number,
            ticks: 0,
            a: decision.observed_a,
            b: decision.observed_b,
            before: decoder.state(),
            after: decoder.state(),
            evidence: decoder.evidence(),
            decision: Some(decision),
        },
        decision,
    }
}

#[test]
fn record_lines_show_the_decision() {
    let decision = Decision {
        source: DecisionSource::Interval,
        output: Some(Detent::CounterClockwise),
        old_a: false,
        new_a: true,
        observed_a: true,
        observed_b: false,
        edge_movement: 0,
        interval_movement: -3,
        previous_direction: None,
    };
    let lines: Vec<String> = record_lines(record(123_456_789_012, decision), 100_000_042)
        .into_iter()
        .map(|l| String::from_utf8(l).unwrap())
        .collect();
    assert_eq!(
        lines,
        ["#56789012", "I>CCW", "t42ms", "A0>1 AB10", "E:0", "I:-3", "H:-"]
    );
}

#[test]
fn record_text_shows_the_sample_time_in_milliseconds() {
    let decision = Decision {
        source: DecisionSource::Edge,
        output: Some(Detent::Clockwise),
        old_a: true,
        new_a: false,
        observed_a: false,
        observed_b: true,
        edge_movement: 2,
        interval_movement: 0,
        previous_direction: Some(Detent::Clockwise),
    };
    let mut record = record(7, decision);
    let tick_hz = embassy_time::TICK_HZ;
    record.sample.ticks = 5 * tick_hz / 2;
    let lines: Vec<String> = record_text(record)
        .into_iter()
        .map(|l| String::from_utf8(l).unwrap())
        .collect();
    assert_eq!(lines, ["#7", "E>CW", "t2500ms", "A1>0 AB01", "E:2", "I:0", "H:CW"]);
}

#[test]
fn titles_and_redraws() {
    assert_eq!(title(CaptureState::Disarmed), b"USB: RUN TOOL");
    assert_eq!(title(CaptureState::Armed), b"ARMED");
    assert_eq!(title(CaptureState::Frozen), b"FROZEN");
    let mut renderer = DiagnosticRenderer::new();
    assert!(renderer.should_render((0, 0, CaptureState::Disarmed)));
    assert!(!renderer.should_render((0, 0, CaptureState::Disarmed)));
    assert!(renderer.should_render((1, 0, CaptureState::Armed)));
    assert!(renderer.should_render((1, 1, CaptureState::Armed)));
}

#[test]
fn latest_gives_the_age_th_newest_of_the_last_32_decisions() {
    let decoder = ClockedDetentDecoder::new(false, false);
    let mut trace = Trace::new();
    trace.arm(Trigger::Ambiguous);
    for n in 0..40i32 {
        let decision = Decision {
            source: DecisionSource::Edge,
            output: Some(Detent::Clockwise),
            old_a: false,
            new_a: true,
            observed_a: true,
            observed_b: false,
            edge_movement: n,
            interval_movement: 0,
            previous_direction: None,
        };
        trace.push(Sample {
            number: 0,
            ticks: n as u64,
            a: true,
            b: false,
            before: decoder.state(),
            after: decoder.state(),
            evidence: decoder.evidence(),
            decision: Some(decision),
        });
    }
    assert_eq!(trace.state, CaptureState::Armed);
    let newest = trace.latest(0).unwrap();
    assert_eq!((newest.number, newest.decision.edge_movement), (40, 39));
    let oldest = trace.latest(31).unwrap();
    assert_eq!((oldest.number, oldest.decision.edge_movement), (9, 8));
    assert_eq!(trace.latest(32), None);
}
