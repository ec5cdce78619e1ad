//! Exported traces replay exactly; damaged logs are rejected.
use rmk_config_reel::replay::{self, ReplayError};
use rmk_config_reel::rotary_log;
use rmk_config_reel::rotary_sampled_decoder::ClockedDetentDecoder;
use rmk_config_reel::rotary_trace::{Sample, Trace, Trigger};

fn trace() -> Trace {
    let mut decoder = ClockedDetentDecoder::new(false, false);
    let mut trace = Trace::new();
    trace.arm(Trigger::Ambiguous);
    for n in 0..700 {
        let (a, b) = if n < 600 {
            (false, false)
        } else if n < 616 {
            (true, false)
        } else if n < 636 {
            (true, true)
        } else {
            (false, false)
        };
        let before = decoder.state();
        decoder.update(a, b);
        trace.push(Sample {
            number: 0,
            ticks: n,
            a,
            b,
            before,
            after: decoder.state(),
            evidence: decoder.evidence(),
            decision: decoder.take_decision(),
        });
    }
    trace
}

fn log_of(trace: &Trace) -> String {
    let mut body: Vec<u8> = format!("{}\n", rotary_log::HEADER).into_bytes();
    for index in 0..trace.len() {
        rotary_log::row(&mut body, trace.sample(index).unwrap());
    }
    let hash = rotary_log::checksum(2166136261, &body);
    let body = String::from_utf8(body).unwrap();
    format!(
        "BEGIN,1,1,{},{},32768\n{}END,{},{:08x}\n",
        trace.len(),
        trace.dropped(),
        body,
        trace.len(),
        hash
    )
}

fn log() -> String {
    log_of(&trace())
}

/// The log with field `k` of its BEGIN line replaced by `v`.
fn with_begin(text: &str, k: usize, v: &str) -> String {
    let mut lines: Vec<String> = text.lines().map(str::to_owned).collect();
    let mut begin: Vec<String> = lines[0].split(',').map(str::to_owned).collect();
    begin[k] = v.to_owned();
    lines[0] = begin.join(",");
    lines.join("\n") + "\n"
}

fn end_line(lines: &[String]) -> String {
    let body = lines[1..lines.len() - 1].join("\n") + "\n";
    format!(
        "END,{},{:08x}",
        lines.len() - 3,
        rotary_log::checksum(2166136261, body.as_bytes())
    )
}

#[test]
fn exported_frozen_trace_replays_with_wrapped_prefix() {
    let text = log();
    let report = replay::validate(&text).unwrap();
    assert_eq!(report.final_source, "H");
    assert_eq!(report.final_output, 1);
    assert_eq!(report.count, 512);
    assert!(report.dropped > 0);
}

#[test]
fn damaged_truncated_and_reordered_logs_are_rejected() {
    let text = log();
    assert!(replay::validate(&text.replace("END,", "BROKEN,")).is_err());
    assert!(replay::validate(&text.replace(",H,1", ",H,-1")).is_err());
    let mut lines: Vec<_> = text.lines().map(str::to_owned).collect();
    lines.swap(2, 3);
    // Recompute transport checksum: replay must still reject reordered rows.
    let body = lines[1..lines.len() - 1].join("\n") + "\n";
    let end = lines.len() - 1;
    lines[end] = format!(
        "END,512,{:08x}",
        rotary_log::checksum(2166136261, body.as_bytes())
    );
    assert!(replay::validate(&(lines.join("\n") + "\n")).is_err());
    let mut forged = String::new();
    forged.push_str(text.trim_end_matches('\n'));
    // Missing final newline is harmless; content still complete.
    assert!(replay::validate(&forged).is_ok());
}

#[test]
fn replay_reports_counts_and_clears() {
    let trace = trace();
    let report = replay::validate(&log_of(&trace)).unwrap();
    assert_eq!(report.count, 512);
    assert_eq!(report.dropped, trace.dropped());
    let mut expected = [0usize; 3];
    for index in 0..trace.len() {
        let clears = trace.sample(index).unwrap().evidence.clears;
        for bit in 0..3 {
            expected[bit] += usize::from(clears & (1 << bit) != 0);
        }
    }
    assert_eq!(report.clear_counts, expected);
    // Both the A rise and the A fall were confirmed inside the kept window.
    assert_eq!(report.clear_counts[0], 2);
    assert_eq!(report.clear_counts[1], 0);
    assert!(report.clear_counts[2] > 0);
}

#[test]
fn crlf_line_endings_replay() {
    let text = log().replace('\n', "\r\n");
    // The checksum covers the lines without their line endings' carriage returns.
    assert!(replay::validate(&text).is_ok());
}

#[test]
fn each_framing_error_is_reported() {
    let text = log();
    assert_eq!(replay::validate("BEGIN,1,1,1,0,32768\n").unwrap_err(), ReplayError::IncompleteLog);
    assert_eq!(
        replay::validate(&with_begin(&text, 1, "2")).unwrap_err(),
        ReplayError::UnsupportedBegin
    );
    assert_eq!(
        replay::validate(&with_begin(&text, 5, "32000")).unwrap_err(),
        ReplayError::UnsupportedBegin
    );
    assert_eq!(
        replay::validate(&with_begin(&text, 3, "x12")).unwrap_err(),
        ReplayError::InvalidCount
    );
    assert_eq!(
        replay::validate(&with_begin(&text, 4, "-1")).unwrap_err(),
        ReplayError::InvalidDropped
    );
    assert_eq!(
        replay::validate(&with_begin(&text, 3, "0")).unwrap_err(),
        ReplayError::CountOrHeaderMismatch
    );
    assert_eq!(
        replay::validate(&text.replacen("n,ticks", "m,ticks", 1)).unwrap_err(),
        ReplayError::CountOrHeaderMismatch
    );
    assert_eq!(
        replay::validate(&text.replace("END,512,", "END,511,")).unwrap_err(),
        ReplayError::MissingEnd
    );
    let mut lines: Vec<String> = text.lines().map(str::to_owned).collect();
    let last = lines.len() - 1;
    lines[last] = "END,512,xyz".to_owned();
    assert_eq!(
        replay::validate(&(lines.join("\n") + "\n")).unwrap_err(),
        ReplayError::InvalidChecksum
    );
    lines[last] = "END,512,0".to_owned();
    assert_eq!(
        replay::validate(&(lines.join("\n") + "\n")).unwrap_err(),
        ReplayError::ChecksumMismatch
    );
}

#[test]
fn each_row_error_is_reported() {
    let text = log();
    let lines: Vec<String> = text.lines().map(str::to_owned).collect();
    let with_row = |row: String| {
        let mut l = lines.clone();
        l[2] = row;
        let last = l.len() - 1;
        l[last] = end_line(&l);
        replay::validate(&(l.join("\n") + "\n"))
    };
    let fields: Vec<String> = lines[2].split(',').map(str::to_owned).collect();
    let with_field = |k: usize, v: &str| {
        let mut f = fields.clone();
        f[k] = v.to_owned();
        with_row(f.join(","))
    };
    assert_eq!(with_row(lines[2].clone() + ",0").unwrap_err(), ReplayError::WrongColumnCount(0));
    assert_eq!(with_field(0, "x").unwrap_err(), ReplayError::BadSampleNumber);
    assert_eq!(with_field(1, "").unwrap_err(), ReplayError::BadTimestamp);
    assert_eq!(with_field(0, "1").unwrap_err(), ReplayError::SequenceGap(0));
    assert_eq!(with_field(12, "2").unwrap_err(), ReplayError::InvalidDirection);
    assert_eq!(with_field(4, "2").unwrap_err(), ReplayError::InvalidBool);
    assert_eq!(with_field(6, "256").unwrap_err(), ReplayError::InvalidNumber);
    assert_eq!(with_field(7, "4").unwrap_err(), ReplayError::InvalidState);
    assert_eq!(with_field(2, "t").unwrap_err(), ReplayError::InvalidA);
    assert_eq!(with_field(3, "t").unwrap_err(), ReplayError::InvalidB);
    assert_eq!(with_field(22, "1").unwrap_err(), ReplayError::ReplayMismatch(0));
}

#[test]
fn replay_overflow_is_reported_as_none() {
    // The expected number of the first row would not fit in u64.
    let text = with_begin(&log(), 4, "18446744073709551615");
    assert!(replay::replay(&text).is_none());
    assert!(replay::replay(&log()).unwrap().is_ok());
}
