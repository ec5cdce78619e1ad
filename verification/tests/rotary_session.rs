use rmk_config_reel::rotary_log;
use rmk_config_reel::rotary_session::{
    begin_line, end_line, header_line, packets, reply_text, Command, CommandReader, Reply, Session,
    SessionAction,
};
use rmk_config_reel::rotary_trace::Trigger;

fn commands(bytes: &[u8]) -> Vec<Command> {
    let mut reader = CommandReader::new();
    bytes.iter().filter_map(|b| reader.push(*b)).collect()
}

#[test]
fn lines_become_commands() {
    assert_eq!(
        commands(b"INFO\nARM\r\nNEXT\nDUMP\nHELP\n\n"),
        [
            Command::Info,
            Command::Arm,
            Command::Next,
            Command::Dump,
            Command::Invalid,
            Command::Invalid
        ]
    );
    // Nothing is decided before the line ends.
    assert!(commands(b"INFO").is_empty());
    assert_eq!(commands(b"info\n"), [Command::Invalid]);
}

#[test]
fn overlong_command_is_rejected_and_reader_recovers() {
    let mut long = vec![b'A'; 40];
    long.push(b'\n');
    long.extend_from_slice(b"INFO\n");
    assert_eq!(commands(&long), [Command::Invalid, Command::Info]);
    // Exactly the capacity is still a command (and unknown here).
    let mut exact = vec![b'A'; 32];
    exact.push(b'\n');
    assert_eq!(commands(&exact), [Command::Invalid]);
}

#[test]
fn arm_dumps_once_the_capture_freezes() {
    let mut session = Session::new();
    assert_eq!(
        session.on_command(Command::Arm, false),
        SessionAction { arm: Some(Trigger::Ambiguous), reply: Some(Reply::Armed), dump: false }
    );
    assert!(!session.on_idle(false));
    assert!(session.on_idle(true));
    assert!(!session.on_idle(true));
    assert_eq!(
        session.on_command(Command::Next, false).arm,
        Some(Trigger::NextConfirmation)
    );
    // An explicit dump cancels the pending one.
    assert!(session.on_command(Command::Dump, true).dump);
    assert!(!session.on_idle(true));
}

#[test]
fn replies_have_their_protocol_text() {
    let mut session = Session::new();
    let info = session.on_command(Command::Info, true).reply.unwrap();
    assert_eq!(reply_text(info), "REEL_ROTARY_V1,FROZEN\n");
    assert_eq!(reply_text(Reply::Info(false)), "REEL_ROTARY_V1,READY\n");
    assert_eq!(reply_text(Reply::Busy), "BUSY\n");
    assert_eq!(reply_text(Reply::Armed), "ARMED\n");
    let error = session.on_command(Command::Invalid, true).reply.unwrap();
    assert_eq!(reply_text(error), "ERR command\n");
}

#[test]
fn dump_lines_have_their_protocol_text() {
    assert_eq!(begin_line(3, 512, 188), b"BEGIN,1,3,512,188,32768\n");
    assert_eq!(end_line(512, 0x0000_beef), b"END,512,0000beef\n");
    assert_eq!(end_line(1, 0xdead_beef), b"END,1,deadbeef\n");
    assert_eq!(header_line(), format!("{}\n", rotary_log::HEADER).into_bytes());
}

#[test]
fn packets_end_with_a_short_or_empty_packet() {
    assert_eq!(packets(0), [(0, 0)]);
    assert_eq!(packets(10), [(0, 10)]);
    assert_eq!(packets(64), [(0, 64), (64, 64)]);
    assert_eq!(packets(130), [(0, 64), (64, 128), (128, 130)]);
}
