//! The diagnostic USB session: line commands (`INFO`, `ARM`, `NEXT`, `DUMP`) and the lines
//! of a log dump.
//!
//! Received bytes form commands of at most 32 bytes, ended by `\n` (a `\r` is ignored); a
//! longer or unknown command is answered with `ERR command`. `ARM` and `NEXT` arm the capture
//! and dump it as soon as it freezes; `DUMP` dumps a frozen capture now (`BUSY` otherwise).
use vstd::prelude::*;
use vstd::string::StringSliceAdditionalSpecFns;
use crate::log_text::{CARRIAGE_RETURN, NEWLINE};
use crate::rotary_log::{decimal, push_decimal, HEADER};
use crate::rotary_trace::Trigger;

verus! {

/// Longest command, in bytes.
pub const COMMAND_CAPACITY: usize = 32;
/// USB packet size of the diagnostic port.
pub const PACKET_SIZE: usize = 64;

#[derive(Clone, Copy, Debug, PartialEq, Eq, Structural)]
pub enum Command {
    Info,
    Arm,
    Next,
    Dump,
    /// Unknown, or longer than [`COMMAND_CAPACITY`].
    Invalid,
}

/// The command a complete line names.
pub open spec fn command_of(text: Seq<u8>) -> Command {
    if text == seq![0x49u8, 0x4eu8, 0x46u8, 0x4fu8] {
        Command::Info
    } else if text == seq![0x41u8, 0x52u8, 0x4du8] {
        Command::Arm
    } else if text == seq![0x4eu8, 0x45u8, 0x58u8, 0x54u8] {
        Command::Next
    } else if text == seq![0x44u8, 0x55u8, 0x4du8, 0x50u8] {
        Command::Dump
    } else {
        Command::Invalid
    }
}

/// Assembles received bytes into commands.
pub struct CommandReader {
    command: Vec<u8>,
    overflow: bool,
}

impl CommandReader {
    /// The bytes of the current line so far (up to the capacity).
    pub closed spec fn buffered(&self) -> Seq<u8> {
        self.command@
    }

    /// Whether the current line exceeded the capacity.
    pub closed spec fn overflowed(&self) -> bool {
        self.overflow
    }

    pub closed spec fn wf(&self) -> bool {
        self.command@.len() <= COMMAND_CAPACITY
    }

    pub fn new() -> (r: Self)
        ensures
            r.wf(),
            r.buffered() == Seq::<u8>::empty(),
            !r.overflowed(),
    {
        CommandReader { command: Vec::new(), overflow: false }
    }

    /// Takes one received byte; the `\n` that ends a line yields its command.
    pub fn push(&mut self, byte: u8) -> (r: Option<Command>)
        requires
            old(self).wf(),
        ensures
            final(self).wf(),
            byte == CARRIAGE_RETURN ==> r is None && final(self).buffered() == old(self).buffered()
                && final(self).overflowed() == old(self).overflowed(),
            byte != CARRIAGE_RETURN && byte != NEWLINE ==> {
                &&& r is None
                &&& old(self).buffered().len() < COMMAND_CAPACITY ==> final(self).buffered() == old(
                    self,
                ).buffered().push(byte) && final(self).overflowed() == old(self).overflowed()
                &&& old(self).buffered().len() >= COMMAND_CAPACITY ==> final(self).buffered() == old(
                    self,
                ).buffered() && final(self).overflowed()
            },
            byte == NEWLINE ==> {
                &&& r == Some(
                    if old(self).overflowed() {
                        Command::Invalid
                    } else {
                        command_of(old(self).buffered())
                    },
                )
                &&& final(self).buffered() == Seq::<u8>::empty()
                &&& !final(self).overflowed()
            },
    {
        if byte == CARRIAGE_RETURN {
            return None;
        }
        if byte != NEWLINE {
            if self.command.len() < COMMAND_CAPACITY {
                self.command.push(byte);
            } else {
                self.overflow = true;
            }
            return None;
        }
        let command = if self.overflow {
            Command::Invalid
        } else {
            parse_command(&self.command)
        };
        self.command = Vec::new();
        self.overflow = false;
        Some(command)
    }
}

fn parse_command(text: &Vec<u8>) -> (r: Command)
    ensures
        r == command_of(text@),
{
    let n = text.len();
    if n == 4 && text[0] == 0x49 && text[1] == 0x4e && text[2] == 0x46 && text[3] == 0x4f {
        proof {
            assert(text@ =~= seq![0x49u8, 0x4eu8, 0x46u8, 0x4fu8]);
        }
        Command::Info
    } else if n == 3 && text[0] == 0x41 && text[1] == 0x52 && text[2] == 0x4d {
        proof {
            assert(text@ =~= seq![0x41u8, 0x52u8, 0x4du8]);
        }
        Command::Arm
    } else if n == 4 && text[0] == 0x4e && text[1] == 0x45 && text[2] == 0x58 && text[3] == 0x54 {
        proof {
            assert(text@ =~= seq![0x4eu8, 0x45u8, 0x58u8, 0x54u8]);
        }
        Command::Next
    } else if n == 4 && text[0] == 0x44 && text[1] == 0x55 && text[2] == 0x4d && text[3] == 0x50 {
        proof {
            assert(text@ =~= seq![0x44u8, 0x55u8, 0x4du8, 0x50u8]);
        }
        Command::Dump
    } else {
        proof {
            if n == 4 {
                assert(text@ != seq![0x49u8, 0x4eu8, 0x46u8, 0x4fu8] || text@[0] == 0x49u8);
            }
            lemma_not_a_command(text@);
        }
        Command::Invalid
    }
}

proof fn lemma_not_a_command(text: Seq<u8>)
    requires
        !(text.len() == 4 && text[0] == 0x49 && text[1] == 0x4e && text[2] == 0x46 && text[3] == 0x4f),
        !(text.len() == 3 && text[0] == 0x41 && text[1] == 0x52 && text[2] == 0x4d),
        !(text.len() == 4 && text[0] == 0x4e && text[1] == 0x45 && text[2] == 0x58 && text[3] == 0x54),
        !(text.len() == 4 && text[0] == 0x44 && text[1] == 0x55 && text[2] == 0x4d && text[3] == 0x50),
    ensures
        command_of(text) == Command::Invalid,
{
    if text == seq![0x49u8, 0x4eu8, 0x46u8, 0x4fu8] {
        assert(text[0] == 0x49u8 && text[1] == 0x4eu8 && text[2] == 0x46u8 && text[3] == 0x4fu8);
    }
    if text == seq![0x41u8, 0x52u8, 0x4du8] {
        assert(text[0] == 0x41u8 && text[1] == 0x52u8 && text[2] == 0x4du8);
    }
    if text == seq![0x4eu8, 0x45u8, 0x58u8, 0x54u8] {
        assert(text[0] == 0x4eu8 && text[1] == 0x45u8 && text[2] == 0x58u8 && text[3] == 0x54u8);
    }
    if text == seq![0x44u8, 0x55u8, 0x4du8, 0x50u8] {
        assert(text[0] == 0x44u8 && text[1] == 0x55u8 && text[2] == 0x4du8 && text[3] == 0x50u8);
    }
}

/// A fixed answer of the session.
#[derive(Clone, Copy, Debug, PartialEq, Eq, Structural)]
pub enum Reply {
    /// `DUMP` while the capture is not frozen.
    Busy,
    /// `INFO`: protocol version and whether a capture is frozen.
    Info(bool),
    Armed,
    CommandError,
}

/// The text of a reply.
pub fn reply_text(reply: Reply) -> (r: &'static str)
    ensures
        r@ == match reply {
            Reply::Busy => "BUSY\n"@,
            Reply::Info(true) => "REEL_ROTARY_V1,FROZEN\n"@,
            Reply::Info(false) => "REEL_ROTARY_V1,READY\n"@,
            Reply::Armed => "ARMED\n"@,
            Reply::CommandError => "ERR command\n"@,
        },
{
    match reply {
        Reply::Busy => "BUSY\n",
        Reply::Info(true) => "REEL_ROTARY_V1,FROZEN\n",
        Reply::Info(false) => "REEL_ROTARY_V1,READY\n",
        Reply::Armed => "ARMED\n",
        Reply::CommandError => "ERR command\n",
    }
}

/// What to do for a command, in this order: arm the capture, send the reply, dump.
#[derive(Clone, Copy, Debug, PartialEq, Eq, Structural)]
pub struct SessionAction {
    pub arm: Option<Trigger>,
    pub reply: Option<Reply>,
    pub dump: bool,
}

/// A session: whether an armed capture is to be dumped once it freezes.
pub struct Session {
    pub pending: bool,
}

impl Session {
    pub fn new() -> (r: Self)
        ensures
            !r.pending,
    {
        Session { pending: false }
    }

    /// A received command, with whether the capture is frozen now.
    pub fn on_command(&mut self, command: Command, frozen: bool) -> (r: SessionAction)
        ensures
            r == match command {
                Command::Info => SessionAction { arm: None, reply: Some(Reply::Info(frozen)), dump: false },
                Command::Arm => SessionAction { arm: Some(Trigger::Ambiguous), reply: Some(Reply::Armed), dump: false },
                Command::Next => SessionAction {
                    arm: Some(Trigger::NextConfirmation),
                    reply: Some(Reply::Armed),
                    dump: false,
                },
                Command::Dump => SessionAction { arm: None, reply: None, dump: true },
                Command::Invalid => SessionAction { arm: None, reply: Some(Reply::CommandError), dump: false },
            },
            final(self).pending == match command {
                Command::Arm | Command::Next => true,
                Command::Dump => false,
                _ => old(self).pending,
            },
    {
        match command {
            Command::Info => SessionAction { arm: None, reply: Some(Reply::Info(frozen)), dump: false },
            Command::Arm => {
                self.pending = true;
                SessionAction { arm: Some(Trigger::Ambiguous), reply: Some(Reply::Armed), dump: false }
            },
            Command::Next => {
                self.pending = true;
                SessionAction { arm: Some(Trigger::NextConfirmation), reply: Some(Reply::Armed), dump: false }
            },
            Command::Dump => {
                self.pending = false;
                SessionAction { arm: None, reply: None, dump: true }
            },
            Command::Invalid => SessionAction { arm: None, reply: Some(Reply::CommandError), dump: false },
        }
    }

    /// Between packets: whether an armed capture froze and is to be dumped now.
    pub fn on_idle(&mut self, frozen: bool) -> (r: bool)
        ensures
            r == (old(self).pending && frozen),
            final(self).pending == (old(self).pending && !frozen),
    {
        if self.pending && frozen {
            self.pending = false;
            true
        } else {
            false
        }
    }
}

/// The byte ranges of the USB packets of a `len`-byte message, in order: 64-byte chunks, and
/// an empty packet after a message that fills its last packet (or is empty), so that the host
/// sees where it ends.
pub fn packets(len: usize) -> (r: Vec<(usize, usize)>)
    ensures
        r@.len() == len / 64 + 1,
        forall|i: int| 0 <= i < r@.len() ==> #[trigger] r@[i] == (
            (i * 64) as usize,
            if (i + 1) * 64 <= len { ((i + 1) * 64) as usize } else { len },
        ),
{
    let count = len / 64 + 1;
    let mut r: Vec<(usize, usize)> = Vec::new();
    let mut i: usize = 0;
    while i < count
        invariant
            count == len / 64 + 1,
            i <= count,
            r@.len() == i,
            forall|j: int| 0 <= j < r@.len() ==> #[trigger] r@[j] == (
                (j * 64) as usize,
                if (j + 1) * 64 <= len { ((j + 1) * 64) as usize } else { len },
            ),
        decreases count - i,
    {
        proof {
            assert(i * 64 <= len) by (nonlinear_arith)
                requires
                    i <= len / 64;
        }
        let start = i * 64;
        let end = if len - start >= 64 { start + 64 } else { len };
        r.push((start, end));
        i = i + 1;
    }
    r
}

/// Lowercase hexadecimal digit of `d < 16`.
pub open spec fn hex_digit(d: nat) -> u8 {
    if d < 10 {
        (0x30 + d) as u8
    } else {
        (0x61 + d - 10) as u8
    }
}

/// The last `n` hexadecimal digits of `v`, most significant first.
pub open spec fn hex_digits(v: nat, n: nat) -> Seq<u8>
    decreases n,
{
    if n == 0 {
        seq![]
    } else {
        hex_digits(v / 16, (n - 1) as nat).push(hex_digit(v % 16))
    }
}

fn push_hex(out: &mut Vec<u8>, v: u32, n: u32)
    requires
        n <= 8,
    ensures
        final(out)@ == old(out)@ + hex_digits(v as nat, n as nat),
    decreases n,
{
    if n == 0 {
        proof {
            assert(old(out)@ + hex_digits(v as nat, 0) =~= old(out)@);
        }
        return;
    }
    push_hex(out, v / 16, n - 1);
    let d = v % 16;
    let digit = if d < 10 { 0x30 + d as u8 } else { 0x61 + (d as u8 - 10) };
    out.push(digit);
    proof {
        assert(old(out)@ + hex_digits(v as nat, n as nat) =~= (old(out)@ + hex_digits((v / 16) as nat, (n - 1) as nat)).push(
            hex_digit((v % 16) as nat),
        ));
    }
}

/// `BEGIN,1,<generation>,<count>,<dropped>,32768` and a newline.
pub open spec fn begin_line_spec(generation: u32, count: usize, dropped: u64) -> Seq<u8> {
    seq![0x42u8, 0x45u8, 0x47u8, 0x49u8, 0x4eu8, 0x2cu8, 0x31u8, 0x2cu8] + decimal(generation as nat) + seq![0x2cu8]
        + decimal(count as nat) + seq![0x2cu8] + decimal(dropped as nat) + seq![
        0x2cu8,
        0x33u8,
        0x32u8,
        0x37u8,
        0x36u8,
        0x38u8,
        0x0au8,
    ]
}

/// `END,<count>,<checksum as 8 lowercase hex digits>` and a newline.
pub open spec fn end_line_spec(count: usize, hash: u32) -> Seq<u8> {
    seq![0x45u8, 0x4eu8, 0x44u8, 0x2cu8] + decimal(count as nat) + seq![0x2cu8] + hex_digits(hash as nat, 8) + seq![
        0x0au8,
    ]
}

fn push_all(out: &mut Vec<u8>, bytes: &[u8])
    ensures
        final(out)@ == old(out)@ + bytes@,
{
    let mut i: usize = 0;
    while i < bytes.len()
        invariant
            i <= bytes@.len(),
            out@ == old(out)@ + bytes@.subrange(0, i as int),
        decreases bytes@.len() - i,
    {
        out.push(bytes[i]);
        proof {
            assert(out@ =~= old(out)@ + bytes@.subrange(0, i + 1));
        }
        i = i + 1;
    }
    proof {
        assert(bytes@.subrange(0, bytes@.len() as int) =~= bytes@);
    }
}

/// The first line of a dump.
pub fn begin_line(generation: u32, count: usize, dropped: u64) -> (r: Vec<u8>)
    ensures
        r@ == begin_line_spec(generation, count, dropped),
{
    let prefix: [u8; 8] = [0x42, 0x45, 0x47, 0x49, 0x4e, 0x2c, 0x31, 0x2c];
    let suffix: [u8; 7] = [0x2c, 0x33, 0x32, 0x37, 0x36, 0x38, 0x0a];
    let comma: [u8; 1] = [0x2c];
    let mut r: Vec<u8> = Vec::new();
    push_all(&mut r, &prefix);
    push_decimal(&mut r, generation as u64);
    push_all(&mut r, &comma);
    push_decimal(&mut r, count as u64);
    push_all(&mut r, &comma);
    push_decimal(&mut r, dropped);
    push_all(&mut r, &suffix);
    proof {
        assert(prefix@ =~= seq![0x42u8, 0x45u8, 0x47u8, 0x49u8, 0x4eu8, 0x2cu8, 0x31u8, 0x2cu8]);
        assert(suffix@ =~= seq![0x2cu8, 0x33u8, 0x32u8, 0x37u8, 0x36u8, 0x38u8, 0x0au8]);
        assert(comma@ =~= seq![0x2cu8]);
        assert(r@ =~= begin_line_spec(generation, count, dropped));
    }
    r
}

/// The column header line of a dump.
pub fn header_line() -> (r: Vec<u8>)
    ensures
        r@ == HEADER.spec_bytes() + seq![NEWLINE],
{
    let mut r: Vec<u8> = Vec::new();
    push_all(&mut r, HEADER.as_bytes());
    r.push(NEWLINE);
    proof {
        assert(r@ =~= HEADER.spec_bytes() + seq![NEWLINE]);
    }
    r
}

/// The last line of a dump, with the checksum of the header and the rows.
pub fn end_line(count: usize, hash: u32) -> (r: Vec<u8>)
    ensures
        r@ == end_line_spec(count, hash),
{
    let prefix: [u8; 4] = [0x45, 0x4e, 0x44, 0x2c];
    let comma: [u8; 1] = [0x2c];
    let mut r: Vec<u8> = Vec::new();
    push_all(&mut r, &prefix);
    push_decimal(&mut r, count as u64);
    push_all(&mut r, &comma);
    push_hex(&mut r, hash, 8);
    r.push(0x0a);
    proof {
        assert(prefix@ =~= seq![0x45u8, 0x4eu8, 0x44u8, 0x2cu8]);
        assert(comma@ =~= seq![0x2cu8]);
        assert(r@ =~= end_line_spec(count, hash));
    }
    r
}

} // verus!
