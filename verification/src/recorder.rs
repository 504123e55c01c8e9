//! The traffic recording: one line of text per message, tab-separated, with
//! the bytes in hexadecimal.
use crate::schema::Direction;
use crate::text;
use crate::text::{decimal_text, hex_encode};
use vstd::prelude::*;

verus! {

/// Where to record to, as the command line decided it, once.
pub struct RecordPath {
    explicit: Option<Option<String>>,
}

impl View for RecordPath {
    type V = Option<Option<Seq<char>>>;

    closed spec fn view(&self) -> Option<Option<Seq<char>>> {
        match self.explicit {
            Some(path) => Some(text::text_opt(path)),
            None => None,
        }
    }
}

/// Where to record to: the command line wins over the environment.
pub open spec fn record_path(
    explicit: Option<Option<Seq<char>>>,
    environment: Option<Seq<char>>,
) -> Option<Seq<char>> {
    match explicit {
        Some(Some(path)) => Some(path),
        _ => environment,
    }
}

impl RecordPath {
    /// Nothing decided yet.
    pub fn new() -> (r: RecordPath)
        ensures
            r@ is None,
    {
        RecordPath { explicit: None }
    }

    /// Where to record to, given what the environment says.
    pub fn resolve(&self, environment: Option<String>) -> (r: Option<String>)
        ensures
            text::text_opt(r) == record_path(self@, text::text_opt(environment)),
    {
        match &self.explicit {
            Some(Some(path)) => Some(path.clone()),
            _ => environment,
        }
    }
}

/// Takes note of the command line's choice; `None` where it made none.  Only
/// the first call counts.
pub fn init(target: &mut RecordPath, explicit_path: Option<String>)
    ensures
        final(target)@ == (if old(target)@ is Some {
            old(target)@
        } else {
            Some(text::text_opt(explicit_path))
        }),
{
    if target.explicit.is_none() {
        target.explicit = Some(explicit_path);
    }
}

/// What a recording calls a direction.
pub open spec fn direction_name(direction: Direction) -> Seq<char> {
    match direction {
        Direction::ClientToHost => "ClientToHost"@,
        Direction::HostToClient => "HostToClient"@,
    }
}

/// A number in decimal, without padding.
pub open spec fn number(n: int) -> Seq<char> {
    text::zero_padded(text::decimal(n as nat), 0)
}

/// The line for one message: when, which way, what became of it, what it is,
/// from whom, and its bytes.
pub open spec fn line_text(
    secs: u64,
    micros: u32,
    direction: Direction,
    outcome: Seq<char>,
    interface: Seq<char>,
    method: Seq<char>,
    sender_id: u32,
    opcode: u16,
    fds: usize,
    bytes: Seq<u8>,
) -> Seq<char> {
    number(secs as int) + "."@ + text::zero_padded(text::decimal(micros as nat), 6) + "\t"@
        + direction_name(direction) + "\t"@ + outcome + "\t"@ + interface + "."@ + method
        + "\tsender="@ + number(sender_id as int) + "\topcode="@ + number(opcode as int) + "\tfds="@
        + number(fds as int) + "\tbytes="@ + text::hex(bytes)
}

/// The line for one message, without the line break; see [`line_text`].
pub fn record_line(
    secs: u64,
    micros: u32,
    direction: Direction,
    outcome: &str,
    interface: &str,
    method: &str,
    sender_id: u32,
    opcode: u16,
    fds: usize,
    bytes: &[u8],
) -> (r: String)
    ensures
        r@ == line_text(
            secs,
            micros,
            direction,
            outcome@,
            interface@,
            method@,
            sender_id,
            opcode,
            fds,
            bytes@,
        ),
{
    let mut line = decimal_text(secs, 0);
    line.append(".");
    line.append(decimal_text(micros as u64, 6).as_str());
    line.append("\t");
    match direction {
        Direction::ClientToHost => line.append("ClientToHost"),
        Direction::HostToClient => line.append("HostToClient"),
    }
    line.append("\t");
    line.append(outcome);
    line.append("\t");
    line.append(interface);
    line.append(".");
    line.append(method);
    line.append("\tsender=");
    line.append(decimal_text(sender_id as u64, 0).as_str());
    line.append("\topcode=");
    line.append(decimal_text(opcode as u64, 0).as_str());
    line.append("\tfds=");
    line.append(decimal_text(fds as u64, 0).as_str());
    line.append("\tbytes=");
    line.append(hex_encode(bytes).as_str());
    line
}

/// The command line's choice is final: what comes later, from there or from
/// the environment, does not change where is recorded.
pub proof fn lemma_explicit_path_wins(
    path: Seq<char>,
    environment: Option<Seq<char>>,
)
    ensures
        record_path(Some(Some(path)), environment) == Some(path),
        record_path(Some(None), environment) == environment,
        record_path(None, environment) == environment,
{
}

/// A recording says which way a message went, and the way is all that tells the
/// lines of the same message in both directions apart.
pub proof fn lemma_line_names_the_direction(
    secs: u64,
    micros: u32,
    outcome: Seq<char>,
    interface: Seq<char>,
    method: Seq<char>,
    sender_id: u32,
    opcode: u16,
    fds: usize,
    bytes: Seq<u8>,
)
    ensures
        exists|head: Seq<char>, tail: Seq<char>|
            #![trigger head + "\tClientToHost\t"@ + tail]
            line_text(
                secs,
                micros,
                Direction::ClientToHost,
                outcome,
                interface,
                method,
                sender_id,
                opcode,
                fds,
                bytes,
            ) == head + "\tClientToHost\t"@ + tail && line_text(
                secs,
                micros,
                Direction::HostToClient,
                outcome,
                interface,
                method,
                sender_id,
                opcode,
                fds,
                bytes,
            ) == head + "\tHostToClient\t"@ + tail,
{
    reveal_strlit("\t");
    reveal_strlit("ClientToHost");
    reveal_strlit("HostToClient");
    reveal_strlit("\tClientToHost\t");
    reveal_strlit("\tHostToClient\t");
    assert("\t"@ + "ClientToHost"@ + "\t"@ =~= "\tClientToHost\t"@);
    assert("\t"@ + "HostToClient"@ + "\t"@ =~= "\tHostToClient\t"@);
    let head = number(secs as int) + "."@ + text::zero_padded(text::decimal(micros as nat), 6);
    let tail = outcome + "\t"@ + interface + "."@ + method + "\tsender="@ + number(
        sender_id as int,
    ) + "\topcode="@ + number(opcode as int) + "\tfds="@ + number(fds as int) + "\tbytes="@
        + text::hex(bytes);
    let out = line_text(
        secs,
        micros,
        Direction::ClientToHost,
        outcome,
        interface,
        method,
        sender_id,
        opcode,
        fds,
        bytes,
    );
    let back = line_text(
        secs,
        micros,
        Direction::HostToClient,
        outcome,
        interface,
        method,
        sender_id,
        opcode,
        fds,
        bytes,
    );
    assert(out =~= head + "\tClientToHost\t"@ + tail);
    assert(back =~= head + "\tHostToClient\t"@ + tail);
}

} // verus!
