use vstd::prelude::*;
use vstd::string::*;
use vstd::utf8::*;

use crate::commands::{Base, GdbCommand, Packet};
use crate::elf::PC;
use crate::hex::{parse_unsigned, unsigned_text_ok, unsigned_text_value};
use crate::response::GdbResponse;
use crate::text::{ascii_bytes, ascii_of, is_utf8, lossy_text, occurs_at, text_from_bytes, trim_text, trimmed};

verus! {

/// Why a reply was not what the client asked for.
#[derive(Debug, Clone, Copy, PartialEq, Eq, Structural)]
pub enum ClientError {
    /// The reply is of another kind than the command calls for.
    UnexpectedResponse,
    /// `qSupported` did not announce a packet size.
    MissingPacketSize,
    /// Register data too short to hold the PC.
    ShortRegisterData,
    /// Register data of the wrong size for RV32.
    BadRegisterData,
    /// A path that is not UTF-8.
    InvalidUtf8,
    /// A time index that is no number.
    BadNumber,
}

/// Where the session handshake stands.
#[derive(Debug, Clone, Copy, PartialEq, Eq, Structural)]
pub enum InitStep {
    /// `QStartNoAckMode` is to be sent.
    NoAckMode,
    /// The stub acked `QStartNoAckMode`; its `OK` is still to be read.
    NoAckModeOk,
    QSupported,
    QfThreadInfo,
    QsThreadInfo,
    QuestionMark,
    Registers,
    Done,
}

/// Byte `i` of little-endian data read as a `u32` from `i` to `i + 3`.
pub open spec fn le_u32(d: Seq<u8>, i: int) -> u32 {
    (d[i] + d[i + 1] * 256 + d[i + 2] * 65536 + d[i + 3] * 16777216) as u32
}

pub open spec fn announces_packet_size(features: Seq<String>) -> bool {
    exists|i: int|
        0 <= i < features.len() && occurs_at(
            encode_utf8(#[trigger] features[i]@),
            ascii_bytes("PacketSize="@),
            0,
        )
}

/// What the handshake does after reply `r` at step `s`.
pub open spec fn init_transition(s: InitStep, r: GdbResponse) -> Result<InitStep, ClientError> {
    match s {
        InitStep::NoAckMode => match r {
            GdbResponse::Ack => Ok(InitStep::NoAckModeOk),
            GdbResponse::Okay => Ok(InitStep::QSupported),
            _ => Err(ClientError::UnexpectedResponse),
        },
        InitStep::NoAckModeOk => match r {
            GdbResponse::Okay => Ok(InitStep::QSupported),
            _ => Err(ClientError::UnexpectedResponse),
        },
        InitStep::QSupported => match r {
            GdbResponse::Supported { features } => if announces_packet_size(features@) {
                Ok(InitStep::QfThreadInfo)
            } else {
                Err(ClientError::MissingPacketSize)
            },
            _ => Err(ClientError::UnexpectedResponse),
        },
        InitStep::QfThreadInfo => match r {
            GdbResponse::ThreadInfo { .. } => Ok(InitStep::QsThreadInfo),
            _ => Err(ClientError::UnexpectedResponse),
        },
        InitStep::QsThreadInfo => match r {
            GdbResponse::ThreadInfo { .. } => Ok(InitStep::QuestionMark),
            _ => Err(ClientError::UnexpectedResponse),
        },
        InitStep::QuestionMark => match r {
            GdbResponse::StopReply { .. } => Ok(InitStep::Registers),
            _ => Err(ClientError::UnexpectedResponse),
        },
        InitStep::Registers => match r {
            GdbResponse::RegisterData { data } => if data@.len() >= 132 && data@.len() % 4 == 0 {
                Ok(InitStep::Done)
            } else {
                Err(ClientError::BadRegisterData)
            },
            _ => Err(ClientError::UnexpectedResponse),
        },
        InitStep::Done => Ok(InitStep::Done),
    }
}

pub open spec fn init_command(s: InitStep) -> Option<Base> {
    match s {
        InitStep::NoAckMode => Some(Base::QStartNoAckMode),
        InitStep::QSupported => Some(Base::QSupported),
        InitStep::QfThreadInfo => Some(Base::QfThreadInfo),
        InitStep::QsThreadInfo => Some(Base::QsThreadInfo),
        InitStep::QuestionMark => Some(Base::QuestionMark),
        InitStep::Registers => Some(Base::LowerG),
        _ => None,
    }
}

impl InitStep {
    /// The command to send at this step; `None` when a reply is to be read
    /// without sending anything, or the handshake is done.
    pub fn command(&self) -> (r: Option<Packet>)
        ensures
            match init_command(*self) {
                Some(b) => r == Some(Packet::Command(GdbCommand::Base(b))),
                None => r is None,
            },
    {
        match self {
            InitStep::NoAckMode => Some(Packet::Command(GdbCommand::Base(Base::QStartNoAckMode))),
            InitStep::QSupported => Some(Packet::Command(GdbCommand::Base(Base::QSupported))),
            InitStep::QfThreadInfo => Some(Packet::Command(GdbCommand::Base(Base::QfThreadInfo))),
            InitStep::QsThreadInfo => Some(Packet::Command(GdbCommand::Base(Base::QsThreadInfo))),
            InitStep::QuestionMark => Some(Packet::Command(GdbCommand::Base(Base::QuestionMark))),
            InitStep::Registers => Some(Packet::Command(GdbCommand::Base(Base::LowerG))),
            _ => None,
        }
    }

    /// Checks a reply of the session handshake and names the next step:
    /// `QStartNoAckMode` wants `OK` (perhaps after an ack), `qSupported` a
    /// feature list with `PacketSize=`, the thread queries thread lists, `?` a
    /// stop reply, and `g` at least 132 bytes in whole registers.
    pub fn next(&self, reply: &GdbResponse) -> (r: Result<InitStep, ClientError>)
        ensures
            r == init_transition(*self, *reply),
    {
        match self {
            InitStep::NoAckMode => match reply {
                GdbResponse::Ack => Ok(InitStep::NoAckModeOk),
                GdbResponse::Okay => Ok(InitStep::QSupported),
                _ => Err(ClientError::UnexpectedResponse),
            },
            InitStep::NoAckModeOk => match reply {
                GdbResponse::Okay => Ok(InitStep::QSupported),
                _ => Err(ClientError::UnexpectedResponse),
            },
            InitStep::QSupported => match reply {
                GdbResponse::Supported { features } => {
                    if has_packet_size(features) {
                        Ok(InitStep::QfThreadInfo)
                    } else {
                        Err(ClientError::MissingPacketSize)
                    }
                },
                _ => Err(ClientError::UnexpectedResponse),
            },
            InitStep::QfThreadInfo => match reply {
                GdbResponse::ThreadInfo { .. } => Ok(InitStep::QsThreadInfo),
                _ => Err(ClientError::UnexpectedResponse),
            },
            InitStep::QsThreadInfo => match reply {
                GdbResponse::ThreadInfo { .. } => Ok(InitStep::QuestionMark),
                _ => Err(ClientError::UnexpectedResponse),
            },
            InitStep::QuestionMark => match reply {
                GdbResponse::StopReply { .. } => Ok(InitStep::Registers),
                _ => Err(ClientError::UnexpectedResponse),
            },
            InitStep::Registers => match reply {
                GdbResponse::RegisterData { data } => {
                    if data.len() >= 132 && data.len() % 4 == 0 {
                        Ok(InitStep::Done)
                    } else {
                        Err(ClientError::BadRegisterData)
                    }
                },
                _ => Err(ClientError::UnexpectedResponse),
            },
            InitStep::Done => Ok(InitStep::Done),
        }
    }
}

fn starts_with_bytes(s: &[u8], t: &[u8]) -> (r: bool)
    ensures
        r == occurs_at(s@, t@, 0),
{
    if t.len() > s.len() {
        return false;
    }
    let mut i: usize = 0;
    while i < t.len()
        invariant
            i <= t@.len(),
            t@.len() <= s@.len(),
            forall|k: int| 0 <= k < i ==> s@[k] == t@[k],
        decreases t.len() - i,
    {
        if s[i] != t[i] {
            return false;
        }
        i += 1;
    }
    assert(s@.subrange(0, t@.len() as int) =~= t@);
    true
}

fn has_packet_size(features: &Vec<String>) -> (r: bool)
    ensures
        r == announces_packet_size(features@),
{
    proof {
        reveal_strlit("PacketSize=");
    }
    let key = ascii_of("PacketSize=");
    let mut i: usize = 0;
    while i < features.len()
        invariant
            i <= features@.len(),
            key@ == ascii_bytes("PacketSize="@),
            forall|k: int|
                0 <= k < i ==> !occurs_at(encode_utf8(#[trigger] features@[k]@), key@, 0),
        decreases features.len() - i,
    {
        if starts_with_bytes(features[i].as_str().as_bytes(), key) {
            return true;
        }
        i += 1;
    }
    false
}

/// The PC out of a `g` reply: the little-endian word after `x0`..`x31`.
pub fn pc_from_registers(reply: &GdbResponse) -> (r: Result<PC, ClientError>)
    ensures
        match *reply {
            GdbResponse::RegisterData { data } => if data@.len() < 132 {
                r == Err::<PC, ClientError>(ClientError::ShortRegisterData)
            } else {
                r == Ok::<PC, ClientError>(PC::_32(le_u32(data@, 128)))
            },
            _ => r == Err::<PC, ClientError>(ClientError::UnexpectedResponse),
        },
{
    match reply {
        GdbResponse::RegisterData { data } => {
            if data.len() < 132 {
                return Err(ClientError::ShortRegisterData);
            }
            let pc = data[128] as u32 + data[129] as u32 * 256 + data[130] as u32 * 65536
                + data[131] as u32 * 16777216;
            Ok(PC::_32(pc))
        },
        _ => Err(ClientError::UnexpectedResponse),
    }
}

/// The executable's path out of a `qXfer:exec-file:read` reply.
pub fn exec_path_from(reply: &GdbResponse) -> (r: Result<String, ClientError>)
    ensures
        match *reply {
            GdbResponse::QXferData { data, .. } => if valid_utf8(data@) {
                r matches Ok(s) && s@ == lossy_text(data@)
            } else {
                r == Err::<String, ClientError>(ClientError::InvalidUtf8)
            },
            _ => r == Err::<String, ClientError>(ClientError::UnexpectedResponse),
        },
{
    match reply {
        GdbResponse::QXferData { data, .. } => {
            if is_utf8(data.as_slice()) {
                Ok(text_from_bytes(data.as_slice()))
            } else {
                Err(ClientError::InvalidUtf8)
            }
        },
        _ => Err(ClientError::UnexpectedResponse),
    }
}

/// The console text of a monitor reply.
pub fn monitor_output_from(reply: GdbResponse) -> (r: Result<String, ClientError>)
    ensures
        match reply {
            GdbResponse::MonitorOutput { output } => r == Ok::<String, ClientError>(output),
            _ => r == Err::<String, ClientError>(ClientError::UnexpectedResponse),
        },
{
    match reply {
        GdbResponse::MonitorOutput { output } => Ok(output),
        _ => Err(ClientError::UnexpectedResponse),
    }
}

/// The time index that `monitor time_idx` printed.
pub fn time_idx_from(output: &str) -> (r: Result<u64, ClientError>)
    ensures
        ({
            let b = encode_utf8(trimmed(output@));
            if unsigned_text_ok(b, 10, u64::MAX as nat) {
                r == Ok::<u64, ClientError>(unsigned_text_value(b, 10) as u64)
            } else {
                r == Err::<u64, ClientError>(ClientError::BadNumber)
            }
        }),
{
    let t = trim_text(output);
    match parse_unsigned(t.as_bytes(), 10) {
        Some(v) => Ok(v),
        None => Err(ClientError::BadNumber),
    }
}

/// A `Z0`/`z0` reply: `OK` is success.
pub fn breakpoint_reply(reply: &GdbResponse) -> (r: Result<(), ClientError>)
    ensures
        (r is Ok) == (*reply == GdbResponse::Okay),
        r matches Err(e) ==> e == ClientError::UnexpectedResponse,
{
    match reply {
        GdbResponse::Okay => Ok(()),
        _ => Err(ClientError::UnexpectedResponse),
    }
}

} // verus!
