use vstd::prelude::*;
use vstd::string::*;
use vstd::utf8::*;

use crate::hex::{hex_encode_bytes, hex_encoding, push_radix_digits, radix_digits};
use crate::packet::{frame_packet, framed, FinishedPacket};
use crate::text::{ascii_bytes, push_ascii};

verus! {

/// A command sent by the client.
#[derive(Clone)]
pub enum GdbCommand {
    Base(Base),
    Resume(Resume),
}

/// Commands that do not resume the target.
#[derive(Clone)]
pub enum Base {
    QuestionMark,
    D,
    LowerG,
    UpperG,
    H,
    K,
    LowerM { addr: u32, length: u32 },
    UpperM,
    QAttached,
    QfThreadInfo,
    QsThreadInfo,
    QSupported,
    T,
    VKill,
    QStartNoAckMode,
    QXferExecFile { offset: u32, length: u32 },
    QRcmd { command: String },
    Z0 { addr: u32 },
    Z0Remove { addr: u32 },
}

/// Commands that resume the target.
#[derive(Clone)]
pub enum Resume {
    Continue,
    Step,
    VCont,
}

/// A top-level packet sent by the client.
pub enum Packet {
    Ack,
    Command(GdbCommand),
}

pub open spec fn base_name(b: Base) -> Seq<char> {
    match b {
        Base::QuestionMark => "?"@,
        Base::D => "D"@,
        Base::LowerG => "g"@,
        Base::UpperG => "G"@,
        Base::H => "H"@,
        Base::K => "k"@,
        Base::LowerM { .. } => "m"@,
        Base::UpperM => "M"@,
        Base::QAttached => "qAttached"@,
        Base::QfThreadInfo => "qfThreadInfo"@,
        Base::QsThreadInfo => "qsThreadInfo"@,
        Base::QSupported => "qSupported"@,
        Base::T => "T"@,
        Base::VKill => "vKill"@,
        Base::QStartNoAckMode => "QStartNoAckMode"@,
        Base::QXferExecFile { .. } => "qXfer:exec-file:read"@,
        Base::QRcmd { .. } => "qRcmd"@,
        Base::Z0 { .. } => "Z0"@,
        Base::Z0Remove { .. } => "z0"@,
    }
}

pub open spec fn resume_name(r: Resume) -> Seq<char> {
    match r {
        Resume::Step => "s"@,
        Resume::Continue => "c"@,
        Resume::VCont => "vCont"@,
    }
}

/// The arguments that follow a command's name.
pub open spec fn base_args(b: Base) -> Seq<u8> {
    match b {
        Base::QSupported => ascii_bytes(":xmlRegisters=riscv"@),
        Base::LowerM { addr, length } => radix_digits(addr as nat, 16) + seq![44u8] + radix_digits(
            length as nat,
            16,
        ),
        Base::QXferExecFile { offset, length } => seq![58u8, 58u8] + radix_digits(offset as nat, 16)
            + seq![44u8] + radix_digits(length as nat, 16),
        Base::QRcmd { command } => seq![44u8] + hex_encoding(encode_utf8(command@)),
        Base::Z0 { addr } => seq![44u8] + radix_digits(addr as nat, 16) + seq![44u8, 52u8],
        Base::Z0Remove { addr } => seq![44u8] + radix_digits(addr as nat, 16) + seq![44u8, 52u8],
        _ => Seq::empty(),
    }
}

pub open spec fn base_content(b: Base) -> Seq<u8> {
    ascii_bytes(base_name(b)) + base_args(b)
}

pub open spec fn command_content(c: GdbCommand) -> Seq<u8> {
    match c {
        GdbCommand::Base(b) => base_content(b),
        GdbCommand::Resume(r) => ascii_bytes(resume_name(r)),
    }
}

/// The bytes a packet goes out as.
pub open spec fn packet_bytes(p: Packet) -> Seq<u8> {
    match p {
        Packet::Ack => seq![43u8],
        Packet::Command(c) => framed(command_content(c)),
    }
}

pub open spec fn spec_is_memory_read(p: Packet) -> bool {
    p matches Packet::Command(GdbCommand::Base(Base::LowerM { .. }))
}

pub open spec fn spec_is_register_read(p: Packet) -> bool {
    p matches Packet::Command(GdbCommand::Base(Base::LowerG))
}

pub open spec fn spec_is_monitor_command(p: Packet) -> bool {
    p matches Packet::Command(GdbCommand::Base(Base::QRcmd { .. }))
}

impl GdbCommand {
    pub fn to_command(&self) -> (r: FinishedPacket)
        ensures
            r.0@ == framed(command_content(*self)),
    {
        match self {
            Self::Base(base) => base.to_cmd(),
            Self::Resume(resume) => resume.to_cmd(),
        }
    }
}

impl Resume {
    fn base_str(&self) -> (r: &'static str)
        ensures
            r@ == resume_name(*self),
            is_ascii(r),
    {
        proof {
            reveal_strlit("s");
            reveal_strlit("c");
            reveal_strlit("vCont");
        }
        match self {
            Self::Step => "s",
            Self::Continue => "c",
            Self::VCont => "vCont",
        }
    }

    pub fn to_cmd(&self) -> (r: FinishedPacket)
        ensures
            r.0@ == framed(ascii_bytes(resume_name(*self))),
    {
        let mut content: Vec<u8> = Vec::new();
        push_ascii(&mut content, self.base_str());
        frame_packet(content.as_slice())
    }
}

impl Base {
    fn base_str(&self) -> (r: &'static str)
        ensures
            r@ == base_name(*self),
            is_ascii(r),
    {
        proof {
            reveal_strlit("?");
            reveal_strlit("D");
            reveal_strlit("g");
            reveal_strlit("G");
            reveal_strlit("H");
            reveal_strlit("k");
            reveal_strlit("m");
            reveal_strlit("M");
            reveal_strlit("qAttached");
            reveal_strlit("qfThreadInfo");
            reveal_strlit("qsThreadInfo");
            reveal_strlit("qSupported");
            reveal_strlit("T");
            reveal_strlit("vKill");
            reveal_strlit("QStartNoAckMode");
            reveal_strlit("qXfer:exec-file:read");
            reveal_strlit("qRcmd");
            reveal_strlit("Z0");
            reveal_strlit("z0");
        }
        match self {
            Self::QuestionMark => "?",
            Self::D => "D",
            Self::LowerG => "g",
            Self::UpperG => "G",
            Self::H => "H",
            Self::K => "k",
            Self::LowerM { .. } => "m",
            Self::UpperM => "M",
            Self::QsThreadInfo => "qsThreadInfo",
            Self::QfThreadInfo => "qfThreadInfo",
            Self::QSupported => "qSupported",
            Self::VKill => "vKill",
            Self::QStartNoAckMode => "QStartNoAckMode",
            Self::QAttached => "qAttached",
            Self::T => "T",
            Self::QXferExecFile { .. } => "qXfer:exec-file:read",
            Self::QRcmd { .. } => "qRcmd",
            Self::Z0 { .. } => "Z0",
            Self::Z0Remove { .. } => "z0",
        }
    }

    pub fn to_cmd(&self) -> (r: FinishedPacket)
        ensures
            r.0@ == framed(base_content(*self)),
    {
        let mut content: Vec<u8> = Vec::new();
        push_ascii(&mut content, self.base_str());
        let ghost name = content@;
        match self {
            Self::QSupported => {
                proof {
                    reveal_strlit(":xmlRegisters=riscv");
                }
                push_ascii(&mut content, ":xmlRegisters=riscv");
            },
            Self::LowerM { addr, length } => {
                push_radix_digits(&mut content, *addr as u64, 16);
                content.push(44);
                push_radix_digits(&mut content, *length as u64, 16);
            },
            Self::QXferExecFile { offset, length } => {
                content.push(58);
                content.push(58);
                push_radix_digits(&mut content, *offset as u64, 16);
                content.push(44);
                push_radix_digits(&mut content, *length as u64, 16);
            },
            Self::QRcmd { command } => {
                content.push(44);
                let hex = hex_encode_bytes(command.as_str().as_bytes());
                let mut i: usize = 0;
                let ghost before = content@;
                while i < hex.len()
                    invariant
                        i <= hex@.len(),
                        content@ =~= before + hex@.take(i as int),
                    decreases hex.len() - i,
                {
                    content.push(hex[i]);
                    i += 1;
                }
                assert(hex@.take(hex@.len() as int) =~= hex@);
            },
            Self::Z0 { addr } | Self::Z0Remove { addr } => {
                content.push(44);
                push_radix_digits(&mut content, *addr as u64, 16);
                content.push(44);
                content.push(52);
            },
            _ => {},
        }
        assert(content@ =~= base_content(*self));
        frame_packet(content.as_slice())
    }
}

impl Packet {
    fn ack() -> (r: FinishedPacket)
        ensures
            r.0@ == seq![43u8],
    {
        let mut v: Vec<u8> = Vec::new();
        v.push(43);
        FinishedPacket(v)
    }

    pub fn is_memory_read(&self) -> (r: bool)
        ensures
            r == spec_is_memory_read(*self),
    {
        match self {
            Self::Ack => false,
            Self::Command(GdbCommand::Base(Base::LowerM { .. })) => true,
            Self::Command(_) => false,
        }
    }

    pub fn is_register_read(&self) -> (r: bool)
        ensures
            r == spec_is_register_read(*self),
    {
        match self {
            Self::Ack => false,
            Self::Command(GdbCommand::Base(Base::LowerG)) => true,
            Self::Command(_) => false,
        }
    }

    pub fn is_monitor_command(&self) -> (r: bool)
        ensures
            r == spec_is_monitor_command(*self),
    {
        match self {
            Self::Ack => false,
            Self::Command(GdbCommand::Base(Base::QRcmd { .. })) => true,
            Self::Command(_) => false,
        }
    }

    /// The bytes to send for this packet.
    pub fn to_finished_packet(&self) -> (r: FinishedPacket)
        ensures
            r.0@ == packet_bytes(*self),
    {
        match self {
            Self::Ack => Packet::ack(),
            Self::Command(command) => command.to_command(),
        }
    }
}

impl Default for Packet {
    fn default() -> (r: Self)
        ensures
            r matches Packet::Ack,
    {
        Packet::Ack
    }
}

} // verus!
