use dang::commands::{Base, GdbCommand, Packet, Resume};
use dang::packet::{frame_packet, PacketCursor};

fn bytes_of(p: &Packet) -> Vec<u8> {
    p.to_finished_packet().0
}

#[test]
fn resume_commands_are_framed() {
    assert_eq!(bytes_of(&Packet::Command(GdbCommand::Resume(Resume::Step))), b"$s#73");
    assert_eq!(bytes_of(&Packet::Command(GdbCommand::Resume(Resume::Continue))), b"$c#63");
    assert_eq!(bytes_of(&Packet::Command(GdbCommand::Resume(Resume::VCont))), b"$vCont#0a");
}

#[test]
fn base_commands_are_framed() {
    assert_eq!(bytes_of(&Packet::Command(GdbCommand::Base(Base::LowerG))), b"$g#67");
    assert_eq!(bytes_of(&Packet::Command(GdbCommand::Base(Base::QuestionMark))), b"$?#3f");
    assert_eq!(
        bytes_of(&Packet::Command(GdbCommand::Base(Base::QStartNoAckMode))),
        b"$QStartNoAckMode#b0"
    );
    assert_eq!(
        bytes_of(&Packet::Command(GdbCommand::Base(Base::QSupported))),
        b"$qSupported:xmlRegisters=riscv#de"
    );
    assert_eq!(
        bytes_of(&Packet::Command(GdbCommand::Base(Base::LowerM { addr: 0x100084, length: 4 }))),
        b"$m100084,4#fa"
    );
    assert_eq!(
        bytes_of(&Packet::Command(GdbCommand::Base(Base::QXferExecFile { offset: 0, length: 1000 }))),
        b"$qXfer:exec-file:read::0,3e8#28"
    );
    assert_eq!(
        bytes_of(&Packet::Command(GdbCommand::Base(Base::QRcmd { command: "time_idx".to_string() }))),
        b"$qRcmd,74696d655f696478#e5"
    );
    assert_eq!(
        bytes_of(&Packet::Command(GdbCommand::Base(Base::Z0 { addr: 0x00100100 }))),
        b"$Z0,100100,4#38"
    );
    assert_eq!(
        bytes_of(&Packet::Command(GdbCommand::Base(Base::Z0Remove { addr: 0x00100100 }))),
        b"$z0,100100,4#58"
    );
}

#[test]
fn ack_packet_is_plus() {
    assert_eq!(bytes_of(&Packet::Ack), b"+");
    assert_eq!(bytes_of(&Packet::default()), b"+");
}

#[test]
fn packet_kinds() {
    let m = Packet::Command(GdbCommand::Base(Base::LowerM { addr: 1, length: 1 }));
    let g = Packet::Command(GdbCommand::Base(Base::LowerG));
    let q = Packet::Command(GdbCommand::Base(Base::QRcmd { command: String::new() }));
    assert!(m.is_memory_read() && !m.is_register_read() && !m.is_monitor_command());
    assert!(g.is_register_read() && !g.is_memory_read());
    assert!(q.is_monitor_command());
    assert!(!Packet::Ack.is_memory_read());
}

#[test]
fn cursor_checksums_content_only() {
    let mut c = PacketCursor::new();
    assert_eq!(c.bytes, b"$");
    assert_eq!(c.write(b"O"), 1);
    assert_eq!(c.write(b"K"), 1);
    assert_eq!(c.sum, 0x9a);
    assert_eq!(c.finish().0, b"$OK#9a");
    assert_eq!(frame_packet(b"").0, b"$#00");
    assert_eq!(frame_packet(b"OK").0, b"$OK#9a");
}
