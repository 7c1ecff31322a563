use dang::client::{
    breakpoint_reply, exec_path_from, monitor_output_from, pc_from_registers, time_idx_from,
    ClientError, InitStep,
};
use dang::elf::PC;
use dang::response::GdbResponse;
use dang::stepper::{find_addresses_for_line, next_lines_from_locations, LineRow};
use dang::tui_state::{push_log, AddSigState, HelpModalState, LogLevel, LogMessage, ViewState};
use dang::wavetracker::{bitstring_to_decimal, bitstring_to_hex, format_value, rank_candidates, FormattingType};

#[test]
fn run_length_round_trip() {
    let samples: Vec<Vec<u8>> = vec![
        b"".to_vec(),
        b"0000".to_vec(),
        b"00000000".to_vec(),
        b"0000000".to_vec(),
        vec![b'a'; 300],
        b"deadbeef".to_vec(),
        b"aabbbbbbbbccc".to_vec(),
    ];
    for s in samples {
        let enc = GdbResponse::encode_run_length(&s);
        assert_eq!(GdbResponse::decode_run_length(&enc), s);
        assert!(!enc.contains(&b'#') && !enc.contains(&b'$'));
    }
    assert_eq!(GdbResponse::encode_run_length(b"0000"), b"0* ");
    assert_eq!(GdbResponse::encode_run_length(b"000"), b"000");
}

#[test]
fn session_handshake_steps() {
    let s = InitStep::NoAckMode;
    assert!(s.command().is_some());
    assert_eq!(s.next(&GdbResponse::Ack), Ok(InitStep::NoAckModeOk));
    assert!(InitStep::NoAckModeOk.command().is_none());
    assert_eq!(InitStep::NoAckModeOk.next(&GdbResponse::Okay), Ok(InitStep::QSupported));
    assert_eq!(s.next(&GdbResponse::Okay), Ok(InitStep::QSupported));
    let sup = GdbResponse::Supported { features: vec!["PacketSize=1000".to_string(), "swbreak+".to_string()] };
    assert_eq!(InitStep::QSupported.next(&sup), Ok(InitStep::QfThreadInfo));
    let nosize = GdbResponse::Supported { features: vec!["swbreak+".to_string()] };
    assert_eq!(InitStep::QSupported.next(&nosize), Err(ClientError::MissingPacketSize));
    let threads = GdbResponse::ThreadInfo { threads: vec![], more_data: false };
    assert_eq!(InitStep::QfThreadInfo.next(&threads), Ok(InitStep::QsThreadInfo));
    assert_eq!(InitStep::QsThreadInfo.next(&threads), Ok(InitStep::QuestionMark));
    assert_eq!(InitStep::QuestionMark.next(&GdbResponse::Okay), Err(ClientError::UnexpectedResponse));
    let regs = GdbResponse::RegisterData { data: vec![0; 132] };
    assert_eq!(InitStep::Registers.next(&regs), Ok(InitStep::Done));
    let short = GdbResponse::RegisterData { data: vec![0; 130] };
    assert_eq!(InitStep::Registers.next(&short), Err(ClientError::BadRegisterData));
}

#[test]
fn client_reply_readers() {
    let mut data = vec![0u8; 132];
    data[128..132].copy_from_slice(&[0x84, 0x00, 0x10, 0x00]);
    match pc_from_registers(&GdbResponse::RegisterData { data }).unwrap() {
        PC::_32(pc) => assert_eq!(pc, 0x00100084),
        _ => panic!("expected a 32-bit pc"),
    }
    assert!(matches!(
        pc_from_registers(&GdbResponse::RegisterData { data: vec![0; 10] }),
        Err(ClientError::ShortRegisterData)
    ));
    let path = GdbResponse::QXferData { data: b"/x/hello_test.elf".to_vec(), is_final: true };
    assert_eq!(exec_path_from(&path).unwrap(), "/x/hello_test.elf");
    let bad = GdbResponse::QXferData { data: vec![0xff], is_final: true };
    assert_eq!(exec_path_from(&bad), Err(ClientError::InvalidUtf8));
    assert_eq!(time_idx_from(" 1234\n"), Ok(1234));
    assert_eq!(time_idx_from("abc"), Err(ClientError::BadNumber));
    assert_eq!(
        monitor_output_from(GdbResponse::MonitorOutput { output: "7\n".to_string() }),
        Ok("7\n".to_string())
    );
    assert_eq!(breakpoint_reply(&GdbResponse::Okay), Ok(()));
    assert_eq!(breakpoint_reply(&GdbResponse::Error { code: 1 }), Err(ClientError::UnexpectedResponse));
}

#[test]
fn bitstrings_are_formatted() {
    assert_eq!(bitstring_to_decimal("1010"), "10");
    assert_eq!(bitstring_to_hex("11111111"), "ff");
    assert_eq!(bitstring_to_hex("0"), "0");
    assert_eq!(bitstring_to_decimal("10x1"), "10x1");
    assert_eq!(bitstring_to_hex("zzzz"), "zzzz");
    assert_eq!(bitstring_to_decimal("102"), "102");
    assert_eq!(format_value("101", FormattingType::Binary), "101");
    assert_eq!(format_value("101", FormattingType::Decimal), "5");
}

#[test]
fn signal_picker_state() {
    let mut s: AddSigState<u32> = AddSigState::new();
    assert!(!s.is_active());
    s.activate();
    assert!(s.is_active());
    s.update_search("top".to_string());
    assert_eq!(s.get_input(), "top");
    let matches: Vec<(u32, String)> = (0..15).map(|i| (i, format!("sig{i}"))).collect();
    s.set_matches(matches);
    assert_eq!(s.get_matches().len(), 10);
    s.select_prev();
    assert_eq!(s.get_selected_index(), 9);
    s.select_next();
    assert_eq!(s.get_selected_index(), 0);
    s.select_next();
    assert_eq!(s.get_selected().unwrap().1, "sig1");
    s.set_matches(vec![(7, "only".to_string())]);
    assert_eq!(s.get_selected_index(), 0);
    s.deactivate();
    assert!(s.get_matches().is_empty());
    assert!(s.get_selected().is_none());
}

#[test]
fn help_modal_state() {
    let mut h = HelpModalState::new();
    h.activate(vec!["a".to_string(), "b".to_string()]);
    assert!(h.is_active());
    assert_eq!(h.get_content().len(), 2);
    h.scroll_up(3);
    h.scroll_down(1);
    assert_eq!(h.get_scroll_offset(), 2);
    h.scroll_down(5);
    assert_eq!(h.get_scroll_offset(), 0);
    h.scroll_up(usize::MAX);
    h.scroll_up(1);
    assert_eq!(h.get_scroll_offset(), usize::MAX);
    h.deactivate();
    assert!(!h.is_active());
    let v = ViewState::default();
    assert!(v.execution_lines.is_empty() && v.signal_lines.is_empty());
}

#[test]
fn log_buffer_keeps_the_last_thousand() {
    let mut buf = Vec::new();
    for i in 0..1005 {
        push_log(&mut buf, LogMessage { level: LogLevel::Info, message: format!("m{i}") });
    }
    assert_eq!(buf.len(), 1000);
    assert_eq!(buf[0].message, "m5");
    assert_eq!(buf[999].message, "m1004");
}

fn row(path: &str, line: u64, address: u64) -> LineRow {
    LineRow { path: path.to_string(), line, address }
}

#[test]
fn addresses_for_a_line() {
    let rows = vec![
        row("/src/hello_test.c", 12, 0x100110),
        row("/src/hello_test.c", 12, 0x100100),
        row("/src/hello_test.c", 13, 0x100120),
        row("/src/other/hello_test.c", 12, 0x100100),
        row("/src/xhello_test.c", 12, 0x100200),
    ];
    assert_eq!(find_addresses_for_line(&rows, "hello_test.c", 12, 0), vec![0x100100, 0x100110]);
    assert_eq!(find_addresses_for_line(&rows, "/src/hello_test.c", 12, 0x10), vec![0x100110, 0x100120]);
    assert_eq!(find_addresses_for_line(&rows, "hello_test.c", 99, 0), Vec::<u64>::new());
    assert_eq!(find_addresses_for_line(&rows, "xhello_test.c", 12, u64::MAX), vec![u64::MAX]);
}

#[test]
fn next_unique_lines() {
    let l = |p: &str, n: u64| Some((p.to_string(), n));
    let cur = l("a.c", 1);
    let locs = vec![l("a.c", 1), None, l("a.c", 2), l("a.c", 2), l("b.c", 7), l("a.c", 2), l("a.c", 3)];
    let out = next_lines_from_locations(&cur, &locs, 3);
    assert_eq!(
        out,
        vec![("a.c".to_string(), 2), ("b.c".to_string(), 7), ("a.c".to_string(), 2)]
    );
    assert!(next_lines_from_locations(&cur, &locs, 0).is_empty());
}

#[test]
fn candidates_rank_by_score_then_name() {
    let names: Vec<String> = ["top.b", "top.a", "TOP.c", "top.a"].iter().map(|s| s.to_string()).collect();
    let scored = vec![(10u16, 0usize), (30, 1), (10, 2), (30, 3), (20, 0)];
    let ranked = rank_candidates(scored, &names);
    assert_eq!(ranked, vec![(30, 1), (30, 3), (20, 0), (10, 2), (10, 0)]);
    assert!(rank_candidates(vec![], &names).is_empty());
}
