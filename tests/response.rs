use dang::commands::{Base, GdbCommand, Packet};
use dang::response::{find_first_complete_packet, GdbResponse, ParseError, RawGdbResponse, ThreadId};

fn test_parse(data: &[u8]) -> Result<GdbResponse, ParseError> {
    let rv = RawGdbResponse::find_packet_data(data)?;
    GdbResponse::parse_packet(rv, &Packet::default())
}

fn parse_with_packet(data: &[u8], packet: &Packet) -> GdbResponse {
    let rv = RawGdbResponse::find_packet_data(data).unwrap();
    GdbResponse::parse_packet(rv, packet).unwrap()
}

fn calculate_gdb_checksum(content: &str) -> String {
    let checksum = content.bytes().fold(0u8, |acc, b| acc.wrapping_add(b));
    format!("{checksum:02x}")
}

fn framed(content: &[u8]) -> Vec<u8> {
    let sum = content.iter().fold(0u8, |acc, b| acc.wrapping_add(*b));
    let mut v = vec![b'$'];
    v.extend_from_slice(content);
    v.extend_from_slice(format!("#{sum:02x}").as_bytes());
    v
}

#[test]
fn test_parse_ack() {
    assert_eq!(test_parse(b"+").expect("Failed ack"), GdbResponse::Ack);
    assert_eq!(test_parse(b"-").expect("Failed nack"), GdbResponse::Nack);
}

#[test]
fn test_parse_empty() {
    assert_eq!(test_parse(b"$#00").expect("Failed empty"), GdbResponse::Empty);
}

#[test]
fn test_parse_ok() {
    assert_eq!(test_parse(b"$OK#9a").expect("Failed ok"), GdbResponse::Okay);
}

#[test]
fn test_parse_error() {
    if let GdbResponse::Error { code } = test_parse(b"$E01#a6").expect("Failed error") {
        assert_eq!(code, 0x01);
    } else {
        panic!("Expected Error response");
    }
}

#[test]
fn test_parse_hex_data() {
    let packet = Packet::Command(GdbCommand::Base(Base::LowerG));
    if let GdbResponse::RegisterData { data } = parse_with_packet(b"$deadbeef#20", &packet) {
        assert_eq!(data, vec![0xde, 0xad, 0xbe, 0xef]);
    } else {
        panic!("Expected RegisterData response");
    }
}

#[test]
fn test_invalid_checksum() {
    match test_parse(b"$OK#00") {
        Err(ParseError::InvalidChecksum) => {}
        _ => panic!("Expected checksum error"),
    }
}

#[test]
fn test_run_length_decoding() {
    let result = GdbResponse::decode_run_length(b"0* ");
    assert_eq!(result, b"0000", "Should decode '0* ' to '0000'");

    let result = GdbResponse::decode_run_length(b"deadbeef");
    assert_eq!(result, b"deadbeef", "Should pass through normal hex unchanged");

    let result = GdbResponse::decode_run_length(b"a*!b*\"");
    assert_eq!(result, b"aaaaabbbbbb", "Should handle multiple run-length sequences");

    let result = GdbResponse::decode_run_length(b"x*\x1d");
    assert_eq!(result, b"x", "Should handle minimum repeat count");
}

#[test]
fn test_is_hex_data_or_run_length() {
    assert!(GdbResponse::is_hex_data_or_run_length(b"deadbeef"));
    assert!(GdbResponse::is_hex_data_or_run_length(b"0* "));
    assert!(GdbResponse::is_hex_data_or_run_length(b"abc0* def"));
    assert!(!GdbResponse::is_hex_data_or_run_length(b"xyz"));
    assert!(!GdbResponse::is_hex_data_or_run_length(b""));
}

#[test]
fn test_run_length_with_hex_parsing() {
    let run_length_decoded = GdbResponse::decode_run_length(b"0* ");
    assert_eq!(run_length_decoded, b"0000");
    let hex_decoded = GdbResponse::decode_hex(&run_length_decoded).unwrap();
    assert_eq!(hex_decoded, vec![0x00, 0x00]);
}

#[test]
fn test_register_read_response_parsing_issue() {
    let test_cases = vec![vec![0x00; 132], vec![0x00; 130], vec![0x00; 136], vec![], vec![0x00; 256]];
    for register_data in test_cases.iter() {
        let hex_string = register_data.iter().map(|b| format!("{b:02x}")).collect::<String>();
        let checksum = calculate_gdb_checksum(&hex_string);
        let packet = format!("${hex_string}#{checksum}");
        let packet_type = Packet::Command(GdbCommand::Base(Base::LowerG));
        let response = GdbResponse::parse_packet(
            RawGdbResponse::find_packet_data(packet.as_bytes()).unwrap(),
            &packet_type,
        );
        match response {
            Ok(GdbResponse::RegisterData { data }) => {
                assert_eq!(data.len(), register_data.len());
            }
            Ok(GdbResponse::Empty) if register_data.is_empty() => {}
            Ok(GdbResponse::MemoryData { data: _ }) => {
                panic!("Parsed as MemoryData instead of RegisterData (length={})", register_data.len());
            }
            Ok(other) => panic!("Parsed as unexpected type: {other:?}"),
            Err(e) => panic!("Parse error: {e:?}"),
        }
    }
}

#[test]
fn missing_dollar_is_invalid_format() {
    assert!(matches!(RawGdbResponse::find_packet_data(b"OK#9a"), Err(ParseError::InvalidFormat(_))));
    assert!(matches!(RawGdbResponse::find_packet_data(b""), Err(ParseError::InvalidFormat(_))));
    assert!(matches!(RawGdbResponse::find_packet_data(b"$OK"), Err(ParseError::InvalidFormat(_))));
    assert!(matches!(RawGdbResponse::find_packet_data(b"$OK#9"), Err(ParseError::InvalidFormat(_))));
    assert!(matches!(RawGdbResponse::find_packet_data(b"$OK#zz"), Err(ParseError::InvalidChecksum)));
}

#[test]
fn checksum_of_decoded_packet_matches() {
    let raw = RawGdbResponse::find_packet_data(b"$qSupported#37").unwrap();
    assert_eq!(raw.as_slice(), b"qSupported");
    assert_eq!(raw.entire_packet_len(), 14);
    assert_eq!(dang::response::checksum_of(b"qSupported"), 0x37);
}

#[test]
fn extract_returns_packet_and_trailing_bytes() {
    let mut buf = framed(b"S05");
    buf.extend_from_slice(b"+$OK#9a");
    let (p, rest) = find_first_complete_packet(&buf).unwrap();
    assert_eq!(p.as_slice(), b"S05");
    assert_eq!(rest, b"+$OK#9a");
    let (p2, rest2) = find_first_complete_packet(&rest).unwrap();
    assert_eq!(p2.as_slice(), b"+");
    assert_eq!(rest2, b"$OK#9a");
    assert!(find_first_complete_packet(b"$OK#9").is_none());
}

#[test]
fn zero_length_memory_read_is_empty_memory_data() {
    let packet = Packet::Command(GdbCommand::Base(Base::LowerM { addr: 0x100, length: 0 }));
    assert_eq!(parse_with_packet(b"$#00", &packet), GdbResponse::MemoryData { data: vec![] });
}

#[test]
fn single_l_is_end_of_thread_list() {
    assert_eq!(
        test_parse(b"$l#6c").unwrap(),
        GdbResponse::ThreadInfo { threads: vec![], more_data: false }
    );
}

#[test]
fn m_with_thread_ids_is_thread_info() {
    let bytes = framed(b"m1,0,-1");
    assert_eq!(
        test_parse(&bytes).unwrap(),
        GdbResponse::ThreadInfo {
            threads: vec![ThreadId::Specific(1), ThreadId::Any, ThreadId::All],
            more_data: false
        }
    );
}

#[test]
fn m_with_other_data_is_qxfer_more() {
    let bytes = framed(b"m/tmp/hello.elf");
    assert_eq!(
        test_parse(&bytes).unwrap(),
        GdbResponse::QXferData { data: b"/tmp/hello.elf".to_vec(), is_final: false }
    );
}

#[test]
fn l_with_data_is_final_qxfer() {
    let bytes = framed(b"l/tmp/hello_test.elf");
    assert_eq!(
        test_parse(&bytes).unwrap(),
        GdbResponse::QXferData { data: b"/tmp/hello_test.elf".to_vec(), is_final: true }
    );
}

#[test]
fn stop_reply_is_parsed() {
    let r = test_parse(b"$S05#b8").unwrap();
    assert_eq!(
        r,
        GdbResponse::StopReply {
            signal: 5,
            thread_id: None,
            reason: dang::response::StopReason::Signal(5)
        }
    );
    assert!(matches!(test_parse(&framed(b"Sxy")), Err(ParseError::InvalidHex)));
}

#[test]
fn supported_features_are_split() {
    let bytes = framed(b"PacketSize=1000;swbreak+;qXfer:exec-file:read+");
    assert_eq!(
        test_parse(&bytes).unwrap(),
        GdbResponse::Supported {
            features: vec![
                "PacketSize=1000".to_string(),
                "swbreak+".to_string(),
                "qXfer:exec-file:read+".to_string()
            ]
        }
    );
}

#[test]
fn monitor_output_is_hex_decoded() {
    let packet = Packet::Command(GdbCommand::Base(Base::QRcmd { command: "time_idx".to_string() }));
    let bytes = framed(b"O34320a");
    assert_eq!(
        parse_with_packet(&bytes, &packet),
        GdbResponse::MonitorOutput { output: "42\n".to_string() }
    );
}

#[test]
fn memory_and_raw_classification() {
    let mem = Packet::Command(GdbCommand::Base(Base::LowerM { addr: 0, length: 2 }));
    assert_eq!(parse_with_packet(&framed(b"0102"), &mem), GdbResponse::MemoryData { data: vec![1, 2] });
    assert_eq!(test_parse(&framed(b"010203")).unwrap(), GdbResponse::Raw { data: vec![1, 2, 3] });
    assert_eq!(test_parse(&framed(b"hello!")).unwrap(), GdbResponse::Raw { data: b"hello!".to_vec() });
    assert!(matches!(test_parse(&framed(b"abc")), Err(ParseError::InvalidHex)));
}

#[test]
fn hex_round_trip() {
    let data = vec![0u8, 1, 0x7f, 0x80, 0xde, 0xff];
    let encoded = GdbResponse::encode_hex(&data);
    assert_eq!(encoded, "00017f80deff");
    assert_eq!(GdbResponse::decode_hex(encoded.as_bytes()).unwrap(), data);
    assert!(matches!(GdbResponse::decode_hex(b"abc"), Err(ParseError::InvalidHex)));
    assert!(matches!(GdbResponse::decode_hex(b"zz"), Err(ParseError::InvalidHex)));
}

#[test]
fn two_digit_replies_follow_the_command() {
    let mem = Packet::Command(GdbCommand::Base(Base::LowerM { addr: 0x100, length: 1 }));
    assert_eq!(parse_with_packet(&framed(b"ab"), &mem), GdbResponse::MemoryData { data: vec![0xab] });
    let regs = Packet::Command(GdbCommand::Base(Base::LowerG));
    assert_eq!(parse_with_packet(&framed(b"ab"), &regs), GdbResponse::RegisterData { data: vec![0xab] });
    assert_eq!(test_parse(&framed(b"ab")).unwrap(), GdbResponse::ThreadInfo { threads: vec![], more_data: false });
}
