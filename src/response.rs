use vstd::prelude::*;
use vstd::string::*;
use vstd::utf8::*;

use crate::commands::{spec_is_memory_read, spec_is_monitor_command, spec_is_register_read, Packet};
use crate::hex::{
    all_hex, hex_decode_bytes, hex_decoding, hex_digit_value, hex_encode_bytes, hex_encoding,
    hex_value, is_hex_byte, is_hex_digit, lemma_hex_round_trip, lower_hex_digit, parse_unsigned,
    unsigned_text_ok, unsigned_text_value,
};
use crate::packet::{byte_sum, checksum, framed};
use crate::text::{
    all_ascii, ascii_bytes, ascii_chars, ascii_of, contains_bytes, copy_bytes, find_bytes, is_utf8,
    lossy_text, split_bytes, split_on, text_from_bytes, vec_views,
};

verus! {

/// A response of a GDB stub.
#[derive(Debug, Clone, PartialEq)]
pub enum GdbResponse {
    /// `+`
    Ack,
    /// `-`
    Nack,
    /// `OK`
    Okay,
    /// An empty packet: the command is not supported.
    Empty,
    /// `Exx`, with the hex error code.
    Error { code: u8 },
    /// `Sxx` or `Txx...`: why the target halted.
    StopReply { signal: u8, thread_id: Option<ThreadId>, reason: StopReason },
    /// Bytes read from memory.
    MemoryData { data: Vec<u8> },
    /// Register values as bytes.
    RegisterData { data: Vec<u8> },
    /// A chunk of the thread list.
    ThreadInfo { threads: Vec<ThreadId>, more_data: bool },
    /// The features of a `qSupported` reply.
    Supported { features: Vec<String> },
    /// A chunk of a `qXfer` transfer; `is_final` for the last one (`l`).
    QXferData { data: Vec<u8>, is_final: bool },
    /// Binary data.
    BinaryData { data: Vec<u8> },
    /// Console output of a monitor command.
    MonitorOutput { output: String },
    /// Anything else, as received.
    Raw { data: Vec<u8> },
}

/// A thread id of a thread-info reply.
#[derive(Debug, Clone, PartialEq)]
pub enum ThreadId {
    /// `0`
    Any,
    /// `-1`
    All,
    Specific(u32),
    Process { pid: u32, tid: u32 },
}

/// Why the target stopped.
#[derive(Debug, Clone, PartialEq)]
pub enum StopReason {
    Signal(u8),
    Breakpoint,
    Watchpoint { addr: u32 },
    SingleStep,
    ProcessExit { code: u8 },
    Unknown,
}

/// Why a packet or its content was refused.
#[derive(Debug)]
pub enum ParseError {
    InvalidFormat(&'static str),
    InvalidChecksum,
    InvalidHex,
    IncompletePacket,
}

/// The content of a packet whose checksum has been checked, and how many framing
/// bytes (`$`, `#` and the two checksum digits) surrounded it.
#[derive(Debug, Clone, PartialEq)]
pub struct RawGdbResponse {
    pub data: Vec<u8>,
    pub omitted: usize,
}

pub open spec fn is_ack_byte(b: u8) -> bool {
    b == 43 || b == 45
}

/// `h` is the first `#` of `s`.
pub open spec fn first_hash_at(s: Seq<u8>, h: int) -> bool {
    &&& 0 <= h < s.len()
    &&& s[h] == 35
    &&& forall|j: int| 0 <= j < h ==> s[j] != 35
}

/// `$`, a first `#` at `h`, and two bytes after it.
pub open spec fn frame_complete(s: Seq<u8>, h: int) -> bool {
    &&& s.len() > 0
    &&& s[0] == 36
    &&& first_hash_at(s, h)
    &&& h + 3 <= s.len()
}

/// The two bytes after the `#` are hex digits whose value is the checksum of
/// the content.
pub open spec fn checksum_matches(s: Seq<u8>, h: int) -> bool {
    &&& is_hex_digit(s[h + 1])
    &&& is_hex_digit(s[h + 2])
    &&& hex_value(s[h + 1]) * 16 + hex_value(s[h + 2]) == checksum(s.subrange(1, h))
}

pub open spec fn valid_frame(s: Seq<u8>, h: int) -> bool {
    frame_complete(s, h) && checksum_matches(s, h)
}

/// The first packet at the start of `data`: its content and the number of
/// framing bytes around it.
pub open spec fn spec_find_packet(data: Seq<u8>) -> Option<(Seq<u8>, nat)> {
    if data.len() == 0 {
        None
    } else if is_ack_byte(data[0]) {
        Some((seq![data[0]], 0))
    } else if exists|h: int| valid_frame(data, h) {
        let h = choose|h: int| valid_frame(data, h);
        Some((data.subrange(1, h), 4))
    } else {
        None
    }
}

/// The packet at the start of `data` and the bytes after it.
pub open spec fn spec_extract(data: Seq<u8>) -> Option<(Seq<u8>, Seq<u8>)> {
    match spec_find_packet(data) {
        Some((c, o)) => Some((c, data.subrange((c.len() + o) as int, data.len() as int))),
        None => None,
    }
}

pub proof fn lemma_first_hash_unique(s: Seq<u8>, h1: int, h2: int)
    requires
        first_hash_at(s, h1),
        first_hash_at(s, h2),
    ensures
        h1 == h2,
{
    if h1 < h2 {
        assert(s[h1] != 35);
    } else if h2 < h1 {
        assert(s[h2] != 35);
    }
}

pub proof fn lemma_lower_hex_digit(v: nat)
    requires
        v < 16,
    ensures
        is_hex_digit(lower_hex_digit(v)),
        hex_value(lower_hex_digit(v)) == v,
        lower_hex_digit(v) < 128,
{
}

/// A framed packet whose content holds no `#`, followed by any bytes, comes
/// out of extraction as its content and exactly those bytes.
pub proof fn lemma_extract_framed(content: Seq<u8>, trailing: Seq<u8>)
    requires
        forall|i: int| 0 <= i < content.len() ==> content[i] != 35,
    ensures
        spec_extract(framed(content) + trailing) == Some((content, trailing)),
{
    let data = framed(content) + trailing;
    let h = content.len() + 1 as int;
    let cs = checksum(content);
    lemma_lower_hex_digit(cs / 16);
    lemma_lower_hex_digit(cs % 16);
    assert(data.subrange(1, h) =~= content);
    assert(first_hash_at(data, h)) by {
        assert forall|j: int| 0 <= j < h implies data[j] != 35 by {
            if j > 0 {
                assert(data[j] == content[j - 1]);
            }
        }
    }
    assert(valid_frame(data, h));
    let hc = choose|k: int| valid_frame(data, k);
    lemma_first_hash_unique(data, h, hc);
    assert(data.subrange(content.len() + 4 as int, data.len() as int) =~= trailing);
}

/// An ack or nack byte followed by any bytes comes out of extraction as that
/// byte and exactly those bytes.
pub proof fn lemma_extract_ack(b: u8, trailing: Seq<u8>)
    requires
        is_ack_byte(b),
    ensures
        spec_extract(seq![b] + trailing) == Some((seq![b], trailing)),
{
    let data = seq![b] + trailing;
    assert(data.subrange(1, data.len() as int) =~= trailing);
}

/// A well-formed packet's content has the checksum that its frame carries, and
/// a frame whose checksum does not match is refused.
pub proof fn lemma_decoded_checksum(data: Seq<u8>)
    requires
        data.len() > 0,
        !is_ack_byte(data[0]),
    ensures
        spec_find_packet(data) matches Some((c, _)) ==> exists|h: int|
            frame_complete(data, h) && c == data.subrange(1, h) && hex_value(data[h + 1]) * 16
                + hex_value(data[h + 2]) == checksum(c),
        (exists|h: int| frame_complete(data, h) && !checksum_matches(data, h)) ==> spec_find_packet(
            data,
        ) is None,
{
    if exists|h: int| frame_complete(data, h) && !checksum_matches(data, h) {
        let h = choose|h: int| frame_complete(data, h) && !checksum_matches(data, h);
        if exists|k: int| valid_frame(data, k) {
            let k = choose|k: int| valid_frame(data, k);
            lemma_first_hash_unique(data, h, k);
        }
    }
}

// ---- content classification -------------------------------------------------

/// Which rule of the response grammar a content falls under, in the order the
/// rules are tried.
pub enum ContentRule {
    Empty,
    EmptyMemory,
    Ack,
    Nack,
    Okay,
    Error,
    Stop,
    ThreadList,
    QXferMore,
    ThreadEnd,
    QXferFinal,
    ShortHex,
    Supported,
    Monitor,
    HexData,
    Raw,
}

pub open spec fn is_hex_content(c: Seq<u8>) -> bool {
    c.len() > 0 && all_hex(c)
}

/// Content that is hex digits, possibly with runs `<digit>*<count>`.
pub open spec fn rl_valid(s: Seq<u8>) -> bool
    decreases s.len(),
{
    if s.len() == 0 {
        true
    } else if s.len() >= 3 && s[1] == 42 {
        is_hex_digit(s[0]) && s[2] >= 29 && rl_valid(s.subrange(3, s.len() as int))
    } else {
        is_hex_digit(s[0]) && rl_valid(s.drop_first())
    }
}

pub open spec fn is_hex_or_run_length(c: Seq<u8>) -> bool {
    c.len() > 0 && (all_hex(c) || rl_valid(c))
}

/// Run-length decoding: `c*n` stands for `c` and `n - 29` more copies of `c`.
pub open spec fn rl_decode(s: Seq<u8>) -> Seq<u8>
    decreases s.len(),
{
    if s.len() == 0 {
        Seq::empty()
    } else if s.len() >= 3 && s[1] == 42 && s[2] >= 29 {
        Seq::new((s[2] - 28) as nat, |_i: int| s[0]) + rl_decode(s.subrange(3, s.len() as int))
    } else {
        seq![s[0]] + rl_decode(s.drop_first())
    }
}

pub open spec fn minus_one() -> Seq<u8> {
    seq![45u8, 49u8]
}

/// Comma-separated parts, each `-1` or hex digits.
pub open spec fn spec_looks_like_thread_info(d: Seq<u8>) -> bool {
    &&& d.len() > 0
    &&& forall|i: int|
        0 <= i < split_on(d, 44).len() ==> {
            let part = #[trigger] split_on(d, 44)[i];
            part == minus_one() || all_hex(part)
        }
}

pub open spec fn thread_of(part: Seq<u8>) -> Option<ThreadId> {
    if part == seq![48u8] {
        Some(ThreadId::Any)
    } else if part == minus_one() {
        Some(ThreadId::All)
    } else if unsigned_text_ok(part, 10, u32::MAX as nat) {
        Some(ThreadId::Specific(unsigned_text_value(part, 10) as u32))
    } else {
        None
    }
}

/// The thread ids of the parts that read as one, in order.
pub open spec fn threads_of(parts: Seq<Seq<u8>>) -> Seq<ThreadId>
    decreases parts.len(),
{
    if parts.len() == 0 {
        Seq::empty()
    } else {
        let rest = threads_of(parts.drop_last());
        match thread_of(parts.last()) {
            Some(t) => rest.push(t),
            None => rest,
        }
    }
}

pub open spec fn supported_marker(c: Seq<u8>) -> bool {
    ||| contains_bytes(c, ascii_bytes("PacketSize"@))
    ||| contains_bytes(c, ascii_bytes("qRelocInsn"@))
    ||| contains_bytes(c, ascii_bytes("swbreak"@))
}

pub open spec fn content_rule(c: Seq<u8>, p: Packet) -> ContentRule {
    if c.len() == 0 {
        if spec_is_memory_read(p) {
            ContentRule::EmptyMemory
        } else {
            ContentRule::Empty
        }
    } else if c == seq![43u8] {
        ContentRule::Ack
    } else if c == seq![45u8] {
        ContentRule::Nack
    } else if c == seq![79u8, 75u8] {
        ContentRule::Okay
    } else if c.len() >= 3 && c[0] == 69 {
        ContentRule::Error
    } else if c.len() >= 3 && (c[0] == 83 || c[0] == 84) {
        ContentRule::Stop
    } else if c[0] == 109 {
        if spec_looks_like_thread_info(c.drop_first()) {
            ContentRule::ThreadList
        } else {
            ContentRule::QXferMore
        }
    } else if c[0] == 108 {
        if c.len() == 1 {
            ContentRule::ThreadEnd
        } else {
            ContentRule::QXferFinal
        }
    } else if c.len() == 2 && is_hex_content(c) && !spec_is_register_read(p) && !spec_is_memory_read(p) {
        ContentRule::ShortHex
    } else if valid_utf8(c) && supported_marker(c) {
        ContentRule::Supported
    } else if spec_is_monitor_command(p) {
        ContentRule::Monitor
    } else if is_hex_or_run_length(c) {
        ContentRule::HexData
    } else {
        ContentRule::Raw
    }
}

/// Two hex digits at `i` and `i + 1`, read as a byte.
pub open spec fn hex_pair_ok(c: Seq<u8>, i: int) -> bool {
    is_hex_digit(c[i]) && is_hex_digit(c[i + 1])
}

pub open spec fn hex_pair_value(c: Seq<u8>, i: int) -> u8 {
    (hex_value(c[i]) * 16 + hex_value(c[i + 1])) as u8
}

/// The bytes whose text a monitor reply shows: hex after an `O` is decoded,
/// bare hex is decoded, anything else is shown as it is.
pub open spec fn monitor_bytes(c: Seq<u8>) -> Seq<u8> {
    if c.len() > 1 && c[0] == 79 {
        let h = c.drop_first();
        if is_hex_content(h) && h.len() % 2 == 0 {
            hex_decoding(h)
        } else {
            c
        }
    } else if is_hex_content(c) && c.len() % 2 == 0 {
        hex_decoding(c)
    } else {
        c
    }
}

/// How decoded hex data is classified: by the command that asked for it, else
/// by its size.
pub open spec fn hex_data_response(data: Seq<u8>, p: Packet, r: GdbResponse) -> bool {
    if spec_is_register_read(p) {
        r matches GdbResponse::RegisterData { data: v } && v@ == data
    } else if spec_is_memory_read(p) {
        r matches GdbResponse::MemoryData { data: v } && v@ == data
    } else if data.len() >= 128 && data.len() % 4 == 0 {
        r matches GdbResponse::RegisterData { data: v } && v@ == data
    } else {
        r matches GdbResponse::Raw { data: v } && v@ == data
    }
}

/// What parsing content `c`, sent in answer to `p`, yields.
pub open spec fn parsed_as(c: Seq<u8>, p: Packet, r: Result<GdbResponse, ParseError>) -> bool {
    match content_rule(c, p) {
        ContentRule::Empty => r == Ok::<GdbResponse, ParseError>(GdbResponse::Empty),
        ContentRule::EmptyMemory => r matches Ok(GdbResponse::MemoryData { data }) && data@.len()
            == 0,
        ContentRule::Ack => r == Ok::<GdbResponse, ParseError>(GdbResponse::Ack),
        ContentRule::Nack => r == Ok::<GdbResponse, ParseError>(GdbResponse::Nack),
        ContentRule::Okay => r == Ok::<GdbResponse, ParseError>(GdbResponse::Okay),
        ContentRule::Error => if hex_pair_ok(c, 1) {
            r == Ok::<GdbResponse, ParseError>(GdbResponse::Error { code: hex_pair_value(c, 1) })
        } else {
            r matches Err(ParseError::InvalidHex)
        },
        ContentRule::Stop => if hex_pair_ok(c, 1) {
            r == Ok::<GdbResponse, ParseError>(
                GdbResponse::StopReply {
                    signal: hex_pair_value(c, 1),
                    thread_id: None,
                    reason: StopReason::Signal(hex_pair_value(c, 1)),
                },
            )
        } else {
            r matches Err(ParseError::InvalidHex)
        },
        ContentRule::ThreadList => r matches Ok(GdbResponse::ThreadInfo { threads, more_data })
            && threads@ == threads_of(split_on(c.drop_first(), 44)) && !more_data,
        ContentRule::QXferMore => r matches Ok(GdbResponse::QXferData { data, is_final })
            && data@ == c.drop_first() && !is_final,
        ContentRule::ThreadEnd => r matches Ok(GdbResponse::ThreadInfo { threads, more_data })
            && threads@.len() == 0 && !more_data,
        ContentRule::QXferFinal => r matches Ok(GdbResponse::QXferData { data, is_final })
            && data@ == c.drop_first() && is_final,
        ContentRule::ShortHex => r matches Ok(GdbResponse::ThreadInfo { threads, more_data })
            && threads@.len() == 0 && !more_data,
        ContentRule::Supported => r matches Ok(GdbResponse::Supported { features }) && {
            let parts = split_on(c, 59);
            &&& features@.len() == parts.len()
            &&& forall|i: int| 0 <= i < parts.len() ==> #[trigger] features@[i]@ == lossy_text(parts[i])
        },
        ContentRule::Monitor => r matches Ok(GdbResponse::MonitorOutput { output }) && output@
            == lossy_text(monitor_bytes(c)),
        ContentRule::HexData => {
            let d = rl_decode(c);
            if d.len() % 2 == 0 && all_hex(d) {
                r matches Ok(v) && hex_data_response(hex_decoding(d), p, v)
            } else {
                r matches Err(ParseError::InvalidHex)
            }
        },
        ContentRule::Raw => r matches Ok(GdbResponse::Raw { data }) && data@ == c,
    }
}

impl RawGdbResponse {
    pub fn as_slice(&self) -> (r: &[u8])
        ensures
            r@ == self.data@,
    {
        self.data.as_slice()
    }

    pub fn len(&self) -> (r: usize)
        ensures
            r == self.data@.len(),
    {
        self.data.len()
    }

    /// The length of the whole packet, framing included.
    pub fn entire_packet_len(&self) -> (r: usize)
        requires
            self.data@.len() + self.omitted <= usize::MAX,
        ensures
            r == self.data@.len() + self.omitted,
    {
        self.data.len() + self.omitted
    }

    /// Finds the packet at the start of `data`: a single `+` or `-`, or
    /// `$<content>#<checksum>` up to the first `#`, whose checksum must match.
    pub fn find_packet_data(data: &[u8]) -> (r: Result<Self, ParseError>)
        ensures
            match spec_find_packet(data@) {
                Some((c, o)) => r matches Ok(p) && p.data@ == c && p.omitted == o,
                None => r is Err,
            },
            r matches Ok(p) ==> p.data@.len() + p.omitted <= data@.len(),
            r matches Err(e) ==> (e is InvalidChecksum <==> exists|h: int|
                frame_complete(data@, h)),
            r matches Err(e) ==> (e is InvalidChecksum || e is InvalidFormat),
    {
        if data.len() == 0 {
            return Err(ParseError::InvalidFormat("no data"));
        }
        if data[0] == 43 || data[0] == 45 {
            let mut v: Vec<u8> = Vec::new();
            v.push(data[0]);
            assert(v@ =~= seq![data@[0]]);
            return Ok(RawGdbResponse { data: v, omitted: 0 });
        }
        if data.len() < 4 || data[0] != 36 {
            assert forall|h: int| !frame_complete(data@, h) by {
                if frame_complete(data@, h) {
                    assert(h >= 1);
                }
            }
            return Err(ParseError::InvalidFormat("missing $ prefix"));
        }
        let mut h: usize = 0;
        while h < data.len() && data[h] != 35
            invariant
                h <= data@.len(),
                forall|j: int| 0 <= j < h ==> data@[j] != 35,
            decreases data.len() - h,
        {
            h += 1;
        }
        if h == data.len() {
            assert forall|k: int| !frame_complete(data@, k) by {
                if frame_complete(data@, k) {
                    assert(data@[k] == 35);
                }
            }
            return Err(ParseError::InvalidFormat("missing # separator"));
        }
        assert(first_hash_at(data@, h as int));
        if data.len() - h < 3 {
            assert forall|k: int| !frame_complete(data@, k) by {
                if frame_complete(data@, k) {
                    lemma_first_hash_unique(data@, h as int, k);
                }
            }
            return Err(ParseError::InvalidFormat("missing checksum"));
        }
        assert(frame_complete(data@, h as int));
        let content = copy_bytes(data, 1, h);
        let a = data[h + 1];
        let b = data[h + 2];
        if !is_hex_byte(a) || !is_hex_byte(b) {
            assert forall|k: int| !valid_frame(data@, k) by {
                if valid_frame(data@, k) {
                    lemma_first_hash_unique(data@, h as int, k);
                }
            }
            return Err(ParseError::InvalidChecksum);
        }
        let expected = hex_digit_value(a) * 16 + hex_digit_value(b);
        let actual = checksum_of(content.as_slice());
        if actual != expected {
            assert forall|k: int| !valid_frame(data@, k) by {
                if valid_frame(data@, k) {
                    lemma_first_hash_unique(data@, h as int, k);
                }
            }
            return Err(ParseError::InvalidChecksum);
        }
        assert(valid_frame(data@, h as int));
        proof {
            let k = choose|k: int| valid_frame(data@, k);
            lemma_first_hash_unique(data@, h as int, k);
        }
        Ok(RawGdbResponse { data: content, omitted: 4 })
    }
}

/// The RSP checksum of `s`.
pub fn checksum_of(s: &[u8]) -> (r: u8)
    ensures
        r as nat == checksum(s@),
{
    let mut sum: u8 = 0;
    let mut i: usize = 0;
    while i < s.len()
        invariant
            i <= s@.len(),
            sum as nat == checksum(s@.take(i as int)),
        decreases s.len() - i,
    {
        let b = s[i];
        proof {
            assert(s@.take(i + 1).drop_last() =~= s@.take(i as int));
            vstd::arithmetic::div_mod::lemma_add_mod_noop(
                byte_sum(s@.take(i as int)) as int,
                b as int,
                256,
            );
            vstd::arithmetic::div_mod::lemma_mod_twice(b as int, 256);
            vstd::arithmetic::div_mod::lemma_add_mod_noop(sum as int, b as int, 256);
        }
        sum = ((sum as u16 + b as u16) % 256) as u8;
        i += 1;
    }
    assert(s@.take(s@.len() as int) =~= s@);
    sum
}

/// Splits off the first complete packet of `buffer`; the rest of the buffer
/// comes back beside it.
pub fn find_first_complete_packet(buffer: &[u8]) -> (r: Option<(RawGdbResponse, Vec<u8>)>)
    ensures
        match spec_extract(buffer@) {
            Some((c, rest)) => r matches Some((p, v)) && p.data@ == c && v@ == rest
                && spec_find_packet(buffer@) == Some((c, p.omitted as nat)),
            None => r is None,
        },
{
    let n: usize = buffer.len();
    match RawGdbResponse::find_packet_data(buffer) {
        Ok(data) => {
            assert(data.data@.len() + data.omitted <= n);
            let end = data.entire_packet_len();
            let remaining = copy_bytes(buffer, end, buffer.len());
            Some((data, remaining))
        },
        Err(_) => None,
    }
}

fn hex_pair(a: u8, b: u8) -> (r: Option<u8>)
    ensures
        r is Some == (is_hex_digit(a) && is_hex_digit(b)),
        r matches Some(v) ==> v == (hex_value(a) * 16 + hex_value(b)) as u8,
{
    if is_hex_byte(a) && is_hex_byte(b) {
        Some(hex_digit_value(a) * 16 + hex_digit_value(b))
    } else {
        None
    }
}

impl GdbResponse {
    /// Parses the content of a packet, sent in answer to `packet`.
    pub fn parse_packet(content: RawGdbResponse, packet: &Packet) -> (r: Result<Self, ParseError>)
        ensures
            parsed_as(content.data@, *packet, r),
    {
        Self::parse_content(content, packet)
    }

    fn parse_content(raw_resp: RawGdbResponse, packet: &Packet) -> (r: Result<Self, ParseError>)
        ensures
            parsed_as(raw_resp.data@, *packet, r),
    {
        let content = raw_resp.as_slice();
        let ghost c = content@;
        if content.len() == 0 {
            if packet.is_memory_read() {
                return Ok(GdbResponse::MemoryData { data: Vec::new() });
            }
            return Ok(GdbResponse::Empty);
        }
        let n = content.len();
        let first = content[0];
        if n == 1 && first == 43 {
            assert(c =~= seq![43u8]);
            return Ok(GdbResponse::Ack);
        }
        assert(c != seq![43u8]);
        if n == 1 && first == 45 {
            assert(c =~= seq![45u8]);
            return Ok(GdbResponse::Nack);
        }
        assert(c != seq![45u8]);
        if n == 2 && first == 79 && content[1] == 75 {
            assert(c =~= seq![79u8, 75u8]);
            return Ok(GdbResponse::Okay);
        }
        assert(c != seq![79u8, 75u8]) by {
            if n == 2 {
                assert(c[0] == first && c[1] == content[1]);
            }
        }
        if n >= 3 && first == 69 {
            return match hex_pair(content[1], content[2]) {
                Some(code) => Ok(GdbResponse::Error { code }),
                None => Err(ParseError::InvalidHex),
            };
        }
        if n >= 3 && (first == 83 || first == 84) {
            return Self::parse_stop_reply(content);
        }
        if first == 109 {
            let data_part = copy_bytes(content, 1, n);
            assert(data_part@ =~= c.drop_first());
            if Self::looks_like_thread_info(data_part.as_slice()) {
                return Self::parse_thread_info(content, false);
            } else {
                return Ok(GdbResponse::QXferData { data: data_part, is_final: false });
            }
        }
        if first == 108 {
            if n == 1 {
                return Ok(GdbResponse::ThreadInfo { threads: Vec::new(), more_data: false });
            } else {
                let data_part = copy_bytes(content, 1, n);
                assert(data_part@ =~= c.drop_first());
                return Ok(GdbResponse::QXferData { data: data_part, is_final: true });
            }
        }
        if n == 2 && !packet.is_register_read() && !packet.is_memory_read() && Self::is_hex_data(
            content,
        ) {
            return Ok(GdbResponse::ThreadInfo { threads: Vec::new(), more_data: false });
        }
        if is_utf8(content) && Self::has_supported_marker(content) {
            return Self::parse_supported_response(content);
        }
        if packet.is_monitor_command() {
            let shown = Self::monitor_text(content);
            let output = text_from_bytes(shown.as_slice());
            return Ok(GdbResponse::MonitorOutput { output });
        }
        if Self::is_hex_data_or_run_length(content) {
            let run_length_decoded = Self::decode_run_length(content);
            let data = match Self::decode_hex(run_length_decoded.as_slice()) {
                Ok(d) => d,
                Err(e) => {
                    return Err(e);
                },
            };
            if packet.is_register_read() {
                return Ok(GdbResponse::RegisterData { data });
            } else if packet.is_memory_read() {
                return Ok(GdbResponse::MemoryData { data });
            } else if data.len() >= 128 && data.len() % 4 == 0 {
                return Ok(GdbResponse::RegisterData { data });
            } else {
                return Ok(GdbResponse::Raw { data });
            }
        }
        let data = copy_bytes(content, 0, n);
        assert(data@ =~= c);
        Ok(GdbResponse::Raw { data })
    }

    fn has_supported_marker(content: &[u8]) -> (r: bool)
        ensures
            r == supported_marker(content@),
    {
        proof {
            reveal_strlit("PacketSize");
            reveal_strlit("qRelocInsn");
            reveal_strlit("swbreak");
        }
        find_bytes(content, ascii_of("PacketSize")) || find_bytes(content, ascii_of("qRelocInsn"))
            || find_bytes(content, ascii_of("swbreak"))
    }

    fn monitor_text(content: &[u8]) -> (r: Vec<u8>)
        ensures
            r@ == monitor_bytes(content@),
    {
        let n = content.len();
        if n > 1 && content[0] == 79 {
            let hex_content = copy_bytes(content, 1, n);
            assert(hex_content@ =~= content@.drop_first());
            if Self::is_hex_data(hex_content.as_slice()) {
                match hex_decode_bytes(hex_content.as_slice()) {
                    Some(decoded) => {
                        return decoded;
                    },
                    None => {},
                }
            }
            copy_bytes(content, 0, n)
        } else {
            if Self::is_hex_data(content) {
                match hex_decode_bytes(content) {
                    Some(decoded) => {
                        return decoded;
                    },
                    None => {},
                }
            }
            copy_bytes(content, 0, n)
        }
    }

    /// Parses `Sxx` / `Txx...`: the signal in the two hex digits after the letter.
    fn parse_stop_reply(content: &[u8]) -> (r: Result<Self, ParseError>)
        ensures
            content@.len() < 3 ==> r matches Err(ParseError::InvalidFormat(_)),
            content@.len() >= 3 ==> if hex_pair_ok(content@, 1) {
                r == Ok::<GdbResponse, ParseError>(
                    GdbResponse::StopReply {
                        signal: hex_pair_value(content@, 1),
                        thread_id: None,
                        reason: StopReason::Signal(hex_pair_value(content@, 1)),
                    },
                )
            } else {
                r matches Err(ParseError::InvalidHex)
            },
    {
        if content.len() < 3 {
            return Err(ParseError::InvalidFormat("stop reply packet too short"));
        }
        match hex_pair(content[1], content[2]) {
            Some(signal) => Ok(
                GdbResponse::StopReply {
                    signal,
                    thread_id: None,
                    reason: StopReason::Signal(signal),
                },
            ),
            None => Err(ParseError::InvalidHex),
        }
    }

    /// Parses `m<id>,<id>,...`; parts that are no thread id are skipped.
    fn parse_thread_info(content: &[u8], more_data: bool) -> (r: Result<Self, ParseError>)
        ensures
            (content@.len() < 2 || content@[0] != 109) ==> r matches Err(
                ParseError::InvalidFormat(_),
            ),
            (content@.len() >= 2 && content@[0] == 109) ==> (r matches Ok(
                GdbResponse::ThreadInfo { threads, more_data: m },
            ) && threads@ == threads_of(split_on(content@.drop_first(), 44)) && m == more_data),
    {
        if content.len() < 2 || content[0] != 109 {
            return Err(ParseError::InvalidFormat("thread info packet too short"));
        }
        let list = copy_bytes(content, 1, content.len());
        assert(list@ =~= content@.drop_first());
        let parts = split_bytes(list.as_slice(), 44);
        let ghost pv = vec_views(parts@);
        let mut threads: Vec<ThreadId> = Vec::new();
        let mut i: usize = 0;
        while i < parts.len()
            invariant
                i <= parts@.len(),
                pv == vec_views(parts@),
                threads@ == threads_of(pv.take(i as int)),
            decreases parts.len() - i,
        {
            let part = parts[i].as_slice();
            assert(pv.take(i + 1).drop_last() =~= pv.take(i as int));
            assert(pv.take(i + 1).last() == part@);
            if part.len() == 1 && part[0] == 48 {
                assert(part@ =~= seq![48u8]);
                threads.push(ThreadId::Any);
            } else if part.len() == 2 && part[0] == 45 && part[1] == 49 {
                assert(part@ =~= minus_one());
                assert(part@ != seq![48u8]);
                threads.push(ThreadId::All);
            } else {
                assert(part@ != seq![48u8]) by {
                    if part@.len() == 1 {
                        assert(part@[0] == part[0]);
                    }
                }
                assert(part@ != minus_one()) by {
                    if part@.len() == 2 {
                        assert(part@[0] == part[0] && part@[1] == part[1]);
                    }
                }
                match parse_unsigned(part, 10) {
                    Some(v) => {
                        if v <= 0xffff_ffff {
                            threads.push(ThreadId::Specific(v as u32));
                        }
                    },
                    None => {},
                }
            }
            i += 1;
        }
        assert(pv.take(parts@.len() as int) =~= pv);
        Ok(GdbResponse::ThreadInfo { threads, more_data })
    }

    /// The `;`-separated features of a `qSupported` reply.
    fn parse_supported_response(content: &[u8]) -> (r: Result<Self, ParseError>)
        ensures
            r matches Ok(GdbResponse::Supported { features }) && {
                let parts = split_on(content@, 59);
                &&& features@.len() == parts.len()
                &&& forall|i: int| 0 <= i < parts.len() ==> #[trigger] features@[i]@ == lossy_text(parts[i])
            },
    {
        let parts = split_bytes(content, 59);
        let ghost pv = vec_views(parts@);
        let mut features: Vec<String> = Vec::new();
        let mut i: usize = 0;
        while i < parts.len()
            invariant
                i <= parts@.len(),
                pv == vec_views(parts@),
                features@.len() == i,
                forall|k: int| 0 <= k < i ==> #[trigger] features@[k]@ == lossy_text(pv[k]),
            decreases parts.len() - i,
        {
            features.push(text_from_bytes(parts[i].as_slice()));
            i += 1;
        }
        Ok(GdbResponse::Supported { features })
    }

    pub fn is_hex_data(content: &[u8]) -> (r: bool)
        ensures
            r == is_hex_content(content@),
    {
        if content.len() == 0 {
            return false;
        }
        let mut i: usize = 0;
        while i < content.len()
            invariant
                i <= content@.len(),
                forall|k: int| 0 <= k < i ==> #[trigger] is_hex_digit(content@[k]),
            decreases content.len() - i,
        {
            if !is_hex_byte(content[i]) {
                return false;
            }
            i += 1;
        }
        true
    }

    pub fn is_hex_data_or_run_length(content: &[u8]) -> (r: bool)
        ensures
            r == is_hex_or_run_length(content@),
    {
        if content.len() == 0 {
            return false;
        }
        if Self::is_hex_data(content) {
            return true;
        }
        let n = content.len();
        let mut i: usize = 0;
        assert(content@.subrange(0, n as int) =~= content@);
        while i < n
            invariant
                n == content@.len(),
                n > 0,
                !all_hex(content@),
                i <= n,
                rl_valid(content@) == rl_valid(content@.subrange(i as int, n as int)),
            decreases n - i,
        {
            let ghost rest = content@.subrange(i as int, n as int);
            if n - i > 2 && content[i + 1] == 42 {
                assert(rest[1] == 42 && rest.len() >= 3);
                assert(rest[0] == content[i as int] && rest[2] == content[i + 2]);
                assert(rest.subrange(3, rest.len() as int) =~= content@.subrange(
                    i + 3,
                    n as int,
                ));
                if is_hex_byte(content[i]) && content[i + 2] >= 29 {
                    i += 3;
                } else {
                    return false;
                }
            } else {
                assert(rest.drop_first() =~= content@.subrange(i + 1, n as int));
                if !is_hex_byte(content[i]) {
                    return false;
                }
                i += 1;
            }
        }
        true
    }

    /// Whether `content` is comma-separated parts, each `0`, `-1` or hex digits.
    pub fn looks_like_thread_info(content: &[u8]) -> (r: bool)
        ensures
            r == spec_looks_like_thread_info(content@),
    {
        if content.len() == 0 {
            return false;
        }
        let parts = split_bytes(content, 44);
        let ghost pv = vec_views(parts@);
        let mut i: usize = 0;
        while i < parts.len()
            invariant
                i <= parts@.len(),
                pv == vec_views(parts@),
                pv == split_on(content@, 44),
                forall|k: int| 0 <= k < i ==> #[trigger] pv[k] == minus_one() || all_hex(pv[k]),
            decreases parts.len() - i,
        {
            let part = parts[i].as_slice();
            assert(part@ == pv[i as int]);
            let is_minus_one = part.len() == 2 && part[0] == 45 && part[1] == 49;
            if is_minus_one {
                assert(part@ =~= minus_one());
            } else {
                assert(part@ != minus_one()) by {
                    if part@.len() == 2 {
                        assert(part@[0] == part[0] && part@[1] == part[1]);
                    }
                }
                let mut j: usize = 0;
                while j < part.len()
                    invariant
                        j <= part@.len(),
                        i < pv.len(),
                        pv == split_on(content@, 44),
                        part@ == pv[i as int],
                        part@ != minus_one(),
                        forall|m: int| 0 <= m < j ==> #[trigger] is_hex_digit(part@[m]),
                    decreases part.len() - j,
                {
                    if !is_hex_byte(part[j]) {
                        assert(!is_hex_digit(pv[i as int][j as int]));
                        assert(!all_hex(pv[i as int]));
                        assert(!(split_on(content@, 44)[i as int] == minus_one() || all_hex(
                            split_on(content@, 44)[i as int],
                        )));
                        return false;
                    }
                    j += 1;
                }
            }
            i += 1;
        }
        true
    }

    /// Expands runs `c*n` into `c` and `n - 29` more copies of `c`.
    pub fn decode_run_length(data: &[u8]) -> (r: Vec<u8>)
        ensures
            r@ == rl_decode(data@),
    {
        let n = data.len();
        let mut result: Vec<u8> = Vec::new();
        let mut i: usize = 0;
        assert(data@.subrange(0, n as int) =~= data@);
        assert(result@ + data@ =~= data@);
        while i < n
            invariant
                n == data@.len(),
                i <= n,
                result@ + rl_decode(data@.subrange(i as int, n as int)) == rl_decode(data@),
            decreases n - i,
        {
            let ghost rest = data@.subrange(i as int, n as int);
            let ghost before = result@;
            if n - i > 2 && data[i + 1] == 42 && data[i + 2] >= 29 {
                let c = data[i];
                let repeat_count = data[i + 2] - 29;
                assert(rest[0] == c && rest[1] == 42 && rest[2] == data[i + 2]);
                assert(rest.subrange(3, rest.len() as int) =~= data@.subrange(i + 3, n as int));
                let mut k: u8 = 0;
                while k <= repeat_count
                    invariant
                        k <= repeat_count + 1,
                        repeat_count < 255,
                        result@ =~= before + Seq::new(k as nat, |_j: int| c),
                    decreases repeat_count + 1 - k,
                {
                    result.push(c);
                    k += 1;
                }
                assert(Seq::new((rest[2] - 28) as nat, |_j: int| c) =~= Seq::new(
                    k as nat,
                    |_j: int| c,
                ));
                assert(result@ + rl_decode(data@.subrange(i + 3, n as int)) =~= before
                    + rl_decode(rest));
                i += 3;
            } else {
                assert(rest.drop_first() =~= data@.subrange(i + 1, n as int));
                assert(rest[0] == data[i as int]);
                result.push(data[i]);
                assert(result@ + rl_decode(data@.subrange(i + 1, n as int)) =~= before
                    + rl_decode(rest));
                i += 1;
            }
        }
        assert(result@ =~= rl_decode(data@)) by {
            assert(data@.subrange(n as int, n as int) =~= Seq::<u8>::empty());
        }
        result
    }

    /// Hex digit pairs to bytes; odd lengths and non-hex bytes are refused.
    pub fn decode_hex(hex_data: &[u8]) -> (r: Result<Vec<u8>, ParseError>)
        ensures
            r is Ok == (hex_data@.len() % 2 == 0 && all_hex(hex_data@)),
            r matches Ok(v) ==> v@ == hex_decoding(hex_data@),
            r matches Err(e) ==> e is InvalidHex,
    {
        match hex_decode_bytes(hex_data) {
            Some(v) => Ok(v),
            None => Err(ParseError::InvalidHex),
        }
    }

    /// Two lowercase hex digits per byte.
    pub fn encode_hex(data: &[u8]) -> (r: String)
        ensures
            r@ == ascii_chars(hex_encoding(data@)),
    {
        let h = hex_encode_bytes(data);
        proof {
            lemma_hex_ascii(data@);
        }
        text_from_bytes(h.as_slice())
    }
}

/// How many bytes at the start of `s` equal `c`.
pub open spec fn leading_run(s: Seq<u8>, c: u8) -> nat
    decreases s.len(),
{
    if s.len() > 0 && s[0] == c {
        1 + leading_run(s.drop_first(), c)
    } else {
        0
    }
}

/// The extra copies a run of `k` equal bytes is encoded with: none for runs
/// under four, at most 97, and never 6 or 7, whose count bytes would be `#`
/// and `$`.
pub open spec fn rl_extra(k: nat) -> nat {
    let k2: nat = if k > 98 {
        98
    } else {
        k
    };
    if k2 < 4 {
        0
    } else if k2 == 7 || k2 == 8 {
        5
    } else {
        (k2 - 1) as nat
    }
}

/// Run-length encoding: a run of equal bytes becomes the byte, `*`, and
/// `29 +` the number of extra copies.
pub open spec fn rl_encode(s: Seq<u8>) -> Seq<u8>
    decreases s.len(),
{
    if s.len() == 0 {
        Seq::empty()
    } else {
        let e = rl_extra(leading_run(s, s[0]));
        if e == 0 || e + 1 > s.len() {
            seq![s[0]] + rl_encode(s.drop_first())
        } else {
            seq![s[0], 42u8, (29 + e) as u8] + rl_encode(s.subrange(e + 1 as int, s.len() as int))
        }
    }
}

pub proof fn lemma_leading_run_prefix(s: Seq<u8>, c: u8, k: int)
    requires
        0 <= k <= leading_run(s, c),
    ensures
        k <= s.len(),
        forall|m: int| 0 <= m < k ==> s[m] == c,
    decreases s.len(),
{
    if k > 0 {
        lemma_leading_run_prefix(s.drop_first(), c, k - 1);
        assert forall|m: int| 0 <= m < k implies s[m] == c by {
            if m > 0 {
                assert(s[m] == s.drop_first()[m - 1]);
            }
        }
    }
}

pub proof fn lemma_leading_run_exact(s: Seq<u8>, c: u8, k: int)
    requires
        0 <= k <= s.len(),
        forall|m: int| 0 <= m < k ==> s[m] == c,
    ensures
        leading_run(s, c) >= k,
        (k == s.len() || s[k] != c) ==> leading_run(s, c) == k,
    decreases s.len(),
{
    if k > 0 {
        lemma_leading_run_exact(s.drop_first(), c, k - 1);
    } else if s.len() > 0 && s[0] == c {
    }
}

pub proof fn lemma_rl_encode_first(s: Seq<u8>)
    requires
        s.len() > 0,
    ensures
        rl_encode(s).len() > 0,
        rl_encode(s)[0] == s[0],
{
}

/// Run-length encoding, then decoding, gives back any byte sequence that
/// holds no `*`.
pub proof fn lemma_run_length_round_trip(s: Seq<u8>)
    requires
        forall|i: int| 0 <= i < s.len() ==> s[i] != 42,
    ensures
        rl_decode(rl_encode(s)) == s,
    decreases s.len(),
{
    if s.len() == 0 {
        assert(rl_encode(s) =~= Seq::<u8>::empty());
    } else {
        let c = s[0];
        let e = rl_extra(leading_run(s, c));
        if e == 0 || e + 1 > s.len() {
            let rest = s.drop_first();
            lemma_run_length_round_trip(rest);
            let x = rl_encode(rest);
            let enc = seq![c] + x;
            assert(enc.drop_first() =~= x);
            if rest.len() > 0 {
                lemma_rl_encode_first(rest);
                assert(enc[1] == rest[0]);
            }
            assert(rl_decode(enc) == seq![c] + rl_decode(x));
            assert(seq![c] + rest =~= s);
        } else {
            let rest = s.subrange(e + 1 as int, s.len() as int);
            lemma_leading_run_prefix(s, c, e + 1 as int);
            lemma_run_length_round_trip(rest);
            let x = rl_encode(rest);
            let enc = seq![c, 42u8, (29 + e) as u8] + x;
            assert(enc.subrange(3, enc.len() as int) =~= x);
            assert(rl_decode(enc) == Seq::new((e + 1) as nat, |_i: int| c) + rl_decode(x));
            assert(Seq::new((e + 1) as nat, |_i: int| c) + rest =~= s);
        }
    }
}

/// Counts the run of `c` at `data[i..]`, at most 98 long.
fn run_at(data: &[u8], i: usize, c: u8) -> (k: usize)
    requires
        i < data@.len(),
        data@[i as int] == c,
    ensures
        k as nat == if leading_run(data@.subrange(i as int, data@.len() as int), c) > 98 {
            98
        } else {
            leading_run(data@.subrange(i as int, data@.len() as int), c)
        },
        1 <= k <= 98,
{
    let n = data.len();
    let ghost rest = data@.subrange(i as int, n as int);
    let mut j: usize = i;
    while j < n && j - i < 98 && data[j] == c
        invariant
            i <= j <= n,
            n == data@.len(),
            j - i <= 98,
            rest == data@.subrange(i as int, n as int),
            forall|m: int| 0 <= m < j - i ==> rest[m] == c,
        decreases n - j,
    {
        j += 1;
    }
    proof {
        lemma_leading_run_exact(rest, c, (j - i) as int);
        assert(rest[0] == c);
    }
    j - i
}

impl GdbResponse {
    /// Run-length encodes `data` (see `rl_encode`).
    pub fn encode_run_length(data: &[u8]) -> (r: Vec<u8>)
        ensures
            r@ == rl_encode(data@),
    {
        let n = data.len();
        let mut out: Vec<u8> = Vec::new();
        let mut i: usize = 0;
        assert(data@.subrange(0, n as int) =~= data@);
        while i < n
            invariant
                n == data@.len(),
                i <= n,
                out@ + rl_encode(data@.subrange(i as int, n as int)) == rl_encode(data@),
            decreases n - i,
        {
            let ghost rest = data@.subrange(i as int, n as int);
            let ghost before = out@;
            let c = data[i];
            let k = run_at(data, i, c);
            let e: usize = if k < 4 {
                0
            } else if k == 7 || k == 8 {
                5
            } else {
                k - 1
            };
            proof {
                lemma_leading_run_exact(rest, c, 1);
                if leading_run(rest, c) > 98 {
                    lemma_leading_run_prefix(rest, c, 98);
                } else {
                    lemma_leading_run_prefix(rest, c, leading_run(rest, c) as int);
                }
            }
            assert(rest[0] == c);
            assert(e as nat == rl_extra(leading_run(rest, c)));
            if e == 0 {
                out.push(c);
                assert(rest.drop_first() =~= data@.subrange(i + 1, n as int));
                assert(out@ + rl_encode(data@.subrange(i + 1, n as int)) =~= before + rl_encode(rest));
                i += 1;
            } else {
                out.push(c);
                out.push(42);
                out.push((29 + e) as u8);
                assert(rest.subrange(e + 1, rest.len() as int) =~= data@.subrange(
                    i + e + 1,
                    n as int,
                ));
                assert(out@ + rl_encode(data@.subrange(i + e + 1, n as int)) =~= before + rl_encode(
                    rest,
                ));
                i += e + 1;
            }
        }
        assert(data@.subrange(n as int, n as int) =~= Seq::<u8>::empty());
        assert(out@ + Seq::<u8>::empty() =~= out@);
        out
    }
}

/// A piece of a run-length encoded text: a byte written once (`None`), or a
/// byte, `*`, and a count byte standing for `extra` more copies.
pub open spec fn piece_bytes(c: u8, extra: Option<nat>) -> Seq<u8> {
    match extra {
        None => seq![c],
        Some(e) => seq![c, 42u8, (29 + e) as u8],
    }
}

/// The bytes a piece stands for.
pub open spec fn piece_expansion(c: u8, extra: Option<nat>) -> Seq<u8> {
    match extra {
        None => seq![c],
        Some(e) => Seq::new(e + 1, |_i: int| c),
    }
}

pub open spec fn encode_pieces(p: Seq<(u8, Option<nat>)>) -> Seq<u8>
    decreases p.len(),
{
    if p.len() == 0 {
        Seq::empty()
    } else {
        piece_bytes(p[0].0, p[0].1) + encode_pieces(p.drop_first())
    }
}

pub open spec fn expand_pieces(p: Seq<(u8, Option<nat>)>) -> Seq<u8>
    decreases p.len(),
{
    if p.len() == 0 {
        Seq::empty()
    } else {
        piece_expansion(p[0].0, p[0].1) + expand_pieces(p.drop_first())
    }
}

/// However an encoder cuts a text that holds no `*` into runs, and whichever
/// runs it writes as `c*n` (with a count byte up to 255) or as plain copies,
/// decoding gives the text back.
pub proof fn lemma_run_length_decodes_any_encoding(p: Seq<(u8, Option<nat>)>)
    requires
        forall|i: int|
            0 <= i < p.len() ==> (#[trigger] p[i]).0 != 42 && (p[i].1 matches Some(e) ==> e
                <= 226),
    ensures
        rl_decode(encode_pieces(p)) == expand_pieces(p),
    decreases p.len(),
{
    if p.len() > 0 {
        let rest = p.drop_first();
        assert forall|i: int| 0 <= i < rest.len() implies (#[trigger] rest[i]).0 != 42 && (
        rest[i].1 matches Some(e) ==> e <= 226) by {
            assert(rest[i] == p[i + 1]);
        }
        lemma_run_length_decodes_any_encoding(rest);
        let x = encode_pieces(rest);
        let c = p[0].0;
        let enc = piece_bytes(c, p[0].1) + x;
        if rest.len() > 0 {
            assert(x[0] == rest[0].0);
        }
        match p[0].1 {
            None => {
                assert(enc.drop_first() =~= x);
                assert(rl_decode(enc) == seq![c] + rl_decode(x));
            },
            Some(e) => {
                assert(enc.subrange(3, enc.len() as int) =~= x);
                assert(rl_decode(enc) == Seq::new(e + 1, |_i: int| c) + rl_decode(x));
            },
        }
    }
}

pub proof fn lemma_hex_ascii(b: Seq<u8>)
    ensures
        all_ascii(hex_encoding(b)),
{
    let e = hex_encoding(b);
    assert forall|i: int| 0 <= i < e.len() implies #[trigger] e[i] < 128 by {
        let x = b[i / 2];
        assert(x / 16 < 16 && x % 16 < 16);
    }
}

/// Hex encoding then decoding gives the bytes back.
pub proof fn lemma_encode_decode_hex(b: Seq<u8>)
    ensures
        hex_encoding(b).len() % 2 == 0,
        all_hex(hex_encoding(b)),
        hex_decoding(hex_encoding(b)) == b,
{
    lemma_hex_round_trip(b);
}

} // verus!
