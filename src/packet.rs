use vstd::prelude::*;

use crate::hex::{lower_hex_digit, lower_hex_digit_of};

verus! {

/// Sum of the bytes, as a natural number.
pub open spec fn byte_sum(s: Seq<u8>) -> nat
    decreases s.len(),
{
    if s.len() == 0 {
        0
    } else {
        (byte_sum(s.drop_last()) + s.last()) as nat
    }
}

/// The RSP checksum: the byte sum modulo 256.
pub open spec fn checksum(s: Seq<u8>) -> nat {
    byte_sum(s) % 256
}

/// `$<content>#<two lowercase hex digits of the checksum>`.
pub open spec fn framed(content: Seq<u8>) -> Seq<u8> {
    seq![36u8] + content + seq![
        35u8,
        lower_hex_digit(checksum(content) / 16),
        lower_hex_digit(checksum(content) % 16),
    ]
}

/// Builds an outgoing packet, keeping the checksum of the content written so far.
pub struct PacketCursor {
    pub bytes: Vec<u8>,
    pub sum: u8,
}

/// The bytes of a complete packet, ready to send.
pub struct FinishedPacket(pub Vec<u8>);

impl PacketCursor {
    /// A packet opened with `$`, which the checksum does not cover.
    pub fn new() -> (r: Self)
        ensures
            r.bytes@ == seq![36u8],
            r.sum == 0,
    {
        let mut bytes: Vec<u8> = Vec::new();
        bytes.push(36);
        PacketCursor { bytes, sum: 0 }
    }

    /// Appends content bytes and adds them to the checksum.
    pub fn write(&mut self, buf: &[u8]) -> (r: usize)
        ensures
            final(self).bytes@ == old(self).bytes@ + buf@,
            final(self).sum as nat == (old(self).sum as nat + byte_sum(buf@)) % 256,
            r == buf@.len(),
    {
        let mut i: usize = 0;
        let ghost start = self.bytes@;
        while i < buf.len()
            invariant
                i <= buf@.len(),
                self.bytes@ =~= start + buf@.take(i as int),
                self.sum as nat == (old(self).sum as nat + byte_sum(buf@.take(i as int))) % 256,
            decreases buf.len() - i,
        {
            let b = buf[i];
            proof {
                assert(buf@.take(i + 1).drop_last() =~= buf@.take(i as int));
                vstd::arithmetic::div_mod::lemma_add_mod_noop(
                    (old(self).sum as nat + byte_sum(buf@.take(i as int))) as int,
                    b as int,
                    256,
                );
                vstd::arithmetic::div_mod::lemma_mod_twice(b as int, 256);
                vstd::arithmetic::div_mod::lemma_add_mod_noop(
                    self.sum as int,
                    b as int,
                    256,
                );
            }
            self.sum = ((self.sum as u16 + b as u16) % 256) as u8;
            self.bytes.push(b);
            i += 1;
        }
        assert(buf@.take(buf@.len() as int) =~= buf@);
        buf.len()
    }

    /// Closes the packet with `#` and the two checksum digits.
    pub fn finish(self) -> (r: FinishedPacket)
        ensures
            r.0@ == self.bytes@ + seq![
                35u8,
                lower_hex_digit(self.sum as nat / 16),
                lower_hex_digit(self.sum as nat % 16),
            ],
    {
        let mut bytes = self.bytes;
        bytes.push(35);
        bytes.push(lower_hex_digit_of(self.sum / 16));
        bytes.push(lower_hex_digit_of(self.sum % 16));
        FinishedPacket(bytes)
    }
}

/// Frames `content` as `$<content>#<checksum>`.
pub fn frame_packet(content: &[u8]) -> (r: FinishedPacket)
    ensures
        r.0@ == framed(content@),
{
    let mut cursor = PacketCursor::new();
    cursor.write(content);
    assert(byte_sum(content@) % 256 == checksum(content@));
    let r = cursor.finish();
    assert(r.0@ =~= framed(content@));
    r
}

} // verus!
