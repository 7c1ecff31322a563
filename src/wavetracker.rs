use vstd::prelude::*;
use vstd::string::*;
use vstd::utf8::*;

use crate::gdb::lemma_radix_digits_ascii;
use crate::hex::{parse_unsigned, push_radix_digits, radix_digits, unsigned_text_ok, unsigned_text_value};
use crate::text::{ascii_chars, text_from_bytes};

verus! {

/// How a tracked signal's value is shown.
#[derive(Clone, Copy, Debug, PartialEq, Eq, Structural)]
pub enum FormattingType {
    Hex,
    Decimal,
    Binary,
}

/// A bit string with an unknown (`x`) or high-impedance (`z`) bit.
pub open spec fn has_unknown_bits(b: Seq<u8>) -> bool {
    exists|i: int| 0 <= i < b.len() && (b[i] == 120 || b[i] == 122 || b[i] == 88 || b[i] == 90)
}

/// The text of a bit string in radix 10 or 16; bit strings with unknown bits,
/// or that are no binary number fitting 64 bits, are shown as they are.
pub open spec fn formatted_bits(s: Seq<char>, radix: nat) -> Seq<char> {
    let b = encode_utf8(s);
    if has_unknown_bits(b) || !unsigned_text_ok(b, 2, u64::MAX as nat) {
        s
    } else {
        ascii_chars(radix_digits(unsigned_text_value(b, 2), radix))
    }
}

fn has_unknown(b: &[u8]) -> (r: bool)
    ensures
        r == has_unknown_bits(b@),
{
    let mut i: usize = 0;
    while i < b.len()
        invariant
            i <= b@.len(),
            forall|k: int| 0 <= k < i ==> !(b@[k] == 120 || b@[k] == 122 || b@[k] == 88 || b@[k] == 90),
        decreases b.len() - i,
    {
        let c = b[i];
        if c == 120 || c == 122 || c == 88 || c == 90 {
            return true;
        }
        i += 1;
    }
    false
}

fn format_bits(bitstring: &str, radix: u8) -> (r: String)
    requires
        radix == 10 || radix == 16,
    ensures
        r@ == formatted_bits(bitstring@, radix as nat),
{
    let b = bitstring.as_bytes();
    if has_unknown(b) {
        return bitstring.to_owned();
    }
    match parse_unsigned(b, 2) {
        Some(v) => {
            let mut out: Vec<u8> = Vec::new();
            push_radix_digits(&mut out, v, radix);
            proof {
                lemma_radix_digits_ascii(v as nat, radix as nat);
                assert(out@ =~= radix_digits(v as nat, radix as nat));
            }
            text_from_bytes(out.as_slice())
        },
        None => bitstring.to_owned(),
    }
}

/// A bit string shown in decimal.
pub fn bitstring_to_decimal(bitstring: &str) -> (r: String)
    ensures
        r@ == formatted_bits(bitstring@, 10),
{
    format_bits(bitstring, 10)
}

/// A bit string shown in lowercase hex.
pub fn bitstring_to_hex(bitstring: &str) -> (r: String)
    ensures
        r@ == formatted_bits(bitstring@, 16),
{
    format_bits(bitstring, 16)
}

/// A signal's value text in the chosen format.
pub fn format_value(bitstring: &str, formatting: FormattingType) -> (r: String)
    ensures
        r@ == match formatting {
            FormattingType::Hex => formatted_bits(bitstring@, 16),
            FormattingType::Decimal => formatted_bits(bitstring@, 10),
            FormattingType::Binary => bitstring@,
        },
{
    match formatting {
        FormattingType::Hex => bitstring_to_hex(bitstring),
        FormattingType::Decimal => bitstring_to_decimal(bitstring),
        FormattingType::Binary => bitstring.to_owned(),
    }
}

/// Byte-wise lexicographic order, as `str`'s `Ord` has it.
pub open spec fn lex_le(a: Seq<u8>, b: Seq<u8>) -> bool
    decreases a.len(),
{
    if a.len() == 0 {
        true
    } else if b.len() == 0 {
        false
    } else if a[0] != b[0] {
        a[0] < b[0]
    } else {
        lex_le(a.drop_first(), b.drop_first())
    }
}

pub proof fn lemma_lex_total(a: Seq<u8>, b: Seq<u8>)
    ensures
        lex_le(a, b) || lex_le(b, a),
    decreases a.len(),
{
    if a.len() > 0 && b.len() > 0 && a[0] == b[0] {
        lemma_lex_total(a.drop_first(), b.drop_first());
    }
}

pub proof fn lemma_lex_trans(a: Seq<u8>, b: Seq<u8>, c: Seq<u8>)
    requires
        lex_le(a, b),
        lex_le(b, c),
    ensures
        lex_le(a, c),
    decreases a.len(),
{
    if a.len() > 0 && b.len() > 0 && c.len() > 0 && a[0] == b[0] && b[0] == c[0] {
        lemma_lex_trans(a.drop_first(), b.drop_first(), c.drop_first());
    }
}

/// A scored candidate: the matcher's score and the candidate's name.
pub open spec fn rank_le(a: (u16, Seq<u8>), b: (u16, Seq<u8>)) -> bool {
    a.0 > b.0 || (a.0 == b.0 && lex_le(a.1, b.1))
}

pub open spec fn ranked(s: Seq<(u16, Seq<u8>)>) -> bool {
    forall|i: int, j: int| 0 <= i < j < s.len() ==> rank_le(s[i], s[j])
}

pub open spec fn candidate_view(names: Seq<String>, c: (u16, usize)) -> (u16, Seq<u8>) {
    (c.0, encode_utf8(names[c.1 as int]@))
}

pub open spec fn candidates_view(names: Seq<String>, v: Seq<(u16, usize)>) -> Seq<(u16, Seq<u8>)> {
    v.map_values(|c: (u16, usize)| candidate_view(names, c))
}

fn name_le(a: &[u8], b: &[u8]) -> (r: bool)
    ensures
        r == lex_le(a@, b@),
{
    let mut i: usize = 0;
    assert(a@.subrange(0, a@.len() as int) =~= a@);
    assert(b@.subrange(0, b@.len() as int) =~= b@);
    while i < a.len() && i < b.len() && a[i] == b[i]
        invariant
            i <= a@.len(),
            i <= b@.len(),
            lex_le(a@, b@) == lex_le(a@.subrange(i as int, a@.len() as int), b@.subrange(
                i as int,
                b@.len() as int,
            )),
        decreases a.len() - i,
    {
        proof {
            let sa = a@.subrange(i as int, a@.len() as int);
            let sb = b@.subrange(i as int, b@.len() as int);
            assert(sa.drop_first() =~= a@.subrange(i + 1, a@.len() as int));
            assert(sb.drop_first() =~= b@.subrange(i + 1, b@.len() as int));
        }
        i += 1;
    }
    if i == a.len() {
        true
    } else if i == b.len() {
        false
    } else {
        a[i] < b[i]
    }
}

/// Orders fuzzy-search candidates best first: by score, highest first, then by
/// name; candidates that tie on both keep their order.
pub fn rank_candidates(scored: Vec<(u16, usize)>, names: &Vec<String>) -> (r: Vec<(u16, usize)>)
    requires
        forall|i: int| 0 <= i < scored@.len() ==> (#[trigger] scored@[i]).1 < names@.len(),
    ensures
        ranked(candidates_view(names@, r@)),
        r@.to_multiset() == scored@.to_multiset(),
        forall|i: int| 0 <= i < r@.len() ==> (#[trigger] r@[i]).1 < names@.len(),
{
    let mut out: Vec<(u16, usize)> = Vec::new();
    let mut i: usize = 0;
    proof {
        vstd::seq_lib::to_multiset_len(out@);
        vstd::seq_lib::to_multiset_len(scored@.take(0));
        vstd::multiset::lemma_multiset_empty_len(out@.to_multiset());
        vstd::multiset::lemma_multiset_empty_len(scored@.take(0).to_multiset());
    }
    while i < scored.len()
        invariant
            i <= scored@.len(),
            forall|k: int| 0 <= k < scored@.len() ==> (#[trigger] scored@[k]).1 < names@.len(),
            forall|k: int| 0 <= k < out@.len() ==> (#[trigger] out@[k]).1 < names@.len(),
            ranked(candidates_view(names@, out@)),
            out@.to_multiset() == scored@.take(i as int).to_multiset(),
        decreases scored.len() - i,
    {
        let x = scored[i];
        let xname = names[x.1].as_str().as_bytes();
        let ghost xv = candidate_view(names@, x);
        let mut p: usize = out.len();
        while p > 0 && !(out[p - 1].0 > x.0 || (out[p - 1].0 == x.0 && name_le(
            names[out[p - 1].1].as_str().as_bytes(),
            xname,
        )))
            invariant
                p <= out@.len(),
                x.1 < names@.len(),
                xv == candidate_view(names@, x),
                xname@ == encode_utf8(names@[x.1 as int]@),
                forall|k: int| 0 <= k < out@.len() ==> (#[trigger] out@[k]).1 < names@.len(),
                forall|k: int|
                    p <= k < out@.len() ==> !rank_le(candidate_view(names@, #[trigger] out@[k]), xv),
            decreases p,
        {
            p -= 1;
        }
        let ghost before = out@;
        let ghost cv = candidates_view(names@, before);
        proof {
            assert forall|k: int| 0 <= k < p implies rank_le(#[trigger] cv[k], xv) by {
                assert(rank_le(cv[p - 1], xv));
                if k < p - 1 {
                    assert(rank_le(cv[k], cv[p - 1]));
                    if cv[k].0 == cv[p - 1].0 && cv[p - 1].0 == xv.0 {
                        lemma_lex_trans(cv[k].1, cv[p - 1].1, xv.1);
                    }
                }
            }
            assert forall|k: int| p <= k < cv.len() implies rank_le(xv, #[trigger] cv[k]) by {
                assert(!rank_le(cv[k], xv));
                lemma_lex_total(cv[k].1, xv.1);
            }
            vstd::seq_lib::to_multiset_insert(before, p as int, x);
            assert(scored@.take(i + 1) =~= scored@.take(i as int).push(x));
            vstd::seq_lib::to_multiset_build(scored@.take(i as int), x);
        }
        out.insert(p, x);
        proof {
            let nv = candidates_view(names@, out@);
            assert forall|a: int, b: int| 0 <= a < b < nv.len() implies rank_le(nv[a], nv[b]) by {
                if a < p && b < p {
                    assert(nv[a] == cv[a] && nv[b] == cv[b]);
                } else if a < p && b == p {
                    assert(nv[a] == cv[a]);
                } else if a < p && b > p {
                    assert(nv[a] == cv[a] && nv[b] == cv[b - 1]);
                } else if a == p {
                    assert(nv[b] == cv[b - 1]);
                } else {
                    assert(nv[a] == cv[a - 1] && nv[b] == cv[b - 1]);
                }
            }
        }
        i += 1;
    }
    assert(scored@.take(scored@.len() as int) =~= scored@);
    out
}

} // verus!
