use vstd::prelude::*;

verus! {

/// ASCII `0`..`9`, `a`..`f`, `A`..`F`.
pub open spec fn is_hex_digit(b: u8) -> bool {
    (48 <= b && b <= 57) || (97 <= b && b <= 102) || (65 <= b && b <= 70)
}

pub open spec fn is_dec_digit(b: u8) -> bool {
    48 <= b && b <= 57
}

pub open spec fn is_digit_in(b: u8, radix: nat) -> bool {
    if radix == 16 {
        is_hex_digit(b)
    } else if radix == 2 {
        b == 48 || b == 49
    } else {
        is_dec_digit(b)
    }
}

/// Value of a hex digit (a decimal digit is a hex digit with the same value).
pub open spec fn hex_value(b: u8) -> nat {
    if 48 <= b && b <= 57 {
        (b - 48) as nat
    } else if 97 <= b && b <= 102 {
        (b - 87) as nat
    } else {
        (b - 55) as nat
    }
}

/// The lowercase hex digit for a value below 16.
pub open spec fn lower_hex_digit(v: nat) -> u8 {
    if v < 10 {
        (48 + v) as u8
    } else {
        (87 + v) as u8
    }
}

pub open spec fn all_hex(s: Seq<u8>) -> bool {
    forall|i: int| 0 <= i < s.len() ==> #[trigger] is_hex_digit(s[i])
}

/// Two lowercase hex digits per byte, high nibble first.
pub open spec fn hex_encoding(b: Seq<u8>) -> Seq<u8> {
    Seq::new(
        2 * b.len(),
        |i: int|
            if i % 2 == 0 {
                lower_hex_digit((b[i / 2] / 16) as nat)
            } else {
                lower_hex_digit((b[i / 2] % 16) as nat)
            },
    )
}

/// Each pair of hex digits read as one byte.
pub open spec fn hex_decoding(h: Seq<u8>) -> Seq<u8> {
    Seq::new(h.len() / 2, |i: int| (hex_value(h[2 * i]) * 16 + hex_value(h[2 * i + 1])) as u8)
}

/// The value of a digit string, most significant digit first.
pub open spec fn digits_value(s: Seq<u8>, radix: nat) -> nat
    decreases s.len(),
{
    if s.len() == 0 {
        0
    } else {
        digits_value(s.drop_last(), radix) * radix + hex_value(s.last())
    }
}

/// What `from_str_radix` accepts for an unsigned type: an optional `+`, then at
/// least one digit.
pub open spec fn unsigned_body(s: Seq<u8>) -> Seq<u8> {
    if s.len() > 0 && s[0] == 43 {
        s.drop_first()
    } else {
        s
    }
}

pub open spec fn unsigned_text_ok(s: Seq<u8>, radix: nat, max: nat) -> bool {
    let body = unsigned_body(s);
    &&& body.len() > 0
    &&& forall|i: int| 0 <= i < body.len() ==> #[trigger] is_digit_in(body[i], radix)
    &&& digits_value(body, radix) <= max
}

pub open spec fn unsigned_text_value(s: Seq<u8>, radix: nat) -> nat {
    digits_value(unsigned_body(s), radix)
}

/// Digits of `n` in radix 16 (when `radix` is 16) or 10, lowercase, without
/// leading zeros.
pub open spec fn radix_digits(n: nat, radix: nat) -> Seq<u8>
    decreases n,
{
    let r: nat = if radix == 16 {
        16
    } else {
        10
    };
    if n < r {
        seq![lower_hex_digit(n)]
    } else {
        radix_digits(n / r, radix).push(lower_hex_digit(n % r))
    }
}

pub proof fn lemma_digits_value_prefix_mono(s: Seq<u8>, radix: nat, i: int)
    requires
        0 <= i <= s.len(),
        radix >= 1,
    ensures
        digits_value(s.take(i), radix) <= digits_value(s, radix),
    decreases s.len() - i,
{
    if i < s.len() {
        lemma_digits_value_prefix_mono(s, radix, i + 1);
        assert(s.take(i + 1).drop_last() =~= s.take(i));
        let v = digits_value(s.take(i), radix);
        assert(v * radix >= v) by (nonlinear_arith)
            requires
                radix >= 1,
        ;
    } else {
        assert(s.take(i) =~= s);
    }
}

pub fn hex_digit_value(b: u8) -> (r: u8)
    requires
        is_hex_digit(b),
    ensures
        r as nat == hex_value(b),
        r < 16,
{
    if 48 <= b && b <= 57 {
        b - 48
    } else if 97 <= b && b <= 102 {
        b - 87
    } else {
        b - 55
    }
}

pub fn is_hex_byte(b: u8) -> (r: bool)
    ensures
        r == is_hex_digit(b),
{
    (48 <= b && b <= 57) || (97 <= b && b <= 102) || (65 <= b && b <= 70)
}

pub fn lower_hex_digit_of(v: u8) -> (r: u8)
    requires
        v < 16,
    ensures
        r == lower_hex_digit(v as nat),
        is_hex_digit(r),
        hex_value(r) == v as nat,
{
    if v < 10 {
        48 + v
    } else {
        87 + v
    }
}

/// Parses an unsigned number the way `u64::from_str_radix` does, for radix 2,
/// 10 or 16.
pub fn parse_unsigned(s: &[u8], radix: u8) -> (r: Option<u64>)
    requires
        radix == 2 || radix == 10 || radix == 16,
    ensures
        r.is_some() == unsigned_text_ok(s@, radix as nat, u64::MAX as nat),
        r matches Some(v) ==> v as nat == unsigned_text_value(s@, radix as nat),
{
    let start: usize = if s.len() > 0 && s[0] == 43 {
        1
    } else {
        0
    };
    let ghost body = unsigned_body(s@);
    assert(body =~= s@.subrange(start as int, s@.len() as int));
    if start >= s.len() {
        return None;
    }
    let mut acc: u64 = 0;
    let mut i: usize = start;
    while i < s.len()
        invariant
            start <= i <= s.len(),
            body == unsigned_body(s@),
            body =~= s@.subrange(start as int, s@.len() as int),
            radix == 2 || radix == 10 || radix == 16,
            forall|k: int| 0 <= k < i - start ==> #[trigger] is_digit_in(body[k], radix as nat),
            acc as nat == digits_value(body.take(i - start), radix as nat),
        decreases s.len() - i,
    {
        let b = s[i];
        let is_digit = if radix == 16 {
            is_hex_byte(b)
        } else if radix == 2 {
            b == 48 || b == 49
        } else {
            48 <= b && b <= 57
        };
        assert(body[i - start] == b);
        if !is_digit {
            assert(!is_digit_in(body[i - start], radix as nat));
            return None;
        }
        let d = hex_digit_value(b);
        assert(body.take(i - start + 1).drop_last() =~= body.take(i - start));
        assert(body.take(i - start + 1).last() == b);
        assert(digits_value(body.take(i - start + 1), radix as nat) == acc as nat * radix as nat
            + d as nat);
        match acc.checked_mul(radix as u64) {
            None => {
                proof {
                    lemma_digits_value_prefix_mono(body, radix as nat, i - start + 1);
                }
                return None;
            },
            Some(m) => match m.checked_add(d as u64) {
                None => {
                    proof {
                        lemma_digits_value_prefix_mono(body, radix as nat, i - start + 1);
                    }
                    return None;
                },
                Some(n) => {
                    acc = n;
                },
            },
        }
        i += 1;
    }
    assert(body.take(body.len() as int) =~= body);
    Some(acc)
}

/// Appends the lowercase digits of `n` in radix 10 or 16.
pub fn push_radix_digits(out: &mut Vec<u8>, n: u64, radix: u8)
    requires
        radix == 10 || radix == 16,
    ensures
        final(out)@ == old(out)@ + radix_digits(n as nat, radix as nat),
    decreases n,
{
    if n < radix as u64 {
        out.push(lower_hex_digit_of(n as u8));
    } else {
        push_radix_digits(out, n / (radix as u64), radix);
        out.push(lower_hex_digit_of((n % (radix as u64)) as u8));
    }
}

/// Lowercase hex encoding of bytes.
pub fn hex_encode_bytes(data: &[u8]) -> (r: Vec<u8>)
    ensures
        r@ == hex_encoding(data@),
{
    let mut out: Vec<u8> = Vec::new();
    let mut i: usize = 0;
    while i < data.len()
        invariant
            i <= data.len(),
            out@ =~= hex_encoding(data@.take(i as int)),
        decreases data.len() - i,
    {
        let b = data[i];
        out.push(lower_hex_digit_of(b / 16));
        out.push(lower_hex_digit_of(b % 16));
        i += 1;
        assert(out@ =~= hex_encoding(data@.take(i as int)));
    }
    assert(data@.take(data.len() as int) =~= data@);
    out
}

/// Hex decoding; `None` when the length is odd or a byte is not a hex digit.
pub fn hex_decode_bytes(h: &[u8]) -> (r: Option<Vec<u8>>)
    ensures
        r.is_some() == (h@.len() % 2 == 0 && all_hex(h@)),
        r matches Some(v) ==> v@ == hex_decoding(h@),
{
    if h.len() % 2 != 0 {
        return None;
    }
    let mut out: Vec<u8> = Vec::new();
    let mut i: usize = 0;
    while i < h.len()
        invariant
            i <= h.len(),
            i % 2 == 0,
            h.len() % 2 == 0,
            forall|k: int| 0 <= k < i ==> #[trigger] is_hex_digit(h@[k]),
            out@ =~= hex_decoding(h@.take(i as int)),
        decreases h.len() - i,
    {
        let a = h[i];
        let b = h[i + 1];
        if !is_hex_byte(a) {
            return None;
        }
        if !is_hex_byte(b) {
            return None;
        }
        let hi = hex_digit_value(a);
        let lo = hex_digit_value(b);
        out.push(hi * 16 + lo);
        i += 2;
        assert(out@ =~= hex_decoding(h@.take(i as int)));
    }
    assert(h@.take(h.len() as int) =~= h@);
    Some(out)
}

pub proof fn lemma_hex_round_trip(b: Seq<u8>)
    ensures
        all_hex(hex_encoding(b)),
        hex_encoding(b).len() % 2 == 0,
        hex_decoding(hex_encoding(b)) == b,
{
    let e = hex_encoding(b);
    assert forall|i: int| 0 <= i < e.len() implies #[trigger] is_hex_digit(e[i]) by {
        let x = b[i / 2];
        assert(x / 16 < 16 && x % 16 < 16);
    }
    assert forall|i: int| 0 <= i < b.len() implies #[trigger] hex_decoding(e)[i] == b[i] by {
        let x = b[i];
        assert(e[2 * i] == lower_hex_digit((x / 16) as nat));
        assert(e[2 * i + 1] == lower_hex_digit((x % 16) as nat));
        assert((x / 16) * 16 + x % 16 == x);
    }
    assert(hex_decoding(e) =~= b);
}

} // verus!
