use vstd::prelude::*;
use vstd::string::*;
use vstd::utf8::*;

verus! {

/// Bytes of an ASCII text, one per character.
pub open spec fn ascii_bytes(s: Seq<char>) -> Seq<u8> {
    s.map_values(|c: char| c as u8)
}

/// Characters of ASCII bytes, one per byte.
pub open spec fn ascii_chars(b: Seq<u8>) -> Seq<char> {
    b.map_values(|x: u8| x as char)
}

pub open spec fn all_ascii(b: Seq<u8>) -> bool {
    forall|i: int| 0 <= i < b.len() ==> #[trigger] b[i] < 128
}

/// What `String::from_utf8_lossy` makes of a byte sequence.
pub uninterp spec fn lossy_text(b: Seq<u8>) -> Seq<char>;

/// What `str::trim` leaves of a text.
pub uninterp spec fn trimmed(s: Seq<char>) -> Seq<char>;

/// Relies on `String::from_utf8_lossy`: the text depends on the bytes alone, and
/// ASCII bytes come out as the same characters.
#[verifier::external_body]
pub fn text_from_bytes(b: &[u8]) -> (r: String)
    ensures
        r@ == lossy_text(b@),
        all_ascii(b@) ==> r@ == ascii_chars(b@),
{
    String::from_utf8_lossy(b).into_owned()
}

/// Relies on `std::str::from_utf8`: it succeeds exactly on valid UTF-8.
#[verifier::external_body]
pub fn is_utf8(b: &[u8]) -> (r: bool)
    ensures
        r == valid_utf8(b@),
{
    std::str::from_utf8(b).is_ok()
}

/// Relies on `str::trim`: the result depends on the text alone.
#[verifier::external_body]
pub fn trim_text(s: &str) -> (r: &str)
    ensures
        r@ == trimmed(s@),
{
    s.trim()
}

/// Appends the bytes of an ASCII text.
pub fn push_ascii(out: &mut Vec<u8>, s: &str)
    requires
        is_ascii(s),
    ensures
        final(out)@ == old(out)@ + ascii_bytes(s@),
{
    broadcast use is_ascii_spec_bytes;

    let b = s.as_bytes();
    let ghost start = out@;
    let mut i: usize = 0;
    while i < b.len()
        invariant
            i <= b@.len(),
            b@ == s.spec_bytes(),
            is_ascii(s),
            out@ =~= start + b@.take(i as int),
        decreases b.len() - i,
    {
        out.push(b[i]);
        i += 1;
    }
    assert(b@.take(b@.len() as int) =~= b@);
    assert(ascii_bytes(s@) =~= b@);
}

/// The bytes of an ASCII text.
pub fn ascii_of(s: &str) -> (r: &[u8])
    requires
        is_ascii(s),
    ensures
        r@ == ascii_bytes(s@),
{
    broadcast use is_ascii_spec_bytes;

    let r = s.as_bytes();
    assert(r@ =~= ascii_bytes(s@));
    r
}

/// A copy of a byte slice.
pub fn copy_bytes(s: &[u8], from: usize, to: usize) -> (r: Vec<u8>)
    requires
        from <= to <= s@.len(),
    ensures
        r@ == s@.subrange(from as int, to as int),
{
    let mut out: Vec<u8> = Vec::new();
    let mut i: usize = from;
    while i < to
        invariant
            from <= i <= to,
            to <= s@.len(),
            out@ =~= s@.subrange(from as int, i as int),
        decreases to - i,
    {
        out.push(s[i]);
        i += 1;
    }
    out
}

/// Whether `t` occurs in `s` at position `at`.
pub open spec fn occurs_at(s: Seq<u8>, t: Seq<u8>, at: int) -> bool {
    0 <= at && at + t.len() <= s.len() && s.subrange(at, at + t.len()) == t
}

pub open spec fn contains_bytes(s: Seq<u8>, t: Seq<u8>) -> bool {
    exists|at: int| occurs_at(s, t, at)
}

pub fn find_bytes(s: &[u8], t: &[u8]) -> (r: bool)
    ensures
        r == contains_bytes(s@, t@),
{
    if t.len() > s.len() {
        return false;
    }
    let n: usize = s.len();
    let last: usize = n - t.len();
    let mut at: usize = 0;
    while at <= last
        invariant
            t@.len() <= s@.len(),
            last == s@.len() - t@.len(),
            n == s@.len(),
            at <= last + 1,
            forall|k: int| 0 <= k < at ==> !#[trigger] occurs_at(s@, t@, k),
        decreases s.len() - at,
    {
        let mut j: usize = 0;
        let mut same = true;
        while j < t.len()
            invariant
                at <= last,
                n == s@.len(),
                last == s@.len() - t@.len(),
                t@.len() <= s@.len(),
                j <= t@.len(),
                same == (forall|m: int| 0 <= m < j ==> s@[at + m] == t@[m]),
            decreases t.len() - j,
        {
            if s[at + j] != t[j] {
                same = false;
            }
            j += 1;
        }
        if same {
            assert(s@.subrange(at as int, at + t@.len()) =~= t@);
            assert(occurs_at(s@, t@, at as int));
            return true;
        }
        assert(!(s@.subrange(at as int, at + t@.len()) =~= t@));
        at += 1;
    }
    assert forall|k: int| !occurs_at(s@, t@, k) by {
        if k >= at && occurs_at(s@, t@, k) {
        }
    }
    false
}

/// The pieces of `s` between occurrences of `sep` (at least one piece).
pub open spec fn split_on(s: Seq<u8>, sep: u8) -> Seq<Seq<u8>>
    decreases s.len(),
{
    if s.len() == 0 {
        seq![Seq::<u8>::empty()]
    } else {
        let rest = split_on(s.drop_last(), sep);
        if s.last() == sep {
            rest.push(Seq::<u8>::empty())
        } else {
            rest.update(rest.len() - 1, rest.last().push(s.last()))
        }
    }
}

pub open spec fn vec_views(v: Seq<Vec<u8>>) -> Seq<Seq<u8>> {
    v.map_values(|x: Vec<u8>| x@)
}

/// Splits `s` on every `sep`, as `str::split` does.
pub fn split_bytes(s: &[u8], sep: u8) -> (r: Vec<Vec<u8>>)
    ensures
        vec_views(r@) == split_on(s@, sep),
{
    let mut parts: Vec<Vec<u8>> = Vec::new();
    parts.push(Vec::new());
    let mut i: usize = 0;
    assert(vec_views(parts@) =~= split_on(s@.take(0), sep));
    while i < s.len()
        invariant
            i <= s@.len(),
            parts@.len() >= 1,
            vec_views(parts@) =~= split_on(s@.take(i as int), sep),
        decreases s.len() - i,
    {
        let b = s[i];
        assert(s@.take(i + 1).drop_last() =~= s@.take(i as int));
        if b == sep {
            parts.push(Vec::new());
        } else {
            let mut cur = parts.pop().unwrap();
            cur.push(b);
            parts.push(cur);
        }
        i += 1;
        assert(vec_views(parts@) =~= split_on(s@.take(i as int), sep));
    }
    assert(s@.take(s@.len() as int) =~= s@);
    parts
}

} // verus!
