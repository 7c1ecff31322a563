use vstd::prelude::*;
use vstd::string::*;
use vstd::utf8::*;

use crate::gdb::bytes_eq;
use crate::hex::{push_radix_digits, radix_digits};
use crate::text::{ascii_bytes, copy_bytes, lossy_text, text_from_bytes};

verus! {

/// The name of general-purpose register `i`: `x` and its number.
pub open spec fn gpr_name(i: nat) -> Seq<u8> {
    seq![120u8] + radix_digits(i, 10)
}

/// The signals the engine needs, in order: `pc`, then `x0`..`x31`.
pub open spec fn required_names() -> Seq<Seq<u8>> {
    seq![ascii_bytes("pc"@)] + Seq::new(32, |i: int| gpr_name(i as nat))
}

fn gpr_name_bytes(i: u64) -> (r: Vec<u8>)
    ensures
        r@ == gpr_name(i as nat),
{
    let mut v: Vec<u8> = Vec::new();
    v.push(120);
    push_radix_digits(&mut v, i, 10);
    v
}

/// The names of the required signals, as bytes.
pub fn required_signal_names() -> (r: Vec<Vec<u8>>)
    ensures
        r@.len() == 33,
        forall|i: int| 0 <= i < 33 ==> (#[trigger] r@[i])@ == required_names()[i],
{
    proof {
        reveal_strlit("pc");
    }
    let mut out: Vec<Vec<u8>> = Vec::new();
    let mut pc: Vec<u8> = Vec::new();
    crate::text::push_ascii(&mut pc, "pc");
    out.push(pc);
    let mut i: u64 = 0;
    while i < 32
        invariant
            i <= 32,
            out@.len() == i + 1,
            out@[0]@ == ascii_bytes("pc"@),
            forall|k: int| 1 <= k <= i ==> (#[trigger] out@[k])@ == gpr_name((k - 1) as nat),
        decreases 32 - i,
    {
        out.push(gpr_name_bytes(i));
        i += 1;
    }
    out
}

pub open spec fn names_bytes(v: Seq<String>) -> Seq<Seq<u8>> {
    v.map_values(|s: String| encode_utf8(s@))
}

/// The required signal names missing from `available`, in order.
pub open spec fn missing_names(available: Seq<Seq<u8>>, req: Seq<Seq<u8>>) -> Seq<Seq<u8>>
    decreases req.len(),
{
    if req.len() == 0 {
        Seq::empty()
    } else if available.contains(req.last()) {
        missing_names(available, req.drop_last())
    } else {
        missing_names(available, req.drop_last()).push(req.last())
    }
}

fn contains_name(available: &Vec<String>, name: &[u8]) -> (r: bool)
    ensures
        r == names_bytes(available@).contains(name@),
{
    let mut i: usize = 0;
    while i < available.len()
        invariant
            i <= available@.len(),
            forall|k: int| 0 <= k < i ==> names_bytes(available@)[k] != name@,
        decreases available.len() - i,
    {
        if bytes_eq(available[i].as_str().as_bytes(), name) {
            assert(names_bytes(available@)[i as int] == name@);
            return true;
        }
        i += 1;
    }
    false
}

/// Which of `pc` and `x0`..`x31` a signal map lacks; the engine can be built
/// only when none is missing. Extra names are ignored.
pub fn missing_signals(available: &Vec<String>) -> (r: Vec<String>)
    ensures
        r@.len() == missing_names(names_bytes(available@), required_names()).len(),
        forall|i: int|
            0 <= i < r@.len() ==> (#[trigger] r@[i])@ == lossy_text(
                missing_names(names_bytes(available@), required_names())[i],
            ),
{
    let req = required_signal_names();
    let ghost rv = req@.map_values(|v: Vec<u8>| v@);
    assert(rv =~= required_names());
    let ghost avail = names_bytes(available@);
    let mut out: Vec<String> = Vec::new();
    let mut i: usize = 0;
    while i < req.len()
        invariant
            i <= req@.len(),
            req@.len() == 33,
            rv == req@.map_values(|v: Vec<u8>| v@),
            rv == required_names(),
            avail == names_bytes(available@),
            out@.len() == missing_names(avail, rv.take(i as int)).len(),
            forall|k: int|
                0 <= k < out@.len() ==> (#[trigger] out@[k])@ == lossy_text(
                    missing_names(avail, rv.take(i as int))[k],
                ),
        decreases req.len() - i,
    {
        assert(rv.take(i + 1).drop_last() =~= rv.take(i as int));
        assert(rv.take(i + 1).last() == req@[i as int]@);
        if !contains_name(available, req[i].as_slice()) {
            out.push(text_from_bytes(req[i].as_slice()));
        }
        i += 1;
    }
    assert(rv.take(33) =~= rv);
    out
}

/// Splits a signal-map line at its first `=`.
pub fn split_mapping_line(line: &[u8]) -> (r: Option<(Vec<u8>, Vec<u8>)>)
    ensures
        match r {
            Some((a, b)) => exists|k: int|
                0 <= k < line@.len() && line@[k] == 61 && (forall|j: int| 0 <= j < k ==> line@[j] != 61)
                    && a@ == line@.subrange(0, k) && b@ == line@.subrange(k + 1, line@.len() as int),
            None => forall|k: int| 0 <= k < line@.len() ==> line@[k] != 61,
        },
{
    let n = line.len();
    let mut k: usize = 0;
    while k < n && line[k] != 61
        invariant
            k <= n,
            n == line@.len(),
            forall|j: int| 0 <= j < k ==> line@[j] != 61,
        decreases n - k,
    {
        k += 1;
    }
    if k == n {
        return None;
    }
    Some((copy_bytes(line, 0, k), copy_bytes(line, k + 1, n)))
}

} // verus!
