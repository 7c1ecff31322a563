use vstd::prelude::*;
use vstd::string::*;
use vstd::utf8::*;

use crate::hex::{push_radix_digits, radix_digits};
use crate::runtime::Waver;
use crate::text::{all_ascii, ascii_bytes, ascii_chars, is_utf8, lossy_text, push_ascii, text_from_bytes};

verus! {

pub open spec fn empty_cmd_reply() -> Seq<char> {
    "WHAT DID YOU SAY?! SPEAK UP! I WILL CRAWL THROUGH THE TERMINAL :)! I AM JUST BEING SILLY!"@
}

/// The console text a monitor command prints, as bytes, ending in a newline.
pub open spec fn monitor_reply(cmd: Seq<u8>, time_idx: u32) -> Seq<u8> {
    if !valid_utf8(cmd) {
        ascii_bytes("command must be valid UTF-8"@).push(10)
    } else if cmd.len() == 0 {
        ascii_bytes(empty_cmd_reply()).push(10)
    } else if cmd == ascii_bytes("time_idx"@) {
        radix_digits(time_idx as nat, 10).push(10)
    } else {
        (ascii_bytes("I don't know how to handle '"@) + cmd + seq![39u8]).push(10)
    }
}

pub proof fn lemma_radix_digits_ascii(n: nat, radix: nat)
    ensures
        all_ascii(radix_digits(n, radix)),
        radix_digits(n, radix).len() > 0,
    decreases n,
{
    let r: nat = if radix == 16 {
        16
    } else {
        10
    };
    if n >= r {
        lemma_radix_digits_ascii(n / r, radix);
    }
}

/// Copies up to `length` bytes of `src` from `offset` on into `dest`, as far
/// as `dest` holds; returns how many were copied.
pub fn copy_range_to_buf(src: &[u8], offset: u64, length: usize, dest: &mut [u8]) -> (r: Result<
    usize,
    (),
>)
    ensures
        final(dest)@.len() == old(dest)@.len(),
        r matches Ok(n) && n as int == copy_count(src@.len(), offset, length, old(dest)@.len()),
        ({
            let n = copy_count(src@.len(), offset, length, old(dest)@.len());
            &&& forall|i: int| 0 <= i < n ==> #[trigger] final(dest)@[i] == src@[offset + i]
            &&& forall|i: int| n <= i < old(dest)@.len() ==> #[trigger] final(dest)@[i] == old(
                dest,
            )@[i]
        }),
{
    let n = src.len();
    if offset >= n as u64 {
        return Ok(0);
    }
    let start = offset as usize;
    let mut copy_len = n - start;
    if length < copy_len {
        copy_len = length;
    }
    if dest.len() < copy_len {
        copy_len = dest.len();
    }
    let mut i: usize = 0;
    while i < copy_len
        invariant
            i <= copy_len,
            copy_len <= dest@.len(),
            dest@.len() == old(dest)@.len(),
            start + copy_len <= src@.len(),
            n == src@.len(),
            start == offset,
            forall|k: int| 0 <= k < i ==> #[trigger] dest@[k] == src@[start + k],
            forall|k: int| i <= k < dest@.len() ==> #[trigger] dest@[k] == old(dest)@[k],
        decreases copy_len - i,
    {
        dest[i] = src[start + i];
        i += 1;
    }
    Ok(copy_len)
}

/// How many bytes `copy_range_to_buf` copies.
pub open spec fn copy_count(src_len: nat, offset: u64, length: usize, dest_len: nat) -> int {
    if offset >= src_len {
        0
    } else {
        let avail = src_len - offset;
        let a = if length < avail {
            length as int
        } else {
            avail
        };
        if dest_len < a {
            dest_len as int
        } else {
            a
        }
    }
}

impl Waver {
    /// Runs a monitor command: `time_idx` prints the cursor's time index, an
    /// empty command a canned answer, anything else a refusal.
    pub fn handle_monitor_cmd(&self, cmd: &[u8]) -> (r: String)
        ensures
            r@ == lossy_text(monitor_reply(cmd@, self.cursor.time_idx)),
            all_ascii(cmd@) ==> r@ == ascii_chars(monitor_reply(cmd@, self.cursor.time_idx)),
    {
        let mut out: Vec<u8> = Vec::new();
        proof {
            reveal_strlit("command must be valid UTF-8");
            reveal_strlit(
                "WHAT DID YOU SAY?! SPEAK UP! I WILL CRAWL THROUGH THE TERMINAL :)! I AM JUST BEING SILLY!",
            );
            reveal_strlit("time_idx");
            reveal_strlit("I don't know how to handle '");
        }
        if !is_utf8(cmd) {
            push_ascii(&mut out, "command must be valid UTF-8");
        } else if cmd.len() == 0 {
            push_ascii(
                &mut out,
                "WHAT DID YOU SAY?! SPEAK UP! I WILL CRAWL THROUGH THE TERMINAL :)! I AM JUST BEING SILLY!",
            );
        } else if bytes_eq(cmd, crate::text::ascii_of("time_idx")) {
            push_radix_digits(&mut out, self.cursor.time_idx as u64, 10);
            proof {
                lemma_radix_digits_ascii(self.cursor.time_idx as nat, 10);
            }
        } else {
            push_ascii(&mut out, "I don't know how to handle '");
            let mut i: usize = 0;
            let ghost before = out@;
            while i < cmd.len()
                invariant
                    i <= cmd@.len(),
                    out@ =~= before + cmd@.take(i as int),
                decreases cmd.len() - i,
            {
                out.push(cmd[i]);
                i += 1;
            }
            assert(cmd@.take(cmd@.len() as int) =~= cmd@);
            out.push(39);
        }
        out.push(10);
        let ghost reply = monitor_reply(cmd@, self.cursor.time_idx);
        assert(out@ =~= reply);
        text_from_bytes(out.as_slice())
    }

    /// `qXfer:exec-file:read`: a chunk of the path of the loaded executable
    /// (the path, not the file's content).
    pub fn get_exec_file(&self, offset: u64, length: usize, buf: &mut [u8]) -> (r: Result<
        usize,
        (),
    >)
        ensures
            final(buf)@.len() == old(buf)@.len(),
            ({
                let path = encode_utf8(self.elf_path@);
                let n = copy_count(path.len(), offset, length, old(buf)@.len());
                &&& r matches Ok(k) && k as int == n
                &&& forall|i: int| 0 <= i < n ==> #[trigger] final(buf)@[i] == path[offset + i]
                &&& forall|i: int| n <= i < old(buf)@.len() ==> #[trigger] final(buf)@[i] == old(
                    buf,
                )@[i]
            }),
    {
        let path_bytes = self.elf_path.as_str().as_bytes();
        copy_range_to_buf(path_bytes, offset, length, buf)
    }
}

/// Byte-wise equality.
pub fn bytes_eq(a: &[u8], b: &[u8]) -> (r: bool)
    ensures
        r == (a@ == b@),
{
    if a.len() != b.len() {
        return false;
    }
    let mut i: usize = 0;
    while i < a.len()
        invariant
            i <= a@.len(),
            a@.len() == b@.len(),
            forall|k: int| 0 <= k < i ==> a@[k] == b@[k],
        decreases a.len() - i,
    {
        if a[i] != b[i] {
            return false;
        }
        i += 1;
    }
    assert(a@ =~= b@);
    true
}

} // verus!
