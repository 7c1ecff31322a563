use vstd::prelude::*;
use vstd::string::*;
use vstd::utf8::*;

use crate::gdb::bytes_eq;
use crate::text::{ascii_bytes, ascii_of};

verus! {

/// A program counter of a 32- or 64-bit target.
#[derive(Copy, Clone, Debug)]
pub enum PC {
    _64(u64),
    _32(u32),
}

pub open spec fn pc_value(pc: PC) -> nat {
    match pc {
        PC::_64(a) => a as nat,
        PC::_32(a) => a as nat,
    }
}

impl PC {
    /// `self + other`, in the same width.
    pub fn add(&self, other: u32) -> (r: Self)
        requires
            match *self {
                PC::_64(a) => a + other <= u64::MAX,
                PC::_32(a) => a + other <= u32::MAX,
            },
        ensures
            pc_value(r) == pc_value(*self) + other,
            (r is _32) == (*self is _32),
    {
        match self {
            Self::_64(a) => Self::_64(*a + other as u64),
            Self::_32(a) => Self::_32(*a + other),
        }
    }

    pub fn nz(&self) -> (r: bool)
        ensures
            r == (pc_value(*self) != 0),
    {
        match self {
            Self::_32(pc) => *pc != 0,
            Self::_64(pc) => *pc != 0,
        }
    }

    /// The low 32 bits.
    pub fn as_u32(&self) -> (r: u32)
        ensures
            r as nat == pc_value(*self) % 0x1_0000_0000,
    {
        match self {
            Self::_32(pc) => *pc,
            Self::_64(pc) => (*pc % 0x1_0000_0000) as u32,
        }
    }

    pub fn as_u64(&self) -> (r: u64)
        ensures
            r as nat == pc_value(*self),
    {
        match self {
            Self::_32(pc) => *pc as u64,
            Self::_64(pc) => *pc,
        }
    }
}

/// Where `.text` lies, in memory and in the file.
#[derive(Debug, Clone, Copy)]
pub struct TextSectionInfo {
    pub addr: u64,
    pub size: u64,
    pub file_offset: u64,
}

#[derive(Debug, Clone)]
pub struct SymbolInfo {
    pub name: String,
    pub addr: u64,
    pub size: u64,
}

/// A section header as the ELF file gives it.
#[derive(Debug, Clone)]
pub struct SectionHeader {
    pub name: String,
    pub addr: u64,
    pub size: u64,
    pub file_offset: u64,
}

/// What the debugger keeps of an ELF file.
#[derive(Debug, Clone)]
pub struct ElfInfo {
    pub entry_point: u64,
    pub is_32bit: bool,
    pub machine: u16,
    pub text_section: Option<TextSectionInfo>,
    /// Sorted by address.
    pub symbols: Vec<SymbolInfo>,
    pub elf_data: Vec<u8>,
}

#[derive(Debug, Clone, Copy, PartialEq, Eq, Structural)]
pub enum ElfError {
    /// `e_machine` is not RISC-V.
    NotRiscV,
    /// The file has no `.text` section.
    NoTextSection,
    /// The PC lies outside `.text`.
    OutsideText,
    /// `.text` points past the end of the file.
    BeyondData,
    /// Nothing decodes at the PC.
    Undecodable,
}

/// `EM_RISCV`
pub const EM_RISCV: u16 = 0xf3;

/// `ELFCLASS32`
pub const ELFCLASS32: u8 = 1;

pub open spec fn addrs_sorted(s: Seq<SymbolInfo>) -> bool {
    forall|i: int, j: int| 0 <= i <= j < s.len() ==> s[i].addr <= s[j].addr
}

pub open spec fn text_name() -> Seq<u8> {
    ascii_bytes(".text"@)
}

pub open spec fn name_bytes(s: String) -> Seq<u8> {
    encode_utf8(s@)
}

/// The symbols worth keeping: named, at a nonzero address.
pub open spec fn kept_symbol(s: SymbolInfo) -> bool {
    name_bytes(s.name).len() > 0 && s.addr != 0
}

/// The kept symbols, in their original order.
pub open spec fn kept_symbols(s: Seq<SymbolInfo>) -> Seq<SymbolInfo>
    decreases s.len(),
{
    if s.len() == 0 {
        Seq::empty()
    } else if kept_symbol(s.last()) {
        kept_symbols(s.drop_last()).push(s.last())
    } else {
        kept_symbols(s.drop_last())
    }
}

/// The first section named `.text`.
pub open spec fn first_text(sections: Seq<SectionHeader>, k: int) -> bool {
    &&& 0 <= k < sections.len()
    &&& name_bytes(sections[k].name) == text_name()
    &&& forall|j: int| 0 <= j < k ==> name_bytes(sections[j].name) != text_name()
}

impl ElfInfo {
    pub open spec fn wf(&self) -> bool {
        addrs_sorted(self.symbols@)
    }

    /// Builds the debugger's view of an ELF file from its header fields, its
    /// section headers and its symbol table.
    pub fn from_parts(
        entry_point: u64,
        class: u8,
        machine: u16,
        sections: Vec<SectionHeader>,
        symbols: Vec<SymbolInfo>,
        elf_data: Vec<u8>,
    ) -> (r: Result<ElfInfo, ElfError>)
        ensures
            machine != EM_RISCV ==> r == Err::<ElfInfo, ElfError>(ElfError::NotRiscV),
            machine == EM_RISCV ==> (r matches Ok(info) && {
                &&& info.wf()
                &&& info.entry_point == entry_point
                &&& info.is_32bit == (class == ELFCLASS32)
                &&& info.machine == machine
                &&& info.elf_data@ == elf_data@
                &&& info.symbols@.to_multiset() == kept_symbols(symbols@).to_multiset()
                &&& match info.text_section {
                    Some(t) => exists|k: int|
                        first_text(sections@, k) && t.addr == sections@[k].addr && t.size
                            == sections@[k].size && t.file_offset == sections@[k].file_offset,
                    None => forall|k: int|
                        0 <= k < sections@.len() ==> name_bytes(#[trigger] sections@[k].name)
                            != text_name(),
                }
            }),
    {
        if machine != EM_RISCV {
            return Err(ElfError::NotRiscV);
        }
        proof {
            reveal_strlit(".text");
        }
        let text = ascii_of(".text");
        let mut text_section: Option<TextSectionInfo> = None;
        let mut k: usize = 0;
        while k < sections.len() && text_section.is_none()
            invariant
                k <= sections@.len(),
                text@ == text_name(),
                text_section is None ==> forall|j: int|
                    0 <= j < k ==> name_bytes(#[trigger] sections@[j].name) != text_name(),
                text_section matches Some(t) ==> exists|q: int|
                    first_text(sections@, q) && t.addr == sections@[q].addr && t.size
                        == sections@[q].size && t.file_offset == sections@[q].file_offset,
            decreases sections.len() - k,
        {
            let s = &sections[k];
            if bytes_eq(s.name.as_str().as_bytes(), text) {
                text_section = Some(
                    TextSectionInfo { addr: s.addr, size: s.size, file_offset: s.file_offset },
                );
                assert(first_text(sections@, k as int));
            }
            k += 1;
        }
        let mut kept: Vec<SymbolInfo> = Vec::new();
        let mut i: usize = 0;
        proof {
            vstd::seq_lib::to_multiset_len(kept@);
            vstd::seq_lib::to_multiset_len(kept_symbols(symbols@.take(0)));
            vstd::multiset::lemma_multiset_empty_len(kept@.to_multiset());
            vstd::multiset::lemma_multiset_empty_len(kept_symbols(symbols@.take(0)).to_multiset());
        }
        while i < symbols.len()
            invariant
                i <= symbols@.len(),
                addrs_sorted(kept@),
                kept@.to_multiset() == kept_symbols(symbols@.take(i as int)).to_multiset(),
            decreases symbols.len() - i,
        {
            let sym = &symbols[i];
            assert(symbols@.take(i + 1).drop_last() =~= symbols@.take(i as int));
            assert(symbols@.take(i + 1).last() == symbols@[i as int]);
            proof {
                vstd::seq_lib::to_multiset_build(
                    kept_symbols(symbols@.take(i as int)),
                    symbols@[i as int],
                );
            }
            if sym.name.as_str().as_bytes().len() > 0 && sym.addr != 0 {
                let copy = SymbolInfo { name: sym.name.clone(), addr: sym.addr, size: sym.size };
                assert(copy == symbols@[i as int]);
                insert_sorted(&mut kept, copy);
            }
            i += 1;
        }
        assert(symbols@.take(symbols@.len() as int) =~= symbols@);
        Ok(
            ElfInfo {
                entry_point,
                is_32bit: class == ELFCLASS32,
                machine,
                text_section,
                symbols: kept,
                elf_data,
            },
        )
    }
}

/// Whether raki decodes a 16-bit word as an RV32 compressed instruction.
pub uninterp spec fn decodes_compressed(raw: u16) -> bool;

/// Whether raki decodes a 32-bit word as an RV32 instruction.
pub uninterp spec fn decodes_full(raw: u32) -> bool;

#[verifier::external_type_specification]
#[verifier::external_body]
pub struct ExRvInstruction(raki::Instruction);

/// Relies on raki's `Decode for u16` with `Isa::Rv32`: whether a word decodes
/// depends on the word alone, and the zero word never decodes.
#[verifier::external_body]
fn decode_compressed(raw: u16) -> (r: Option<raki::Instruction>)
    ensures
        r is Some == decodes_compressed(raw),
        raw == 0 ==> r is None,
{
    raki::Decode::decode(&raw, raki::Isa::Rv32).ok()
}

/// Relies on raki's `Decode for u32` with `Isa::Rv32`: whether a word decodes
/// depends on the word alone.
#[verifier::external_body]
fn decode_full(raw: u32) -> (r: Option<raki::Instruction>)
    ensures
        r is Some == decodes_full(raw),
{
    raki::Decode::decode(&raw, raki::Isa::Rv32).ok()
}

/// A decoded instruction, the PC it sits at, and its length in bytes (2 or 4).
pub struct DecodedInstruction(pub raki::Instruction, pub PC, pub u8);

impl DecodedInstruction {
    pub fn pc(&self) -> (r: &PC)
        ensures
            *r == self.1,
    {
        &self.1
    }
}

/// The little-endian 16-bit word at `s`.
pub open spec fn le16(b: Seq<u8>, s: int) -> u16 {
    (b[s] + b[s + 1] * 256) as u16
}

/// The little-endian 32-bit word at `s`.
pub open spec fn le32(b: Seq<u8>, s: int) -> u32 {
    (b[s] + b[s + 1] * 256 + b[s + 2] * 65536 + b[s + 3] * 16777216) as u32
}

/// How many bytes the instruction at `s` takes, as RISC-V encodes lengths:
/// low two bits `11` mean 32 bits, anything else 16 bits; 0 when the word of
/// that length does not decode.
pub open spec fn step_len(b: Seq<u8>, s: int) -> nat {
    if le16(b, s) % 4 == 3 {
        if decodes_full(le32(b, s)) {
            4
        } else {
            0
        }
    } else if decodes_compressed(le16(b, s)) {
        2
    } else {
        0
    }
}

/// The offsets of the instructions decoded from a 12-byte window, from `s` on.
pub open spec fn decode_plan(b: Seq<u8>, s: nat) -> Seq<nat>
    decreases 12 - s,
{
    if s + 4 >= 12 {
        Seq::empty()
    } else {
        let l = step_len(b, s as int);
        if l == 0 {
            Seq::empty()
        } else {
            seq![s] + decode_plan(b, s + l)
        }
    }
}

/// What decoding the window `b` at `pc` yields: an error when nothing decodes
/// at its start, else one instruction per planned offset, at `pc` plus it and
/// with the length the low bits give there.
pub open spec fn decoded_window(b: Seq<u8>, pc: PC, r: Result<Vec<DecodedInstruction>, ElfError>) -> bool {
    if step_len(b, 0) == 0 {
        r == Err::<Vec<DecodedInstruction>, ElfError>(ElfError::Undecodable)
    } else {
        r matches Ok(v) && {
            let plan = decode_plan(b, 0);
            &&& v@.len() == plan.len()
            &&& forall|i: int|
                0 <= i < plan.len() ==> pc_value((#[trigger] v@[i]).1) == pc_value(pc) + plan[i]
                    && v@[i].2 as nat == step_len(b, plan[i] as int)
        }
    }
}

/// Decodes the instructions of a 12-byte window that starts at `pc`: each is
/// read as 32 bits when its low two bits are `11`, else as 16 bits; decoding
/// stops at the first word that does not decode. Nothing decoding at the start
/// is an error.
pub fn decode_instructions(bytes: &[u8], pc: PC) -> (r: Result<Vec<DecodedInstruction>, ElfError>)
    requires
        bytes@.len() == 12,
        match pc {
            PC::_64(a) => a + 12 <= u64::MAX,
            PC::_32(a) => a + 12 <= u32::MAX,
        },
    ensures
        decoded_window(bytes@, pc, r),
{
    let mut rv: Vec<DecodedInstruction> = Vec::new();
    let mut start: usize = 0;
    let ghost mut done: Seq<nat> = Seq::empty();
    loop
        invariant
            bytes@.len() == 12,
            start <= 12,
            match pc {
                PC::_64(a) => a + 12 <= u64::MAX,
                PC::_32(a) => a + 12 <= u32::MAX,
            },
            decode_plan(bytes@, 0) == done + decode_plan(bytes@, start as nat),
            rv@.len() == done.len(),
            forall|i: int| 0 <= i < done.len() ==> pc_value((#[trigger] rv@[i]).1) == pc_value(pc) + done[i]
                && rv@[i].2 as nat == step_len(bytes@, done[i] as int),
            start == 0 ==> done.len() == 0,
            start > 0 ==> done.len() > 0,
        ensures
            decode_plan(bytes@, 0) == done,
            done.len() > 0,
            rv@.len() == done.len(),
            forall|i: int| 0 <= i < done.len() ==> pc_value((#[trigger] rv@[i]).1) == pc_value(pc) + done[i]
                && rv@[i].2 as nat == step_len(bytes@, done[i] as int),
        decreases 12 - start,
    {
        if start + 4 >= 12 {
            assert(done + decode_plan(bytes@, start as nat) =~= done);
            assert(start > 0);
            break;
        }
        let w16: u16 = bytes[start] as u16 + bytes[start + 1] as u16 * 256;
        let w32: u32 = bytes[start] as u32 + bytes[start + 1] as u32 * 256 + bytes[start + 2] as u32
            * 65536 + bytes[start + 3] as u32 * 16777216;
        let here = pc.add(start as u32);
        let ghost l = step_len(bytes@, start as int);
        let decoded = if w16 % 4 == 3 {
            match decode_full(w32) {
                Some(i) => Some((i, 4u8)),
                None => None,
            }
        } else {
            match decode_compressed(w16) {
                Some(i) => Some((i, 2u8)),
                None => None,
            }
        };
        let len: usize = match decoded {
            Some((inst, n)) => {
                rv.push(DecodedInstruction(inst, here, n));
                n as usize
            },
            None => {
                if start == 0 {
                    return Err(ElfError::Undecodable);
                }
                assert(done + decode_plan(bytes@, start as nat) =~= done);
                break;
            },
        };
        assert(len == l);
        proof {
            assert(done.push(start as nat) + decode_plan(bytes@, (start + len) as nat) =~= done + (
            seq![start as nat] + decode_plan(bytes@, (start + len) as nat)));
            done = done.push(start as nat);
        }
        start = start + len;
    }
    Ok(rv)
}

impl ElfInfo {
    /// The twelve bytes at `pc`: those of `.text` from `pc` on, zero past the
    /// section or the file.
    pub open spec fn instruction_window(&self, pc: PC) -> Result<Seq<u8>, ElfError> {
        match self.text_section {
            None => Err(ElfError::NoTextSection),
            Some(t) => {
                let p = pc_value(pc);
                if p < t.addr || p >= t.addr + t.size {
                    Err(ElfError::OutsideText)
                } else if t.file_offset + (p - t.addr) >= self.elf_data@.len() {
                    Err(ElfError::BeyondData)
                } else {
                    let start = t.file_offset + (p - t.addr);
                    let avail = if t.addr + t.size - p < 12 {
                        t.addr + t.size - p
                    } else {
                        12
                    };
                    Ok(
                        Seq::new(
                            12,
                            |i: int|
                                if i < avail && start + i < self.elf_data@.len() {
                                    self.elf_data@[start + i]
                                } else {
                                    0u8
                                },
                        ),
                    )
                }
            },
        }
    }

    /// Twelve bytes of `.text` from `pc` on, as the file holds them; bytes
    /// past the section or the file are zero.
    pub fn get_instruction_bytes_from_elf(&self, pc: PC) -> (r: Result<Vec<u8>, ElfError>)
        ensures
            match self.instruction_window(pc) {
                Ok(w) => r matches Ok(b) && b@ == w,
                Err(e) => r == Err::<Vec<u8>, ElfError>(e),
            },
    {
        let text = match self.text_section {
            Some(t) => t,
            None => {
                return Err(ElfError::NoTextSection);
            },
        };
        let p = pc.as_u64();
        if p < text.addr || p - text.addr >= text.size {
            return Err(ElfError::OutsideText);
        }
        let off = p - text.addr;
        let n = self.elf_data.len();
        let start = match text.file_offset.checked_add(off) {
            Some(s) => s,
            None => {
                return Err(ElfError::BeyondData);
            },
        };
        if start >= n as u64 {
            return Err(ElfError::BeyondData);
        }
        let start = start as usize;
        let avail: usize = if text.size - off < 12 {
            (text.size - off) as usize
        } else {
            12
        };
        let mut out: Vec<u8> = Vec::new();
        let mut i: usize = 0;
        while i < 12
            invariant
                i <= 12,
                n == self.elf_data@.len(),
                start < n,
                out@.len() == i,
                forall|k: int|
                    0 <= k < i ==> #[trigger] out@[k] == if k < avail && start + k
                        < self.elf_data@.len() {
                        self.elf_data@[start + k]
                    } else {
                        0u8
                    },
            decreases 12 - i,
        {
            if i < avail && i < n - start {
                out.push(self.elf_data[start + i]);
            } else {
                out.push(0);
            }
            i += 1;
        }
        Ok(out)
    }

    /// The instruction at `pc` and those after it in a 12-byte window.
    pub fn get_current_and_next_inst(&self, pc: PC) -> (r: Result<Vec<DecodedInstruction>, ElfError>)
        requires
            match pc {
                PC::_64(a) => a + 12 <= u64::MAX,
                PC::_32(a) => a + 12 <= u32::MAX,
            },
        ensures
            match self.instruction_window(pc) {
                Ok(w) => decoded_window(w, pc, r),
                Err(e) => r == Err::<Vec<DecodedInstruction>, ElfError>(e),
            },
    {
        let bytes = match self.get_instruction_bytes_from_elf(pc) {
            Ok(b) => b,
            Err(e) => {
                return Err(e);
            },
        };
        decode_instructions(bytes.as_slice(), pc)
    }

    /// The symbol that holds `addr`, and how far into it `addr` lies: the last
    /// symbol starting at or before `addr`, if `addr` is inside it or it has
    /// no size.
    pub fn find_symbol_at_address(&self, addr: u64) -> (r: Option<(&SymbolInfo, u64)>)
        requires
            self.wf(),
        ensures
            match symbol_for(self.symbols@, addr) {
                Some(k) => r matches Some((s, off)) && *s == self.symbols@[k] && off == addr
                    - self.symbols@[k].addr,
                None => r is None,
            },
    {
        let mut lo: usize = 0;
        let mut hi: usize = self.symbols.len();
        while lo < hi
            invariant
                self.wf(),
                lo <= hi <= self.symbols@.len(),
                forall|k: int| 0 <= k < lo ==> self.symbols@[k].addr <= addr,
                forall|k: int| hi <= k < self.symbols@.len() ==> self.symbols@[k].addr > addr,
            decreases hi - lo,
        {
            let mid = lo + (hi - lo) / 2;
            if self.symbols[mid].addr <= addr {
                lo = mid + 1;
            } else {
                hi = mid;
            }
        }
        if lo == 0 {
            proof {
                lemma_none_at_or_before(self.symbols@, addr);
            }
            return None;
        }
        let k = lo - 1;
        assert(last_at_or_before(self.symbols@, addr) == Some(k as int)) by {
            lemma_last_at_or_before(self.symbols@, addr, k as int);
        }
        let sym = &self.symbols[k];
        if sym.size == 0 || addr - sym.addr < sym.size {
            Some((sym, addr - sym.addr))
        } else {
            None
        }
    }
}

/// The last symbol, by position, that starts at or before `addr`.
pub open spec fn last_at_or_before(s: Seq<SymbolInfo>, addr: u64) -> Option<int>
    decreases s.len(),
{
    if s.len() == 0 {
        None
    } else if s.last().addr <= addr {
        Some(s.len() - 1)
    } else {
        last_at_or_before(s.drop_last(), addr)
    }
}

pub open spec fn symbol_for(s: Seq<SymbolInfo>, addr: u64) -> Option<int> {
    match last_at_or_before(s, addr) {
        Some(k) => if s[k].size == 0 || addr < s[k].addr + s[k].size {
            Some(k)
        } else {
            None
        },
        None => None,
    }
}

pub proof fn lemma_none_at_or_before(s: Seq<SymbolInfo>, addr: u64)
    requires
        forall|j: int| 0 <= j < s.len() ==> s[j].addr > addr,
    ensures
        last_at_or_before(s, addr) is None,
    decreases s.len(),
{
    if s.len() > 0 {
        lemma_none_at_or_before(s.drop_last(), addr);
    }
}

pub proof fn lemma_last_at_or_before(s: Seq<SymbolInfo>, addr: u64, k: int)
    requires
        0 <= k < s.len(),
        s[k].addr <= addr,
        forall|j: int| k < j < s.len() ==> s[j].addr > addr,
    ensures
        last_at_or_before(s, addr) == Some(k),
    decreases s.len(),
{
    if k < s.len() - 1 {
        lemma_last_at_or_before(s.drop_last(), addr, k);
    }
}

pub open spec fn start_name() -> Seq<u8> {
    ascii_bytes("_start"@)
}

pub open spec fn main_name() -> Seq<u8> {
    ascii_bytes("main"@)
}

/// The address of the first `_start` symbol, if any.
pub open spec fn first_start(s: Seq<SymbolInfo>) -> Option<u64>
    decreases s.len(),
{
    if s.len() == 0 {
        None
    } else {
        match first_start(s.drop_last()) {
            Some(a) => Some(a),
            None => if name_bytes(s.last().name) == start_name() {
                Some(s.last().addr)
            } else {
                None
            },
        }
    }
}

/// The address of the last `main` symbol, else `entry`.
pub open spec fn last_main(s: Seq<SymbolInfo>, entry: u64) -> u64
    decreases s.len(),
{
    if s.len() == 0 {
        entry
    } else if name_bytes(s.last().name) == main_name() {
        s.last().addr
    } else {
        last_main(s.drop_last(), entry)
    }
}

/// Where execution starts: `_start` if the symbol table has it, else `main`,
/// else the ELF entry point.
pub fn select_first_pc(entry: u64, symbols: &Vec<SymbolInfo>) -> (r: u64)
    ensures
        r == match first_start(symbols@) {
            Some(a) => a,
            None => last_main(symbols@, entry),
        },
{
    proof {
        reveal_strlit("_start");
        reveal_strlit("main");
    }
    let start_bytes = ascii_of("_start");
    let main_bytes = ascii_of("main");
    let mut first_pc = entry;
    let mut i: usize = 0;
    while i < symbols.len()
        invariant
            i <= symbols@.len(),
            start_bytes@ == start_name(),
            main_bytes@ == main_name(),
            first_start(symbols@.take(i as int)) is None,
            first_pc == last_main(symbols@.take(i as int), entry),
        decreases symbols.len() - i,
    {
        let name = symbols[i].name.as_str().as_bytes();
        assert(symbols@.take(i + 1).drop_last() =~= symbols@.take(i as int));
        assert(symbols@.take(i + 1).last() == symbols@[i as int]);
        if bytes_eq(name, start_bytes) {
            proof {
                lemma_first_start_prefix(symbols@, i as int + 1);
            }
            return symbols[i].addr;
        }
        if bytes_eq(name, main_bytes) {
            first_pc = symbols[i].addr;
        }
        i += 1;
    }
    assert(symbols@.take(symbols@.len() as int) =~= symbols@);
    first_pc
}

/// Once a prefix has a `_start`, the whole sequence has the same first one.
pub proof fn lemma_first_start_prefix(s: Seq<SymbolInfo>, i: int)
    requires
        0 <= i <= s.len(),
        first_start(s.take(i)) is Some,
    ensures
        first_start(s) == first_start(s.take(i)),
    decreases s.len() - i,
{
    if i < s.len() {
        assert(s.take(i + 1).drop_last() =~= s.take(i));
        lemma_first_start_prefix(s, i + 1);
    } else {
        assert(s.take(i) =~= s);
    }
}

/// Inserts `x` after every symbol at an address no higher than its own.
pub fn insert_sorted(v: &mut Vec<SymbolInfo>, x: SymbolInfo)
    requires
        addrs_sorted(old(v)@),
    ensures
        addrs_sorted(final(v)@),
        final(v)@.to_multiset() == old(v)@.to_multiset().insert(x),
{
    let mut p: usize = v.len();
    while p > 0 && v[p - 1].addr > x.addr
        invariant
            p <= v@.len(),
            *v == *old(v),
            forall|j: int| p <= j < v@.len() ==> v@[j].addr > x.addr,
        decreases p,
    {
        p -= 1;
    }
    proof {
        vstd::seq_lib::to_multiset_insert(v@, p as int, x);
    }
    v.insert(p, x);
}

} // verus!
