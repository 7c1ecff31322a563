use std::collections::BTreeMap;

use vstd::arithmetic::power2::pow2;
use vstd::multiset::Multiset;
use vstd::prelude::*;

verus! {

/// Why stepping stopped.
#[derive(Debug, Copy, Clone, PartialEq, Eq, Structural)]
pub enum Event {
    DoneStep,
    Halted,
    Break,
}

/// How the target runs when it is resumed.
#[derive(Debug, Copy, Clone, PartialEq, Eq, Structural)]
pub enum ExecMode {
    Step,
    Continue,
    /// Step while the PC stays within `[start, end)`.
    RangeStep(u32, u32),
    /// Step back to the previous change point of the PC.
    ReverseStep,
    /// Step back until a breakpoint or the start of the capture.
    ReverseContinue,
}

/// What a run of the engine ended with.
#[derive(Debug, Copy, Clone, PartialEq, Eq, Structural)]
pub enum RunEvent {
    /// The debugger sent data; the caller reads it.
    IncomingData,
    Event(Event),
}

pub open spec fn strictly_increasing(s: Seq<u32>) -> bool {
    forall|i: int, j: int| 0 <= i < j < s.len() ==> s[i] < s[j]
}

/// A captured signal: the time indices at which it changes, the value it takes
/// at each of them, and its bit width.
pub struct WaveSignal {
    pub times: Vec<u32>,
    pub values: Vec<u32>,
    pub width: u32,
}

/// The signals the engine needs: the program counter and `x0`..`x31`.
pub struct RequiredWaves {
    pub pc: WaveSignal,
    pub gprs: Vec<WaveSignal>,
}

/// The position of the engine in the capture.
pub struct WaveCursor {
    /// The current time index; always a change point of the PC signal.
    pub time_idx: u32,
    /// The position of `time_idx` among the PC signal's change points.
    pub pc_change: usize,
    /// The change points of all required signals, merged in order.
    pub all_changes: Vec<u32>,
    /// The absolute time of each time index.
    pub all_times: Vec<u64>,
}

/// Read-only memory: bytes at 32-bit addresses, zero where nothing was loaded.
pub struct DummyMem {
    mem: BTreeMap<u32, u8>,
}

/// The waveform-backed target.
pub struct Waver {
    pub waves: RequiredWaves,
    pub cursor: WaveCursor,
    pub mem: DummyMem,
    pub breakpoints: Vec<u32>,
    pub exec_mode: ExecMode,
    pub elf_path: String,
}

/// Why a target could not be assembled.
#[derive(Debug, Copy, Clone, PartialEq, Eq, Structural)]
pub enum WaverError {
    /// Not exactly 32 general-purpose registers.
    WrongRegisterCount,
    /// The PC signal never takes the first PC.
    FirstPcNotFound,
}

impl WaveSignal {
    pub open spec fn wf(&self) -> bool {
        &&& self.times@.len() == self.values@.len()
        &&& strictly_increasing(self.times@)
        &&& self.width <= 32
        &&& forall|i: int|
            0 <= i < self.values@.len() ==> (#[trigger] self.values@[i] as nat) < pow2(
                self.width as nat,
            )
    }

    /// The change point in force at `idx`: the last one at or before it.
    pub open spec fn change_at(&self, idx: u32, k: int) -> bool {
        &&& 0 <= k < self.times@.len()
        &&& self.times@[k] <= idx
        &&& (k + 1 == self.times@.len() || self.times@[k + 1] > idx)
    }

    pub open spec fn spec_value_at(&self, idx: u32) -> Option<u32> {
        if exists|k: int| self.change_at(idx, k) {
            Some(self.values@[choose|k: int| self.change_at(idx, k)])
        } else {
            None
        }
    }

    /// Checks and builds a signal.
    pub fn new(times: Vec<u32>, values: Vec<u32>, width: u32) -> (r: Option<WaveSignal>)
        ensures
            r matches Some(s) ==> s.wf() && s.times@ == times@ && s.values@ == values@ && s.width
                == width,
            r is None ==> !(WaveSignal { times, values, width }).wf(),
    {
        let ghost cand = WaveSignal { times, values, width };
        if times.len() != values.len() || width > 32 {
            return None;
        }
        let mut limit: u64 = 1;
        let mut w: u32 = 0;
        proof {
            vstd::arithmetic::power2::lemma2_to64();
        }
        while w < width
            invariant
                w <= width <= 32,
                limit as nat == pow2(w as nat),
            decreases width - w,
        {
            proof {
                vstd::arithmetic::power2::lemma_pow2_unfold((w + 1) as nat);
                if w + 1 < 32 {
                    vstd::arithmetic::power2::lemma_pow2_strictly_increases((w + 1) as nat, 32);
                }
                vstd::arithmetic::power2::lemma2_to64();
            }
            limit = limit * 2;
            w += 1;
        }
        let mut i: usize = 0;
        while i < times.len()
            invariant
                i <= times@.len(),
                times@.len() == values@.len(),
                limit as nat == pow2(width as nat),
                forall|a: int, b: int| 0 <= a < b < i ==> times@[a] < times@[b],
                forall|a: int| 0 <= a < i ==> (#[trigger] values@[a] as nat) < pow2(width as nat),
            decreases times.len() - i,
        {
            if values[i] as u64 >= limit {
                return None;
            }
            if i > 0 && times[i - 1] >= times[i] {
                return None;
            }
            assert forall|a: int, b: int| 0 <= a < b < i + 1 implies times@[a] < times@[b] by {
                if b == i && a < i - 1 {
                    assert(times@[a] < times@[i - 1]);
                }
            }
            i += 1;
        }
        Some(WaveSignal { times, values, width })
    }

    /// Builds a signal from its change points and, for each, its bit vector
    /// as big-endian bytes; each value keeps its low 32 bits and the width is
    /// capped at 32.
    pub fn from_be_changes(times: Vec<u32>, raw: Vec<Vec<u8>>, width: u32) -> (r: Option<WaveSignal>)
        ensures
            r is Some <==> {
                &&& times@.len() == raw@.len()
                &&& strictly_increasing(times@)
                &&& forall|i: int|
                    0 <= i < raw@.len() ==> be_value((#[trigger] raw@[i])@) % 0x1_0000_0000 < pow2(
                        capped_width(width) as nat,
                    )
            },
            r matches Some(s) ==> {
                &&& s.wf()
                &&& s.times@ == times@
                &&& s.width == capped_width(width)
                &&& forall|i: int|
                    0 <= i < raw@.len() ==> (#[trigger] s.values@[i]) as nat == be_value(raw@[i]@)
                        % 0x1_0000_0000
            },
    {
        let mut values: Vec<u32> = Vec::new();
        let mut i: usize = 0;
        while i < raw.len()
            invariant
                i <= raw@.len(),
                values@.len() == i,
                forall|k: int|
                    0 <= k < i ==> (#[trigger] values@[k]) as nat == be_value(raw@[k]@) % 0x1_0000_0000,
            decreases raw.len() - i,
        {
            values.push(value_from_be_bytes(raw[i].as_slice()));
            i += 1;
        }
        let w = if width > 32 {
            32
        } else {
            width
        };
        let r = WaveSignal::new(times, values, w);
        proof {
            if r is Some {
                assert forall|i: int| 0 <= i < raw@.len() implies be_value((#[trigger] raw@[i])@)
                    % 0x1_0000_0000 < pow2(capped_width(width) as nat) by {
                    assert((values@[i] as nat) < pow2(w as nat));
                }
            }
            if r is None && times@.len() == raw@.len() && strictly_increasing(times@) {
                let cand = WaveSignal { times, values, width: w };
                assert(!cand.wf());
                let i = choose|i: int|
                    0 <= i < values@.len() && !((values@[i] as nat) < pow2(w as nat));
                assert(be_value(raw@[i]@) % 0x1_0000_0000 >= pow2(capped_width(width) as nat));
            }
        }
        r
    }

    /// The value in force at time index `idx`, found by binary search; `None`
    /// before the first change.
    pub fn value_at(&self, idx: u32) -> (r: Option<u32>)
        requires
            self.wf(),
        ensures
            r == self.spec_value_at(idx),
    {
        let mut lo: usize = 0;
        let mut hi: usize = self.times.len();
        while lo < hi
            invariant
                self.wf(),
                lo <= hi <= self.times@.len(),
                forall|k: int| 0 <= k < lo ==> self.times@[k] <= idx,
                forall|k: int| hi <= k < self.times@.len() ==> self.times@[k] > idx,
            decreases hi - lo,
        {
            let mid = lo + (hi - lo) / 2;
            if self.times[mid] <= idx {
                assert forall|k: int| 0 <= k < mid + 1 implies self.times@[k] <= idx by {
                    if k < mid {
                        assert(self.times@[k] < self.times@[mid as int]);
                    }
                }
                lo = mid + 1;
            } else {
                assert forall|k: int| mid <= k < self.times@.len() implies self.times@[k] > idx by {
                    if k > mid {
                        assert(self.times@[mid as int] < self.times@[k]);
                    }
                }
                hi = mid;
            }
        }
        if lo == 0 {
            assert forall|k: int| !self.change_at(idx, k) by {
                if 0 <= k < self.times@.len() {
                    assert(self.times@[k] > idx);
                }
            }
            None
        } else {
            let k = lo - 1;
            assert(self.change_at(idx, k as int));
            proof {
                let c = choose|c: int| self.change_at(idx, c);
                self.lemma_change_unique(idx, k as int, c);
            }
            Some(self.values[k])
        }
    }

    pub proof fn lemma_change_unique(&self, idx: u32, a: int, b: int)
        requires
            self.wf(),
            self.change_at(idx, a),
            self.change_at(idx, b),
        ensures
            a == b,
    {
        if a < b {
            assert(self.times@[a + 1] <= self.times@[b]);
        } else if b < a {
            assert(self.times@[b + 1] <= self.times@[a]);
        }
    }

    /// At one of its own change points a signal has the value of that change.
    pub proof fn lemma_value_at_change(&self, k: int)
        requires
            self.wf(),
            0 <= k < self.times@.len(),
        ensures
            self.spec_value_at(self.times@[k]) == Some(self.values@[k]),
    {
        assert(self.change_at(self.times@[k], k));
        let c = choose|c: int| self.change_at(self.times@[k], c);
        self.lemma_change_unique(self.times@[k], k, c);
    }

    /// The first change point at which the signal takes `value`.
    pub fn find_idx(&self, value: u32) -> (r: Option<usize>)
        requires
            self.wf(),
        ensures
            r matches Some(k) ==> k < self.values@.len() && self.values@[k as int] == value
                && forall|j: int| 0 <= j < k ==> self.values@[j] != value,
            r is None ==> forall|j: int| 0 <= j < self.values@.len() ==> self.values@[j] != value,
    {
        let mut i: usize = 0;
        while i < self.values.len()
            invariant
                i <= self.values@.len(),
                forall|j: int| 0 <= j < i ==> self.values@[j] != value,
            decreases self.values.len() - i,
        {
            if self.values[i] == value {
                return Some(i);
            }
            i += 1;
        }
        None
    }
}

/// A declared width, capped at the 32 bits a value holds.
pub open spec fn capped_width(width: u32) -> u32 {
    if width > 32 {
        32
    } else {
        width
    }
}

/// The value of big-endian bytes, most significant first.
pub open spec fn be_value(s: Seq<u8>) -> nat
    decreases s.len(),
{
    if s.len() == 0 {
        0
    } else {
        (be_value(s.drop_last()) * 256 + s.last()) as nat
    }
}

/// A signal's bit vector, most significant byte first, read as a `u32`; wider
/// vectors keep their low 32 bits.
pub fn value_from_be_bytes(bytes: &[u8]) -> (r: u32)
    ensures
        r as nat == be_value(bytes@) % 0x1_0000_0000,
{
    let mut acc: u32 = 0;
    let mut i: usize = 0;
    while i < bytes.len()
        invariant
            i <= bytes@.len(),
            acc as nat == be_value(bytes@.take(i as int)) % 0x1_0000_0000,
        decreases bytes.len() - i,
    {
        let b = bytes[i];
        let ghost prev = be_value(bytes@.take(i as int));
        assert(bytes@.take(i + 1).drop_last() =~= bytes@.take(i as int));
        let next: u64 = (acc as u64) * 256 + b as u64;
        proof {
            vstd::arithmetic::div_mod::lemma_mul_mod_noop_left(prev as int, 256, 0x1_0000_0000);
            vstd::arithmetic::div_mod::lemma_add_mod_noop(
                (prev * 256) as int,
                b as int,
                0x1_0000_0000,
            );
            vstd::arithmetic::div_mod::lemma_add_mod_noop(
                ((prev % 0x1_0000_0000) * 256) as int,
                b as int,
                0x1_0000_0000,
            );
            vstd::arithmetic::div_mod::lemma_small_mod(b as nat, 0x1_0000_0000);
        }
        acc = (next % 0x1_0000_0000) as u32;
        i += 1;
    }
    assert(bytes@.take(bytes@.len() as int) =~= bytes@);
    acc
}

impl DummyMem {
    pub closed spec fn view(&self) -> Map<u32, u8> {
        self.mem@
    }

    /// The byte at `addr`: what was written there, else zero.
    pub open spec fn byte_at(&self, addr: u32) -> u8 {
        if self.view().contains_key(addr) {
            self.view()[addr]
        } else {
            0
        }
    }

    pub fn new() -> (r: Self)
        ensures
            r.view() == Map::<u32, u8>::empty(),
    {
        DummyMem { mem: BTreeMap::new() }
    }

    pub fn w8(&mut self, addr: u32, val: u8)
        ensures
            final(self).view() == old(self).view().insert(addr, val),
    {
        broadcast use vstd::std_specs::btree::group_btree_axioms;

        self.mem.insert(addr, val);
    }

    pub fn r8(&self, addr: u32) -> (r: u8)
        ensures
            r == self.byte_at(addr),
    {
        broadcast use vstd::std_specs::btree::group_btree_axioms;

        match self.mem.get(&addr) {
            Some(v) => *v,
            None => 0,
        }
    }

    /// Four bytes from `addr` on, little-endian.
    pub fn r32(&self, addr: u32) -> (r: u32)
        requires
            addr <= u32::MAX - 3,
        ensures
            r as nat == self.byte_at(addr) as nat + self.byte_at((addr + 1) as u32) as nat * 0x100
                + self.byte_at((addr + 2) as u32) as nat * 0x1_0000 + self.byte_at(
                (addr + 3) as u32,
            ) as nat * 0x100_0000,
    {
        let b0 = self.r8(addr) as u32;
        let b1 = self.r8(addr + 1) as u32;
        let b2 = self.r8(addr + 2) as u32;
        let b3 = self.r8(addr + 3) as u32;
        b0 + b1 * 0x100 + b2 * 0x1_0000 + b3 * 0x100_0000
    }

    /// Copies `data` to the addresses from `addr` on.
    pub fn load(&mut self, addr: u32, data: &[u8])
        requires
            addr as nat + data@.len() <= 0x1_0000_0000,
        ensures
            forall|i: int|
                0 <= i < data@.len() ==> #[trigger] final(self).byte_at((addr + i) as u32)
                    == data@[i],
            forall|a: u32|
                !(addr <= a < addr + data@.len()) ==> #[trigger] final(self).byte_at(a)
                    == old(self).byte_at(a),
    {
        let mut i: usize = 0;
        while i < data.len()
            invariant
                i <= data@.len(),
                addr as nat + data@.len() <= 0x1_0000_0000,
                forall|k: int|
                    0 <= k < i ==> #[trigger] self.byte_at((addr + k) as u32) == data@[k],
                forall|a: u32|
                    !(addr <= a < addr + i) ==> #[trigger] self.byte_at(a) == old(self).byte_at(a),
            decreases data.len() - i,
        {
            let ghost before = *self;
            self.w8(addr + i as u32, data[i]);
            proof {
                assert forall|k: int| 0 <= k < i + 1 implies #[trigger] self.byte_at(
                    (addr + k) as u32,
                ) == data@[k] by {
                    if k < i {
                        assert(before.byte_at((addr + k) as u32) == data@[k]);
                        assert((addr + k) as u32 != (addr + i) as u32);
                    }
                }
                assert forall|a: u32| !(addr <= a < addr + i + 1) implies #[trigger] self.byte_at(a)
                    == old(self).byte_at(a) by {
                    assert(before.byte_at(a) == old(self).byte_at(a));
                    assert(a != (addr + i) as u32);
                }
            }
            i += 1;
        }
    }
}

/// The outcome of one step from PC change `k`: the new change position and the
/// event, if any. A step that lands on the same PC, or finds no next change,
/// halts; one that lands on a breakpoint breaks.
pub open spec fn step_outcome(pc: Seq<u32>, bps: Seq<u32>, k: nat) -> (nat, Option<Event>) {
    if k + 1 < pc.len() {
        let v = pc[(k + 1) as int];
        if v == pc[k as int] {
            ((k + 1) as nat, Some(Event::Halted))
        } else if bps.contains(v) {
            ((k + 1) as nat, Some(Event::Break))
        } else {
            ((k + 1) as nat, None)
        }
    } else {
        (k, Some(Event::Halted))
    }
}

/// One step back from PC change `k`: to the previous change point, breaking
/// when its PC is a breakpoint; at the start of the capture it halts.
pub open spec fn back_outcome(pc: Seq<u32>, bps: Seq<u32>, k: nat) -> (nat, Option<Event>) {
    if k > 0 {
        if bps.contains(pc[k - 1]) {
            ((k - 1) as nat, Some(Event::Break))
        } else {
            ((k - 1) as nat, None)
        }
    } else {
        (k, Some(Event::Halted))
    }
}

/// Up to `n` steps back from PC change `k`, stopping at the first event.
pub open spec fn run_back(pc: Seq<u32>, bps: Seq<u32>, k: nat, n: nat) -> (nat, Option<Event>)
    decreases n,
{
    if n == 0 {
        (k, None)
    } else {
        let (k2, e) = back_outcome(pc, bps, k);
        if e is Some {
            (k2, e)
        } else {
            run_back(pc, bps, k2, (n - 1) as nat)
        }
    }
}

/// Whether the run loop checks the connection before running the engine in
/// `mode`: single steps, forward or back, finish at once and are not polled.
pub open spec fn spec_polls(mode: ExecMode) -> bool {
    !(mode is Step || mode is ReverseStep)
}

pub fn polls(mode: ExecMode) -> (r: bool)
    ensures
        r == spec_polls(mode),
{
    match mode {
        ExecMode::Step | ExecMode::ReverseStep => false,
        _ => true,
    }
}

/// Whether a poll found data from the debugger: `Some(b)` is what peeking the
/// connection said; a failed peek (`None`) counts as data, so that the caller
/// reads and meets the error.
pub fn incoming_data(peeked: Option<bool>) -> (r: bool)
    ensures
        r == match peeked {
            Some(b) => b,
            None => true,
        },
{
    match peeked {
        Some(b) => b,
        None => true,
    }
}

pub open spec fn in_range(range: Option<(u32, u32)>, v: u32) -> bool {
    match range {
        Some((s, e)) => s <= v < e,
        None => true,
    }
}

/// Up to `n` steps from PC change `k`, stopping at the first event, or, for a
/// range step, when the PC leaves the range.
pub open spec fn run_steps(pc: Seq<u32>, bps: Seq<u32>, k: nat, n: nat, range: Option<(u32, u32)>) -> (
    nat,
    Option<Event>,
)
    decreases n,
{
    if n == 0 {
        (k, None)
    } else {
        let (k2, e) = step_outcome(pc, bps, k);
        if e is Some {
            (k2, e)
        } else if !in_range(range, pc[k2 as int]) {
            (k2, Some(Event::DoneStep))
        } else {
            run_steps(pc, bps, k2, (n - 1) as nat, range)
        }
    }
}

/// A single step from change `k` whose next PC differs and is no breakpoint
/// arrives at the next change point without an event, and a single-step run
/// then reports `DoneStep`.
pub proof fn lemma_step_arrives(pc: Seq<u32>, bps: Seq<u32>, k: nat)
    requires
        k + 1 < pc.len(),
        pc[k + 1 as int] != pc[k as int],
        !bps.contains(pc[k + 1 as int]),
    ensures
        step_outcome(pc, bps, k) == ((k + 1) as nat, None::<Event>),
{
}

/// Continuing from change `k` stops with a break at the first later change
/// point whose PC is a breakpoint, when the PC moves at every step up to it and
/// it lies within `n` steps.
pub proof fn lemma_continue_stops_at_breakpoint(pc: Seq<u32>, bps: Seq<u32>, k: nat, j: nat, n: nat)
    requires
        k < j < pc.len(),
        j - k <= n,
        bps.contains(pc[j as int]),
        forall|m: int| k < m < j ==> !bps.contains(#[trigger] pc[m]),
        forall|m: int| k < m <= j ==> #[trigger] pc[m] != pc[m - 1],
    ensures
        run_steps(pc, bps, k, n, None) == (j, Some(Event::Break)),
    decreases j - k,
{
    assert(pc[k + 1 as int] != pc[k as int]);
    if k + 1 < j {
        assert(!bps.contains(pc[k + 1 as int]));
        lemma_continue_stops_at_breakpoint(pc, bps, (k + 1) as nat, j, (n - 1) as nat);
    }
}

/// The change points of the general-purpose registers, with repeats.
pub open spec fn gpr_change_points(gprs: Seq<WaveSignal>) -> Multiset<u32>
    decreases gprs.len(),
{
    if gprs.len() == 0 {
        Multiset::empty()
    } else {
        gpr_change_points(gprs.drop_last()).add(gprs.last().times@.to_multiset())
    }
}

/// The change points of all required signals, with repeats.
pub open spec fn change_points(waves: RequiredWaves) -> Multiset<u32> {
    waves.pc.times@.to_multiset().add(gpr_change_points(waves.gprs@))
}

/// How many steps run between two polls for incoming data.
pub const POLL_INTERVAL: u32 = 1024;

impl Waver {
    pub open spec fn wf(&self) -> bool {
        &&& self.waves.pc.wf()
        &&& self.waves.gprs@.len() == 32
        &&& forall|i: int| 0 <= i < 32 ==> (#[trigger] self.waves.gprs@[i]).wf()
        &&& self.cursor.pc_change < self.waves.pc.times@.len()
        &&& self.waves.pc.times@[self.cursor.pc_change as int] == self.cursor.time_idx
    }

    /// The engine is as before but for the cursor position.
    pub open spec fn same_but_cursor(&self, other: &Waver) -> bool {
        &&& self.waves == other.waves
        &&& self.mem == other.mem
        &&& self.breakpoints == other.breakpoints
        &&& self.exec_mode == other.exec_mode
        &&& self.elf_path == other.elf_path
        &&& self.cursor.all_changes == other.cursor.all_changes
        &&& self.cursor.all_times == other.cursor.all_times
    }

    /// Assembles a target whose cursor stands at the first change point at
    /// which the PC signal takes `first_pc`.
    pub fn from_parts(
        waves: RequiredWaves,
        all_times: Vec<u64>,
        mem: DummyMem,
        elf_path: String,
        first_pc: u32,
    ) -> (r: Result<Waver, WaverError>)
        requires
            waves.pc.wf(),
            forall|i: int| 0 <= i < waves.gprs@.len() ==> (#[trigger] waves.gprs@[i]).wf(),
        ensures
            waves.gprs@.len() != 32 ==> r == Err::<Waver, WaverError>(
                WaverError::WrongRegisterCount,
            ),
            waves.gprs@.len() == 32 ==> match r {
                Ok(w) => {
                    &&& w.wf()
                    &&& w.waves == waves
                    &&& w.waves.pc.values@[w.cursor.pc_change as int] == first_pc
                    &&& forall|j: int|
                        0 <= j < w.cursor.pc_change ==> waves.pc.values@[j] != first_pc
                    &&& w.breakpoints@.len() == 0
                    &&& w.exec_mode == ExecMode::Step
                    &&& sorted(w.cursor.all_changes@)
                    &&& w.cursor.all_changes@.to_multiset() == change_points(waves)
                    &&& w.cursor.all_times@ == all_times@
                    &&& w.elf_path == elf_path
                },
                Err(e) => e == WaverError::FirstPcNotFound && forall|j: int|
                    0 <= j < waves.pc.values@.len() ==> waves.pc.values@[j] != first_pc,
            },
    {
        if waves.gprs.len() != 32 {
            return Err(WaverError::WrongRegisterCount);
        }
        let k = match waves.pc.find_idx(first_pc) {
            Some(k) => k,
            None => {
                return Err(WaverError::FirstPcNotFound);
            },
        };
        let none: Vec<u32> = Vec::new();
        proof {
            vstd::seq_lib::to_multiset_len(none@);
            vstd::multiset::lemma_multiset_empty_len(none@.to_multiset());
        }
        let mut all_changes: Vec<u32> = merge_sorted(waves.pc.times.as_slice(), &none);
        let mut g: usize = 0;
        assert(waves.gprs@.take(0) =~= Seq::<WaveSignal>::empty());
        assert(all_changes@.to_multiset() =~= waves.pc.times@.to_multiset().add(
            gpr_change_points(waves.gprs@.take(0)),
        ));
        while g < waves.gprs.len()
            invariant
                g <= waves.gprs@.len(),
                sorted(all_changes@),
                all_changes@.to_multiset() == waves.pc.times@.to_multiset().add(
                    gpr_change_points(waves.gprs@.take(g as int)),
                ),
                forall|i: int| 0 <= i < waves.gprs@.len() ==> (#[trigger] waves.gprs@[i]).wf(),
            decreases waves.gprs.len() - g,
        {
            assert(waves.gprs@[g as int].wf());
            assert(waves.gprs@.take(g + 1).drop_last() =~= waves.gprs@.take(g as int));
            assert(waves.gprs@.take(g + 1).last() == waves.gprs@[g as int]);
            let ghost before = all_changes@.to_multiset();
            all_changes = merge_sorted(all_changes.as_slice(), &waves.gprs[g].times);
            assert(all_changes@.to_multiset() =~= waves.pc.times@.to_multiset().add(
                gpr_change_points(waves.gprs@.take(g + 1)),
            ));
            g += 1;
        }
        assert(waves.gprs@.take(32) =~= waves.gprs@);
        let time_idx = waves.pc.times[k];
        Ok(
            Waver {
                waves,
                cursor: WaveCursor { time_idx, pc_change: k, all_changes, all_times },
                mem,
                breakpoints: Vec::new(),
                exec_mode: ExecMode::Step,
                elf_path,
            },
        )
    }

    pub fn reset(&mut self)
        ensures
            *final(self) == *old(self),
    {
    }

    /// The PC at the cursor; it fits in the PC signal's width.
    pub fn get_current_pc(&self) -> (r: u32)
        requires
            self.wf(),
        ensures
            r == self.waves.pc.values@[self.cursor.pc_change as int],
            Some(r) == self.waves.pc.spec_value_at(self.cursor.time_idx),
            (r as nat) < pow2(self.waves.pc.width as nat),
    {
        proof {
            self.waves.pc.lemma_value_at_change(self.cursor.pc_change as int);
        }
        self.waves.pc.values[self.cursor.pc_change]
    }

    /// General-purpose register `idx` at the cursor; zero before its first
    /// change.
    pub fn get_current_gpr(&self, idx: usize) -> (r: u32)
        requires
            self.wf(),
            idx < 32,
        ensures
            r == match self.waves.gprs@[idx as int].spec_value_at(self.cursor.time_idx) {
                Some(v) => v,
                None => 0,
            },
            (r as nat) < pow2(self.waves.gprs@[idx as int].width as nat),
    {
        proof {
            vstd::arithmetic::power2::lemma_pow2_pos(self.waves.gprs@[idx as int].width as nat);
        }
        match self.waves.gprs[idx].value_at(self.cursor.time_idx) {
            Some(v) => v,
            None => 0,
        }
    }

    /// Advances the cursor to the PC signal's next change. Returns the new PC
    /// if it differs from the old one; `None` when it does not, or when the
    /// capture ends (the cursor then stays).
    pub fn next_pc(&mut self) -> (r: Option<u32>)
        requires
            old(self).wf(),
        ensures
            final(self).wf(),
            final(self).same_but_cursor(old(self)),
            ({
                let pc = old(self).waves.pc.values@;
                let k = old(self).cursor.pc_change as int;
                if k + 1 < pc.len() {
                    &&& final(self).cursor.pc_change == k + 1
                    &&& r == if pc[k + 1 as int] == pc[k] {
                        None
                    } else {
                        Some(pc[k + 1 as int])
                    }
                } else {
                    &&& final(self).cursor.pc_change == k
                    &&& r is None
                }
            }),
    {
        let prev_pc = self.get_current_pc();
        let k = self.cursor.pc_change;
        if k >= self.waves.pc.times.len() - 1 {
            return None;
        }
        self.cursor.pc_change = k + 1;
        self.cursor.time_idx = self.waves.pc.times[k + 1];
        let new_pc = self.waves.pc.values[k + 1];
        if new_pc == prev_pc {
            None
        } else {
            Some(new_pc)
        }
    }

    /// One step: halted when the PC makes no progress, a break when it lands
    /// on a breakpoint.
    pub fn step(&mut self) -> (r: Option<Event>)
        requires
            old(self).wf(),
        ensures
            final(self).wf(),
            final(self).same_but_cursor(old(self)),
            (final(self).cursor.pc_change as nat, r) == step_outcome(
                old(self).waves.pc.values@,
                old(self).breakpoints@,
                old(self).cursor.pc_change as nat,
            ),
    {
        match self.next_pc() {
            Some(pc) => {
                if contains_u32(&self.breakpoints, pc) {
                    Some(Event::Break)
                } else {
                    None
                }
            },
            None => Some(Event::Halted),
        }
    }

    /// One step back to the previous change point of the PC; a break when
    /// its PC is a breakpoint, halted at the start of the capture.
    pub fn step_back(&mut self) -> (r: Option<Event>)
        requires
            old(self).wf(),
        ensures
            final(self).wf(),
            final(self).same_but_cursor(old(self)),
            (final(self).cursor.pc_change as nat, r) == back_outcome(
                old(self).waves.pc.values@,
                old(self).breakpoints@,
                old(self).cursor.pc_change as nat,
            ),
    {
        let k = self.cursor.pc_change;
        if k == 0 {
            return Some(Event::Halted);
        }
        self.cursor.pc_change = k - 1;
        self.cursor.time_idx = self.waves.pc.times[k - 1];
        let pc = self.waves.pc.values[k - 1];
        if contains_u32(&self.breakpoints, pc) {
            Some(Event::Break)
        } else {
            None
        }
    }

    fn reverse_slice(&mut self) -> (r: Option<Event>)
        requires
            old(self).wf(),
        ensures
            final(self).wf(),
            final(self).same_but_cursor(old(self)),
            (final(self).cursor.pc_change as nat, r) == run_back(
                old(self).waves.pc.values@,
                old(self).breakpoints@,
                old(self).cursor.pc_change as nat,
                POLL_INTERVAL as nat,
            ),
    {
        let ghost pc = self.waves.pc.values@;
        let ghost bps = self.breakpoints@;
        let ghost start = *self;
        let mut n: u32 = POLL_INTERVAL;
        while n > 0
            invariant
                self.wf(),
                start == *old(self),
                self.same_but_cursor(&start),
                pc == self.waves.pc.values@,
                bps == self.breakpoints@,
                run_back(pc, bps, start.cursor.pc_change as nat, POLL_INTERVAL as nat)
                    == run_back(pc, bps, self.cursor.pc_change as nat, n as nat),
            decreases n,
        {
            let ghost k0 = self.cursor.pc_change as nat;
            let ev = self.step_back();
            assert(run_back(pc, bps, k0, n as nat) == {
                let (k2, e) = back_outcome(pc, bps, k0);
                if e is Some {
                    (k2, e)
                } else {
                    run_back(pc, bps, k2, (n - 1) as nat)
                }
            });
            match ev {
                Some(e) => {
                    return Some(e);
                },
                None => {},
            }
            n -= 1;
        }
        None
    }

    /// Runs up to one poll interval in the current mode. `None` means the
    /// interval ended without a stop: the caller polls for incoming data and
    /// runs again.
    pub fn run_slice(&mut self) -> (r: Option<Event>)
        requires
            old(self).wf(),
        ensures
            final(self).wf(),
            final(self).same_but_cursor(old(self)),
            ({
                let pc = old(self).waves.pc.values@;
                let bps = old(self).breakpoints@;
                let k = old(self).cursor.pc_change as nat;
                match old(self).exec_mode {
                    ExecMode::Step => {
                        let (k2, e) = step_outcome(pc, bps, k);
                        &&& final(self).cursor.pc_change == k2
                        &&& r == Some(
                            match e {
                                Some(ev) => ev,
                                None => Event::DoneStep,
                            },
                        )
                    },
                    ExecMode::Continue => (final(self).cursor.pc_change as nat, r) == run_steps(
                        pc,
                        bps,
                        k,
                        POLL_INTERVAL as nat,
                        None,
                    ),
                    ExecMode::RangeStep(s, e) => (final(self).cursor.pc_change as nat, r)
                        == run_steps(pc, bps, k, POLL_INTERVAL as nat, Some((s, e))),
                    ExecMode::ReverseStep => {
                        let (k2, e) = back_outcome(pc, bps, k);
                        &&& final(self).cursor.pc_change == k2
                        &&& r == Some(
                            match e {
                                Some(ev) => ev,
                                None => Event::DoneStep,
                            },
                        )
                    },
                    ExecMode::ReverseContinue => (final(self).cursor.pc_change as nat, r)
                        == run_back(pc, bps, k, POLL_INTERVAL as nat),
                }
            }),
    {
        let range: Option<(u32, u32)> = match self.exec_mode {
            ExecMode::Step => {
                return match self.step() {
                    Some(e) => Some(e),
                    None => Some(Event::DoneStep),
                };
            },
            ExecMode::ReverseStep => {
                return match self.step_back() {
                    Some(e) => Some(e),
                    None => Some(Event::DoneStep),
                };
            },
            ExecMode::ReverseContinue => {
                return self.reverse_slice();
            },
            ExecMode::Continue => None,
            ExecMode::RangeStep(s, e) => Some((s, e)),
        };
        let ghost pc = self.waves.pc.values@;
        let ghost bps = self.breakpoints@;
        let ghost start = *self;
        let mut n: u32 = POLL_INTERVAL;
        while n > 0
            invariant
                self.wf(),
                start == *old(self),
                start.exec_mode is Continue || start.exec_mode is RangeStep,
                self.same_but_cursor(&start),
                pc == self.waves.pc.values@,
                bps == self.breakpoints@,
                range == match start.exec_mode {
                    ExecMode::RangeStep(s, e) => Some((s, e)),
                    _ => None,
                },
                run_steps(pc, bps, start.cursor.pc_change as nat, POLL_INTERVAL as nat, range)
                    == run_steps(pc, bps, self.cursor.pc_change as nat, n as nat, range),
            decreases n,
        {
            let ghost k0 = self.cursor.pc_change as nat;
            let ev = self.step();
            assert(run_steps(pc, bps, k0, n as nat, range) == {
                let (k2, e) = step_outcome(pc, bps, k0);
                if e is Some {
                    (k2, e)
                } else if !in_range(range, pc[k2 as int]) {
                    (k2, Some(Event::DoneStep))
                } else {
                    run_steps(pc, bps, k2, (n - 1) as nat, range)
                }
            });
            match ev {
                Some(e) => {
                    return Some(e);
                },
                None => {},
            }
            match range {
                Some((s, e)) => {
                    let cur = self.get_current_pc();
                    if !(s <= cur && cur < e) {
                        return Some(Event::DoneStep);
                    }
                },
                None => {},
            }
            n -= 1;
        }
        None
    }

    /// Register values for `g`: `x0`..`x31`, then the PC.
    pub fn read_registers(&self) -> (r: Vec<u32>)
        requires
            self.wf(),
        ensures
            r@.len() == 33,
            r@[32] == self.waves.pc.values@[self.cursor.pc_change as int],
            forall|i: int|
                0 <= i < 32 ==> #[trigger] r@[i] == match self.waves.gprs@[i].spec_value_at(
                    self.cursor.time_idx,
                ) {
                    Some(v) => v,
                    None => 0,
                },
    {
        let mut regs: Vec<u32> = Vec::new();
        let mut i: usize = 0;
        while i < 32
            invariant
                self.wf(),
                i <= 32,
                regs@.len() == i,
                forall|j: int|
                    0 <= j < i ==> #[trigger] regs@[j] == match self.waves.gprs@[j].spec_value_at(
                        self.cursor.time_idx,
                    ) {
                        Some(v) => v,
                        None => 0,
                    },
            decreases 32 - i,
        {
            regs.push(self.get_current_gpr(i));
            i += 1;
        }
        regs.push(self.get_current_pc());
        regs
    }

    /// The `g` reply payload: each of `x0`..`x31` and the PC as four
    /// little-endian bytes, 132 bytes in all.
    pub fn register_bytes(&self) -> (r: Vec<u8>)
        requires
            self.wf(),
        ensures
            r@.len() == 132,
            forall|i: int|
                0 <= i < 132 ==> #[trigger] r@[i] == le_byte(
                    self.register_value(i / 4),
                    (i % 4) as nat,
                ),
    {
        let regs = self.read_registers();
        let mut out: Vec<u8> = Vec::new();
        let mut i: usize = 0;
        while i < 33
            invariant
                self.wf(),
                i <= 33,
                regs@.len() == 33,
                forall|j: int| 0 <= j < 33 ==> #[trigger] regs@[j] == self.register_value(j),
                out@.len() == 4 * i,
                forall|j: int|
                    0 <= j < 4 * i ==> #[trigger] out@[j] == le_byte(
                        self.register_value(j / 4),
                        (j % 4) as nat,
                    ),
            decreases 33 - i,
        {
            let v = regs[i];
            out.push((v % 256) as u8);
            out.push(((v / 256) % 256) as u8);
            out.push(((v / 65536) % 256) as u8);
            out.push((v / 16777216) as u8);
            i += 1;
        }
        out
    }

    /// Register `i` of the `g` layout: `x0`..`x31`, then the PC at 32.
    pub open spec fn register_value(&self, i: int) -> u32 {
        if i == 32 {
            self.waves.pc.values@[self.cursor.pc_change as int]
        } else {
            match self.waves.gprs@[i].spec_value_at(self.cursor.time_idx) {
                Some(v) => v,
                None => 0,
            }
        }
    }

    /// One register for `p`: the PC at 32, `x0`..`x31` below, as four
    /// little-endian bytes, as in the `g` dump; `None` for any other number.
    pub fn read_register(&self, reg: usize) -> (r: Option<Vec<u8>>)
        requires
            self.wf(),
        ensures
            reg > 32 ==> r is None,
            reg <= 32 ==> (r matches Some(b) && b@ == seq![
                le_byte(self.register_value(reg as int), 0),
                le_byte(self.register_value(reg as int), 1),
                le_byte(self.register_value(reg as int), 2),
                le_byte(self.register_value(reg as int), 3),
            ]),
    {
        if reg > 32 {
            return None;
        }
        let v = if reg == 32 {
            self.get_current_pc()
        } else {
            self.get_current_gpr(reg)
        };
        let mut out: Vec<u8> = Vec::new();
        out.push((v % 256) as u8);
        out.push(((v / 256) % 256) as u8);
        out.push(((v / 65536) % 256) as u8);
        out.push((v / 16777216) as u8);
        Some(out)
    }

    /// `len` bytes of memory from `start` on; addresses wrap at 2^32.
    pub fn read_addrs(&self, start: u32, len: usize) -> (r: Vec<u8>)
        ensures
            r@.len() == len,
            forall|i: int|
                0 <= i < len ==> #[trigger] r@[i] == self.mem.byte_at(
                    ((start as int + i) % 0x1_0000_0000) as u32,
                ),
    {
        let mut out: Vec<u8> = Vec::new();
        let mut addr: u32 = start;
        let mut i: usize = 0;
        while i < len
            invariant
                i <= len,
                out@.len() == i,
                addr as int == (start as int + i) % 0x1_0000_0000,
                forall|j: int|
                    0 <= j < i ==> #[trigger] out@[j] == self.mem.byte_at(
                        ((start as int + j) % 0x1_0000_0000) as u32,
                    ),
            decreases len - i,
        {
            out.push(self.mem.r8(addr));
            proof {
                vstd::arithmetic::div_mod::lemma_add_mod_noop(start as int + i, 1, 0x1_0000_0000);
                vstd::arithmetic::div_mod::lemma_small_mod(1, 0x1_0000_0000);
            }
            addr = if addr == u32::MAX {
                0
            } else {
                addr + 1
            };
            assert(addr as int == (start as int + i + 1) % 0x1_0000_0000) by {
                vstd::arithmetic::div_mod::lemma_mod_bound(start as int + i + 1, 0x1_0000_0000);
                vstd::arithmetic::div_mod::lemma_small_mod(addr as nat, 0x1_0000_0000);
            }
            i += 1;
        }
        out
    }

    pub fn add_sw_breakpoint(&mut self, addr: u32) -> (r: bool)
        ensures
            final(self).breakpoints@ == old(self).breakpoints@.push(addr),
            final(self).waves == old(self).waves,
            final(self).cursor == old(self).cursor,
            final(self).exec_mode == old(self).exec_mode,
            r,
    {
        self.breakpoints.push(addr);
        true
    }

    /// Removes the first breakpoint at `addr`; false when there is none.
    pub fn remove_sw_breakpoint(&mut self, addr: u32) -> (r: bool)
        ensures
            final(self).waves == old(self).waves,
            final(self).cursor == old(self).cursor,
            final(self).exec_mode == old(self).exec_mode,
            r == old(self).breakpoints@.contains(addr),
            !r ==> final(self).breakpoints@ == old(self).breakpoints@,
            r ==> exists|p: int|
                0 <= p < old(self).breakpoints@.len() && old(self).breakpoints@[p] == addr && (
                forall|j: int| 0 <= j < p ==> old(self).breakpoints@[j] != addr)
                    && final(self).breakpoints@ == old(self).breakpoints@.remove(p),
    {
        let mut p: usize = 0;
        while p < self.breakpoints.len()
            invariant
                p <= self.breakpoints@.len(),
                *self == *old(self),
                forall|j: int| 0 <= j < p ==> self.breakpoints@[j] != addr,
            decreases self.breakpoints.len() - p,
        {
            if self.breakpoints[p] == addr {
                self.breakpoints.remove(p);
                assert(old(self).breakpoints@[p as int] == addr);
                return true;
            }
            p += 1;
        }
        assert(!old(self).breakpoints@.contains(addr));
        false
    }

    /// `c`: continue; resuming with a signal is refused.
    pub fn resume(&mut self, signal: Option<u8>) -> (r: Result<(), &'static str>)
        ensures
            signal is Some ==> r is Err && *final(self) == *old(self),
            signal is None ==> r is Ok && final(self).exec_mode == ExecMode::Continue
                && final(self).same_but_mode(old(self)),
    {
        if signal.is_some() {
            return Err("no support for continuing with signal");
        }
        self.exec_mode = ExecMode::Continue;
        Ok(())
    }

    /// `s`: single step; stepping with a signal is refused.
    pub fn single_step(&mut self, signal: Option<u8>) -> (r: Result<(), &'static str>)
        ensures
            signal is Some ==> r is Err && *final(self) == *old(self),
            signal is None ==> r is Ok && final(self).exec_mode == ExecMode::Step
                && final(self).same_but_mode(old(self)),
    {
        if signal.is_some() {
            return Err("no support for stepping with signal");
        }
        self.exec_mode = ExecMode::Step;
        Ok(())
    }

    /// `bc`: runs backward through the capture.
    pub fn reverse_cont(&mut self) -> (r: Result<(), &'static str>)
        ensures
            r is Ok,
            final(self).exec_mode == ExecMode::ReverseContinue,
            final(self).same_but_mode(old(self)),
    {
        self.exec_mode = ExecMode::ReverseContinue;
        Ok(())
    }

    /// `bs`: steps back one change point of the PC.
    pub fn reverse_step(&mut self) -> (r: Result<(), &'static str>)
        ensures
            r is Ok,
            final(self).exec_mode == ExecMode::ReverseStep,
            final(self).same_but_mode(old(self)),
    {
        self.exec_mode = ExecMode::ReverseStep;
        Ok(())
    }

    /// `vCont;r<start>,<end>`: step while the PC stays in `[start, end)`.
    pub fn resume_range_step(&mut self, start: u32, end: u32) -> (r: Result<(), &'static str>)
        ensures
            r is Ok,
            final(self).exec_mode == ExecMode::RangeStep(start, end),
            final(self).same_but_mode(old(self)),
    {
        self.exec_mode = ExecMode::RangeStep(start, end);
        Ok(())
    }

    pub open spec fn same_but_mode(&self, other: &Waver) -> bool {
        &&& self.waves == other.waves
        &&& self.cursor == other.cursor
        &&& self.mem == other.mem
        &&& self.breakpoints == other.breakpoints
        &&& self.elf_path == other.elf_path
    }
}

/// Byte `i` (0 is the lowest) of `v`.
pub open spec fn le_byte(v: u32, i: nat) -> u8 {
    if i == 0 {
        (v % 256) as u8
    } else if i == 1 {
        ((v / 256) % 256) as u8
    } else if i == 2 {
        ((v / 65536) % 256) as u8
    } else {
        (v / 16777216) as u8
    }
}

pub fn contains_u32(v: &Vec<u32>, x: u32) -> (r: bool)
    ensures
        r == v@.contains(x),
{
    let mut i: usize = 0;
    while i < v.len()
        invariant
            i <= v@.len(),
            forall|j: int| 0 <= j < i ==> v@[j] != x,
        decreases v.len() - i,
    {
        if v[i] == x {
            assert(v@[i as int] == x);
            return true;
        }
        i += 1;
    }
    false
}

pub open spec fn sorted(s: Seq<u32>) -> bool {
    forall|i: int, j: int| 0 <= i <= j < s.len() ==> s[i] <= s[j]
}

/// Merges two sorted sequences, keeping every element of both.
pub fn merge_sorted(a: &[u32], b: &Vec<u32>) -> (r: Vec<u32>)
    requires
        sorted(a@),
        sorted(b@),
    ensures
        sorted(r@),
        r@.to_multiset() == a@.to_multiset().add(b@.to_multiset()),
{
    let mut out: Vec<u32> = Vec::new();
    let mut i: usize = 0;
    let mut j: usize = 0;
    proof {
        assert(a@.take(0) =~= Seq::<u32>::empty());
        assert(b@.take(0) =~= Seq::<u32>::empty());
        vstd::seq_lib::to_multiset_len(a@.take(0));
        vstd::seq_lib::to_multiset_len(b@.take(0));
        vstd::seq_lib::to_multiset_len(out@);
        vstd::multiset::lemma_multiset_empty_len(a@.take(0).to_multiset());
        vstd::multiset::lemma_multiset_empty_len(b@.take(0).to_multiset());
        vstd::multiset::lemma_multiset_empty_len(out@.to_multiset());
        assert(a@.take(0).to_multiset().add(b@.take(0).to_multiset()) =~= vstd::multiset::Multiset::empty());
    }
    while i < a.len() || j < b.len()
        invariant
            i <= a@.len(),
            j <= b@.len(),
            sorted(a@),
            sorted(b@),
            sorted(out@),
            out@.to_multiset() == a@.take(i as int).to_multiset().add(
                b@.take(j as int).to_multiset(),
            ),
            out@.len() > 0 && i < a@.len() ==> out@.last() <= a@[i as int],
            out@.len() > 0 && j < b@.len() ==> out@.last() <= b@[j as int],
        decreases a@.len() + b@.len() - i - j,
    {
        let take_a = j >= b.len() || (i < a.len() && a[i] <= b[j]);
        if take_a {
            let x = a[i];
            proof {
                assert(a@.take(i + 1) =~= a@.take(i as int).push(x));
                vstd::seq_lib::to_multiset_build(a@.take(i as int), x);
                vstd::seq_lib::to_multiset_build(out@, x);
                assert(a@.take(i as int).to_multiset().insert(x).add(b@.take(j as int).to_multiset())
                    =~= a@.take(i as int).to_multiset().add(b@.take(j as int).to_multiset()).insert(x));
            }
            out.push(x);
            i += 1;
        } else {
            let x = b[j];
            proof {
                assert(b@.take(j + 1) =~= b@.take(j as int).push(x));
                vstd::seq_lib::to_multiset_build(b@.take(j as int), x);
                vstd::seq_lib::to_multiset_build(out@, x);
                assert(a@.take(i as int).to_multiset().add(b@.take(j as int).to_multiset().insert(x))
                    =~= a@.take(i as int).to_multiset().add(b@.take(j as int).to_multiset()).insert(x));
            }
            out.push(x);
            j += 1;
        }
    }
    assert(a@.take(a@.len() as int) =~= a@);
    assert(b@.take(b@.len() as int) =~= b@);
    out
}

} // verus!
