//! Hardware watchpoints on memory, set through the debug registers of a thread. One watch follows
//! the address that is of interest at the moment; another, fixed for the whole run, stays armed
//! beside it.

use crate::numbers;
use crate::text;
use vstd::prelude::*;

verus! {

/// Where the instruction pointer stands in a saved context.
pub const RIP_FIELD_OFFSET: u64 = 0x80;

/// The bits of `dr7` for the first watch: enabled, on writes, eight bytes.
pub const WATCH_CONTROL: u64 = 0x9_0401;

/// The bits of `dr7` for the fixed watch: enabled, on writes, eight bytes.
pub const FIXED_CONTROL: u64 = 0x90_0404;

/// The bits of `dr7` that belong to the fixed watch alone.
pub const FIXED_MASK: u64 = 0xF0_0004;

/// How many bytes of code before the instruction pointer a report holds.
pub const CODE_BEFORE: u64 = 48;

/// How many bytes before the address in `rdi` a report holds.
pub const RDI_BEFORE: u64 = 16;

/// The debug registers that the watches use.
#[derive(Debug, Clone, Copy, PartialEq, Eq, Structural)]
pub struct DebugRegisters {
    pub dr0: u64,
    pub dr1: u64,
    pub dr6: u64,
    pub dr7: u64,
}

/// Whether watch number `slot` is enabled.
pub open spec fn is_enabled(dr7: u64, slot: u64) -> bool {
    (dr7 >> (2 * slot) as u64) & 1 == 1
}

/// On which accesses watch number `slot` stops: 1 is a write.
pub open spec fn watch_kind(dr7: u64, slot: u64) -> u64 {
    (dr7 >> (16 + 4 * slot) as u64) & 3
}

/// How many bytes watch number `slot` covers: 2 stands for eight.
pub open spec fn watch_len(dr7: u64, slot: u64) -> u64 {
    (dr7 >> (18 + 4 * slot) as u64) & 3
}

/// Whether the first watch stops at writes to the eight bytes at `addr`.
pub open spec fn watches(r: DebugRegisters, addr: u64) -> bool {
    &&& r.dr0 == addr
    &&& is_enabled(r.dr7, 0)
    &&& watch_kind(r.dr7, 0) == 1
    &&& watch_len(r.dr7, 0) == 2
}

/// Whether the fixed watch stops at writes to the eight bytes at `addr`.
pub open spec fn watches_fixed(r: DebugRegisters, addr: u64) -> bool {
    &&& r.dr1 == addr
    &&& is_enabled(r.dr7, 1)
    &&& watch_kind(r.dr7, 1) == 1
    &&& watch_len(r.dr7, 1) == 2
}

/// Whether the fixed watch is the same in both.
pub open spec fn same_fixed(a: DebugRegisters, b: DebugRegisters) -> bool {
    &&& a.dr1 == b.dr1
    &&& is_enabled(a.dr7, 1) == is_enabled(b.dr7, 1)
    &&& watch_kind(a.dr7, 1) == watch_kind(b.dr7, 1)
    &&& watch_len(a.dr7, 1) == watch_len(b.dr7, 1)
}

/// Whether the first watch is the same in both.
pub open spec fn same_first(a: DebugRegisters, b: DebugRegisters) -> bool {
    &&& a.dr0 == b.dr0
    &&& is_enabled(a.dr7, 0) == is_enabled(b.dr7, 0)
    &&& watch_kind(a.dr7, 0) == watch_kind(b.dr7, 0)
    &&& watch_len(a.dr7, 0) == watch_len(b.dr7, 0)
}

/// The registers with the first watch on `addr`; the fixed watch stays.
pub open spec fn armed(r: DebugRegisters, addr: u64) -> DebugRegisters {
    DebugRegisters { dr0: addr, dr6: 0, dr7: WATCH_CONTROL | (r.dr7 & FIXED_MASK), ..r }
}

/// The registers without the first watch; the fixed watch stays.
pub open spec fn disarmed(r: DebugRegisters) -> DebugRegisters {
    DebugRegisters { dr0: 0, dr7: r.dr7 & !1u64, ..r }
}

/// The registers with the fixed watch on `addr`; the first watch stays.
pub open spec fn fixed_armed(r: DebugRegisters, addr: u64) -> DebugRegisters {
    DebugRegisters { dr1: addr, dr7: r.dr7 | FIXED_CONTROL, ..r }
}

/// Arms the first watch, and leaves the fixed watch as it is.
pub fn build_watch_context(r: DebugRegisters, addr: u64) -> (n: DebugRegisters)
    ensures
        n == armed(r, addr),
{
    DebugRegisters { dr0: addr, dr6: 0, dr7: WATCH_CONTROL | (r.dr7 & FIXED_MASK), ..r }
}

/// Disarms the first watch, and leaves the fixed watch as it is.
pub fn build_disarmed_context(r: DebugRegisters) -> (n: DebugRegisters)
    ensures
        n == disarmed(r),
{
    DebugRegisters { dr0: 0, dr7: r.dr7 & !1u64, ..r }
}

/// Arms the fixed watch, and leaves the first watch as it is.
pub fn build_fixed_context(r: DebugRegisters, addr: u64) -> (n: DebugRegisters)
    ensures
        n == fixed_armed(r, addr),
{
    DebugRegisters { dr1: addr, dr7: r.dr7 | FIXED_CONTROL, ..r }
}

/// Arming the first watch makes it stop at writes to the eight bytes at the address, and no other
/// but the fixed watch is enabled beside it.
pub proof fn law_arm_watches(r: DebugRegisters, addr: u64)
    ensures
        watches(armed(r, addr), addr),
        same_fixed(armed(r, addr), r),
        !is_enabled(armed(r, addr).dr7, 2),
        !is_enabled(armed(r, addr).dr7, 3),
        armed(r, addr).dr6 == 0,
{
    let old = r.dr7;
    let new = 0x9_0401u64 | (old & 0xF0_0004);
    assert((new >> 0u64) & 1 == 1 && (new >> 16u64) & 3 == 1 && (new >> 18u64) & 3 == 2
        && (new >> 2u64) & 1 == (old >> 2u64) & 1 && (new >> 20u64) & 3 == (old >> 20u64) & 3
        && (new >> 22u64) & 3 == (old >> 22u64) & 3 && (new >> 4u64) & 1 == 0 && (new >> 6u64) & 1
        == 0) by (bit_vector)
        requires
            new == 0x9_0401u64 | (old & 0xF0_0004),
    ;
}

/// Disarming takes the first watch away and leaves the fixed watch alone.
pub proof fn law_disarm_keeps_fixed(r: DebugRegisters)
    ensures
        !is_enabled(disarmed(r).dr7, 0),
        disarmed(r).dr0 == 0,
        same_fixed(disarmed(r), r),
{
    let old = r.dr7;
    let new = old & !1u64;
    assert((new >> 0u64) & 1 == 0 && (new >> 2u64) & 1 == (old >> 2u64) & 1 && (new >> 20u64) & 3
        == (old >> 20u64) & 3 && (new >> 22u64) & 3 == (old >> 22u64) & 3) by (bit_vector)
        requires
            new == old & !1u64,
    ;
}

/// Arming the fixed watch, in registers that hold none, makes it stop at writes to the eight bytes
/// at the address, and leaves the first watch alone.
pub proof fn law_fixed_watches(r: DebugRegisters, addr: u64)
    requires
        r.dr7 & FIXED_MASK == 0,
    ensures
        watches_fixed(fixed_armed(r, addr), addr),
        same_first(fixed_armed(r, addr), r),
{
    let old = r.dr7;
    let new = old | 0x90_0404;
    assert((new >> 2u64) & 1 == 1 && (new >> 20u64) & 3 == 1 && (new >> 22u64) & 3 == 2 && (new
        >> 0u64) & 1 == (old >> 0u64) & 1 && (new >> 16u64) & 3 == (old >> 16u64) & 3 && (new
        >> 18u64) & 3 == (old >> 18u64) & 3) by (bit_vector)
        requires
            new == old | 0x90_0404,
            old & 0xF0_0004 == 0,
    ;
}

/// The fixed watch outlives every arming and disarming of the first one.
pub proof fn law_fixed_watch_survives(r: DebugRegisters, fixed: u64, addr: u64)
    requires
        watches_fixed(r, fixed),
    ensures
        watches_fixed(armed(r, addr), fixed),
        watches_fixed(disarmed(r), fixed),
{
    law_arm_watches(r, addr);
    law_disarm_keeps_fixed(r);
}

/// The address of the instruction pointer in the saved context at `ctx`, in wrapping arithmetic.
pub fn arm(ctx: u64) -> (r: u64)
    ensures
        r == (ctx + RIP_FIELD_OFFSET) % 0x1_0000_0000_0000_0000,
{
    ctx.wrapping_add(RIP_FIELD_OFFSET)
}

/// What a thread knows of its watches.
#[derive(Debug, Clone, Copy, PartialEq, Eq, Structural)]
pub struct WatchState {
    /// The address of the first watch; 0 is none.
    pub armed_addr: u64,
    /// How often it stopped.
    pub hit_count: u64,
    /// The thread that wrote last.
    pub last_hit_writer: u64,
    /// Whether the fixed watch was armed.
    pub fixed_armed: bool,
}

impl WatchState {
    /// No watch.
    pub fn new() -> (r: Self)
        ensures
            r == (WatchState {
                armed_addr: 0,
                hit_count: 0,
                last_hit_writer: 0,
                fixed_armed: false,
            }),
    {
        WatchState { armed_addr: 0, hit_count: 0, last_hit_writer: 0, fixed_armed: false }
    }

    /// The address of the first watch; 0 is none.
    pub fn current_armed_addr(&self) -> (r: u64)
        ensures
            r == self.armed_addr,
    {
        self.armed_addr
    }

    /// Whether `addr` is what the first watch is on.
    pub open spec fn is_armed(self, addr: u64) -> bool {
        addr != 0 && self.armed_addr == addr
    }

    /// Whether `addr` is what the first watch is on.
    pub fn is_armed_here(&self, addr: u64) -> (r: bool)
        ensures
            r == self.is_armed(addr),
    {
        self.armed_addr == addr && addr != 0
    }

    /// Takes note that the first watch was put on `addr`.
    pub fn arm_addr(&mut self, addr: u64)
        ensures
            *final(self) == (WatchState { armed_addr: addr, ..*old(self) }),
    {
        self.armed_addr = addr;
    }

    /// Forgets the first watch. Returns whether the registers have to be changed.
    pub fn disarm(&mut self) -> (r: bool)
        ensures
            *final(self) == (WatchState { armed_addr: 0, ..*old(self) }),
            r == (old(self).armed_addr != 0),
    {
        let addr: u64 = self.armed_addr;
        self.armed_addr = 0;
        addr != 0
    }

    /// Whether the fixed watch on `target` has to be armed now: once per thread, and only if there
    /// is an address.
    pub fn arm_fixed_on_current_thread(&mut self, target: u64) -> (r: bool)
        ensures
            r == (target != 0 && !old(self).fixed_armed),
            *final(self) == (WatchState { fixed_armed: old(self).fixed_armed || r, ..*old(self) }),
    {
        if target == 0 || self.fixed_armed {
            return false;
        }
        self.fixed_armed = true;
        true
    }

    /// Whether a stop is one of the first watch: the status says so, and the address is the one that
    /// was armed. Such a stop is counted, with the thread that wrote, and the status is cleared.
    pub fn on_possible_hit(&mut self, regs: &mut DebugRegisters, writer: u64) -> (r: bool)
        ensures
            r == (old(regs).dr6 % 2 == 1 && old(self).is_armed(old(regs).dr0)),
            !r ==> *final(self) == *old(self) && *final(regs) == *old(regs),
            r ==> {
                &&& *final(regs) == (DebugRegisters { dr6: 0, ..*old(regs) })
                &&& *final(self) == (WatchState {
                    hit_count: if old(self).hit_count == u64::MAX {
                        0
                    } else {
                        (old(self).hit_count + 1) as u64
                    },
                    last_hit_writer: writer,
                    ..*old(self)
                })
            },
    {
        let dr6: u64 = regs.dr6;
        assert((dr6 & 1 == 0) == (dr6 % 2 == 0)) by (bit_vector);
        if dr6 & 1 == 0 || !self.is_armed_here(regs.dr0) {
            return false;
        }
        self.hit_count = self.hit_count.wrapping_add(1);
        self.last_hit_writer = writer;
        regs.dr6 = 0;
        true
    }
}

/// Whether a stop is one of the fixed watch on `target`: there is such a watch, and the status says
/// so. The watch's bit in the status is cleared, and no other.
pub fn on_possible_fixed_hit(regs: &mut DebugRegisters, target: u64) -> (r: bool)
    ensures
        r == (target != 0 && (old(regs).dr6 / 2) % 2 == 1),
        *final(regs) == if r {
            DebugRegisters { dr6: (old(regs).dr6 - 2) as u64, ..*old(regs) }
        } else {
            *old(regs)
        },
{
    let dr6: u64 = regs.dr6;
    assert((dr6 & 2 == 0) == ((dr6 / 2) % 2 == 0)) by (bit_vector);
    if target == 0 || dr6 & 2 == 0 {
        return false;
    }
    assert(dr6 & !2u64 == dr6 - 2) by (bit_vector)
        requires
            dr6 & 2 != 0,
    ;
    regs.dr6 = dr6 & !2u64;
    true
}

/// The addresses that a report on the fixed watch is read from.
#[derive(Debug, Clone, Copy, PartialEq, Eq, Structural)]
pub struct HitWindow {
    pub below: u64,
    pub above: u64,
    pub code_start: u64,
    pub rdi_base: u64,
}

/// Where a report on the fixed watch reads: the words below and above the address, the code before
/// the instruction pointer, and the memory around the address in `rdi`.
pub fn hit_window(target: u64, rip: u64, rdi: u64) -> (r: HitWindow)
    requires
        8 <= target <= u64::MAX - 8,
    ensures
        r.below == target - 8,
        r.above == target + 8,
        r.code_start == (rip - CODE_BEFORE) % 0x1_0000_0000_0000_0000,
        r.rdi_base == (rdi - RDI_BEFORE) % 0x1_0000_0000_0000_0000,
{
    HitWindow {
        below: target - 8,
        above: target + 8,
        code_start: rip.wrapping_sub(CODE_BEFORE),
        rdi_base: rdi.wrapping_sub(RDI_BEFORE),
    }
}

/// A text without the marks of a hexadecimal number in front of it, however many there are.
pub open spec fn without_marks(s: Seq<char>) -> Seq<char>
    decreases s.len(),
{
    if s.len() >= 2 && s[0] == '0' && s[1] == 'x' {
        without_marks(s.skip(2))
    } else {
        s
    }
}

/// Every mark in front of a number is passed over, and nothing else: what is left has no mark.
pub proof fn law_marks_are_passed_over(s: Seq<char>)
    ensures
        without_marks(seq!['0', 'x'] + s) == without_marks(s),
        !(s.len() >= 2 && s[0] == '0' && s[1] == 'x') ==> without_marks(s) == s,
{
    assert((seq!['0', 'x'] + s).skip(2) =~= s);
}

/// The address of the fixed watch, which stands in hexadecimal; 0 if there is none or it cannot be
/// read. A bare `1` switches other settings on, but names no address: nothing is watched then.
pub fn diag_watchaddr_target(value: Option<&str>) -> (r: u64)
    ensures
        r == match value {
            Some(v) => if v@ == "1"@ {
                0
            } else {
                match numbers::unsigned_value(without_marks(v@), 16, u64::MAX as nat) {
                    Some(addr) => addr as u64,
                    None => 0,
                }
            },
            None => 0,
        },
{
    let v = match value {
        None => {
            return 0;
        },
        Some(v) => v,
    };
    if text::same_text(v, "1") {
        return 0;
    }
    let chars = text::chars_of(v);
    let len: usize = chars.len();
    let mut from: usize = 0;
    assert(chars@.skip(0) =~= v@);
    while len - from >= 2 && chars[from] == '0' && chars[from + 1] == 'x'
        invariant
            from <= len,
            chars@.len() == len,
            without_marks(v@) == without_marks(chars@.skip(from as int)),
        decreases len - from,
    {
        proof {
            let rest = chars@.skip(from as int);
            assert(rest[0] == chars@[from as int]);
            assert(rest[1] == chars@[from + 1]);
            assert(rest.skip(2) =~= chars@.skip(from + 2));
        }
        from = from + 2;
    }
    let digits = text::text_of(chars.as_slice(), from, len);
    proof {
        let rest = chars@.skip(from as int);
        assert(digits@ =~= rest);
        if rest.len() >= 2 {
            assert(rest[0] == chars@[from as int]);
            assert(rest[1] == chars@[from + 1]);
        }
    }
    match numbers::parse_unsigned(digits.as_str(), 16, u64::MAX) {
        Some(addr) => addr,
        None => 0,
    }
}

/// The contexts that are built watch what they are to watch: one with the first watch stops at writes
/// to its address and keeps the fixed watch, and disarming it afterwards leaves only the fixed one.
pub proof fn law_built_contexts_watch(
    r: DebugRegisters,
    addr: u64,
    armed_context: DebugRegisters,
    disarmed_context: DebugRegisters,
)
    requires
        call_ensures(build_watch_context, (r, addr), armed_context),
        call_ensures(build_disarmed_context, (armed_context,), disarmed_context),
    ensures
        watches(armed_context, addr),
        same_fixed(armed_context, r),
        !is_enabled(disarmed_context.dr7, 0),
        same_fixed(disarmed_context, r),
{
    law_arm_watches(r, addr);
    law_disarm_keeps_fixed(armed_context);
}

/// A stop at the watched address is counted once, with the thread that wrote, and its status is
/// cleared, so that it does not count again; a stop at another address, or without a watch, does not
/// count.
pub proof fn law_hits_count_once(
    state: &mut WatchState,
    regs: &mut DebugRegisters,
    writer: u64,
    hit: bool,
    later: &mut WatchState,
    regs_later: &mut DebugRegisters,
    again: bool,
)
    requires
        call_ensures(WatchState::on_possible_hit, (state, regs, writer), hit),
        *old(later) == *final(state),
        *old(regs_later) == *final(regs),
        call_ensures(WatchState::on_possible_hit, (later, regs_later, writer), again),
    ensures
        hit <==> old(regs).dr6 % 2 == 1 && old(regs).dr0 == old(state).armed_addr
            && old(state).armed_addr != 0,
        hit ==> !again,
        hit ==> final(state).last_hit_writer == writer,
        hit && old(state).hit_count < u64::MAX ==> final(later).hit_count == old(state).hit_count
            + 1,
        !hit ==> *final(state) == *old(state),
{
}

/// The fixed watch is armed once for a thread.
pub proof fn law_fixed_watch_is_armed_once(
    state: &mut WatchState,
    target: u64,
    first: bool,
    later: &mut WatchState,
    second: bool,
)
    requires
        call_ensures(WatchState::arm_fixed_on_current_thread, (state, target), first),
        *old(later) == *final(state),
        call_ensures(WatchState::arm_fixed_on_current_thread, (later, target), second),
    ensures
        !second,
        !old(state).fixed_armed && target != 0 ==> first,
        target == 0 ==> !first,
{
}

/// The address that the first watch was put on is told until the watch is taken off, and only a watch
/// that was on has to be taken off.
pub proof fn law_watched_address_is_told(
    state: &mut WatchState,
    addr: u64,
    armed: &WatchState,
    told: u64,
    other: u64,
    here: bool,
    later: &mut WatchState,
    changed: bool,
    left: &WatchState,
    after: bool,
)
    requires
        call_ensures(WatchState::arm_addr, (state, addr), ()),
        *armed == *final(state),
        call_ensures(WatchState::current_armed_addr, (armed,), told),
        call_ensures(WatchState::is_armed_here, (armed, other), here),
        *old(later) == *final(state),
        call_ensures(WatchState::disarm, (later,), changed),
        *left == *final(later),
        call_ensures(WatchState::is_armed_here, (left, other), after),
    ensures
        told == addr,
        here <==> addr != 0 && other == addr,
        changed <==> addr != 0,
        !after,
        final(later).hit_count == old(state).hit_count,
        final(later).fixed_armed == old(state).fixed_armed,
        final(later).last_hit_writer == old(state).last_hit_writer,
{
}

/// A hit of the fixed watch is one only if that watch stopped the thread; the sign of it is taken
/// away, so that it counts once, and no other sign is.
pub proof fn law_fixed_hits_are_taken(
    regs: &mut DebugRegisters,
    target: u64,
    r: bool,
    later: &mut DebugRegisters,
    again: bool,
)
    requires
        call_ensures(on_possible_fixed_hit, (regs, target), r),
        *old(later) == *final(regs),
        call_ensures(on_possible_fixed_hit, (later, target), again),
    ensures
        r <==> target != 0 && old(regs).dr6 & 2 == 2,
        !again,
        final(regs).dr6 & 1 == old(regs).dr6 & 1,
        final(regs).dr6 >> 2 == old(regs).dr6 >> 2,
        final(regs).dr7 == old(regs).dr7 && final(regs).dr0 == old(regs).dr0 && final(regs).dr1
            == old(regs).dr1,
{
    let dr6 = old(regs).dr6;
    let rest: u64 = if (dr6 / 2) % 2 == 1 {
        (dr6 - 2) as u64
    } else {
        dr6
    };
    assert(((dr6 / 2) % 2 == 1) == (dr6 & 2 == 2)) by (bit_vector);
    if (dr6 / 2) % 2 == 1 {
        assert((rest / 2) % 2 == 0 && rest & 1 == dr6 & 1 && rest >> 2 == dr6 >> 2) by (bit_vector)
            requires
                (dr6 / 2) % 2 == 1,
                rest == dr6 - 2,
        ;
    }
}

/// A report on a hit reads around the address and before the instruction, at their distances.
pub proof fn law_reports_read_around_the_hit(target: u64, rip: u64, rdi: u64, r: HitWindow)
    requires
        8 <= target <= u64::MAX - 8,
        call_ensures(hit_window, (target, rip, rdi), r),
    ensures
        r.below + 8 == target && target + 8 == r.above,
        rip >= CODE_BEFORE ==> r.code_start + CODE_BEFORE == rip,
        rdi >= RDI_BEFORE ==> r.rdi_base + RDI_BEFORE == rdi,
{
}

/// The address of the fixed watch is read as it is written in hexadecimal, with a mark in front or
/// without one.
pub proof fn law_watch_addresses_are_read(n: u64, v: &str, r: u64)
    requires
        v@ == seq!['0', 'x'] + numbers::digits(n as nat, 16),
        call_ensures(diag_watchaddr_target, (Some(v),), r),
    ensures
        r == n,
{
    let d = numbers::digits(n as nat, 16);
    numbers::lemma_unsigned_roundtrip(n as nat, 16, u64::MAX as nat);
    numbers::lemma_digits_roundtrip(n as nat, 16);
    law_marks_are_passed_over(d);
    reveal_strlit("1");
    assert(v@.len() >= 2);
}

} // verus!
