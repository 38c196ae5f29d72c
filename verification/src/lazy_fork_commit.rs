//! Lazy population of a forked child's memory.
//!
//! A fork into a separate process can reserve a group of the parent's memory in the child without
//! copying it. The child then commits and fills each page the first time it touches it, from the
//! parent's memory. So that the parent's later writes cannot leak into the child, the parent's own
//! pages are made read-only at fork time: its first write to such a page is trapped, the page's
//! bytes are captured for every child that still depends on them, and the page is given its true
//! protection back. See [`crate::guard_cow`] for that side.

use crate::memory;
use crate::numbers;
use crate::text;
use std::ops::Range;
use vstd::prelude::*;

verus! {

/// The variable that carries the ranges to populate lazily, as [`serialize_lazy_ranges`] writes
/// them, to the child.
pub const FORK_CHILD_LAZY_RANGES_ENV_VAR: &'static str = "LITEBOX_INTERNAL_FORK_CHILD_LAZY_RANGES";

/// The variable that carries the parent's process id, in decimal, to the child.
pub const FORK_CHILD_PARENT_PID_ENV_VAR: &'static str = "LITEBOX_INTERNAL_FORK_CHILD_PARENT_PID";

/// The variable that carries the address of the parent's snapshot table, in decimal, to the child.
pub const FORK_CHILD_GUARD_COW_TABLE_ENV_VAR: &'static str =
    "LITEBOX_INTERNAL_FORK_CHILD_GUARD_COW_TABLE";

/// The flag of a memory range that holds code.
pub const VM_EXEC: u32 = 4;

/// The size of one snapshot slot: a state byte and the bytes of a page.
pub const SNAPSHOT_SLOT_SIZE: usize = 4097;

/// Where a slot's bytes begin.
pub const SNAPSHOT_BYTES_OFFSET: usize = 1;

/// Whether the two ranges share an address, or one is inside the other.
pub open spec fn overlap(a: Range<usize>, b: Range<usize>) -> bool {
    a.start < b.end && b.start < a.end
}

/// Whether `a` lies in the range.
pub open spec fn holds(r: Range<usize>, a: usize) -> bool {
    r.start <= a < r.end
}

/// Whether a group may be populated lazily: none of the memory ranges that touch it holds code, and
/// the child's stack pointer does not lie in it.
pub open spec fn is_lazy_eligible(
    group: Range<usize>,
    vma_layout: Seq<(Range<usize>, u32, bool)>,
    active_rsp: usize,
) -> bool {
    &&& forall|j: int|
        0 <= j < vma_layout.len() ==> !(overlap((#[trigger] vma_layout[j]).0, group)
            && vma_layout[j].1 & VM_EXEC != 0)
    &&& !holds(group, active_rsp)
}

fn ranges_overlap(a: &Range<usize>, b: &Range<usize>) -> (r: bool)
    ensures
        r == overlap(*a, *b),
{
    a.start < b.end && b.start < a.end
}

/// Which groups may be populated lazily, in order; none unless `enabled`.
pub fn classify_lazy_eligible_groups(
    enabled: bool,
    group_relocations: &[(Range<usize>, usize)],
    vma_layout: &[(Range<usize>, u32, bool)],
    active_rsp: usize,
) -> (r: Vec<bool>)
    ensures
        r@.len() == group_relocations@.len(),
        forall|i: int|
            0 <= i < r@.len() ==> #[trigger] r@[i] == (enabled && is_lazy_eligible(
                group_relocations@[i].0,
                vma_layout@,
                active_rsp,
            )),
{
    let mut out: Vec<bool> = Vec::new();
    let mut i: usize = 0;
    while i < group_relocations.len()
        invariant
            i <= group_relocations@.len(),
            out@.len() == i,
            forall|k: int|
                0 <= k < i ==> #[trigger] out@[k] == (enabled && is_lazy_eligible(
                    group_relocations@[k].0,
                    vma_layout@,
                    active_rsp,
                )),
        decreases group_relocations@.len() - i,
    {
        let group = &group_relocations[i].0;
        let mut has_exec: bool = false;
        let mut j: usize = 0;
        while j < vma_layout.len()
            invariant
                j <= vma_layout@.len(),
                *group == group_relocations@[i as int].0,
                has_exec <==> exists|k: int|
                    0 <= k < j && overlap((#[trigger] vma_layout@[k]).0, *group) && vma_layout@[k].1
                        & VM_EXEC != 0,
            decreases vma_layout@.len() - j,
        {
            if ranges_overlap(&vma_layout[j].0, group) && vma_layout[j].1 & VM_EXEC != 0 {
                assert(overlap(vma_layout@[j as int].0, *group));
                has_exec = true;
            }
            j += 1;
        }
        let is_active_stack: bool = group.start <= active_rsp && active_rsp < group.end;
        out.push(enabled && !has_exec && !is_active_stack);
        i += 1;
    }
    out
}

/// A range as a pair of numbers.
pub open spec fn pair(r: Range<usize>) -> (int, int) {
    (r.start as int, r.end as int)
}

/// The ranges as pairs of numbers.
pub open spec fn pairs(rs: Seq<Range<usize>>) -> Seq<(int, int)> {
    rs.map_values(|r: Range<usize>| pair(r))
}

/// The text of one range: first address and end in hexadecimal, with a dash between.
pub open spec fn range_text(p: (int, int)) -> Seq<char> {
    numbers::digits(p.0 as nat, 16).push('-') + numbers::digits(p.1 as nat, 16)
}

/// The texts of the ranges.
pub open spec fn range_texts(ps: Seq<(int, int)>) -> Seq<Seq<char>> {
    ps.map_values(|p: (int, int)| range_text(p))
}

/// The range that a text writes, if it is one that holds an address.
pub open spec fn range_of(s: Seq<char>) -> Option<(int, int)> {
    match text::cut_at(s, '-') {
        Some((a, b)) => match (
            numbers::unsigned_value(a, 16, usize::MAX as nat),
            numbers::unsigned_value(b, 16, usize::MAX as nat),
        ) {
            (Some(start), Some(end)) => if start < end {
                Some((start as int, end as int))
            } else {
                None
            },
            _ => None,
        },
        None => None,
    }
}

/// The ranges that the texts write; texts that write none are passed over.
pub open spec fn ranges_of(parts: Seq<Seq<char>>) -> Seq<(int, int)>
    decreases parts.len(),
{
    if parts.len() == 0 {
        Seq::empty()
    } else {
        let rest = ranges_of(parts.drop_last());
        match range_of(parts.last()) {
            Some(p) => rest.push(p),
            None => rest,
        }
    }
}

proof fn lemma_range_text(p: (int, int))
    requires
        0 <= p.0 < p.1 <= usize::MAX,
    ensures
        range_of(range_text(p)) == Some(p),
        !range_text(p).contains(','),
{
    let a = numbers::digits(p.0 as nat, 16);
    let b = numbers::digits(p.1 as nat, 16);
    numbers::lemma_digits_roundtrip(p.0 as nat, 16);
    numbers::lemma_digits_roundtrip(p.1 as nat, 16);
    numbers::lemma_unsigned_roundtrip(p.0 as nat, 16, usize::MAX as nat);
    numbers::lemma_unsigned_roundtrip(p.1 as nat, 16, usize::MAX as nat);
    assert(!a.contains('-')) by {
        assert forall|i: int| 0 <= i < a.len() implies #[trigger] a[i] != '-' by {
            assert(numbers::is_digit_char(a[i]));
        }
    }
    text::lemma_cut_at(a, '-', b);
    let s = range_text(p);
    assert forall|i: int| 0 <= i < s.len() implies #[trigger] s[i] != ',' by {
        if i < a.len() {
            assert(s[i] == a[i]);
            assert(numbers::is_digit_char(a[i]));
        } else if i > a.len() {
            assert(s[i] == b[i - a.len() - 1]);
            assert(numbers::is_digit_char(b[i - a.len() - 1]));
        }
    }
}

/// What is read as a range is two numbers with a dash between, the first below the second; anything
/// else is passed over, and each part that is a range is read in its place.
pub proof fn law_only_ranges_are_read(s: Seq<char>, parts: Seq<Seq<char>>)
    ensures
        range_of(s) matches Some(p) ==> s.contains('-') && 0 <= p.0 < p.1 <= usize::MAX,
        range_of(s) matches Some(p) ==> ranges_of(parts.push(s)) == ranges_of(parts).push(p),
        range_of(s) is None ==> ranges_of(parts.push(s)) == ranges_of(parts),
        ranges_of(Seq::<Seq<char>>::empty()).len() == 0,
{
    text::law_cut_needs_a_separator(s, '-');
    assert(parts.push(s).drop_last() =~= parts);
}

proof fn lemma_ranges_of(ps: Seq<(int, int)>)
    requires
        forall|i: int| 0 <= i < ps.len() ==> 0 <= (#[trigger] ps[i]).0 < ps[i].1 <= usize::MAX,
    ensures
        ranges_of(range_texts(ps)) == ps,
    decreases ps.len(),
{
    let parts = range_texts(ps);
    if ps.len() > 0 {
        assert(parts.drop_last() =~= range_texts(ps.drop_last()));
        lemma_ranges_of(ps.drop_last());
        lemma_range_text(ps.last());
        assert(ps.drop_last().push(ps.last()) =~= ps);
    } else {
        assert(ps =~= Seq::empty());
    }
}

/// Ranges that hold an address, written as a line and read again, are the same ranges in the same
/// order.
pub proof fn law_lazy_ranges_roundtrip(ps: Seq<(int, int)>)
    requires
        forall|i: int| 0 <= i < ps.len() ==> 0 <= (#[trigger] ps[i]).0 < ps[i].1 <= usize::MAX,
    ensures
        ranges_of(text::parts_of(text::joined(range_texts(ps), ','), ',')) == ps,
{
    let parts = range_texts(ps);
    if ps.len() == 0 {
        let s = text::joined(parts, ',');
        assert(s.len() == 0);
        assert(text::parts_of(s, ',') =~= seq![s]);
        reveal_with_fuel(ranges_of, 2);
        assert(seq![s].drop_last() =~= Seq::empty());
        assert(ranges_of(seq![s]) =~= ps);
    } else {
        assert forall|i: int| 0 <= i < parts.len() implies !(#[trigger] parts[i]).contains(',') by {
            lemma_range_text(ps[i]);
        }
        text::lemma_parts_joined(parts, ',');
        lemma_ranges_of(ps);
    }
}

/// The line that carries the lazily reserved ranges to the child.
pub fn serialize_lazy_ranges(ranges: &[Range<usize>]) -> (r: String)
    ensures
        r@ == text::joined(range_texts(pairs(ranges@)), ','),
{
    let mut out = String::new();
    let ghost all = range_texts(pairs(ranges@));
    let mut i: usize = 0;
    assert(all.take(0) =~= Seq::empty());
    while i < ranges.len()
        invariant
            i <= ranges@.len(),
            all == range_texts(pairs(ranges@)),
            out@ == text::joined(all.take(i as int), ','),
        decreases ranges@.len() - i,
    {
        let ghost before = out@;
        if i > 0 {
            out.push(',');
        }
        let ghost prefix = out@;
        numbers::push_digits(&mut out, ranges[i].start as u64, 16);
        out.push('-');
        numbers::push_digits(&mut out, ranges[i].end as u64, 16);
        proof {
            let now = all.take(i + 1);
            let this = range_text(pair(ranges@[i as int]));
            assert(all[i as int] == this);
            assert(out@ =~= prefix + this);
            assert(now =~= all.take(i as int).push(this));
            if i > 0 {
                text::lemma_joined_push(all.take(i as int), this, ',');
            } else {
                assert(now =~= seq![this]);
                text::lemma_joined_one(this, ',');
                assert(out@ =~= this);
            }
        }
        i += 1;
    }
    assert(all.take(i as int) =~= all);
    out
}

/// The ranges that the line writes; parts that write none are passed over.
pub fn deserialize_lazy_ranges(s: &str) -> (r: Vec<Range<usize>>)
    ensures
        pairs(r@) == ranges_of(text::parts_of(s@, ',')),
        forall|i: int| 0 <= i < r@.len() ==> (#[trigger] r@[i]).start < r@[i].end,
{
    let parts = text::split_on(s, ',');
    let ghost all = text::views(parts@);
    let mut out: Vec<Range<usize>> = Vec::new();
    let mut i: usize = 0;
    assert(pairs(out@) =~= Seq::empty());
    assert(all.take(0) =~= Seq::empty());
    while i < parts.len()
        invariant
            i <= parts@.len(),
            all == text::views(parts@),
            pairs(out@) == ranges_of(all.take(i as int)),
            forall|k: int| 0 <= k < out@.len() ==> (#[trigger] out@[k]).start < out@[k].end,
        decreases parts@.len() - i,
    {
        assert(all.take(i + 1).drop_last() =~= all.take(i as int));
        assert(all.take(i + 1).last() == parts@[i as int]@);
        let parsed = parse_range(parts[i].as_str());
        if let Some(range) = parsed {
            proof {
                assert(pairs(out@.push(range)) =~= pairs(out@).push(pair(range)));
            }
            out.push(range);
        }
        i += 1;
    }
    assert(all.take(i as int) =~= all);
    out
}

fn parse_range(s: &str) -> (r: Option<Range<usize>>)
    ensures
        match r {
            Some(range) => range_of(s@) == Some(pair(range)) && range.start < range.end,
            None => range_of(s@) is None,
        },
{
    match text::cut(s, '-') {
        Some((a, b)) => {
            let start: Option<u64> = numbers::parse_unsigned(a.as_str(), 16, usize::MAX as u64);
            let end: Option<u64> = numbers::parse_unsigned(b.as_str(), 16, usize::MAX as u64);
            match (start, end) {
                (Some(start), Some(end)) => if start < end {
                    Some((start as usize)..(end as usize))
                } else {
                    None
                },
                _ => None,
            }
        },
        None => None,
    }
}

/// A range and the index of its first page's snapshot slot.
#[derive(Debug, PartialEq, Eq)]
pub struct SlotBase {
    pub range: Range<usize>,
    pub first_slot: usize,
}

/// The number of pages of the first `n` ranges together, modulo the word size.
pub open spec fn slots_before(ranges: Seq<Range<usize>>, n: int) -> int
    decreases n,
{
    if n <= 0 || n > ranges.len() {
        0
    } else {
        let r = ranges[n - 1];
        let len = if r.start <= r.end {
            (r.end - r.start) as nat
        } else {
            0
        };
        (slots_before(ranges, n - 1) + memory::pages_in(len)) % (usize::MAX + 1)
    }
}

/// The slot index at which each range's pages begin: the pages of all ranges are numbered one after
/// the other.
pub fn slot_bases(ranges: &Vec<Range<usize>>) -> (r: Vec<SlotBase>)
    ensures
        r@.len() == ranges@.len(),
        forall|i: int|
            0 <= i < r@.len() ==> (#[trigger] r@[i]).range == ranges@[i] && r@[i].first_slot
                == slots_before(ranges@, i),
{
    let mut out: Vec<SlotBase> = Vec::new();
    let mut next: usize = 0;
    let mut i: usize = 0;
    while i < ranges.len()
        invariant
            i <= ranges@.len(),
            out@.len() == i,
            next == slots_before(ranges@, i as int),
            forall|k: int|
                0 <= k < i ==> (#[trigger] out@[k]).range == ranges@[k] && out@[k].first_slot
                    == slots_before(ranges@, k),
        decreases ranges@.len() - i,
    {
        let start: usize = ranges[i].start;
        let end: usize = ranges[i].end;
        out.push(SlotBase { range: start..end, first_slot: next });
        let len: usize = if start <= end {
            end - start
        } else {
            0
        };
        let pages: usize = memory::page_count(len);
        next = memory::wrapping_sum(next, pages);
        i += 1;
    }
    out
}

/// The number of pages that a list of groups needs slots for, modulo the word size.
pub fn total_slots(ranges: &Vec<Range<usize>>) -> (r: usize)
    ensures
        r == slots_before(ranges@, ranges@.len() as int),
{
    let mut next: usize = 0;
    let mut i: usize = 0;
    while i < ranges.len()
        invariant
            i <= ranges@.len(),
            next == slots_before(ranges@, i as int),
        decreases ranges@.len() - i,
    {
        let start: usize = ranges[i].start;
        let end: usize = ranges[i].end;
        let len: usize = if start <= end {
            end - start
        } else {
            0
        };
        let pages: usize = memory::page_count(len);
        next = memory::wrapping_sum(next, pages);
        i += 1;
    }
    next
}

/// What a child finds in its environment about lazily reserved memory.
#[derive(Debug, PartialEq, Eq)]
pub enum InstallPlan {
    /// Nothing is reserved: no handler is installed.
    Inert,
    /// Ranges are reserved but the parent's process number is missing or unreadable.
    MissingParentPid,
    /// Open the parent, then install the handler.
    Install {
        ranges: Vec<Range<usize>>,
        parent_pid: u32,
        /// The address of the parent's snapshot table and where each range's slots begin, if the
        /// parent guards its pages.
        guard: Option<(usize, Vec<SlotBase>)>,
    },
}

/// The ranges that the line reserves; none without a line.
pub open spec fn reserved_ranges(line: Option<&str>) -> Seq<(int, int)> {
    match line {
        Some(l) => ranges_of(text::parts_of(l@, ',')),
        None => Seq::empty(),
    }
}

/// What the child is to do, from the three lines that its environment may hold.
pub fn install_if_configured(
    ranges_line: Option<&str>,
    parent_pid_line: Option<&str>,
    guard_table_line: Option<&str>,
) -> (r: InstallPlan)
    ensures
        r is Inert <==> reserved_ranges(ranges_line).len() == 0,
        r is MissingParentPid <==> reserved_ranges(ranges_line).len() > 0 && (parent_pid_line
            is None || numbers::unsigned_value(parent_pid_line->0@, 10, u32::MAX as nat) is None),
        r matches InstallPlan::Install { ranges, parent_pid, guard } ==> {
            &&& pairs(ranges@) == reserved_ranges(ranges_line)
            &&& numbers::unsigned_value(parent_pid_line->0@, 10, u32::MAX as nat) == Some(
                parent_pid as nat,
            )
            &&& guard is Some <==> guard_table_line is Some && numbers::unsigned_value(
                guard_table_line->0@,
                10,
                usize::MAX as nat,
            ) is Some && numbers::unsigned_value(guard_table_line->0@, 10, usize::MAX as nat)->0
                != 0
            &&& guard matches Some((base, slots)) ==> {
                &&& numbers::unsigned_value(guard_table_line->0@, 10, usize::MAX as nat) == Some(
                    base as nat,
                )
                &&& slots@.len() == ranges@.len()
                &&& forall|i: int|
                    0 <= i < slots@.len() ==> (#[trigger] slots@[i]).range == ranges@[i]
                        && slots@[i].first_slot == slots_before(ranges@, i)
            }
        },
{
    let ranges = match ranges_line {
        Some(line) => deserialize_lazy_ranges(line),
        None => Vec::new(),
    };
    assert(pairs(ranges@).len() == ranges@.len());
    if ranges.len() == 0 {
        return InstallPlan::Inert;
    }
    let pid: Option<u64> = match parent_pid_line {
        Some(line) => numbers::parse_unsigned(line, 10, u32::MAX as u64),
        None => None,
    };
    let parent_pid: u32 = match pid {
        Some(pid) => pid as u32,
        None => {
            return InstallPlan::MissingParentPid;
        },
    };
    let table: Option<u64> = match guard_table_line {
        Some(line) => numbers::parse_unsigned(line, 10, usize::MAX as u64),
        None => None,
    };
    let guard = match table {
        Some(base) => if base != 0 {
            Some((base as usize, slot_bases(&ranges)))
        } else {
            None
        },
        None => None,
    };
    InstallPlan::Install { ranges, parent_pid, guard }
}

/// The child's record of its lazily reserved memory.
#[derive(Debug, PartialEq, Eq)]
pub struct LazyChild {
    pub disarmed: bool,
    pub ranges: Vec<Range<usize>>,
    /// The open handle to the parent, or 0.
    pub parent_handle: usize,
    pub guard: Option<(usize, Vec<SlotBase>)>,
    /// The faults serviced so far.
    pub serviced: usize,
    /// Those of them for which the parent had no readable bytes.
    pub zero_filled: usize,
}

/// What to do next about a fault in the child.
#[derive(Debug, Clone, Copy, PartialEq, Eq, Structural)]
pub enum FaultAction {
    /// The fault is not this handler's.
    Decline,
    /// Commit the page and continue with [`LazyChild::on_committed`].
    Commit { page: usize },
    /// Read the parent's page and continue with [`LazyChild::on_live_read`].
    ReadLive { page: usize },
    /// Read the state byte at `state` and continue with [`LazyChild::on_state_read`].
    ReadState { state: usize },
    /// Read the page of bytes at `bytes` and continue with [`LazyChild::on_snapshot_read`].
    ReadSnapshot { bytes: usize },
    /// Fill the page from `source` and run the instruction again.
    Resume { source: PageSource },
}

/// Where a page's first bytes come from.
#[derive(Debug, Clone, Copy, PartialEq, Eq, Structural)]
pub enum PageSource {
    /// The bytes just read from the parent's page.
    Live,
    /// The bytes that the parent captured before it first wrote to the page.
    Snapshot,
    /// The page stays zero.
    Zero,
}

/// The source of a page's bytes: once a snapshot is published the bytes of the live page are
/// dropped, for they may have been written since the fork. `live` and `snapshot` say whether the
/// one and the other could be read.
pub open spec fn page_source(live: bool, published: bool, snapshot: bool) -> PageSource {
    if published {
        if snapshot {
            PageSource::Snapshot
        } else {
            PageSource::Zero
        }
    } else if live {
        PageSource::Live
    } else {
        PageSource::Zero
    }
}

/// The address of the snapshot slot of the page at `page`, modulo the word size, if its range has
/// slots.
pub open spec fn slot_address(
    guard: Option<(usize, Vec<SlotBase>)>,
    page: usize,
    from: int,
) -> Option<usize>
    decreases (match guard {
        Some(g) => g.1@.len(),
        None => 0,
    }) - from,
{
    match guard {
        None => None,
        Some((base, slots)) => if from < 0 || from >= slots@.len() {
            None
        } else if holds(slots@[from].range, page) {
            let slot = (slots@[from].first_slot + (page - slots@[from].range.start) / 4096) % (
            usize::MAX + 1);
            Some(((base + slot * 4097) % (usize::MAX + 1)) as usize)
        } else {
            slot_address(guard, page, from + 1)
        },
    }
}

/// Whether `a` lies in one of the ranges.
pub open spec fn any_holds(ranges: Seq<Range<usize>>, a: usize) -> bool {
    exists|i: int| 0 <= i < ranges.len() && holds(#[trigger] ranges[i], a)
}

/// What the handler does about an exception: it claims an access violation inside a reserved range,
/// unless it was disarmed.
pub open spec fn fault_claim(child: LazyChild, code: u32, address: usize) -> FaultAction {
    if !child.disarmed && code == memory::EXCEPTION_ACCESS_VIOLATION && any_holds(
        child.ranges@,
        address,
    ) {
        FaultAction::Commit { page: memory::page_of(address) }
    } else {
        FaultAction::Decline
    }
}

/// One more; the largest number is followed by 0.
pub open spec fn bumped(n: usize) -> usize {
    if n == usize::MAX {
        0
    } else {
        (n + 1) as usize
    }
}

impl LazyChild {
    /// Everything but the two counters is the same.
    pub open spec fn same_setup(self, other: Self) -> bool {
        self.disarmed == other.disarmed && self.ranges == other.ranges && self.parent_handle
            == other.parent_handle && self.guard == other.guard
    }

    /// Permanently disarms the handler: the image that the ranges described is being replaced.
    /// Returns the handle to close, or 0.
    pub fn disarm_on_execve(&mut self) -> (r: usize)
        ensures
            r == old(self).parent_handle,
            final(self).disarmed,
            final(self).parent_handle == 0,
            final(self).ranges == old(self).ranges,
            final(self).guard == old(self).guard,
            final(self).serviced == old(self).serviced,
            final(self).zero_filled == old(self).zero_filled,
    {
        self.disarmed = true;
        let handle: usize = self.parent_handle;
        self.parent_handle = 0;
        handle
    }

    /// Claims a fault: an access violation inside a reserved range, unless disarmed.
    pub fn lazy_commit_veh(&self, code: u32, address: usize) -> (r: FaultAction)
        ensures
            r == fault_claim(*self, code, address),
    {
        if self.disarmed || code != memory::EXCEPTION_ACCESS_VIOLATION {
            return FaultAction::Decline;
        }
        let mut i: usize = 0;
        while i < self.ranges.len()
            invariant
                i <= self.ranges@.len(),
                !self.disarmed,
                code == memory::EXCEPTION_ACCESS_VIOLATION,
                forall|k: int| 0 <= k < i ==> !holds(#[trigger] self.ranges@[k], address),
            decreases self.ranges@.len() - i,
        {
            if self.ranges[i].start <= address && address < self.ranges[i].end {
                assert(holds(self.ranges@[i as int], address));
                return FaultAction::Commit { page: memory::page_start(address) };
            }
            i += 1;
        }
        FaultAction::Decline
    }

    /// Goes on after the page was committed, or could not be.
    pub fn on_committed(&mut self, committed: bool, page: usize) -> (r: FaultAction)
        ensures
            final(self).same_setup(*old(self)),
            final(self).zero_filled == old(self).zero_filled,
            r == if !committed {
                FaultAction::Decline
            } else if old(self).parent_handle == 0 {
                FaultAction::Resume { source: PageSource::Zero }
            } else {
                FaultAction::ReadLive { page }
            },
            final(self).serviced == if r is Resume {
                bumped(old(self).serviced)
            } else {
                old(self).serviced
            },
    {
        if !committed {
            FaultAction::Decline
        } else if self.parent_handle == 0 {
            self.serviced = self.serviced.wrapping_add(1);
            FaultAction::Resume { source: PageSource::Zero }
        } else {
            FaultAction::ReadLive { page }
        }
    }

    /// Goes on after the parent's live page was read, `live` saying whether all of it was. The
    /// snapshot state is read only now, after the live bytes.
    pub fn on_live_read(&mut self, page: usize, live: bool) -> (r: FaultAction)
        ensures
            final(self).same_setup(*old(self)),
            match slot_address(old(self).guard, page, 0) {
                Some(state) => r == (FaultAction::ReadState { state }) && final(self).serviced
                    == old(self).serviced && final(self).zero_filled == old(self).zero_filled,
                None => r == (FaultAction::Resume { source: page_source(live, false, false) })
                    && final(self).counted(*old(self), page_source(live, false, false)),
            },
    {
        match self.find_slot(page) {
            Some(state) => FaultAction::ReadState { state },
            None => self.finish(page_source_of(live, false, false)),
        }
    }

    /// Goes on after the state byte of the slot at `slot` was read: `None` if it could not be.
    pub fn on_state_read(&mut self, slot: usize, live: bool, state: Option<u8>) -> (r: FaultAction)
        ensures
            final(self).same_setup(*old(self)),
            if state == Some(1u8) {
                r == (FaultAction::ReadSnapshot { bytes: bumped(slot) })
                    && final(self).serviced == old(self).serviced && final(self).zero_filled
                    == old(self).zero_filled
            } else {
                let source = page_source(live, false, false);
                r == (FaultAction::Resume { source }) && final(self).counted(*old(self), source)
            },
    {
        let published: bool = match state {
            Some(s) => s == 1,
            None => false,
        };
        if published {
            FaultAction::ReadSnapshot { bytes: slot.wrapping_add(SNAPSHOT_BYTES_OFFSET) }
        } else {
            self.finish(page_source_of(live, false, false))
        }
    }

    /// Goes on after the published snapshot was read, `snapshot` saying whether all of it was.
    pub fn on_snapshot_read(&mut self, snapshot: bool) -> (r: FaultAction)
        ensures
            final(self).same_setup(*old(self)),
            r == (FaultAction::Resume { source: page_source(true, true, snapshot) }),
            final(self).counted(*old(self), page_source(true, true, snapshot)),
    {
        self.finish(page_source_of(true, true, snapshot))
    }

    /// Whether the counters moved from those of `before` by one serviced fault.
    pub open spec fn counted(self, before: Self, source: PageSource) -> bool {
        self.serviced == bumped(before.serviced) && self.zero_filled == if source
            == PageSource::Zero {
            bumped(before.zero_filled)
        } else {
            before.zero_filled
        }
    }

    fn finish(&mut self, source: PageSource) -> (r: FaultAction)
        ensures
            final(self).same_setup(*old(self)),
            r == (FaultAction::Resume { source }),
            final(self).counted(*old(self), source),
    {
        if let PageSource::Zero = source {
            self.zero_filled = self.zero_filled.wrapping_add(1);
        }
        self.serviced = self.serviced.wrapping_add(1);
        FaultAction::Resume { source }
    }

    fn find_slot(&self, page: usize) -> (r: Option<usize>)
        ensures
            r == slot_address(self.guard, page, 0),
    {
        match &self.guard {
            None => None,
            Some((base, slots)) => {
                let mut i: usize = 0;
                while i < slots.len()
                    invariant
                        i <= slots@.len(),
                        self.guard == Some((*base, *slots)),
                        slot_address(self.guard, page, 0) == slot_address(
                            self.guard,
                            page,
                            i as int,
                        ),
                    decreases slots@.len() - i,
                {
                    let start: usize = slots[i].range.start;
                    if start <= page && page < slots[i].range.end {
                        let step: usize = (page - start) / memory::PAGE_SIZE;
                        let slot: usize = memory::wrapping_sum(slots[i].first_slot, step);
                        let offset: usize = slot.wrapping_mul(SNAPSHOT_SLOT_SIZE);
                        let address: usize = memory::wrapping_sum(*base, offset);
                        proof {
                            lemma_mod_sum(*base as int, slot * 4097, usize::MAX + 1);
                        }
                        return Some(address);
                    }
                    i += 1;
                }
                None
            },
        }
    }
}

proof fn lemma_mod_sum(a: int, b: int, m: int)
    requires
        m > 0,
    ensures
        (a + b % m) % m == (a + b) % m,
{
    vstd::arithmetic::div_mod::lemma_add_mod_noop_right(a, b, m);
}

fn page_source_of(live: bool, published: bool, snapshot: bool) -> (r: PageSource)
    ensures
        r == page_source(live, published, snapshot),
{
    if published {
        if snapshot {
            PageSource::Snapshot
        } else {
            PageSource::Zero
        }
    } else if live {
        PageSource::Live
    } else {
        PageSource::Zero
    }
}

/// The number of pages that the first `n` ranges take up together, a part of a page counting as one.
pub open spec fn pages_up_to(ranges: Seq<Range<usize>>, n: int) -> nat
    decreases n,
{
    if n <= 0 {
        0
    } else if ranges[n - 1].start >= ranges[n - 1].end {
        pages_up_to(ranges, n - 1)
    } else {
        pages_up_to(ranges, n - 1) + ((ranges[n - 1].end - ranges[n - 1].start - 1) / 4096 + 1)
            as nat
    }
}

proof fn lemma_pages_up_to_grows(ranges: Seq<Range<usize>>, m: int, n: int)
    requires
        0 <= m <= n,
    ensures
        pages_up_to(ranges, m) <= pages_up_to(ranges, n),
    decreases n - m,
{
    if m < n {
        lemma_pages_up_to_grows(ranges, m, n - 1);
    }
}

/// The slots of the ranges follow each other: as many slots come before those of a range as the
/// ranges before it have pages.
pub proof fn law_slots_follow_each_other(ranges: Seq<Range<usize>>, n: int)
    requires
        0 <= n <= ranges.len(),
        pages_up_to(ranges, n) <= usize::MAX,
    ensures
        slots_before(ranges, n) == pages_up_to(ranges, n),
    decreases n,
{
    if n > 0 {
        law_slots_follow_each_other(ranges, n - 1);
        vstd::arithmetic::div_mod::lemma_small_mod(
            pages_up_to(ranges, n),
            (usize::MAX + 1) as nat,
        );
    }
}

/// Whether `slots` says for each of the ranges where its slots begin.
pub open spec fn are_slots_of(slots: Seq<SlotBase>, ranges: Seq<Range<usize>>) -> bool {
    &&& slots.len() == ranges.len()
    &&& forall|i: int|
        0 <= i < slots.len() ==> (#[trigger] slots[i]).range == ranges[i] && slots[i].first_slot
            == slots_before(ranges, i)
}

/// Whether range `k` is the first of the ranges that holds `page`.
pub open spec fn first_holder(ranges: Seq<Range<usize>>, k: int, page: usize) -> bool {
    &&& 0 <= k < ranges.len()
    &&& ranges[k].start <= page < ranges[k].end
    &&& forall|j: int| 0 <= j < k ==> !((#[trigger] ranges[j]).start <= page < ranges[j].end)
}

/// The child looks for a page's snapshot in the page's own slot: the table has one slot of 4097
/// bytes for each page of all ranges, in the order of the ranges and of the pages in them, and the
/// slot lies in the table.
pub proof fn law_each_page_has_its_slot(
    base: usize,
    slots: Vec<SlotBase>,
    ranges: Seq<Range<usize>>,
    k: int,
    page: usize,
)
    requires
        are_slots_of(slots@, ranges),
        first_holder(ranges, k, page),
        base + 4097 * pages_up_to(ranges, ranges.len() as int) <= usize::MAX,
    ensures
        slot_address(Some((base, slots)), page, 0) is Some,
        slot_address(Some((base, slots)), page, 0)->0 == base + 4097 * (pages_up_to(ranges, k) + (
        page - ranges[k].start) / 4096),
        slot_address(Some((base, slots)), page, 0)->0 + 4097 <= base + 4097 * pages_up_to(
            ranges,
            k + 1,
        ),
        base + 4097 * pages_up_to(ranges, k + 1) <= base + 4097 * pages_up_to(
            ranges,
            ranges.len() as int,
        ),
{
    let total = pages_up_to(ranges, ranges.len() as int);
    lemma_pages_up_to_grows(ranges, k, ranges.len() as int);
    lemma_pages_up_to_grows(ranges, k + 1, ranges.len() as int);
    law_slots_follow_each_other(ranges, k);
    let step = (page - ranges[k].start) / 4096;
    let index = pages_up_to(ranges, k) + step;
    assert(index + 1 <= pages_up_to(ranges, k + 1));
    vstd::arithmetic::div_mod::lemma_small_mod(index as nat, (usize::MAX + 1) as nat);
    vstd::arithmetic::div_mod::lemma_small_mod(
        (base + index * 4097) as nat,
        (usize::MAX + 1) as nat,
    );
    lemma_finds_first(base, slots, ranges, k, page, 0);
    assert(slots@[k].range == ranges[k]);
}

proof fn lemma_finds_first(
    base: usize,
    slots: Vec<SlotBase>,
    ranges: Seq<Range<usize>>,
    k: int,
    page: usize,
    from: int,
)
    requires
        are_slots_of(slots@, ranges),
        first_holder(ranges, k, page),
        0 <= from <= k,
    ensures
        slot_address(Some((base, slots)), page, from) == slot_address(
            Some((base, slots)),
            page,
            k,
        ),
    decreases k - from,
{
    if from < k {
        assert(slots@[from].range == ranges[from]);
        assert(!(ranges[from].start <= page < ranges[from].end));
        lemma_finds_first(base, slots, ranges, k, page, from + 1);
    }
}

/// Two different pages of the reserved ranges never share a slot, nor a byte of one.
pub proof fn law_pages_do_not_share_slots(
    base: usize,
    slots: Vec<SlotBase>,
    ranges: Seq<Range<usize>>,
    k: int,
    page: usize,
    l: int,
    other: usize,
)
    requires
        are_slots_of(slots@, ranges),
        first_holder(ranges, k, page),
        first_holder(ranges, l, other),
        k == l ==> (page - ranges[k].start) / 4096 != (other - ranges[l].start) / 4096,
        base + 4097 * pages_up_to(ranges, ranges.len() as int) <= usize::MAX,
    ensures
        ({
            let a = slot_address(Some((base, slots)), page, 0)->0;
            let b = slot_address(Some((base, slots)), other, 0)->0;
            a + 4097 <= b || b + 4097 <= a
        }),
{
    law_each_page_has_its_slot(base, slots, ranges, k, page);
    law_each_page_has_its_slot(base, slots, ranges, l, other);
    if k < l {
        lemma_pages_up_to_grows(ranges, k + 1, l);
    } else if l < k {
        lemma_pages_up_to_grows(ranges, l + 1, k);
    }
}

/// A page in none of the ranges has no slot, and neither has any page without a table.
pub proof fn law_other_pages_have_no_slot(
    base: usize,
    slots: Vec<SlotBase>,
    ranges: Seq<Range<usize>>,
    page: usize,
    from: int,
)
    requires
        are_slots_of(slots@, ranges),
        forall|j: int|
            0 <= j < ranges.len() ==> !((#[trigger] ranges[j]).start <= page < ranges[j].end),
    ensures
        slot_address(Some((base, slots)), page, from) is None,
        slot_address(None, page, from) is None,
    decreases ranges.len() - from,
{
    if 0 <= from < ranges.len() {
        assert(slots@[from].range == ranges[from]);
        assert(!(ranges[from].start <= page < ranges[from].end));
        law_other_pages_have_no_slot(base, slots, ranges, page, from + 1);
    }
}

/// The child commits the page of every address of a reserved range that it cannot access, and claims
/// no other exception: the page begins at a multiple of the page size, and holds the address.
pub proof fn law_faults_in_ranges_are_claimed(child: LazyChild, code: u32, address: usize, k: int)
    requires
        !child.disarmed,
    ensures
        code == 0xC000_0005 && 0 <= k < child.ranges@.len() && child.ranges@[k].start <= address
            < child.ranges@[k].end ==> (fault_claim(child, code, address) matches
            FaultAction::Commit { page } && page as int % 4096 == 0 && page <= address < page
            + 4096),
        fault_claim(child, code, address) != FaultAction::Decline ==> code == 0xC000_0005 && (
        exists|j: int|
            0 <= j < child.ranges@.len() && (#[trigger] child.ranges@[j]).start <= address
                < child.ranges@[j].end),
{
    if 0 <= k < child.ranges@.len() && child.ranges@[k].start <= address < child.ranges@[k].end {
        assert(holds(child.ranges@[k], address));
    }
    if any_holds(child.ranges@, address) {
        let j = choose|j: int| 0 <= j < child.ranges@.len() && holds(#[trigger] child.ranges@[j], address);
        assert(child.ranges@[j].start <= address < child.ranges@[j].end);
    }
}

/// A group is not populated lazily if it shares an address with memory that holds code or if the
/// stack pointer lies in it, and is otherwise.
pub proof fn law_code_and_stack_are_copied_at_once(
    group: Range<usize>,
    vma_layout: Seq<(Range<usize>, u32, bool)>,
    active_rsp: usize,
    j: int,
    a: usize,
)
    requires
        group.start < group.end,
        forall|i: int|
            0 <= i < vma_layout.len() ==> (#[trigger] vma_layout[i]).0.start < vma_layout[i].0.end,
    ensures
        group.start <= active_rsp < group.end ==> !is_lazy_eligible(group, vma_layout, active_rsp),
        0 <= j < vma_layout.len() && vma_layout[j].1 & 4 != 0 && vma_layout[j].0.start <= a
            < vma_layout[j].0.end && group.start <= a < group.end ==> !is_lazy_eligible(
            group,
            vma_layout,
            active_rsp,
        ),
        !is_lazy_eligible(group, vma_layout, active_rsp) ==> group.start <= active_rsp < group.end
            || exists|i: int, b: usize|
            0 <= i < vma_layout.len() && (#[trigger] vma_layout[i]).1 & 4 != 0 && #[trigger] holds(
                vma_layout[i].0,
                b,
            ) && group.start <= b < group.end,
{
    if !is_lazy_eligible(group, vma_layout, active_rsp) && !holds(group, active_rsp) {
        let i = choose|i: int|
            0 <= i < vma_layout.len() && overlap((#[trigger] vma_layout[i]).0, group)
                && vma_layout[i].1 & VM_EXEC != 0;
        let v = vma_layout[i].0;
        let b = if v.start >= group.start {
            v.start
        } else {
            group.start
        };
        assert(vma_layout[i].1 & 4 != 0);
        assert(holds(vma_layout[i].0, b));
    }
    if 0 <= j < vma_layout.len() && vma_layout[j].1 & 4 != 0 && vma_layout[j].0.start <= a
        < vma_layout[j].0.end && group.start <= a < group.end {
        assert(overlap(vma_layout[j].0, group));
    }
}

/// Once the image has been replaced, no fault is claimed any more, whatever ranges are left.
pub proof fn law_disarmed_claims_nothing(child: LazyChild, code: u32, address: usize)
    requires
        child.disarmed,
    ensures
        fault_claim(child, code, address) == FaultAction::Decline,
{
}

/// The child sees the page as it was when it forked. `content` is the parent's page over time. The
/// page is not written between the time `opened` it was made read-only and the time it was captured;
/// a capture keeps the bytes of that moment and publishes them at once. The child, forked at `fork`
/// while the page was read-only, reads the live page at `live_at` and the published state at
/// `state_at`, in that order. `live_read` and `snapshot_read` say which reads succeeded: the page
/// stays zero only if the bytes that the child needs could not be read.
pub proof fn law_child_sees_fork_time_bytes(
    content: spec_fn(int) -> Seq<u8>,
    opened: int,
    captured: Option<int>,
    snapshot: Seq<u8>,
    fork: int,
    live_at: int,
    state_at: int,
    live_read: bool,
    snapshot_read: bool,
)
    requires
        opened <= fork <= live_at <= state_at,
        captured matches Some(c) ==> fork <= c && snapshot == content(c),
        forall|t: int|
            opened <= t && (captured matches Some(c) ==> t <= c) ==> #[trigger] content(t)
                == content(opened),
    ensures
        ({
            let published = captured matches Some(c) && c <= state_at;
            match page_source(live_read, published, snapshot_read) {
                PageSource::Snapshot => snapshot_read && snapshot == content(fork),
                PageSource::Live => live_read && content(live_at) == content(fork),
                PageSource::Zero => if published {
                    !snapshot_read
                } else {
                    !live_read
                },
            }
        }),
{
}

/// The child reads the state of a page's own slot after it has read the parent's page:
/// [`LazyChild::on_live_read`] names the slot that stands in the table where the page stands among
/// the pages of the reserved ranges.
pub proof fn law_child_reads_its_own_slot(
    child: &mut LazyChild,
    page: usize,
    live: bool,
    r: FaultAction,
    base: usize,
    slots: Vec<SlotBase>,
    ranges: Seq<Range<usize>>,
    k: int,
)
    requires
        call_ensures(LazyChild::on_live_read, (child, page, live), r),
        old(child).guard == Some((base, slots)),
        are_slots_of(slots@, ranges),
        first_holder(ranges, k, page),
        base + 4097 * pages_up_to(ranges, ranges.len() as int) <= usize::MAX,
    ensures
        r matches FaultAction::ReadState { state } && state == base + 4097 * (pages_up_to(ranges, k)
            + (page - ranges[k].start) / 4096),
{
    law_each_page_has_its_slot(base, slots, ranges, k, page);
}

/// Where each range's slots begin, as [`slot_bases`] gives it, is what the child's lookups rest on.
pub proof fn law_slot_bases_number_the_pages(ranges: &Vec<Range<usize>>, r: Vec<SlotBase>, k: int)
    requires
        call_ensures(slot_bases, (ranges,), r),
        0 <= k < ranges@.len(),
        pages_up_to(ranges@, ranges@.len() as int) <= usize::MAX,
    ensures
        are_slots_of(r@, ranges@),
        r@[k].first_slot == pages_up_to(ranges@, k),
        r@[k].range == ranges@[k],
{
    lemma_pages_up_to_grows(ranges@, k, ranges@.len() as int);
    law_slots_follow_each_other(ranges@, k);
}

/// The table has exactly one slot for each page of the ranges.
pub proof fn law_table_has_a_slot_for_each_page(ranges: &Vec<Range<usize>>, r: usize)
    requires
        call_ensures(total_slots, (ranges,), r),
        pages_up_to(ranges@, ranges@.len() as int) <= usize::MAX,
    ensures
        r == pages_up_to(ranges@, ranges@.len() as int),
{
    law_slots_follow_each_other(ranges@, ranges@.len() as int);
}

/// A committed page is filled from the parent if that is there, and stays zero otherwise; a page that
/// could not be committed is left to others.
pub proof fn law_committed_pages_are_filled(
    child: &mut LazyChild,
    committed: bool,
    page: usize,
    r: FaultAction,
)
    requires
        call_ensures(LazyChild::on_committed, (child, committed, page), r),
    ensures
        !committed <==> r == FaultAction::Decline,
        committed && old(child).parent_handle != 0 ==> r == (FaultAction::ReadLive { page }),
        committed && old(child).parent_handle == 0 ==> r == (FaultAction::Resume {
            source: PageSource::Zero,
        }),
        final(child).ranges == old(child).ranges && final(child).guard == old(child).guard,
{
}

/// A slot's state decides: of a published one the bytes right behind the state are read, and of any
/// other, or one that cannot be read, the bytes of the live page are used, if those could be read.
pub proof fn law_published_snapshots_are_used(
    child: &mut LazyChild,
    slot: usize,
    live: bool,
    state: Option<u8>,
    r: FaultAction,
)
    requires
        call_ensures(LazyChild::on_state_read, (child, slot, live, state), r),
        slot < usize::MAX,
    ensures
        state == Some(1u8) ==> r == (FaultAction::ReadSnapshot { bytes: (slot + 1) as usize }),
        state != Some(1u8) && live ==> r == (FaultAction::Resume { source: PageSource::Live }),
        state != Some(1u8) && !live ==> r == (FaultAction::Resume { source: PageSource::Zero }),
{
}

/// The bytes of a published snapshot fill the page if they could be read; the live page, which may
/// have been written since, never does then.
pub proof fn law_snapshots_replace_live_bytes(child: &mut LazyChild, snapshot: bool, r: FaultAction)
    requires
        call_ensures(LazyChild::on_snapshot_read, (child, snapshot), r),
    ensures
        snapshot ==> r == (FaultAction::Resume { source: PageSource::Snapshot }),
        !snapshot ==> r == (FaultAction::Resume { source: PageSource::Zero }),
{
}

/// After a new image has been loaded no fault is claimed any more, and the handle to the parent is
/// given out once.
pub proof fn law_new_image_ends_lazy_filling(
    child: &mut LazyChild,
    handle: usize,
    later: &mut LazyChild,
    again: usize,
    code: u32,
    address: usize,
    r: FaultAction,
)
    requires
        call_ensures(LazyChild::disarm_on_execve, (child,), handle),
        *old(later) == *final(child),
        call_ensures(LazyChild::disarm_on_execve, (later,), again),
        call_ensures(LazyChild::lazy_commit_veh, (&*final(child), code, address), r),
    ensures
        handle == old(child).parent_handle,
        again == 0,
        r == FaultAction::Decline,
{
}

/// What the parent writes for the child as the line of its ranges, the child reads as those ranges.
pub proof fn law_child_gets_the_ranges(
    ranges: &[Range<usize>],
    line: String,
    text: &str,
    r: Vec<Range<usize>>,
)
    requires
        call_ensures(serialize_lazy_ranges, (ranges,), line),
        text@ == line@,
        call_ensures(deserialize_lazy_ranges, (text,), r),
        forall|i: int| 0 <= i < ranges@.len() ==> (#[trigger] ranges@[i]).start < ranges@[i].end,
    ensures
        pairs(r@) == pairs(ranges@),
{
    assert forall|i: int| 0 <= i < pairs(ranges@).len() implies 0 <= (#[trigger] pairs(
        ranges@,
    )[i]).0 < pairs(ranges@)[i].1 <= usize::MAX by {
        assert(ranges@[i].start < ranges@[i].end);
    }
    law_lazy_ranges_roundtrip(pairs(ranges@));
}

} // verus!
