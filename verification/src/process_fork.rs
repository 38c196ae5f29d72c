//! Forking into a separate process: the register snapshot that crosses to the child, the copy of
//! the parent's memory into it, the pipes it is started with, and the observation of its output.

use crate::memory;
use crate::numbers;
use crate::text;
use std::ops::Range;
use vstd::prelude::*;

verus! {

/// The registers with which the child resumes.
#[derive(Debug, Clone, Copy, PartialEq, Eq, Structural)]
pub struct ForkFullGprSnapshot {
    pub r15: usize,
    pub r14: usize,
    pub r13: usize,
    pub r12: usize,
    pub rbp: usize,
    pub rbx: usize,
    pub r11: usize,
    pub r10: usize,
    pub r9: usize,
    pub r8: usize,
    pub rax: usize,
    pub rcx: usize,
    pub rdx: usize,
    pub rsi: usize,
    pub rdi: usize,
    pub orig_rax: usize,
    pub rip: usize,
    pub cs: usize,
    pub eflags: usize,
    pub rsp: usize,
    pub ss: usize,
    pub fs_base: usize,
}

/// The values of a snapshot in the order of its fields.
pub open spec fn gpr_values(g: ForkFullGprSnapshot) -> Seq<usize> {
    seq![
        g.r15,
        g.r14,
        g.r13,
        g.r12,
        g.rbp,
        g.rbx,
        g.r11,
        g.r10,
        g.r9,
        g.r8,
        g.rax,
        g.rcx,
        g.rdx,
        g.rsi,
        g.rdi,
        g.orig_rax,
        g.rip,
        g.cs,
        g.eflags,
        g.rsp,
        g.ss,
        g.fs_base,
    ]
}

/// The texts of the values, in hexadecimal.
pub open spec fn hex_texts(values: Seq<usize>) -> Seq<Seq<char>> {
    values.map_values(|v: usize| numbers::digits(v as nat, 16))
}

/// Whether the texts write the values, one each.
pub open spec fn are_hex_texts(parts: Seq<Seq<char>>, values: Seq<usize>) -> bool {
    &&& parts.len() == values.len()
    &&& forall|i: int|
        0 <= i < values.len() ==> #[trigger] numbers::unsigned_value(
            parts[i],
            16,
            usize::MAX as nat,
        ) == Some(values[i] as nat)
}

/// Whether every text writes a number.
pub open spec fn all_hex(parts: Seq<Seq<char>>) -> bool {
    forall|i: int|
        0 <= i < parts.len() ==> numbers::unsigned_value(
            #[trigger] parts[i],
            16,
            usize::MAX as nat,
        ) is Some
}

/// Each register has its own place in the line, by which both sides know it.
pub proof fn law_registers_have_their_places(g: ForkFullGprSnapshot)
    ensures
        gpr_values(g).len() == 22,
        gpr_values(g).take(10) == seq![
            g.r15,
            g.r14,
            g.r13,
            g.r12,
            g.rbp,
            g.rbx,
            g.r11,
            g.r10,
            g.r9,
            g.r8,
        ],
        gpr_values(g).subrange(10, 16) == seq![g.rax, g.rcx, g.rdx, g.rsi, g.rdi, g.orig_rax],
        gpr_values(g).skip(16) == seq![g.rip, g.cs, g.eflags, g.rsp, g.ss, g.fs_base],
{
}

/// A snapshot written as a line and read again is the same snapshot.
pub proof fn law_gprs_roundtrip(g: ForkFullGprSnapshot)
    ensures
        are_hex_texts(
            text::parts_of(text::joined(hex_texts(gpr_values(g)), ','), ','),
            gpr_values(g),
        ),
{
    let values = gpr_values(g);
    let parts = hex_texts(values);
    assert forall|i: int| 0 <= i < parts.len() implies !(#[trigger] parts[i]).contains(',') by {
        lemma_hex_has_no_comma(values[i] as nat);
    }
    text::lemma_parts_joined(parts, ',');
    assert forall|i: int| 0 <= i < values.len() implies #[trigger] numbers::unsigned_value(
        parts[i],
        16,
        usize::MAX as nat,
    ) == Some(values[i] as nat) by {
        numbers::lemma_unsigned_roundtrip(values[i] as nat, 16, usize::MAX as nat);
    }
}

/// No two snapshots are read from one line.
pub proof fn law_gprs_unambiguous(
    parts: Seq<Seq<char>>,
    g: ForkFullGprSnapshot,
    h: ForkFullGprSnapshot,
)
    requires
        are_hex_texts(parts, gpr_values(g)),
        are_hex_texts(parts, gpr_values(h)),
    ensures
        g == h,
{
    let a = gpr_values(g);
    let b = gpr_values(h);
    assert forall|i: int| 0 <= i < 22 implies #[trigger] a[i] == b[i] by {
        assert(numbers::unsigned_value(parts[i], 16, usize::MAX as nat) == Some(a[i] as nat));
        assert(numbers::unsigned_value(parts[i], 16, usize::MAX as nat) == Some(b[i] as nat));
    }
    assert(a[0] == b[0] && a[1] == b[1] && a[2] == b[2] && a[3] == b[3] && a[4] == b[4] && a[5]
        == b[5] && a[6] == b[6] && a[7] == b[7] && a[8] == b[8] && a[9] == b[9] && a[10] == b[10]
        && a[11] == b[11] && a[12] == b[12] && a[13] == b[13] && a[14] == b[14] && a[15] == b[15]
        && a[16] == b[16] && a[17] == b[17] && a[18] == b[18] && a[19] == b[19] && a[20] == b[20]
        && a[21] == b[21]);
}

proof fn lemma_hex_has_no_comma(n: nat)
    ensures
        !numbers::digits(n, 16).contains(','),
{
    numbers::lemma_digits_roundtrip(n, 16);
    let s = numbers::digits(n, 16);
    assert forall|i: int| 0 <= i < s.len() implies #[trigger] s[i] != ',' by {
        assert(numbers::is_digit_char(s[i]));
    }
}

fn values_of(g: &ForkFullGprSnapshot) -> (r: Vec<usize>)
    ensures
        r@ == gpr_values(*g),
{
    let mut v: Vec<usize> = Vec::new();
    v.push(g.r15);
    v.push(g.r14);
    v.push(g.r13);
    v.push(g.r12);
    v.push(g.rbp);
    v.push(g.rbx);
    v.push(g.r11);
    v.push(g.r10);
    v.push(g.r9);
    v.push(g.r8);
    v.push(g.rax);
    v.push(g.rcx);
    v.push(g.rdx);
    v.push(g.rsi);
    v.push(g.rdi);
    v.push(g.orig_rax);
    v.push(g.rip);
    v.push(g.cs);
    v.push(g.eflags);
    v.push(g.rsp);
    v.push(g.ss);
    v.push(g.fs_base);
    assert(v@ =~= gpr_values(*g));
    v
}

/// The line that carries the snapshot to the child.
pub fn serialize_full_gprs(g: &ForkFullGprSnapshot) -> (r: String)
    ensures
        r@ == text::joined(hex_texts(gpr_values(*g)), ','),
{
    let values = values_of(g);
    let ghost all = hex_texts(values@);
    let mut out = String::new();
    let mut i: usize = 0;
    assert(all.take(0) =~= Seq::empty());
    while i < values.len()
        invariant
            i <= values@.len(),
            all == hex_texts(values@),
            out@ == text::joined(all.take(i as int), ','),
        decreases values@.len() - i,
    {
        if i > 0 {
            out.push(',');
        }
        let ghost prefix = out@;
        numbers::push_digits(&mut out, values[i] as u64, 16);
        proof {
            let this = numbers::digits(values@[i as int] as nat, 16);
            assert(all[i as int] == this);
            let now = all.take(i + 1);
            assert(now =~= all.take(i as int).push(this));
            if i > 0 {
                text::lemma_joined_push(all.take(i as int), this, ',');
            } else {
                assert(now =~= seq![this]);
                text::lemma_joined_one(this, ',');
                assert(out@ =~= this);
            }
        }
        i += 1;
    }
    assert(all.take(i as int) =~= all);
    out
}

/// The snapshot that the line writes: exactly one hexadecimal number for each field.
pub fn deserialize_full_gprs(line: &str) -> (r: Option<ForkFullGprSnapshot>)
    ensures
        match r {
            Some(g) => are_hex_texts(text::parts_of(line@, ','), gpr_values(g)),
            None => text::parts_of(line@, ',').len() != 22 || !all_hex(text::parts_of(line@, ',')),
        },
{
    let parts = text::split_on(line, ',');
    let ghost all = text::views(parts@);
    if parts.len() != 22 {
        return None;
    }
    let mut v: Vec<usize> = Vec::new();
    let mut i: usize = 0;
    while i < parts.len()
        invariant
            i <= parts@.len() == 22,
            all == text::views(parts@),
            all == text::parts_of(line@, ','),
            v@.len() == i,
            forall|k: int|
                0 <= k < i ==> #[trigger] numbers::unsigned_value(all[k], 16, usize::MAX as nat)
                    == Some(v@[k] as nat),
        decreases parts@.len() - i,
    {
        assert(all[i as int] == parts@[i as int]@);
        match numbers::parse_unsigned(parts[i].as_str(), 16, usize::MAX as u64) {
            Some(n) => {
                v.push(n as usize);
            },
            None => {
                assert(numbers::unsigned_value(all[i as int], 16, usize::MAX as nat) is None);
                return None;
            },
        }
        i += 1;
    }
    let g = ForkFullGprSnapshot {
        r15: v[0],
        r14: v[1],
        r13: v[2],
        r12: v[3],
        rbp: v[4],
        rbx: v[5],
        r11: v[6],
        r10: v[7],
        r9: v[8],
        r8: v[9],
        rax: v[10],
        rcx: v[11],
        rdx: v[12],
        rsi: v[13],
        rdi: v[14],
        orig_rax: v[15],
        rip: v[16],
        cs: v[17],
        eflags: v[18],
        rsp: v[19],
        ss: v[20],
        fs_base: v[21],
    };
    assert(gpr_values(g) =~= v@);
    Some(g)
}

/// The outcome of copying or reserving one group of the parent's memory.
#[derive(Debug, PartialEq, Eq)]
pub struct GroupCopyResult {
    /// The group in the parent's memory.
    pub source_group: Range<usize>,
    pub succeeded: bool,
    /// The system's error code, if the group failed.
    pub last_error: u32,
}

impl GroupCopyResult {
    /// Whether this is the outcome for the group `start..end`.
    pub open spec fn is(self, start: usize, end: usize, succeeded: bool, last_error: u32) -> bool {
        self.source_group.start == start && self.source_group.end == end && self.succeeded
            == succeeded && self.last_error == last_error
    }
}

/// A reservation that must begin at `lowest` and end at `highest`.
#[derive(Debug, Clone, Copy, PartialEq, Eq, Structural)]
pub struct ReserveRequest {
    pub lowest: usize,
    pub highest: usize,
    pub len: usize,
}

/// The reservation of a group at its own address. That of an empty group has no length, and the
/// system refuses it.
pub fn reserve_request(group: &Range<usize>) -> (r: ReserveRequest)
    requires
        0 < group.end,
    ensures
        r.lowest == group.start,
        r.highest == group.end - 1,
        r.len == if group.start <= group.end {
            group.end - group.start
        } else {
            0
        },
{
    let len: usize = if group.start <= group.end {
        group.end - group.start
    } else {
        0
    };
    ReserveRequest { lowest: group.start, highest: group.end - 1, len }
}

/// What a reservation led to.
#[derive(Debug, Clone, Copy, PartialEq, Eq, Structural)]
pub enum Reservation {
    /// It failed with this error.
    Failed { last_error: u32 },
    /// It landed elsewhere: release it; the group has failed without an error code.
    Misplaced { release: usize },
    /// It is where it was asked for.
    Placed,
}

/// Judges a reservation for `group` that was made at `reserved`, 0 meaning that it was not made.
pub fn reservation_outcome(group: &Range<usize>, reserved: usize, last_error: u32) -> (r:
    Reservation)
    ensures
        r == if reserved == 0 {
            Reservation::Failed { last_error }
        } else if reserved != group.start {
            Reservation::Misplaced { release: reserved }
        } else {
            Reservation::Placed
        },
{
    if reserved == 0 {
        Reservation::Failed { last_error }
    } else if reserved != group.start {
        Reservation::Misplaced { release: reserved }
    } else {
        Reservation::Placed
    }
}

/// The result of reserving a group without copying it.
pub fn reserve_group_lazy(group: &Range<usize>, reservation: Reservation) -> (r: GroupCopyResult)
    ensures
        match reservation {
            Reservation::Failed { last_error } => r.is(group.start, group.end, false, last_error),
            Reservation::Misplaced { release } => r.is(group.start, group.end, false, 0),
            Reservation::Placed => r.is(group.start, group.end, true, 0),
        },
{
    let source_group = group.start..group.end;
    match reservation {
        Reservation::Failed { last_error } => GroupCopyResult {
            source_group,
            succeeded: false,
            last_error,
        },
        Reservation::Misplaced { release } => GroupCopyResult {
            source_group,
            succeeded: false,
            last_error: 0,
        },
        Reservation::Placed => GroupCopyResult { source_group, succeeded: true, last_error: 0 },
    }
}

/// The end of the page-sized piece that starts at `cursor`.
pub open spec fn piece_end(cursor: int, end: int) -> int {
    if cursor + 4096 <= end {
        cursor + 4096
    } else {
        end
    }
}

/// The pieces of `cursor..end`, a page each, the last one possibly shorter.
pub open spec fn pieces(cursor: int, end: int) -> Seq<(int, int)>
    decreases (if cursor >= end {
        0
    } else {
        end - cursor
    }),
{
    if cursor >= end {
        Seq::empty()
    } else {
        seq![(cursor, piece_end(cursor, end))] + pieces(piece_end(cursor, end), end)
    }
}

/// The pieces of a range follow each other without gap or overlap from its beginning to its end,
/// and none is longer than a page.
pub proof fn law_pieces_tile(cursor: int, end: int, i: int)
    requires
        cursor < end,
        0 <= i < pieces(cursor, end).len(),
    ensures
        pieces(cursor, end)[0].0 == cursor,
        pieces(cursor, end).last().1 == end,
        0 < pieces(cursor, end)[i].1 - pieces(cursor, end)[i].0 <= 4096,
        i > 0 ==> pieces(cursor, end)[i].0 == pieces(cursor, end)[i - 1].1,
    decreases end - cursor,
{
    let next = piece_end(cursor, end);
    let rest = pieces(next, end);
    let all = pieces(cursor, end);
    if next < end {
        assert(rest.len() > 0);
        law_pieces_tile(next, end, 0);
        assert(all.last() == rest.last());
        if i > 0 {
            law_pieces_tile(next, end, i - 1);
            assert(all[i] == rest[i - 1]);
            if i > 1 {
                assert(all[i - 1] == rest[i - 2]);
            }
        }
    } else {
        assert(rest.len() == 0);
        assert(all.len() == 1);
    }
}

/// Whether the eight bytes from `8 * n` on are zero.
pub open spec fn is_zero_word(b: Seq<u8>, n: int) -> bool {
    0 <= n && 8 * n + 8 <= b.len() && forall|k: int|
        8 * n <= k < 8 * n + 8 ==> #[trigger] b[k] == 0
}

/// A word is zero if all its eight bytes are, and only if the page holds all of them.
pub proof fn law_zero_words_are_all_zero(b: Seq<u8>, n: int, k: int)
    requires
        0 <= n,
        0 <= k < 8,
    ensures
        is_zero_word(b, n) ==> 8 * n + 8 <= b.len() && b[8 * n + k] == 0,
        8 * n + 8 <= b.len() && b[8 * n] == 0 && b[8 * n + 1] == 0 && b[8 * n + 2] == 0 && b[8 * n
            + 3] == 0 && b[8 * n + 4] == 0 && b[8 * n + 5] == 0 && b[8 * n + 6] == 0 && b[8 * n + 7]
            == 0 ==> is_zero_word(b, n),
{
    if 8 * n + 8 <= b.len() && b[8 * n] == 0 && b[8 * n + 1] == 0 && b[8 * n + 2] == 0 && b[8 * n
        + 3] == 0 && b[8 * n + 4] == 0 && b[8 * n + 5] == 0 && b[8 * n + 6] == 0 && b[8 * n + 7]
        == 0 {
        assert forall|j: int| 8 * n <= j < 8 * n + 8 implies #[trigger] b[j] == 0 by {
            let d = j - 8 * n;
            assert(d == 0 || d == 1 || d == 2 || d == 3 || d == 4 || d == 5 || d == 6 || d == 7);
        }
    }
}

/// Runs of zero words, each as the address of the first and their number, after the first `n` words
/// of `b` at `base` were looked at: a zero word that follows the last run directly extends it.
pub open spec fn zero_runs_after(
    runs: Seq<(usize, usize)>,
    b: Seq<u8>,
    base: usize,
    n: int,
) -> Seq<(usize, usize)>
    decreases n,
{
    if n <= 0 {
        runs
    } else {
        let before = zero_runs_after(runs, b, base, n - 1);
        if !is_zero_word(b, n - 1) {
            before
        } else {
            let addr = (base + 8 * (n - 1)) as usize;
            if before.len() > 0 && before.last().0 + before.last().1 * 8 == addr {
                before.update(
                    before.len() - 1,
                    (before.last().0, (before.last().1 + 1) as usize),
                )
            } else {
                before.push((addr, 1))
            }
        }
    }
}

/// Whether the word at `a` belongs to one of the runs.
pub open spec fn in_runs(runs: Seq<(usize, usize)>, a: int) -> bool {
    exists|i: int| 0 <= i < runs.len() && in_run(#[trigger] runs[i], a)
}

/// Whether the word at `a` belongs to the run.
pub open spec fn in_run(run: (usize, usize), a: int) -> bool {
    run.0 <= a < run.0 + run.1 * 8 && (a - run.0) % 8 == 0
}

/// Whether the runs end at or below `limit` and below the top of the address space.
pub open spec fn runs_below(runs: Seq<(usize, usize)>, limit: int) -> bool {
    forall|i: int| 0 <= i < runs.len() ==> (#[trigger] runs[i]).0 + runs[i].1 * 8 <= limit
}

/// The runs after a page hold exactly the words they held before and the page's zero words.
pub proof fn law_zero_runs_are_exact(
    runs: Seq<(usize, usize)>,
    b: Seq<u8>,
    base: usize,
    n: int,
    a: int,
)
    requires
        0 <= n,
        8 * n <= b.len(),
        base + b.len() <= usize::MAX,
        runs_below(runs, base as int),
    ensures
        in_runs(zero_runs_after(runs, b, base, n), a) <==> in_runs(runs, a) || exists|k: int|
            0 <= k < n && #[trigger] is_zero_word(b, k) && a == base + 8 * k,
        runs_below(zero_runs_after(runs, b, base, n), base + 8 * n),
    decreases n,
{
    if n > 0 {
        law_zero_runs_are_exact(runs, b, base, n - 1, a);
        let before = zero_runs_after(runs, b, base, n - 1);
        let after = zero_runs_after(runs, b, base, n);
        let addr = base + 8 * (n - 1);
        if is_zero_word(b, n - 1) {
            if before.len() > 0 && before.last().0 + before.last().1 * 8 == addr {
                let last = before.len() - 1;
                assert(after.len() == before.len());
                assert(in_run(after[last], a) <==> in_run(before[last], a) || a == addr);
                if in_runs(before, a) {
                    let i = choose|i: int| 0 <= i < before.len() && in_run(#[trigger] before[i], a);
                    assert(in_run(after[i], a));
                }
                if a == addr {
                    assert(in_run(after[last], a));
                }
                if in_runs(after, a) {
                    let i = choose|i: int| 0 <= i < after.len() && in_run(#[trigger] after[i], a);
                    if i < last {
                        assert(before[i] == after[i]);
                        assert(in_run(before[i], a));
                    }
                }
                assert forall|i: int| 0 <= i < after.len() implies (#[trigger] after[i]).0
                    + after[i].1 * 8 <= base + 8 * n by {
                    assert(before[i].0 + before[i].1 * 8 <= base + 8 * (n - 1));
                }
            } else {
                assert(after =~= before.push((addr as usize, 1)));
                if in_runs(before, a) {
                    let i = choose|i: int| 0 <= i < before.len() && in_run(#[trigger] before[i], a);
                    assert(in_run(after[i], a));
                }
                if a == addr {
                    assert(in_run(after[after.len() - 1], a));
                }
                if in_runs(after, a) {
                    let i = choose|i: int| 0 <= i < after.len() && in_run(#[trigger] after[i], a);
                    if i < before.len() {
                        assert(before[i] == after[i]);
                        assert(in_run(before[i], a));
                    }
                }
                assert forall|i: int| 0 <= i < after.len() implies (#[trigger] after[i]).0
                    + after[i].1 * 8 <= base + 8 * n by {
                    if i < before.len() {
                        assert(before[i].0 + before[i].1 * 8 <= base + 8 * (n - 1));
                    }
                }
            }
        }
    }
}

/// The copy of one group into the child, page by page.
#[derive(Debug, PartialEq, Eq)]
pub struct GroupCopy {
    start: usize,
    end: usize,
    cursor: usize,
    log_zeroes: bool,
    zero_runs: Vec<(usize, usize)>,
}

/// What to do next to copy a group.
#[derive(Debug, Clone, Copy, PartialEq, Eq, Structural)]
pub enum CopyStep {
    /// Read the parent's bytes `start..end` and continue with [`GroupCopy::on_page`].
    Read { start: usize, end: usize },
    /// Write the bytes just read at `address` and continue with [`GroupCopy::on_written`].
    Write { address: usize },
    /// The group is copied.
    Copied,
    /// The copy has failed with this error.
    Failed { last_error: u32 },
}

impl GroupCopy {
    pub closed spec fn first(self) -> usize {
        self.start
    }

    pub closed spec fn limit(self) -> usize {
        self.end
    }

    /// The address of the next piece.
    pub closed spec fn at(self) -> usize {
        self.cursor
    }

    /// Whether runs of zero words are recorded.
    pub closed spec fn records(self) -> bool {
        self.log_zeroes
    }

    /// The runs recorded so far.
    pub closed spec fn runs(self) -> Seq<(usize, usize)> {
        self.zero_runs@
    }

    #[verifier::type_invariant]
    spec fn well_formed(self) -> bool {
        (self.cursor == self.start || self.start <= self.cursor <= self.end) && runs_below(
            self.zero_runs@,
            self.cursor as int,
        )
    }

    /// What is next: the piece at the cursor, or the end.
    pub open spec fn next(self) -> CopyStep {
        if self.at() >= self.limit() {
            CopyStep::Copied
        } else {
            CopyStep::Read {
                start: self.at(),
                end: piece_end(self.at() as int, self.limit() as int) as usize,
            }
        }
    }

    /// A copy that has not begun, for a group that is reserved at its own address.
    pub fn copy_one_group(group: &Range<usize>, log_zeroes: bool) -> (r: Self)
        ensures
            r.first() == group.start,
            r.limit() == group.end,
            r.at() == group.start,
            r.records() == log_zeroes,
            r.runs() == Seq::<(usize, usize)>::empty(),
    {
        GroupCopy {
            start: group.start,
            end: group.end,
            cursor: group.start,
            log_zeroes,
            zero_runs: Vec::new(),
        }
    }

    fn page_end(&self) -> (r: usize)
        requires
            self.cursor < self.end,
        ensures
            r == piece_end(self.cursor as int, self.end as int),
    {
        if self.end - self.cursor <= memory::PAGE_SIZE {
            self.end
        } else {
            self.cursor + memory::PAGE_SIZE
        }
    }

    /// What to do next.
    pub fn step(&self) -> (r: CopyStep)
        ensures
            r == self.next(),
    {
        if self.cursor >= self.end {
            CopyStep::Copied
        } else {
            CopyStep::Read { start: self.cursor, end: self.page_end() }
        }
    }

    /// Goes on after the piece at the cursor was read, `None` if it is not readable: such a piece
    /// is left as the zeroes that the child's fresh memory holds.
    pub fn on_page(&mut self, page: Option<&[u8]>) -> (r: CopyStep)
        requires
            old(self).at() < old(self).limit(),
            page matches Some(b) ==> b@.len() == piece_end(
                old(self).at() as int,
                old(self).limit() as int,
            ) - old(self).at(),
        ensures
            final(self).first() == old(self).first(),
            final(self).limit() == old(self).limit(),
            final(self).records() == old(self).records(),
            final(self).runs() == old(self).runs(),
            match page {
                None => final(self).at() == piece_end(
                    old(self).at() as int,
                    old(self).limit() as int,
                ) && r == final(self).next(),
                Some(b) => final(self).at() == old(self).at() && r == (CopyStep::Write {
                    address: old(self).at(),
                }),
            },
    {
        proof {
            use_type_invariant(&*self);
        }
        match page {
            None => {
                let next: usize = self.page_end();
                self.cursor = next;
                self.step()
            },
            Some(_) => CopyStep::Write { address: self.cursor },
        }
    }

    /// Goes on after the bytes `page` of the piece at the cursor were written, `written` of them
    /// according to the system. Anything but all of them is a failure.
    pub fn on_written(&mut self, page: &[u8], ok: bool, written: usize, last_error: u32) -> (r:
        CopyStep)
        requires
            old(self).at() < old(self).limit(),
            page@.len() == piece_end(old(self).at() as int, old(self).limit() as int) - old(self).at(),
        ensures
            final(self).first() == old(self).first(),
            final(self).limit() == old(self).limit(),
            final(self).records() == old(self).records(),
            if ok && written == page@.len() {
                &&& final(self).at() == piece_end(old(self).at() as int, old(self).limit() as int)
                &&& final(self).runs() == if old(self).records() {
                    zero_runs_after(
                        old(self).runs(),
                        page@,
                        old(self).at(),
                        page@.len() as int / 8,
                    )
                } else {
                    old(self).runs()
                }
                &&& r == final(self).next()
            } else {
                &&& final(self).at() == old(self).at()
                &&& final(self).runs() == old(self).runs()
                &&& r == (CopyStep::Failed { last_error })
            },
    {
        proof {
            use_type_invariant(&*self);
        }
        if !ok || written != page.len() {
            return CopyStep::Failed { last_error };
        }
        let base: usize = self.cursor;
        let next: usize = self.page_end();
        if self.log_zeroes {
            let mut runs: Vec<(usize, usize)> = Vec::new();
            let ghost runs_before = self.zero_runs@;
            std::mem::swap(&mut runs, &mut self.zero_runs);
            record_zero_words(&mut runs, page, base);
            proof {
                law_zero_runs_are_exact(runs_before, page@, base, page@.len() as int / 8, 0);
            }
            self.cursor = next;
            self.zero_runs = runs;
        } else {
            self.cursor = next;
        }
        self.step()
    }

    /// The runs of zero words recorded, each as the address of the first word and their number.
    pub fn zero_runs(&self) -> (r: &Vec<(usize, usize)>)
        ensures
            r@ == self.runs(),
    {
        &self.zero_runs
    }
}

fn zero_word_at(b: &[u8], n: usize) -> (r: bool)
    requires
        8 * n + 8 <= b@.len(),
    ensures
        r == is_zero_word(b@, n as int),
{
    let len: usize = b.len();
    let mut k: usize = 0;
    while k < 8
        invariant
            k <= 8,
            8 * n + 8 <= b@.len() == len,
            forall|j: int| 8 * n <= j < 8 * n + k ==> #[trigger] b@[j] == 0,
        decreases 8 - k,
    {
        if b[8 * n + k] != 0 {
            return false;
        }
        k += 1;
    }
    true
}

fn record_zero_words(runs: &mut Vec<(usize, usize)>, b: &[u8], base: usize)
    requires
        base + b@.len() <= usize::MAX,
        runs_below(old(runs)@, base as int),
    ensures
        final(runs)@ == zero_runs_after(old(runs)@, b@, base, b@.len() as int / 8),
{
    let words: usize = b.len() / 8;
    let mut n: usize = 0;
    while n < words
        invariant
            n <= words,
            words == b@.len() / 8,
            base + b@.len() <= usize::MAX,
            runs_below(old(runs)@, base as int),
            runs@ == zero_runs_after(old(runs)@, b@, base, n as int),
        decreases words - n,
    {
        proof {
            law_zero_runs_are_exact(old(runs)@, b@, base, n as int, 0);
        }
        if zero_word_at(b, n) {
            let addr: usize = base + 8 * n;
            let count: usize = runs.len();
            if count > 0 {
                let (run_start, run_words) = runs[count - 1];
                assert(runs@[count - 1].0 + runs@[count - 1].1 * 8 <= addr);
                if run_start + run_words * 8 == addr {
                    runs.set(count - 1, (run_start, run_words + 1));
                } else {
                    runs.push((addr, 1));
                }
            } else {
                runs.push((addr, 1));
            }
        }
        n += 1;
    }
}

/// A group is reserved where it stands in the parent: the request begins at its first address, ends
/// at its last one, and is as long as it is; it counts as reserved only if that is where it is.
pub proof fn law_groups_are_reserved_in_place(
    group: &Range<usize>,
    request: ReserveRequest,
    reserved: usize,
    error: u32,
    outcome: Reservation,
    r: GroupCopyResult,
)
    requires
        group.start < group.end,
        call_ensures(reserve_request, (group,), request),
        call_ensures(reservation_outcome, (group, reserved, error), outcome),
        call_ensures(reserve_group_lazy, (group, outcome), r),
    ensures
        request.lowest == group.start,
        request.lowest + request.len == group.end,
        request.highest + 1 == group.end,
        r.succeeded <==> reserved != 0 && reserved == group.start,
        reserved == 0 ==> r.last_error == error,
        reserved != 0 && reserved != group.start ==> outcome == (Reservation::Misplaced {
            release: reserved,
        }),
        r.source_group.start == group.start && r.source_group.end == group.end,
{
}

/// A page is written to the child where it was read in the parent, and the copy goes on right behind
/// it; a page that was not written whole ends the copy with the error, and one that cannot be read is
/// passed over.
pub proof fn law_pages_are_copied_in_place(
    copy: &mut GroupCopy,
    page: &[u8],
    written: usize,
    ok: bool,
    error: u32,
    step: CopyStep,
    then: &mut GroupCopy,
    end: CopyStep,
    other: &mut GroupCopy,
    skipped: CopyStep,
)
    requires
        old(copy).at() < old(copy).limit(),
        page@.len() == piece_end(old(copy).at() as int, old(copy).limit() as int) - old(copy).at(),
        call_ensures(GroupCopy::on_page, (copy, Some(page)), step),
        *old(then) == *final(copy),
        call_ensures(GroupCopy::on_written, (then, page, ok, written, error), end),
        *old(other) == *old(copy),
        call_ensures(GroupCopy::on_page, (other, None::<&[u8]>), skipped),
    ensures
        step == (CopyStep::Write { address: old(copy).at() }),
        ok && written == page@.len() ==> final(then).at() == old(copy).at() + page@.len(),
        !ok || written != page@.len() ==> end == (CopyStep::Failed { last_error: error }),
        final(other).at() == old(copy).at() + page@.len(),
        skipped matches CopyStep::Read { start, end } ==> start == old(copy).at() + page@.len(),
        end matches CopyStep::Read { start, end } ==> start == old(copy).at() + page@.len(),
        end is Copied ==> old(copy).at() + page@.len() == old(copy).limit(),
{
}

/// The child reads every register as the parent had it.
pub proof fn law_registers_are_passed_on(
    g: &ForkFullGprSnapshot,
    line: String,
    v: &str,
    r: Option<ForkFullGprSnapshot>,
)
    requires
        call_ensures(serialize_full_gprs, (g,), line),
        v@ == line@,
        call_ensures(deserialize_full_gprs, (v,), r),
    ensures
        r == Some(*g),
{
    law_gprs_roundtrip(*g);
    let parts = text::parts_of(v@, ',');
    assert forall|i: int| 0 <= i < parts.len() implies numbers::unsigned_value(
        #[trigger] parts[i],
        16,
        usize::MAX as nat,
    ) is Some by {
        assert(numbers::unsigned_value(parts[i], 16, usize::MAX as nat) == Some(
            gpr_values(*g)[i] as nat,
        ));
    }
    assert(gpr_values(*g).len() == 22);
    assert(all_hex(parts));
    if let Some(h) = r {
        law_gprs_unambiguous(parts, h, *g);
    }
}

/// A copy begins at the group's first address and ends when it has reached the group's end.
pub proof fn law_copies_begin_at_the_start(
    group: &Range<usize>,
    log_zeroes: bool,
    copy: GroupCopy,
    now: &GroupCopy,
    step: CopyStep,
)
    requires
        call_ensures(GroupCopy::copy_one_group, (group, log_zeroes), copy),
        *now == copy,
        call_ensures(GroupCopy::step, (now,), step),
    ensures
        group.start < group.end ==> (step matches CopyStep::Read { start, end } && start
            == group.start && start < end <= group.end && end - start <= 4096),
        group.start >= group.end ==> step == CopyStep::Copied,
        copy.runs().len() == 0,
{
}

/// The zero words of a page that was written are recorded if they are asked for, each of them and
/// nothing else, and none of a page that was not written or without being asked for.
pub proof fn law_zero_words_of_copied_pages_are_recorded(
    copy: &mut GroupCopy,
    page: &[u8],
    ok: bool,
    written: usize,
    error: u32,
    r: CopyStep,
    k: int,
)
    requires
        old(copy).at() < old(copy).limit(),
        page@.len() == piece_end(old(copy).at() as int, old(copy).limit() as int) - old(copy).at(),
        call_ensures(GroupCopy::on_written, (copy, page, ok, written, error), r),
        runs_below(old(copy).runs(), old(copy).at() as int),
        0 <= k,
        8 * k + 8 <= page@.len(),
    ensures
        !old(copy).records() || !ok || written != page@.len() ==> final(copy).runs() == old(copy).runs(),
        old(copy).records() && ok && written == page@.len() && is_zero_word(page@, k) ==> in_runs(
            final(copy).runs(),
            old(copy).at() + 8 * k,
        ),
        !is_zero_word(page@, k) && !in_runs(old(copy).runs(), old(copy).at() + 8 * k) ==> !in_runs(
            final(copy).runs(),
            old(copy).at() + 8 * k,
        ),
{
    let n = page@.len() as int / 8;
    let a = old(copy).at() + 8 * k;
    law_zero_runs_are_exact(old(copy).runs(), page@, old(copy).at(), n, a);
    assert(0 <= k < n);
    if is_zero_word(page@, k) {
        assert(exists|j: int|
            0 <= j < n && #[trigger] is_zero_word(page@, j) && a == old(copy).at() + 8 * j);
    }
}

} // verus!
