//! The parent's side of lazy population: which of its pages are read-only on behalf of forked
//! children, and what has to happen when it writes to one.
//!
//! While a page is guarded no write can have reached it, so every child that forks in that time
//! depends on the same bytes. One capture, at the parent's first write, serves all of them. The
//! registry keeps, for each guarded page, its protection from before it was guarded and the
//! children that still depend on it. A page's true protection is never lost: it is recorded when
//! the page is first guarded and given back when the last child is gone or the page is written.

use crate::lazy_fork_commit;
use crate::memory;
use std::collections::HashMap;
use vstd::prelude::*;

verus! {

broadcast use vstd::std_specs::hash::group_hash_axioms;

/// The number of claims that may be open at once.
pub const GUARD_COW_CONCURRENT_CLAIM_CAP: u32 = 3;

/// A child that depends on a guarded page: a handle that tells whether it still runs, and the
/// address of the slot that its snapshot of the page goes to.
#[derive(Debug)]
pub struct PendingGeneration<H> {
    pub live_handle: H,
    pub slot: usize,
}

/// The record of one guarded page.
#[derive(Debug)]
pub struct PageGuardEntry<H> {
    /// The page's protection from before it was guarded.
    pub true_original_protect: u32,
    /// The children that depend on the page, in the order they joined.
    pub pending: Vec<PendingGeneration<H>>,
}

/// The record of one guarded page, without the handles.
#[verifier::ext_equal]
pub struct EntryView {
    pub protect: u32,
    pub slots: Seq<usize>,
}

/// The slots of a list of dependent children.
pub open spec fn slots_of<H>(pending: Seq<PendingGeneration<H>>) -> Seq<usize> {
    pending.map_values(|g: PendingGeneration<H>| g.slot)
}

impl<H> View for PageGuardEntry<H> {
    type V = EntryView;

    open spec fn view(&self) -> EntryView {
        EntryView { protect: self.true_original_protect, slots: slots_of(self.pending@) }
    }
}

/// The guarded pages of a process, by address.
pub struct GuardRegistry<H> {
    pages: HashMap<usize, PageGuardEntry<H>>,
}

impl<H> View for GuardRegistry<H> {
    type V = Map<usize, EntryView>;

    closed spec fn view(&self) -> Map<usize, EntryView> {
        self.pages@.map_values(|e: PageGuardEntry<H>| e@)
    }
}

/// One fork's use of the guard: its snapshot table, the pages it joined, and the handle to its
/// child, once opened.
#[derive(Debug)]
pub struct GuardCowClaim<H> {
    /// The address of the snapshot table.
    pub table_base: usize,
    /// The number of slots in the table.
    pub slots: usize,
    /// The pages joined, each with the address of the slot used.
    pub joined_pages: Vec<(usize, usize)>,
    pub child_handle: Option<H>,
}

/// The address of slot `index` of a table.
pub open spec fn slot_at(table_base: usize, index: usize) -> usize {
    ((table_base + index * 4097) % (usize::MAX + 1)) as usize
}

/// Of a list of children, or of their slots, those whose children are alive, in order.
pub open spec fn kept<T>(slots: Seq<T>, alive: Seq<bool>) -> Seq<T>
    decreases slots.len(),
{
    if slots.len() == 0 || alive.len() != slots.len() {
        Seq::empty()
    } else {
        let rest = kept(slots.drop_last(), alive.drop_last());
        if alive.last() {
            rest.push(slots.last())
        } else {
            rest
        }
    }
}

/// The slots other than `slot`, in order.
pub open spec fn without_slot(slots: Seq<usize>, slot: usize) -> Seq<usize>
    decreases slots.len(),
{
    if slots.len() == 0 {
        Seq::empty()
    } else {
        let rest = without_slot(slots.drop_last(), slot);
        if slots.last() == slot {
            rest
        } else {
            rest.push(slots.last())
        }
    }
}

/// The registry after the children of `page` that have exited were dropped.
pub open spec fn pruned(
    m: Map<usize, EntryView>,
    page: usize,
    alive: Seq<bool>,
) -> Map<usize, EntryView> {
    if m.contains_key(page) {
        m.insert(page, EntryView { slots: kept(m[page].slots, alive), ..m[page] })
    } else {
        m
    }
}

/// Whether the page is recorded but no child depends on it.
pub open spec fn is_closed(m: Map<usize, EntryView>, page: usize) -> bool {
    m.contains_key(page) && m[page].slots.len() == 0
}

/// The registry after one more child depends on a recorded page.
pub open spec fn joined(
    m: Map<usize, EntryView>,
    page: usize,
    slot: usize,
) -> Map<usize, EntryView> {
    m.insert(page, EntryView { slots: m[page].slots.push(slot), ..m[page] })
}

/// What a handle to the child is needed for.
#[derive(Debug, Clone, Copy, PartialEq, Eq, Structural)]
pub enum AfterHandle {
    /// To join a page that is guarded already.
    Join,
    /// To record a page that was just made read-only and had protection `old_protect`.
    Fresh { old_protect: u32 },
}

/// What to do next to guard a page.
#[derive(Debug, Clone, Copy, PartialEq, Eq, Structural)]
pub enum GuardAction {
    /// The page is done.
    Done,
    /// Restore the page's protection to `restore`, if given; then make it read-only and continue
    /// with [`GuardRegistry::on_protected`].
    Protect { restore: Option<u32> },
    /// Get the claim's handle to the child and continue with [`GuardRegistry::on_handle`].
    NeedHandle { after: AfterHandle },
}

/// The next step for a page, given the registry without exited children.
pub open spec fn guard_step(m: Map<usize, EntryView>, page: usize) -> (
    Map<usize, EntryView>,
    GuardAction,
) {
    if is_closed(m, page) {
        (m.remove(page), GuardAction::Protect { restore: Some(m[page].protect) })
    } else if m.contains_key(page) {
        (m, GuardAction::NeedHandle { after: AfterHandle::Join })
    } else {
        (m, GuardAction::Protect { restore: None })
    }
}

/// The registry after a handle was or was not had.
pub open spec fn with_handle(
    m: Map<usize, EntryView>,
    page: usize,
    slot: usize,
    after: AfterHandle,
    handle: bool,
) -> Map<usize, EntryView> {
    match after {
        AfterHandle::Join => if handle {
            joined(m, page, slot)
        } else {
            m
        },
        AfterHandle::Fresh { old_protect } => m.insert(
            page,
            EntryView {
                protect: old_protect,
                slots: if handle {
                    seq![slot]
                } else {
                    Seq::empty()
                },
            },
        ),
    }
}

/// Whether some page of the region, from `page` on in steps of a page, is recorded.
pub open spec fn region_open(m: Map<usize, EntryView>, page: int, end: int) -> bool
    decreases (if page >= end {
        0
    } else {
        end - page
    }),
{
    if page >= end {
        false
    } else {
        m.contains_key(page as usize) || region_open(m, page + 4096, end)
    }
}

/// The slot index of a page of a group whose first page has index `first`.
pub open spec fn slot_index(first: usize, group_start: usize, page: int) -> int {
    first + (page - group_start) / 4096
}

/// The registry and the joined pages after the pages of a region, from `page` on, were recorded
/// with protection `old_protect`.
pub open spec fn region_recorded(
    m: Map<usize, EntryView>,
    joins: Seq<(usize, usize)>,
    page: int,
    end: int,
    old_protect: u32,
    handle: bool,
    table_base: usize,
    slots: usize,
    first: usize,
    group_start: usize,
) -> (Map<usize, EntryView>, Seq<(usize, usize)>)
    decreases (if page >= end {
        0
    } else {
        end - page
    }),
{
    if page >= end {
        (m, joins)
    } else {
        let index = slot_index(first, group_start, page);
        let p = page as usize;
        let (m2, j2) = if !handle {
            (m.insert(p, EntryView { protect: old_protect, slots: Seq::empty() }), joins)
        } else if index < slots {
            let slot = slot_at(table_base, index as usize);
            (
                m.insert(p, EntryView { protect: old_protect, slots: seq![slot] }),
                joins.push((p, slot)),
            )
        } else {
            (m, joins)
        };
        region_recorded(
            m2,
            j2,
            page + 4096,
            end,
            old_protect,
            handle,
            table_base,
            slots,
            first,
            group_start,
        )
    }
}

/// The registry and the protections to restore after a claim gave up the first `n` pages it joined.
pub open spec fn aborted(m: Map<usize, EntryView>, joins: Seq<(usize, usize)>, n: int) -> (
    Map<usize, EntryView>,
    Seq<(usize, u32)>,
)
    decreases n,
{
    if n <= 0 || n > joins.len() {
        (m, Seq::empty())
    } else {
        let (before, restores) = aborted(m, joins, n - 1);
        let (page, slot) = joins[n - 1];
        if !before.contains_key(page) {
            (before, restores)
        } else {
            let slots = without_slot(before[page].slots, slot);
            (
                before.insert(page, EntryView { slots, ..before[page] }),
                if slots.len() == 0 {
                    restores.push((page, before[page].protect))
                } else {
                    restores
                },
            )
        }
    }
}

/// The registry after the pages from `page` up to `end` were evicted, and the evicted pages that
/// children depended on, with their slots.
pub open spec fn evicted(m: Map<usize, EntryView>, page: int, end: int) -> (
    Map<usize, EntryView>,
    Seq<(usize, Seq<usize>)>,
)
    decreases (if page >= end {
        0
    } else {
        end - page
    }),
{
    if page >= end {
        (m, Seq::empty())
    } else {
        let p = page as usize;
        let (rest, list) = evicted(m.remove(p), page + 4096, end);
        if m.contains_key(p) && m[p].slots.len() > 0 {
            (rest, seq![(p, m[p].slots)] + list)
        } else {
            (rest, list)
        }
    }
}

/// An evicted page and the children that depended on it.
#[derive(Debug)]
pub struct EvictedPage<H> {
    pub page: usize,
    pub pending: Vec<PendingGeneration<H>>,
}

/// The evicted pages with their slots.
pub open spec fn evicted_view<H>(list: Seq<EvictedPage<H>>) -> Seq<(usize, Seq<usize>)> {
    list.map_values(|e: EvictedPage<H>| (e.page, slots_of(e.pending@)))
}

proof fn lemma_insert_view<H>(
    pages: Map<usize, PageGuardEntry<H>>,
    page: usize,
    entry: PageGuardEntry<H>,
)
    ensures
        pages.insert(page, entry).map_values(|e: PageGuardEntry<H>| e@) == pages.map_values(
            |e: PageGuardEntry<H>| e@,
        ).insert(page, entry@),
{
    assert(pages.insert(page, entry).map_values(|e: PageGuardEntry<H>| e@) =~= pages.map_values(
        |e: PageGuardEntry<H>| e@,
    ).insert(page, entry@));
}

proof fn lemma_remove_view<H>(pages: Map<usize, PageGuardEntry<H>>, page: usize)
    ensures
        pages.remove(page).map_values(|e: PageGuardEntry<H>| e@) == pages.map_values(
            |e: PageGuardEntry<H>| e@,
        ).remove(page),
{
    assert(pages.remove(page).map_values(|e: PageGuardEntry<H>| e@) =~= pages.map_values(
        |e: PageGuardEntry<H>| e@,
    ).remove(page));
}

/// Of the children of a page, those that are alive.
fn keep_alive<H>(pending: Vec<PendingGeneration<H>>, alive: &Vec<bool>) -> (r: Vec<
    PendingGeneration<H>,
>)
    requires
        alive@.len() == pending@.len(),
    ensures
        slots_of(r@) == kept(slots_of(pending@), alive@),
        r@ == kept(pending@, alive@),
{
    let ghost all = slots_of(pending@);
    let ghost children = pending@;
    let mut rest = pending;
    let mut out: Vec<PendingGeneration<H>> = Vec::new();
    let mut i: usize = 0;
    assert(slots_of(out@) =~= Seq::empty());
    assert(kept(all.take(0), alive@.take(0)) =~= Seq::empty());
    assert(kept(children.take(0), alive@.take(0)) =~= out@);
    assert(slots_of(rest@) =~= all.skip(0));
    assert(rest@ =~= children.skip(0));
    while i < alive.len()
        invariant
            i <= alive@.len(),
            alive@.len() == all.len(),
            alive@.len() == children.len(),
            rest@ == children.skip(i as int),
            out@ == kept(children.take(i as int), alive@.take(i as int)),
            rest@.len() == all.len() - i,
            slots_of(rest@) == all.skip(i as int),
            slots_of(out@) == kept(all.take(i as int), alive@.take(i as int)),
        decreases alive@.len() - i,
    {
        let ghost before = rest@;
        let ghost kept_before = out@;
        let g = rest.remove(0);
        proof {
            assert(slots_of(before)[0] == g.slot);
            assert(slots_of(rest@) =~= all.skip(i + 1)) by {
                assert forall|k: int| 0 <= k < rest@.len() implies #[trigger] slots_of(rest@)[k]
                    == all.skip(i + 1)[k] by {
                    assert(slots_of(before)[k + 1] == all.skip(i as int)[k + 1]);
                }
            }
            assert(all.take(i + 1).drop_last() =~= all.take(i as int));
            assert(alive@.take(i + 1).drop_last() =~= alive@.take(i as int));
            assert(all.take(i + 1).last() == g.slot);
            assert(children.take(i + 1).drop_last() =~= children.take(i as int));
            assert(children.take(i + 1).last() == g);
            assert(rest@ =~= children.skip(i + 1));
        }
        if alive[i] {
            out.push(g);
            assert(slots_of(out@) =~= slots_of(kept_before).push(g.slot));
        }
        i += 1;
    }
    assert(children.take(i as int) =~= children);
    assert(all.take(i as int) =~= all);
    assert(alive@.take(i as int) =~= alive@);
    out
}

/// The children of a page other than the one with slot `slot`.
fn drop_slot<H>(pending: Vec<PendingGeneration<H>>, slot: usize) -> (r: Vec<PendingGeneration<H>>)
    ensures
        slots_of(r@) == without_slot(slots_of(pending@), slot),
        forall|k: int| 0 <= k < r@.len() ==> pending@.contains(#[trigger] r@[k]),
{
    let ghost all = slots_of(pending@);
    let n: usize = pending.len();
    let mut rest = pending;
    let mut out: Vec<PendingGeneration<H>> = Vec::new();
    let mut i: usize = 0;
    assert(slots_of(out@) =~= Seq::empty());
    assert(without_slot(all.take(0), slot) =~= Seq::empty());
    assert(slots_of(rest@) =~= all.skip(0));
    while i < n
        invariant
            i <= n == all.len(),
            rest@.len() == all.len() - i,
            slots_of(rest@) == all.skip(i as int),
            slots_of(out@) == without_slot(all.take(i as int), slot),
            rest@ == pending@.skip(i as int),
            pending@.len() == n,
            forall|k: int| 0 <= k < out@.len() ==> pending@.contains(#[trigger] out@[k]),
        decreases n - i,
    {
        let ghost before = rest@;
        let ghost kept_before = out@;
        let g = rest.remove(0);
        proof {
            assert(slots_of(before)[0] == g.slot);
            assert(slots_of(rest@) =~= all.skip(i + 1)) by {
                assert forall|k: int| 0 <= k < rest@.len() implies #[trigger] slots_of(rest@)[k]
                    == all.skip(i + 1)[k] by {
                    assert(slots_of(before)[k + 1] == all.skip(i as int)[k + 1]);
                }
            }
            assert(all.take(i + 1).drop_last() =~= all.take(i as int));
            assert(all.take(i + 1).last() == g.slot);
        }
        if g.slot != slot {
            out.push(g);
            assert(slots_of(out@) =~= slots_of(kept_before).push(g.slot));
        }
        i += 1;
    }
    assert(all.take(i as int) =~= all);
    out
}

impl<H> GuardRegistry<H> {
    /// The children that depend on a recorded page, in the order they joined.
    pub closed spec fn generations(self, page: usize) -> Seq<PendingGeneration<H>> {
        self.pages@[page].pending@
    }

    /// Whether the pages other than `page` have the children that they have in `other`.
    pub open spec fn same_elsewhere(self, other: Self, page: usize) -> bool {
        forall|q: usize|
            q != page && #[trigger] other@.contains_key(q) ==> self.generations(q)
                == other.generations(q)
    }

    /// Whether the children of every page are among those that the page has in `other`.
    pub open spec fn adds_no_child(self, other: Self) -> bool {
        forall|q: usize, k: int|
            self@.contains_key(q) && 0 <= k < self.generations(q).len() ==> other.generations(
                q,
            ).contains(#[trigger] self.generations(q)[k])
    }

    /// A registry without guarded pages.
    pub fn new() -> (r: Self)
        ensures
            r@ == Map::<usize, EntryView>::empty(),
    {
        let r = GuardRegistry { pages: HashMap::new() };
        assert(r@ =~= Map::<usize, EntryView>::empty());
        r
    }

    /// The children that depend on `page`, to find out which of them still run.
    pub fn pending(&self, page: usize) -> (r: Option<&Vec<PendingGeneration<H>>>)
        ensures
            match r {
                Some(list) => self@.contains_key(page) && slots_of(list@) == self@[page].slots
                    && list@ == self.generations(page),
                None => !self@.contains_key(page),
            },
    {
        match self.pages.get(&page) {
            Some(entry) => Some(&entry.pending),
            None => None,
        }
    }

    /// Starts to guard `page` for a claim, `alive` saying which of the children that depend on the
    /// page still run. A slot index outside the claim's table is passed over.
    pub fn guard_one_page(
        &mut self,
        claim: &GuardCowClaim<H>,
        page: usize,
        index: usize,
        alive: &Vec<bool>,
    ) -> (r: GuardAction)
        requires
            old(self)@.contains_key(page) ==> alive@.len() == old(self)@[page].slots.len(),
        ensures
            (final(self)@, r) == if index >= claim.slots {
                (old(self)@, GuardAction::Done)
            } else {
                guard_step(pruned(old(self)@, page, alive@), page)
            },
            final(self).same_elsewhere(*old(self), page),
            index < claim.slots && final(self)@.contains_key(page) ==> final(self).generations(page)
                == kept(old(self).generations(page), alive@),
    {
        if index >= claim.slots {
            return GuardAction::Done;
        }
        let ghost start = self.pages@;
        match self.pages.remove(&page) {
            None => {
                assert(self.pages@ =~= start);
                GuardAction::Protect { restore: None }
            },
            Some(entry) => {
                let protect: u32 = entry.true_original_protect;
                let pending = keep_alive(entry.pending, alive);
                proof {
                    lemma_remove_view(start, page);
                    assert(self.pages@ =~= start.remove(page));
                }
                if pending.len() == 0 {
                    proof {
                        let m = pruned(old(self)@, page, alive@);
                        assert(slots_of(pending@).len() == 0);
                        assert(is_closed(m, page));
                        assert(self@ =~= m.remove(page));
                    }
                    GuardAction::Protect { restore: Some(protect) }
                } else {
                    let kept_entry = PageGuardEntry { true_original_protect: protect, pending };
                    self.pages.insert(page, kept_entry);
                    proof {
                        lemma_insert_view(start.remove(page), page, kept_entry);
                        let m = pruned(old(self)@, page, alive@);
                        assert(self.pages@ =~= start.remove(page).insert(page, kept_entry));
                        assert(self@ =~= m);
                        assert(m[page].slots.len() == pending@.len());
                    }
                    GuardAction::NeedHandle { after: AfterHandle::Join }
                }
            },
        }
    }

    /// Goes on after the page was made read-only and had the given protection, or could not be.
    pub fn on_protected(&mut self, page: usize, old_protect: Option<u32>) -> (r: GuardAction)
        ensures
            match old_protect {
                None => final(self)@ == old(self)@.remove(page) && r == GuardAction::Done,
                Some(p) => final(self)@ == old(self)@ && r == (GuardAction::NeedHandle {
                    after: AfterHandle::Fresh { old_protect: p },
                }),
            },
            final(self).same_elsewhere(*old(self), page),
    {
        match old_protect {
            None => {
                let ghost start = self.pages@;
                let _ = self.pages.remove(&page);
                proof {
                    lemma_remove_view(start, page);
                    assert(self.pages@ =~= start.remove(page));
                }
                GuardAction::Done
            },
            Some(p) => GuardAction::NeedHandle { after: AfterHandle::Fresh { old_protect: p } },
        }
    }

    /// Ends the guarding of a page with the handle to the child, or without one if the child is
    /// gone. A page just made read-only is recorded in either case.
    pub fn on_handle(
        &mut self,
        claim: &mut GuardCowClaim<H>,
        page: usize,
        index: usize,
        after: AfterHandle,
        handle: Option<H>,
    )
        requires
            after is Join ==> old(self)@.contains_key(page),
        ensures
            final(self)@ == with_handle(
                old(self)@,
                page,
                slot_at(old(claim).table_base, index),
                after,
                handle is Some,
            ),
            final(self).same_elsewhere(*old(self), page),
            handle matches Some(h) ==> final(self).generations(page) == (match after {
                AfterHandle::Join => old(self).generations(page),
                AfterHandle::Fresh { old_protect } => Seq::empty(),
            }).push(
                PendingGeneration {
                    live_handle: h,
                    slot: slot_at(old(claim).table_base, index),
                },
            ),
            final(claim).joined_pages@ == if handle is Some {
                old(claim).joined_pages@.push((page, slot_at(old(claim).table_base, index)))
            } else {
                old(claim).joined_pages@
            },
            final(claim).table_base == old(claim).table_base,
            final(claim).slots == old(claim).slots,
            final(claim).child_handle == old(claim).child_handle,
    {
        let slot: usize = slot_address(claim.table_base, index);
        let ghost start = self.pages@;
        match after {
            AfterHandle::Join => {
                if let Some(live_handle) = handle {
                    if let Some(entry) = self.pages.remove(&page) {
                        let mut entry = entry;
                        let ghost pending_before = entry.pending@;
                        entry.pending.push(PendingGeneration { live_handle, slot });
                        self.pages.insert(page, entry);
                        proof {
                            assert(slots_of(entry.pending@) =~= slots_of(pending_before).push(
                                slot,
                            ));
                            lemma_remove_view(start, page);
                            lemma_insert_view(start.remove(page), page, entry);
                            assert(self.pages@ =~= start.remove(page).insert(page, entry));
                            assert(self@ =~= joined(old(self)@, page, slot));
                        }
                    }
                    claim.joined_pages.push((page, slot));
                }
            },
            AfterHandle::Fresh { old_protect } => {
                let mut pending: Vec<PendingGeneration<H>> = Vec::new();
                let has_handle: bool = handle.is_some();
                if let Some(live_handle) = handle {
                    pending.push(PendingGeneration { live_handle, slot });
                    claim.joined_pages.push((page, slot));
                }
                let entry = PageGuardEntry { true_original_protect: old_protect, pending };
                proof {
                    lemma_insert_view(start, page, entry);
                    assert(slots_of(entry.pending@) =~= if has_handle {
                        seq![slot]
                    } else {
                        Seq::empty()
                    });
                }
                self.pages.insert(page, entry);
            },
        }
    }

    /// Whether none of the region's pages is recorded, so that it can be guarded at once.
    pub fn region_is_unopened(&self, region_start: usize, region_end: usize) -> (r: bool)
        ensures
            r == !region_open(self@, region_start as int, region_end as int),
    {
        let mut page: usize = region_start;
        while page < region_end
            invariant
                region_open(self@, region_start as int, region_end as int) == region_open(
                    self@,
                    page as int,
                    region_end as int,
                ),
            decreases region_end - page,
        {
            if self.pages.contains_key(&page) {
                assert(self@.contains_key(page));
                return false;
            }
            assert(!self@.contains_key(page));
            assert(region_open(self@, page as int, region_end as int) == region_open(
                self@,
                page + 4096,
                region_end as int,
            ));
            if region_end - page <= memory::PAGE_SIZE {
                return true;
            }
            page += memory::PAGE_SIZE;
        }
        true
    }

    /// Evicts every guarded page of `start..end` because the guest is about to change the pages.
    /// Returns the pages that children depended on: the present bytes of each are to be published
    /// in the slots of those children that still run.
    pub fn invalidate_guarded_range(&mut self, start: usize, end: usize) -> (r: Vec<
        EvictedPage<H>,
    >)
        ensures
            (final(self)@, evicted_view(r@)) == if start >= end {
                (old(self)@, Seq::<(usize, Seq<usize>)>::empty())
            } else {
                evicted(old(self)@, memory::page_of(start) as int, end as int)
            },
            forall|k: int|
                0 <= k < r@.len() ==> (#[trigger] r@[k]).pending@ == old(self).generations(
                    r@[k].page,
                ),
            forall|q: usize| #[trigger]
                final(self)@.contains_key(q) ==> final(self).generations(q) == old(self).generations(q),
    {
        let mut out: Vec<EvictedPage<H>> = Vec::new();
        assert(evicted_view(out@) =~= Seq::<(usize, Seq<usize>)>::empty());
        if start >= end {
            return out;
        }
        let first: usize = memory::page_start(start);
        let mut page: usize = first;
        let ghost goal = evicted(self@, first as int, end as int);
        assert(evicted_view(out@) + goal.1 =~= goal.1);
        let mut more: bool = true;
        while more
            invariant
                more ==> page < end,
                goal == evicted(old(self)@, first as int, end as int),
                more ==> goal.0 == evicted(self@, page as int, end as int).0,
                more ==> goal.1 == evicted_view(out@) + evicted(self@, page as int, end as int).1,
                !more ==> goal.0 == self@ && goal.1 == evicted_view(out@),
                forall|k: int|
                    0 <= k < out@.len() ==> (#[trigger] out@[k]).pending@ == old(self).generations(
                        out@[k].page,
                    ),
                forall|q: usize| #[trigger]
                    self@.contains_key(q) ==> self.generations(q) == old(self).generations(q),
            decreases (if more {
                end - page + 1
            } else {
                0
            }),
        {
            let ghost start_pages = self.pages@;
            let ghost here = self@;
            let ghost out_before = out@;
            let ghost rest = evicted(here.remove(page), page + 4096, end as int);
            match self.pages.remove(&page) {
                None => {
                    assert(self.pages@ =~= start_pages);
                    assert(here.remove(page) =~= here);
                },
                Some(entry) => {
                    proof {
                        assert(here.contains_key(page));
                        lemma_remove_view(start_pages, page);
                        assert(self.pages@ =~= start_pages.remove(page));
                        assert(self@ =~= here.remove(page));
                        assert(here[page] == entry@);
                    }
                    if entry.pending.len() > 0 {
                        let gone = EvictedPage { page, pending: entry.pending };
                        out.push(gone);
                        proof {
                            assert(evicted_view(out@) =~= evicted_view(out_before).push(
                                (page, slots_of(gone.pending@)),
                            ));
                            assert(here[page].slots.len() > 0);
                            assert(evicted_view(out_before) + (seq![(page, here[page].slots)]
                                + rest.1) =~= evicted_view(out@) + rest.1);
                        }
                    } else {
                        assert(here[page].slots.len() == 0);
                    }
                },
            }
            if end - page <= memory::PAGE_SIZE {
                proof {
                    assert(rest.1 =~= Seq::<(usize, Seq<usize>)>::empty());
                    assert(evicted_view(out@) + rest.1 =~= evicted_view(out@));
                }
                more = false;
            } else {
                page += memory::PAGE_SIZE;
            }
        }
        out
    }

    /// Claims a fault: a write to a recorded page. Returns the page.
    pub fn guard_cow_write_fault_veh(&self, code: u32, access: usize, address: usize) -> (r:
        Option<usize>)
        ensures
            r == if code == memory::EXCEPTION_ACCESS_VIOLATION && access == 1 && self@.contains_key(
                memory::page_of(address),
            ) {
                Some(memory::page_of(address))
            } else {
                None
            },
    {
        if code != memory::EXCEPTION_ACCESS_VIOLATION || access != 1 {
            return None;
        }
        let page: usize = memory::page_start(address);
        if self.pages.contains_key(&page) {
            Some(page)
        } else {
            None
        }
    }

    /// Services a claimed fault, `alive` saying which of the children that depend on the page still
    /// run. Returns the slots to publish the page's bytes in and the protection to restore. The
    /// record stays, without children, so that a second thread that faulted on the same page is
    /// served too.
    pub fn capture(&mut self, page: usize, alive: &Vec<bool>) -> (r: (Vec<usize>, u32))
        requires
            old(self)@.contains_key(page),
            alive@.len() == old(self)@[page].slots.len(),
        ensures
            r.0@ == kept(old(self)@[page].slots, alive@),
            r.1 == old(self)@[page].protect,
            final(self)@ == old(self)@.insert(
                page,
                EntryView { protect: old(self)@[page].protect, slots: Seq::empty() },
            ),
            final(self).same_elsewhere(*old(self), page),
    {
        let ghost start = self.pages@;
        let mut slots: Vec<usize> = Vec::new();
        match self.pages.remove(&page) {
            Some(entry) => {
                let protect: u32 = entry.true_original_protect;
                let live = keep_alive(entry.pending, alive);
                let mut i: usize = 0;
                while i < live.len()
                    invariant
                        i <= live@.len(),
                        slots@ =~= slots_of(live@).take(i as int),
                    decreases live@.len() - i,
                {
                    slots.push(live[i].slot);
                    i += 1;
                }
                let empty = PageGuardEntry { true_original_protect: protect, pending: Vec::new() };
                self.pages.insert(page, empty);
                proof {
                    assert(slots_of(live@).take(i as int) =~= slots_of(live@));
                    lemma_remove_view(start, page);
                    lemma_insert_view(start.remove(page), page, empty);
                    assert(self.pages@ =~= start.remove(page).insert(page, empty));
                    assert(slots_of(empty.pending@) =~= Seq::empty());
                    assert(self@ =~= old(self)@.insert(
                        page,
                        EntryView { protect, slots: Seq::empty() },
                    ));
                }
                (slots, protect)
            },
            None => (slots, 0),
        }
    }

    /// Gives up a claim whose child never came to run: removes its own part in every page it
    /// joined. Returns the pages that nobody depends on any more, with the protection to restore.
    pub fn abort_guard_cow_claim(&mut self, claim: &GuardCowClaim<H>) -> (r: Vec<(usize, u32)>)
        ensures
            (final(self)@, r@) == aborted(
                old(self)@,
                claim.joined_pages@,
                claim.joined_pages@.len() as int,
            ),
            final(self).adds_no_child(*old(self)),
    {
        let mut out: Vec<(usize, u32)> = Vec::new();
        let mut i: usize = 0;
        while i < claim.joined_pages.len()
            invariant
                i <= claim.joined_pages@.len(),
                (self@, out@) == aborted(old(self)@, claim.joined_pages@, i as int),
                self.adds_no_child(*old(self)),
            decreases claim.joined_pages@.len() - i,
        {
            let (page, slot) = claim.joined_pages[i];
            let ghost start = self.pages@;
            let ghost here = self@;
            let ghost before = *self;
            match self.pages.remove(&page) {
                None => {
                    assert(self.pages@ =~= start);
                    assert forall|q: usize| #[trigger] self.generations(q) == before.generations(
                        q,
                    ) by {
                    }
                },
                Some(entry) => {
                    let protect: u32 = entry.true_original_protect;
                    let ghost children = entry.pending@;
                    let pending = drop_slot(entry.pending, slot);
                    let empty: bool = pending.len() == 0;
                    let left = PageGuardEntry { true_original_protect: protect, pending };
                    self.pages.insert(page, left);
                    proof {
                        lemma_remove_view(start, page);
                        lemma_insert_view(start.remove(page), page, left);
                        assert(self.pages@ =~= start.remove(page).insert(page, left));
                        assert(self@ =~= here.insert(
                            page,
                            EntryView { slots: without_slot(here[page].slots, slot), ..here[page] },
                        ));
                        assert forall|q: usize, k: int|
                            self@.contains_key(q) && 0 <= k < self.generations(q).len() implies old(self).generations(q).contains(#[trigger] self.generations(q)[k]) by {
                            assert(before@.contains_key(q));
                            let g = self.generations(q)[k];
                            if q == page {
                                assert(children == before.generations(page));
                                let j = choose|j: int| 0 <= j < children.len() && children[j] == g;
                                assert(before.generations(page)[j] == g);
                            } else {
                                assert(before.generations(q)[k] == g);
                            }
                        }
                    }
                    if empty {
                        out.push((page, protect));
                    }
                },
            }
            i += 1;
        }
        out
    }
}

/// Whether the child is known by a copy of `handle`.
pub open spec fn known_by<H: Clone>(child: PendingGeneration<H>, handle: Option<H>) -> bool {
    handle is Some && cloned::<H>(handle->0, child.live_handle)
}

impl<H: Clone> GuardRegistry<H> {
    /// Whether every child of `page` is known by a copy of `handle`.
    pub open spec fn all_known_by(self, page: usize, handle: Option<H>) -> bool {
        forall|k: int|
            0 <= k < self.generations(page).len() ==> known_by(
                #[trigger] self.generations(page)[k],
                handle,
            )
    }

    /// Whether the children of every page are those that it has in `other`, or are known by a copy
    /// of `handle`.
    pub open spec fn adds_only(self, other: Self, handle: Option<H>) -> bool {
        forall|q: usize| #[trigger]
            self@.contains_key(q) ==> other@.contains_key(q) && self.generations(q)
                == other.generations(q) || self.all_known_by(q, handle)
    }

    /// Records a region that was made read-only at once and had protection `old_protect`. Without a
    /// handle, because the child is gone, the pages are recorded all the same.
    pub fn try_guard_region_batched(
        &mut self,
        claim: &mut GuardCowClaim<H>,
        region_start: usize,
        region_end: usize,
        old_protect: u32,
        handle: &Option<H>,
        group_start: usize,
        first_slot: usize,
    )
        requires
            group_start <= region_start,
            first_slot + (region_end - group_start) / 4096 <= usize::MAX,
        ensures
            (final(self)@, final(claim).joined_pages@) == region_recorded(
                old(self)@,
                old(claim).joined_pages@,
                region_start as int,
                region_end as int,
                old_protect,
                handle is Some,
                old(claim).table_base,
                old(claim).slots,
                first_slot,
                group_start,
            ),
            final(claim).table_base == old(claim).table_base,
            final(claim).slots == old(claim).slots,
            final(claim).child_handle == old(claim).child_handle,
            final(self).adds_only(*old(self), *handle),
    {
        let ghost goal = region_recorded(
            self@,
            claim.joined_pages@,
            region_start as int,
            region_end as int,
            old_protect,
            handle is Some,
            claim.table_base,
            claim.slots,
            first_slot,
            group_start,
        );
        let mut page: usize = region_start;
        let mut more: bool = page < region_end;
        while more
            invariant
                more ==> page < region_end,
                group_start <= page,
                first_slot + (region_end - group_start) / 4096 <= usize::MAX,
                claim.table_base == old(claim).table_base,
                claim.slots == old(claim).slots,
                claim.child_handle == old(claim).child_handle,
                self.adds_only(*old(self), *handle),
                more ==> goal == region_recorded(
                    self@,
                    claim.joined_pages@,
                    page as int,
                    region_end as int,
                    old_protect,
                    handle is Some,
                    claim.table_base,
                    claim.slots,
                    first_slot,
                    group_start,
                ),
                !more ==> goal == (self@, claim.joined_pages@),
            decreases (if more {
                region_end - page + 1
            } else {
                0
            }),
        {
            let step: usize = (page - group_start) / memory::PAGE_SIZE;
            assert((page - group_start) / 4096 <= (region_end - group_start) / 4096);
            let index: usize = first_slot + step;
            let ghost start = self.pages@;
            let ghost before = *self;
            match handle {
                None => {
                    let entry = PageGuardEntry {
                        true_original_protect: old_protect,
                        pending: Vec::new(),
                    };
                    self.pages.insert(page, entry);
                    proof {
                        lemma_insert_view(start, page, entry);
                        assert(slots_of(entry.pending@) =~= Seq::empty());
                    }
                },
                Some(h) => {
                    if index < claim.slots {
                        let slot: usize = slot_address(claim.table_base, index);
                        let mut pending: Vec<PendingGeneration<H>> = Vec::new();
                        pending.push(PendingGeneration { live_handle: h.clone(), slot });
                        let entry = PageGuardEntry {
                            true_original_protect: old_protect,
                            pending,
                        };
                        self.pages.insert(page, entry);
                        claim.joined_pages.push((page, slot));
                        proof {
                            lemma_insert_view(start, page, entry);
                            assert(slots_of(entry.pending@) =~= seq![slot]);
                        }
                    }
                },
            }
            assert forall|q: usize| #[trigger] self@.contains_key(q) implies old(self)@.contains_key(q) && self.generations(q) == old(self).generations(q)
                || self.all_known_by(q, *handle) by {
                if q != page || self.pages@ == start {
                    assert(before@.contains_key(q));
                    assert(self.generations(q) == before.generations(q));
                    if before.all_known_by(q, *handle) {
                        lemma_known_by(before, *self, q, *handle);
                    }
                } else {
                    assert(self.all_known_by(q, *handle));
                }
            }
            if region_end - page <= memory::PAGE_SIZE {
                proof {
                    reveal_with_fuel(region_recorded, 2);
                }
                more = false;
            } else {
                page += memory::PAGE_SIZE;
            }
        }
    }
}

proof fn lemma_known_by<H: Clone>(
    before: GuardRegistry<H>,
    after: GuardRegistry<H>,
    page: usize,
    handle: Option<H>,
)
    requires
        before.generations(page) == after.generations(page),
        before.all_known_by(page, handle),
    ensures
        after.all_known_by(page, handle),
{
    assert forall|k: int| 0 <= k < after.generations(page).len() implies known_by(
        #[trigger] after.generations(page)[k],
        handle,
    ) by {
        assert(known_by(before.generations(page)[k], handle));
    }
}

/// The address of slot `index` of the table at `table_base`.
fn slot_address(table_base: usize, index: usize) -> (r: usize)
    ensures
        r == slot_at(table_base, index),
{
    let offset: usize = index.wrapping_mul(lazy_fork_commit::SNAPSHOT_SLOT_SIZE);
    proof {
        vstd::arithmetic::div_mod::lemma_add_mod_noop_right(
            table_base as int,
            index * 4097,
            usize::MAX + 1,
        );
    }
    table_base.wrapping_add(offset)
}

/// The number of open claims after one more is admitted: none for a claim without pages, nor while
/// the limit is reached.
pub open spec fn admitted(open: u32, total_pages: usize) -> Option<u32> {
    if total_pages == 0 || open >= GUARD_COW_CONCURRENT_CLAIM_CAP {
        None
    } else {
        Some((open + 1) as u32)
    }
}

/// Decides whether another claim may be opened while `open` are.
pub fn try_claim_guard_cow_table(open: u32, total_pages: usize) -> (r: Option<u32>)
    ensures
        r == admitted(open, total_pages),
{
    if total_pages == 0 || open >= GUARD_COW_CONCURRENT_CLAIM_CAP {
        None
    } else {
        Some(open + 1)
    }
}

/// The address of the claim's snapshot table, which the child is told.
pub fn guard_cow_claim_table_base<H>(claim: &GuardCowClaim<H>) -> (r: usize)
    ensures
        r == claim.table_base,
{
    claim.table_base
}

impl<H: Clone> GuardCowClaim<H> {
    /// A claim over the table at `table_base` with `slots` slots.
    pub fn new(table_base: usize, slots: usize) -> (r: Self)
        ensures
            r.table_base == table_base,
            r.slots == slots,
            r.joined_pages@ == Seq::<(usize, usize)>::empty(),
            r.child_handle is None,
    {
        GuardCowClaim { table_base, slots, joined_pages: Vec::new(), child_handle: None }
    }

    /// A copy of the claim's handle to its child, if it has been opened.
    pub fn shared_handle(&self) -> (r: Option<H>)
        ensures
            r is Some <==> self.child_handle is Some,
            r matches Some(h) ==> cloned::<H>(self.child_handle->0, h),
    {
        match &self.child_handle {
            Some(h) => Some(h.clone()),
            None => None,
        }
    }
}

/// A region of the parent's memory to guard, and where the walk over the group goes on.
#[derive(Debug, Clone, Copy, PartialEq, Eq, Structural)]
pub enum WalkStep {
    /// The walk is over.
    Stop,
    /// Nothing to guard here; go on at `next`.
    Skip { next: usize },
    /// Guard `start..end`; go on at `next`.
    Guard { start: usize, end: usize, next: usize },
}

/// The sum, or the largest number if it does not fit.
pub open spec fn saturating_sum(a: usize, b: usize) -> int {
    if a + b > usize::MAX {
        usize::MAX as int
    } else {
        a + b
    }
}

/// The part of a queried region that lies in the group from `addr` on.
pub open spec fn walked(
    addr: usize,
    group_end: usize,
    region: Option<memory::MemoryRegion>,
) -> WalkStep {
    match region {
        None => WalkStep::Stop,
        Some(r) => if r.size == 0 {
            WalkStep::Stop
        } else {
            let start = if addr >= r.base {
                addr
            } else {
                r.base
            };
            let top = saturating_sum(r.base, r.size);
            let end = if top < group_end {
                top
            } else {
                group_end as int
            };
            let next = if end > addr + 1 {
                end as usize
            } else {
                (addr + 1) as usize
            };
            if r.state == memory::MEM_COMMIT && r.protect & memory::NO_ACCESS == 0 && end > start {
                WalkStep::Guard { start, end: end as usize, next }
            } else {
                WalkStep::Skip { next }
            }
        },
    }
}

/// Decides about the region around `addr` while walking a group of the parent's memory: committed,
/// accessible memory is guarded.
pub fn reserve_group_lazy_guarded(
    addr: usize,
    group_end: usize,
    region: Option<memory::MemoryRegion>,
) -> (r: WalkStep)
    requires
        addr < group_end,
    ensures
        r == walked(addr, group_end, region),
        match r {
            WalkStep::Stop => true,
            WalkStep::Skip { next } => addr < next <= group_end,
            WalkStep::Guard { start, end, next } => addr <= start < end <= group_end && addr < next
                <= group_end,
        },
{
    match region {
        None => WalkStep::Stop,
        Some(region) => {
            if region.size == 0 {
                return WalkStep::Stop;
            }
            let start: usize = if addr >= region.base {
                addr
            } else {
                region.base
            };
            let top: usize = region.base.saturating_add(region.size);
            let end: usize = if top < group_end {
                top
            } else {
                group_end
            };
            let next: usize = if end > addr + 1 {
                end
            } else {
                addr + 1
            };
            if region.state == memory::MEM_COMMIT && region.protect & memory::NO_ACCESS == 0 && end
                > start {
                WalkStep::Guard { start, end, next }
            } else {
                WalkStep::Skip { next }
            }
        },
    }
}

/// The protection that a page has apart from being guarded, given the protections in force.
pub open spec fn true_protect(
    m: Map<usize, EntryView>,
    protects: Map<usize, u32>,
    page: usize,
) -> u32 {
    if m.contains_key(page) {
        m[page].protect
    } else {
        protects[page]
    }
}

/// Whether every page that a child depends on is read-only.
pub open spec fn is_guarded(m: Map<usize, EntryView>, protects: Map<usize, u32>) -> bool {
    forall|p: usize|
        #[trigger] m.contains_key(p) && m[p].slots.len() > 0 ==> protects[p]
            == memory::PAGE_READONLY
}

/// The registry and the protections after a page was guarded for a child with slot `slot`, every
/// change of protection having succeeded and `handle` saying whether the child could be opened.
pub open spec fn guarded_page(
    m: Map<usize, EntryView>,
    protects: Map<usize, u32>,
    page: usize,
    slot: usize,
    alive: Seq<bool>,
    handle: bool,
) -> (Map<usize, EntryView>, Map<usize, u32>) {
    let (stepped, action) = guard_step(pruned(m, page, alive), page);
    match action {
        GuardAction::Done => (stepped, protects),
        GuardAction::NeedHandle { after } => (
            with_handle(stepped, page, slot, after, handle),
            protects,
        ),
        GuardAction::Protect { restore } => {
            let restored = match restore {
                Some(p) => protects.insert(page, p),
                None => protects,
            };
            let after = AfterHandle::Fresh { old_protect: restored[page] };
            (
                with_handle(stepped, page, slot, after, handle),
                restored.insert(page, memory::PAGE_READONLY),
            )
        },
    }
}

/// Guarding a page never loses a page's true protection, whoever guarded it before and whether or
/// not they are gone, and keeps every page read-only that a child depends on. The new child depends
/// on the page afterwards.
pub proof fn law_guarding_keeps_true_protection(
    m: Map<usize, EntryView>,
    protects: Map<usize, u32>,
    page: usize,
    slot: usize,
    alive: Seq<bool>,
    handle: bool,
    other: usize,
)
    requires
        is_guarded(m, protects),
    ensures
        ({
            let (m2, protects2) = guarded_page(m, protects, page, slot, alive, handle);
            &&& is_guarded(m2, protects2)
            &&& true_protect(m2, protects2, other) == true_protect(m, protects, other)
            &&& handle ==> m2.contains_key(page) && m2[page].slots.contains(slot)
                && protects2[page] == memory::PAGE_READONLY
        }),
{
    let a = pruned(m, page, alive);
    let (m2, protects2) = guarded_page(m, protects, page, slot, alive, handle);
    if m.contains_key(page) {
        lemma_kept_nonempty(m[page].slots, alive);
    }
    if handle {
        let s = m2[page].slots;
        assert(s[s.len() - 1] == slot);
    }
    assert forall|p: usize| #[trigger] m2.contains_key(p) && m2[p].slots.len() > 0 implies
        protects2[p] == memory::PAGE_READONLY by {
        if p != page {
            assert(m.contains_key(p));
        } else if !is_closed(a, page) && a.contains_key(page) {
            assert(m.contains_key(page));
        }
    }
}

/// Guarding a page for one more child takes it away from none that still runs, and changes nothing
/// about other pages.
pub proof fn law_guarding_keeps_children(
    m: Map<usize, EntryView>,
    protects: Map<usize, u32>,
    page: usize,
    slot: usize,
    alive: Seq<bool>,
    handle: bool,
    other: usize,
    i: int,
)
    ensures
        ({
            let (m2, protects2) = guarded_page(m, protects, page, slot, alive, handle);
            &&& m.contains_key(page) && alive.len() == m[page].slots.len() && 0 <= i < alive.len()
                && alive[i] ==> m2.contains_key(page) && m2[page].slots.contains(m[page].slots[i])
            &&& other != page ==> m2.contains_key(other) == m.contains_key(other) && m2[other]
                == m[other] && protects2[other] == protects[other]
            &&& handle ==> m2[page].slots.len() <= 1 + m[page].slots.len() || !m.contains_key(page)
            &&& handle && !m.contains_key(page) ==> m2[page].slots == seq![slot]
        }),
{
    if m.contains_key(page) {
        lemma_kept_nonempty(m[page].slots, alive);
    }
    if m.contains_key(page) && alive.len() == m[page].slots.len() && 0 <= i < alive.len()
        && alive[i] {
        law_capture_serves_all(m[page].slots, alive, i);
        let s = kept(m[page].slots, alive);
        let m2 = guarded_page(m, protects, page, slot, alive, handle).0;
        let k = choose|k: int| 0 <= k < s.len() && s[k] == m[page].slots[i];
        assert(m2[page].slots[k] == m[page].slots[i]);
    }
}

proof fn lemma_kept_nonempty(slots: Seq<usize>, alive: Seq<bool>)
    ensures
        kept(slots, alive).len() <= slots.len(),
    decreases slots.len(),
{
    if slots.len() > 0 && alive.len() == slots.len() {
        lemma_kept_nonempty(slots.drop_last(), alive.drop_last());
    }
}

/// Servicing a write gives the page exactly its true protection back, so that the write can go
/// through, and leaves no child depending on it; no other page changes.
pub proof fn law_capture_restores_true_protection(
    m: Map<usize, EntryView>,
    protects: Map<usize, u32>,
    page: usize,
    other: usize,
)
    requires
        is_guarded(m, protects),
        m.contains_key(page),
    ensures
        ({
            let m2 = m.insert(
                page,
                EntryView { protect: m[page].protect, slots: Seq::empty() },
            );
            let protects2 = protects.insert(page, m[page].protect);
            &&& is_guarded(m2, protects2)
            &&& protects2[page] == true_protect(m, protects, page)
            &&& true_protect(m2, protects2, other) == true_protect(m, protects, other)
            &&& other != page ==> protects2[other] == protects[other]
        }),
{
    let m2 = m.insert(page, EntryView { protect: m[page].protect, slots: Seq::empty() });
    let protects2 = protects.insert(page, m[page].protect);
    assert forall|p: usize| #[trigger] m2.contains_key(p) && m2[p].slots.len() > 0 implies
        protects2[p] == memory::PAGE_READONLY by {
        assert(p != page);
        assert(m.contains_key(p));
    }
}

/// The protections after the listed ones were restored.
pub open spec fn restored(protects: Map<usize, u32>, list: Seq<(usize, u32)>) -> Map<usize, u32>
    decreases list.len(),
{
    if list.len() == 0 {
        protects
    } else {
        restored(protects, list.drop_last()).insert(list.last().0, list.last().1)
    }
}

/// Giving up a claim keeps every page's true protection, and every page that another child depends
/// on stays read-only.
pub proof fn law_abort_keeps_true_protection(
    m: Map<usize, EntryView>,
    protects: Map<usize, u32>,
    joins: Seq<(usize, usize)>,
    n: int,
    other: usize,
)
    requires
        is_guarded(m, protects),
        0 <= n <= joins.len(),
    ensures
        ({
            let (m2, list) = aborted(m, joins, n);
            &&& is_guarded(m2, restored(protects, list))
            &&& true_protect(m2, restored(protects, list), other) == true_protect(
                m,
                protects,
                other,
            )
        }),
    decreases n,
{
    if n > 0 {
        law_abort_keeps_true_protection(m, protects, joins, n - 1, other);
        let (before, list) = aborted(m, joins, n - 1);
        let (page, slot) = joins[n - 1];
        let (m2, list2) = aborted(m, joins, n);
        let now = restored(protects, list);
        if before.contains_key(page) {
            let slots = without_slot(before[page].slots, slot);
            lemma_without_slot(before[page].slots, slot);
            if slots.len() == 0 {
                assert(list2.drop_last() =~= list);
            }
            assert forall|p: usize| #[trigger] m2.contains_key(p) && m2[p].slots.len() > 0 implies
                restored(protects, list2)[p] == memory::PAGE_READONLY by {
                assert(before.contains_key(p));
            }
        }
    }
}

proof fn lemma_without_slot(slots: Seq<usize>, slot: usize)
    ensures
        without_slot(slots, slot).len() <= slots.len(),
        !without_slot(slots, slot).contains(slot),
        forall|s: usize| s != slot && #[trigger] slots.contains(s) ==> without_slot(
            slots,
            slot,
        ).contains(s),
    decreases slots.len(),
{
    if slots.len() > 0 {
        let front = slots.drop_last();
        lemma_without_slot(front, slot);
        let rest = without_slot(front, slot);
        let all = without_slot(slots, slot);
        assert forall|s: usize| s != slot && #[trigger] slots.contains(s) implies all.contains(
            s,
        ) by {
            let i = choose|i: int| 0 <= i < slots.len() && slots[i] == s;
            if i == slots.len() - 1 {
                assert(all[all.len() - 1] == s);
            } else {
                assert(front[i] == s);
                assert(front.contains(s));
                let k = choose|k: int| 0 <= k < rest.len() && rest[k] == s;
                assert(all[k] == s);
            }
        }
        if all.contains(slot) {
            let k = choose|k: int| 0 <= k < all.len() && all[k] == slot;
            assert(k < rest.len());
            assert(rest[k] == slot);
            assert(rest.contains(slot));
        }
    }
}

/// Giving up a claim takes away its own part of a page and no other child's.
pub proof fn law_abort_is_precise(
    m: Map<usize, EntryView>,
    joins: Seq<(usize, usize)>,
    n: int,
    page: usize,
    slot: usize,
)
    requires
        0 <= n <= joins.len(),
        m.contains_key(page),
    ensures
        ({
            let m2 = aborted(m, joins, n).0;
            &&& m2.contains_key(page)
            &&& m2[page].protect == m[page].protect
            &&& m[page].slots.contains(slot) && (forall|i: int|
                0 <= i < n ==> #[trigger] joins[i] != (page, slot)) ==> m2[page].slots.contains(
                slot,
            )
            &&& (exists|i: int| 0 <= i < n && #[trigger] joins[i] == (page, slot))
                ==> !m2[page].slots.contains(slot)
        }),
    decreases n,
{
    if n > 0 {
        law_abort_is_precise(m, joins, n - 1, page, slot);
        let before = aborted(m, joins, n - 1).0;
        let (p, s) = joins[n - 1];
        if before.contains_key(p) {
            lemma_without_slot(before[p].slots, s);
            lemma_without_slot_subset(before[p].slots, s, slot);
        }
        assert(joins[n - 1] == (p, s));
    }
}

proof fn lemma_without_slot_subset(slots: Seq<usize>, slot: usize, s: usize)
    ensures
        without_slot(slots, slot).contains(s) ==> slots.contains(s),
    decreases slots.len(),
{
    if slots.len() > 0 {
        let front = slots.drop_last();
        lemma_without_slot_subset(front, slot, s);
        let rest = without_slot(front, slot);
        let all = without_slot(slots, slot);
        if all.contains(s) {
            let k = choose|k: int| 0 <= k < all.len() && all[k] == s;
            if k < rest.len() {
                assert(rest[k] == s);
                assert(rest.contains(s));
                let i = choose|i: int| 0 <= i < front.len() && front[i] == s;
                assert(slots[i] == s);
            } else {
                assert(slots[slots.len() - 1] == s);
            }
        }
    }
}

/// One capture serves every child that still runs: the slots it publishes in are those of the
/// children that depend on the page and are alive, and all of them.
pub proof fn law_capture_serves_all(slots: Seq<usize>, alive: Seq<bool>, i: int)
    requires
        alive.len() == slots.len(),
        0 <= i < slots.len(),
        alive[i],
    ensures
        kept(slots, alive).contains(slots[i]),
    decreases slots.len(),
{
    let rest = kept(slots.drop_last(), alive.drop_last());
    let all = kept(slots, alive);
    if i == slots.len() - 1 {
        assert(all[all.len() - 1] == slots[i]);
    } else {
        law_capture_serves_all(slots.drop_last(), alive.drop_last(), i);
        let k = choose|k: int| 0 <= k < rest.len() && rest[k] == slots[i];
        assert(all[k] == slots[i]);
    }
}

/// The number of open claims never passes the limit.
pub proof fn law_claims_are_bounded(open: u32, total_pages: usize)
    requires
        open <= GUARD_COW_CONCURRENT_CLAIM_CAP,
    ensures
        admitted(open, total_pages) matches Some(n) ==> n == open + 1 && n
            <= GUARD_COW_CONCURRENT_CLAIM_CAP,
        admitted(open, total_pages) is None <==> total_pages == 0 || open
            == GUARD_COW_CONCURRENT_CLAIM_CAP,
{
}

/// The slots of a table that fits the address space do not overlap.
pub proof fn law_slots_are_disjoint(table_base: usize, slots: usize, i: usize, j: usize)
    requires
        table_base + slots * 4097 <= usize::MAX,
        i < j < slots,
    ensures
        slot_at(table_base, i) == table_base + i * 4097,
        slot_at(table_base, i) + 4097 <= slot_at(table_base, j),
{
    assert(i * 4097 + 4097 <= j * 4097) by (nonlinear_arith)
        requires
            i < j,
    ;
    assert(j * 4097 <= slots * 4097) by (nonlinear_arith)
        requires
            j < slots,
    ;
    vstd::arithmetic::div_mod::lemma_small_mod(
        (table_base + i * 4097) as nat,
        (usize::MAX + 1) as nat,
    );
    vstd::arithmetic::div_mod::lemma_small_mod(
        (table_base + j * 4097) as nat,
        (usize::MAX + 1) as nat,
    );
}

/// A slot of a table that fits the address space lies 4097 bytes further on for each slot before it.
pub proof fn law_slots_stand_in_order(table_base: usize, slots: usize, index: usize)
    requires
        table_base + slots * 4097 <= usize::MAX,
        index < slots,
    ensures
        slot_at(table_base, index) == table_base + 4097 * index,
{
    assert(index * 4097 <= slots * 4097) by (nonlinear_arith)
        requires
            index < slots,
    ;
    vstd::arithmetic::div_mod::lemma_small_mod(
        (table_base + index * 4097) as nat,
        (usize::MAX + 1) as nat,
    );
}

/// Guarding a region at once records every page of it with its protection and, if the child is
/// there, under the page's own slot: that of the group's first page is slot `first`, and each page
/// further on has the next slot. Pages without a slot in the table are passed over.
pub proof fn law_region_records_each_page(
    m: Map<usize, EntryView>,
    joins: Seq<(usize, usize)>,
    page: int,
    end: int,
    old_protect: u32,
    handle: bool,
    table_base: usize,
    slots: usize,
    first: usize,
    group_start: usize,
    p: usize,
)
    requires
        group_start <= page <= p < end <= usize::MAX,
        (p - page) % 4096 == 0,
        table_base + slots * 4097 <= usize::MAX,
    ensures
        ({
            let (m2, joins2) = region_recorded(
                m,
                joins,
                page,
                end,
                old_protect,
                handle,
                table_base,
                slots,
                first,
                group_start,
            );
            let index = first + (p - group_start) / 4096;
            let slot = (table_base + 4097 * index) as usize;
            &&& handle && index < slots ==> m2.contains_key(p) && m2[p].protect == old_protect
                && m2[p].slots == seq![slot] && joins2.contains((p, slot))
            &&& !handle ==> m2.contains_key(p) && m2[p].protect == old_protect
                && m2[p].slots.len() == 0
            &&& handle && index >= slots ==> m2.contains_key(p) == m.contains_key(p) && m2[p]
                == m[p]
        }),
    decreases end - page,
{
    let index = first + (page - group_start) / 4096;
    let q = page as usize;
    let slot = slot_at(table_base, index as usize);
    let (m2, j2) = if !handle {
        (m.insert(q, EntryView { protect: old_protect, slots: Seq::empty() }), joins)
    } else if index < slots {
        (
            m.insert(q, EntryView { protect: old_protect, slots: seq![slot] }),
            joins.push((q, slot)),
        )
    } else {
        (m, joins)
    };
    if handle && index < slots {
        law_slots_stand_in_order(table_base, slots, index as usize);
    }
    if p == page {
        lemma_region_frame(
            m2,
            j2,
            page + 4096,
            end,
            old_protect,
            handle,
            table_base,
            slots,
            first,
            group_start,
            p,
        );
        if handle && index < slots {
            let all = region_recorded(
                m2,
                j2,
                page + 4096,
                end,
                old_protect,
                handle,
                table_base,
                slots,
                first,
                group_start,
            ).1;
            assert(j2[joins.len() as int] == (q, slot));
            assert(all[joins.len() as int] == (q, slot));
        }
    } else {
        law_region_records_each_page(
            m2,
            j2,
            page + 4096,
            end,
            old_protect,
            handle,
            table_base,
            slots,
            first,
            group_start,
            p,
        );
    }
}

/// Guarding a region touches no page outside it, and takes none of the joined pages away.
pub proof fn law_region_leaves_other_pages(
    m: Map<usize, EntryView>,
    joins: Seq<(usize, usize)>,
    page: int,
    end: int,
    old_protect: u32,
    handle: bool,
    table_base: usize,
    slots: usize,
    first: usize,
    group_start: usize,
    p: usize,
)
    requires
        0 <= page,
        end <= usize::MAX,
        p < page || p >= end || (p - page) % 4096 != 0,
    ensures
        ({
            let (m2, joins2) = region_recorded(
                m,
                joins,
                page,
                end,
                old_protect,
                handle,
                table_base,
                slots,
                first,
                group_start,
            );
            &&& m2.contains_key(p) == m.contains_key(p)
            &&& m2[p] == m[p]
            &&& joins2.len() >= joins.len()
            &&& joins2.take(joins.len() as int) == joins
        }),
{
    lemma_region_frame(
        m,
        joins,
        page,
        end,
        old_protect,
        handle,
        table_base,
        slots,
        first,
        group_start,
        p,
    );
}

proof fn lemma_region_frame(
    m: Map<usize, EntryView>,
    joins: Seq<(usize, usize)>,
    page: int,
    end: int,
    old_protect: u32,
    handle: bool,
    table_base: usize,
    slots: usize,
    first: usize,
    group_start: usize,
    p: usize,
)
    requires
        0 <= page,
        end <= usize::MAX,
        p < page || p >= end || (p - page) % 4096 != 0,
    ensures
        ({
            let (m2, joins2) = region_recorded(
                m,
                joins,
                page,
                end,
                old_protect,
                handle,
                table_base,
                slots,
                first,
                group_start,
            );
            &&& m2.contains_key(p) == m.contains_key(p)
            &&& m2[p] == m[p]
            &&& joins2.len() >= joins.len()
            &&& joins2.take(joins.len() as int) =~= joins
            &&& forall|k: int| 0 <= k < joins.len() ==> #[trigger] joins2[k] == joins[k]
        }),
    decreases (if page >= end {
        0
    } else {
        end - page
    }),
{
    if page < end {
        let index = slot_index(first, group_start, page);
        let q = page as usize;
        let slot = slot_at(table_base, index as usize);
        let (m2, j2) = if !handle {
            (m.insert(q, EntryView { protect: old_protect, slots: Seq::empty() }), joins)
        } else if index < slots {
            (
                m.insert(q, EntryView { protect: old_protect, slots: seq![slot] }),
                joins.push((q, slot)),
            )
        } else {
            (m, joins)
        };
        lemma_region_frame(
            m2,
            j2,
            page + 4096,
            end,
            old_protect,
            handle,
            table_base,
            slots,
            first,
            group_start,
            p,
        );
        let all = region_recorded(
            m2,
            j2,
            page + 4096,
            end,
            old_protect,
            handle,
            table_base,
            slots,
            first,
            group_start,
        ).1;
        assert forall|k: int| 0 <= k < joins.len() implies #[trigger] all[k] == joins[k] by {
            assert(all[k] == j2[k]);
        }
    }
}

/// The parent registers a page of a group under the very slot in which the child looks for it, if
/// both number the pages of the same ranges: group `k` is guarded from the slot on that
/// [`lazy_fork_commit::slot_bases`] gives it.
pub proof fn law_parent_and_child_agree_on_slots(
    m: Map<usize, EntryView>,
    joins: Seq<(usize, usize)>,
    end: int,
    old_protect: u32,
    table_base: usize,
    bases: Vec<lazy_fork_commit::SlotBase>,
    ranges: Seq<std::ops::Range<usize>>,
    k: int,
    page: int,
    p: usize,
)
    requires
        lazy_fork_commit::are_slots_of(bases@, ranges),
        lazy_fork_commit::first_holder(ranges, k, p),
        ranges[k].start <= page <= p < end <= ranges[k].end,
        (p - page) % 4096 == 0,
        table_base + 4097 * lazy_fork_commit::pages_up_to(ranges, ranges.len() as int)
            <= usize::MAX,
    ensures
        ({
            let (m2, joins2) = region_recorded(
                m,
                joins,
                page,
                end,
                old_protect,
                true,
                table_base,
                lazy_fork_commit::slots_before(ranges, ranges.len() as int) as usize,
                bases@[k].first_slot,
                ranges[k].start,
            );
            let looked_for = lazy_fork_commit::slot_address(Some((table_base, bases)), p, 0);
            &&& looked_for is Some
            &&& m2.contains_key(p)
            &&& m2[p].slots == seq![looked_for->0]
            &&& joins2.contains((p, looked_for->0))
        }),
{
    let total = lazy_fork_commit::pages_up_to(ranges, ranges.len() as int);
    lazy_fork_commit::law_each_page_has_its_slot(table_base, bases, ranges, k, p);
    lazy_fork_commit::law_slots_follow_each_other(ranges, ranges.len() as int);
    assert(lazy_fork_commit::pages_up_to(ranges, k) <= total);
    lazy_fork_commit::law_slots_follow_each_other(ranges, k);
    assert(bases@[k].first_slot == lazy_fork_commit::slots_before(ranges, k));
    law_region_records_each_page(
        m,
        joins,
        page,
        end,
        old_protect,
        true,
        table_base,
        total as usize,
        bases@[k].first_slot,
        ranges[k].start,
        p,
    );
}

/// A region is open exactly if one of its pages is recorded.
pub proof fn law_open_regions_hold_a_page(m: Map<usize, EntryView>, page: int, end: int, p: usize)
    requires
        0 <= page,
        end <= usize::MAX,
    ensures
        page <= p < end && (p - page) % 4096 == 0 && m.contains_key(p) ==> region_open(
            m,
            page,
            end,
        ),
        region_open(m, page, end) ==> exists|q: usize|
            page <= q < end && (q - page) % 4096 == 0 && #[trigger] m.contains_key(q),
    decreases (if page >= end {
        0
    } else {
        end - page
    }),
{
    if page < end {
        law_open_regions_hold_a_page(m, page + 4096, end, p);
        if m.contains_key(page as usize) {
            assert((page as usize - page) % 4096 == 0);
        } else if region_open(m, page, end) {
            let q = choose|q: usize|
                page + 4096 <= q < end && (q - (page + 4096)) % 4096 == 0
                    && #[trigger] m.contains_key(q);
            assert((q - page) % 4096 == 0);
        }
    }
}

/// Evicting a range forgets each of its pages and no other, and hands out those that children
/// depended on, each with the slots of all its children, and nothing else.
pub proof fn law_eviction_is_complete(m: Map<usize, EntryView>, page: int, end: int, p: usize)
    requires
        0 <= page,
        end <= usize::MAX,
    ensures
        ({
            let (m2, list) = evicted(m, page, end);
            let inside = page <= p < end && (p - page) % 4096 == 0;
            &&& inside ==> !m2.contains_key(p)
            &&& !inside ==> m2.contains_key(p) == m.contains_key(p) && (m.contains_key(p) ==> m2[p]
                == m[p])
            &&& inside && m.contains_key(p) && m[p].slots.len() > 0 ==> list.contains(
                (p, m[p].slots),
            )
            &&& forall|i: int|
                0 <= i < list.len() && (#[trigger] list[i]).0 == p ==> inside && m.contains_key(p)
                    && m[p].slots.len() > 0 && list[i].1 == m[p].slots
        }),
    decreases (if page >= end {
        0
    } else {
        end - page
    }),
{
    if page < end {
        let q = page as usize;
        let without = m.remove(q);
        law_eviction_is_complete(without, page + 4096, end, p);
        let (m2, list) = evicted(without, page + 4096, end);
        let all = evicted(m, page, end).1;
        if p == q {
            assert((p - page) % 4096 == 0);
            assert(without.contains_key(p) == false);
            if m.contains_key(p) && m[p].slots.len() > 0 {
                assert(all[0] == (p, m[p].slots));
            }
        } else {
            if list.contains((p, m[p].slots)) {
                let i = choose|i: int| 0 <= i < list.len() && list[i] == (p, m[p].slots);
                if m.contains_key(q) && m[q].slots.len() > 0 {
                    assert(all[i + 1] == list[i]);
                } else {
                    assert(all[i] == list[i]);
                }
            }
        }
        assert forall|i: int| 0 <= i < all.len() && (#[trigger] all[i]).0 == p implies page <= p
            < end && (p - page) % 4096 == 0 && m.contains_key(p) && m[p].slots.len() > 0 && all[i].1
            == m[p].slots by {
            if m.contains_key(q) && m[q].slots.len() > 0 {
                if i > 0 {
                    assert(all[i] == list[i - 1]);
                }
            } else {
                assert(all[i] == list[i]);
            }
        }
    }
}

/// A capture publishes in no slot but those of children that depend on the page and are alive, each
/// once, and keeps their order.
pub proof fn law_capture_serves_no_other(slots: Seq<usize>, alive: Seq<bool>, k: int)
    requires
        alive.len() == slots.len(),
        0 <= k < kept(slots, alive).len(),
    ensures
        exists|i: int| k <= i < slots.len() && alive[i] && #[trigger] slots[i] == kept(slots, alive)[k],
        kept(slots, alive).len() <= slots.len(),
        (forall|i: int| 0 <= i < alive.len() ==> #[trigger] alive[i]) ==> kept(slots, alive)
            == slots,
    decreases slots.len(),
{
    let rest = kept(slots.drop_last(), alive.drop_last());
    let all = kept(slots, alive);
    lemma_kept_nonempty(slots.drop_last(), alive.drop_last());
    if k < rest.len() {
        law_capture_serves_no_other(slots.drop_last(), alive.drop_last(), k);
        let i = choose|i: int|
            k <= i < slots.drop_last().len() && alive.drop_last()[i]
                && #[trigger] slots.drop_last()[i] == rest[k];
        assert(slots[i] == all[k]);
    } else {
        assert(slots[slots.len() - 1] == all[k]);
    }
    lemma_kept_nonempty(slots, alive);
    if forall|i: int| 0 <= i < alive.len() ==> #[trigger] alive[i] {
        lemma_kept_all(slots, alive);
    }
}

proof fn lemma_kept_all(slots: Seq<usize>, alive: Seq<bool>)
    requires
        alive.len() == slots.len(),
        forall|i: int| 0 <= i < alive.len() ==> #[trigger] alive[i],
    ensures
        kept(slots, alive) =~= slots,
    decreases slots.len(),
{
    if slots.len() > 0 {
        assert(alive[alive.len() - 1]);
        assert forall|i: int| 0 <= i < alive.len() - 1 implies #[trigger] alive.drop_last()[i] by {
            assert(alive[i]);
        }
        lemma_kept_all(slots.drop_last(), alive.drop_last());
    }
}

/// Giving up a claim frees the pages that nobody depends on any more: each page that it joined and
/// that has no child left gets its protection back, and no other page is touched.
pub proof fn law_abort_frees_pages(
    m: Map<usize, EntryView>,
    joins: Seq<(usize, usize)>,
    n: int,
    i: int,
    k: int,
)
    requires
        0 <= n <= joins.len(),
    ensures
        ({
            let (m2, list) = aborted(m, joins, n);
            &&& 0 <= i < n && m.contains_key(joins[i].0) && m2[joins[i].0].slots.len() == 0
                ==> list.contains((joins[i].0, m[joins[i].0].protect))
            &&& 0 <= k < list.len() ==> m.contains_key(list[k].0) && list[k].1
                == m[list[k].0].protect && m2[list[k].0].slots.len() == 0 && exists|j: int|
                0 <= j < n && (#[trigger] joins[j]).0 == list[k].0
        }),
    decreases n,
{
    if n > 0 {
        law_abort_frees_pages(m, joins, n - 1, i, k);
        let (before, list) = aborted(m, joins, n - 1);
        let (page, slot) = joins[n - 1];
        let (m2, list2) = aborted(m, joins, n);
        lemma_abort_keys(m, joins, n - 1, page);
        if before.contains_key(page) {
            lemma_without_slot(before[page].slots, slot);
        }
        if 0 <= i < n && m.contains_key(joins[i].0) && m2[joins[i].0].slots.len() == 0 {
            let p = joins[i].0;
            lemma_abort_keys(m, joins, n - 1, p);
            if p == page {
                assert(list2[list2.len() - 1] == (p, m[p].protect));
            } else {
                let j = choose|j: int| 0 <= j < list.len() && list[j] == (p, m[p].protect);
                assert(list2[j] == list[j]);
            }
        }
        if 0 <= k < list2.len() {
            if k < list.len() {
                assert(list2[k] == list[k]);
                let j = choose|j: int| 0 <= j < n - 1 && (#[trigger] joins[j]).0 == list[k].0;
                assert(joins[j].0 == list2[k].0);
            } else {
                assert(joins[n - 1].0 == list2[k].0);
            }
        }
    }
}

proof fn lemma_abort_keys(m: Map<usize, EntryView>, joins: Seq<(usize, usize)>, n: int, p: usize)
    requires
        0 <= n <= joins.len(),
    ensures
        aborted(m, joins, n).0.contains_key(p) == m.contains_key(p),
        m.contains_key(p) ==> aborted(m, joins, n).0[p].protect == m[p].protect,
    decreases n,
{
    if n > 0 {
        lemma_abort_keys(m, joins, n - 1, p);
    }
}

/// Walking over a group of the parent's memory guards exactly the addresses up to where the walk
/// goes on that lie in the queried region, if that is committed and neither inaccessible nor a guard
/// page, and never goes back.
pub proof fn law_walk_guards_accessible_memory(
    addr: usize,
    group_end: usize,
    r: memory::MemoryRegion,
    a: usize,
)
    requires
        addr < group_end,
        r.size > 0,
    ensures
        ({
            let step = walked(addr, group_end, Some(r));
            let next = match step {
                WalkStep::Skip { next } => next,
                WalkStep::Guard { start, end, next } => next,
                WalkStep::Stop => addr,
            };
            let guards = step matches WalkStep::Guard { start, end, next } && start <= a < end;
            &&& addr < next <= group_end
            &&& addr <= a < next ==> (guards <==> r.state == 0x1000 && r.protect & 0x101 == 0
                && r.base <= a < r.base + r.size)
            &&& guards ==> addr <= a < next
            &&& r.base <= addr && addr < r.base + r.size ==> next == group_end || next == r.base
                + r.size
        }),
{
}

/// The protections after the pages of a region, from `page` on, were made read-only.
pub open spec fn region_readonly(protects: Map<usize, u32>, page: int, end: int) -> Map<usize, u32>
    decreases (if page >= end {
        0
    } else {
        end - page
    }),
{
    if page >= end {
        protects
    } else {
        region_readonly(protects.insert(page as usize, memory::PAGE_READONLY), page + 4096, end)
    }
}

/// Guarding a region at once keeps every page's true protection, if the region was uniform and
/// unguarded and the table has a slot for each of its pages.
pub proof fn law_region_keeps_true_protection(
    m: Map<usize, EntryView>,
    protects: Map<usize, u32>,
    joins: Seq<(usize, usize)>,
    page: int,
    end: int,
    old_protect: u32,
    handle: bool,
    table_base: usize,
    slots: usize,
    first: usize,
    group_start: usize,
    other: usize,
)
    requires
        is_guarded(m, protects),
        0 <= page,
        end <= usize::MAX,
        !region_open(m, page, end),
        forall|p: usize| page <= p < end ==> #[trigger] protects[p] == old_protect,
        forall|p: int| page <= p < end ==> #[trigger] slot_index(first, group_start, p) < slots,
    ensures
        ({
            let m2 = region_recorded(
                m,
                joins,
                page,
                end,
                old_protect,
                handle,
                table_base,
                slots,
                first,
                group_start,
            ).0;
            let protects2 = region_readonly(protects, page, end);
            &&& is_guarded(m2, protects2)
            &&& true_protect(m2, protects2, other) == true_protect(m, protects, other)
        }),
    decreases (if page >= end {
        0
    } else {
        end - page
    }),
{
    if page < end {
        let p = page as usize;
        let index = slot_index(first, group_start, page);
        let slot = slot_at(table_base, index as usize);
        let m2 = m.insert(
            p,
            EntryView {
                protect: old_protect,
                slots: if handle {
                    seq![slot]
                } else {
                    Seq::empty()
                },
            },
        );
        let j2 = if handle {
            joins.push((p, slot))
        } else {
            joins
        };
        let protects2 = protects.insert(p, memory::PAGE_READONLY);
        lemma_region_open_insert(m, p, m2[p], page + 4096, end);
        assert forall|q: usize| #[trigger] m2.contains_key(q) && m2[q].slots.len() > 0 implies
            protects2[q] == memory::PAGE_READONLY by {
            if q != p {
                assert(m.contains_key(q));
            }
        }
        assert(protects[p] == old_protect);
        law_region_keeps_true_protection(
            m2,
            protects2,
            j2,
            page + 4096,
            end,
            old_protect,
            handle,
            table_base,
            slots,
            first,
            group_start,
            other,
        );
    }
}

proof fn lemma_region_open_insert(
    m: Map<usize, EntryView>,
    p: usize,
    e: EntryView,
    page: int,
    end: int,
)
    requires
        p < page,
        end <= usize::MAX,
    ensures
        region_open(m.insert(p, e), page, end) == region_open(m, page, end),
    decreases (if page >= end {
        0
    } else {
        end - page
    }),
{
    if page < end {
        lemma_region_open_insert(m, p, e, page + 4096, end);
    }
}

/// Registering a region of a group, as [`GuardRegistry::try_guard_region_batched`] does, puts each of
/// its pages under its own slot of the claim's table, counted from the slot of the group's first page,
/// and notes it among the pages that the claim joined.
pub proof fn law_registered_pages_have_their_slots<H: Clone>(
    registry: &mut GuardRegistry<H>,
    claim: &mut GuardCowClaim<H>,
    region_start: usize,
    region_end: usize,
    old_protect: u32,
    handle: &Option<H>,
    group_start: usize,
    first_slot: usize,
    p: usize,
)
    requires
        call_ensures(
            GuardRegistry::<H>::try_guard_region_batched,
            (
                registry,
                claim,
                region_start,
                region_end,
                old_protect,
                handle,
                group_start,
                first_slot,
            ),
            (),
        ),
        handle is Some,
        group_start <= region_start <= p < region_end,
        (p - region_start) % 4096 == 0,
        old(claim).table_base + old(claim).slots * 4097 <= usize::MAX,
        first_slot + (p - group_start) / 4096 < old(claim).slots,
    ensures
        ({
            let slot = (old(claim).table_base + 4097 * (first_slot + (p - group_start) / 4096))
                as usize;
            &&& final(registry)@.contains_key(p)
            &&& final(registry)@[p].slots == seq![slot]
            &&& final(registry)@[p].protect == old_protect
            &&& final(claim).joined_pages@.contains((p, slot))
        }),
{
    law_region_records_each_page(
        old(registry)@,
        old(claim).joined_pages@,
        region_start as int,
        region_end as int,
        old_protect,
        true,
        old(claim).table_base,
        old(claim).slots,
        first_slot,
        group_start,
        p,
    );
}

/// A single page is joined under the slot that its index names.
pub proof fn law_joined_page_has_its_slot<H>(
    registry: &mut GuardRegistry<H>,
    claim: &mut GuardCowClaim<H>,
    page: usize,
    index: usize,
    after: AfterHandle,
    handle: Option<H>,
)
    requires
        call_ensures(
            GuardRegistry::<H>::on_handle,
            (registry, claim, page, index, after, handle),
            (),
        ),
        old(claim).table_base + old(claim).slots * 4097 <= usize::MAX,
        index < old(claim).slots,
        handle is Some,
        after is Join ==> old(registry)@.contains_key(page),
    ensures
        ({
            let slot = (old(claim).table_base + 4097 * index) as usize;
            &&& final(registry)@.contains_key(page)
            &&& final(registry)@[page].slots.last() == slot
            &&& final(claim).joined_pages@.last() == (page, slot)
            &&& after matches AfterHandle::Fresh { old_protect } ==> final(registry)@[page].protect
                == old_protect
            &&& after is Join ==> final(registry)@[page].protect == old(registry)@[page].protect
                && final(registry)@[page].slots.drop_last() == old(registry)@[page].slots
        }),
{
    law_slots_stand_in_order(old(claim).table_base, old(claim).slots, index);
    if after is Join {
        assert(final(registry)@[page].slots.drop_last() =~= old(registry)@[page].slots);
    }
}

/// A write to a guarded page is claimed, wherever in the page it goes, and a read or a write to any
/// other page is not.
pub proof fn law_writes_to_guarded_pages_are_claimed<H>(
    registry: &GuardRegistry<H>,
    code: u32,
    access: usize,
    address: usize,
    page: usize,
    r: Option<usize>,
)
    requires
        call_ensures(
            GuardRegistry::<H>::guard_cow_write_fault_veh,
            (registry, code, access, address),
            r,
        ),
        page as int % 4096 == 0,
        page <= address < page + 4096,
    ensures
        r == Some(page) <==> code == 0xC000_0005 && access == 1 && registry@.contains_key(page),
        r is Some ==> r == Some(page),
{
}

/// Servicing a write captures the page for every child that depends on it and still runs, and gives
/// out the protection that the page had before it was guarded; the page stays recorded, so that a
/// second fault on it is claimed too.
pub proof fn law_write_is_captured_for_all<H>(
    registry: &mut GuardRegistry<H>,
    page: usize,
    alive: &Vec<bool>,
    r: (Vec<usize>, u32),
    i: int,
)
    requires
        call_ensures(GuardRegistry::<H>::capture, (registry, page, alive), r),
        old(registry)@.contains_key(page),
        alive@.len() == old(registry)@[page].slots.len(),
        0 <= i < alive@.len(),
        alive@[i],
    ensures
        r.0@.contains(old(registry)@[page].slots[i]),
        r.1 == old(registry)@[page].protect,
        final(registry)@.contains_key(page),
        final(registry)@[page].slots.len() == 0,
        final(registry)@[page].protect == old(registry)@[page].protect,
{
    law_capture_serves_all(old(registry)@[page].slots, alive@, i);
}

/// Every guarded page that shares an address with the evicted range is evicted, also one that the
/// range only begins or ends in, and its children are handed out; no other page is touched.
pub proof fn law_invalidated_ranges_are_evicted<H>(
    registry: &mut GuardRegistry<H>,
    start: usize,
    end: usize,
    r: Vec<EvictedPage<H>>,
    p: usize,
    a: usize,
)
    requires
        call_ensures(GuardRegistry::<H>::invalidate_guarded_range, (registry, start, end), r),
        p as int % 4096 == 0,
        p <= a < p + 4096,
    ensures
        start <= a < end ==> !final(registry)@.contains_key(p),
        start <= a < end && old(registry)@.contains_key(p) && old(registry)@[p].slots.len() > 0
            ==> evicted_view(r@).contains((p, old(registry)@[p].slots)),
        p + 4096 <= start || end <= p ==> final(registry)@.contains_key(p) == old(registry)@.contains_key(p) && (old(registry)@.contains_key(p) ==> final(registry)@[p] == old(registry)@[p]),
{
    let first = memory::page_of(start);
    if start < end {
        law_eviction_is_complete(old(registry)@, first as int, end as int, p);
        if start <= a < end {
            assert(first <= p);
            assert((p - first) % 4096 == 0);
        }
    }
}

/// Giving up a claim leaves no part of it behind: none of the pages it joined has its slot any more,
/// and a page that nobody depends on then gets its protection back.
pub proof fn law_given_up_claims_leave_nothing<H>(
    registry: &mut GuardRegistry<H>,
    claim: &GuardCowClaim<H>,
    r: Vec<(usize, u32)>,
    i: int,
)
    requires
        call_ensures(GuardRegistry::<H>::abort_guard_cow_claim, (registry, claim), r),
        0 <= i < claim.joined_pages@.len(),
        old(registry)@.contains_key(claim.joined_pages@[i].0),
    ensures
        ({
            let (page, slot) = claim.joined_pages@[i];
            &&& final(registry)@.contains_key(page)
            &&& !final(registry)@[page].slots.contains(slot)
            &&& final(registry)@[page].slots.len() == 0 ==> r@.contains(
                (page, old(registry)@[page].protect),
            )
        }),
{
    let joins = claim.joined_pages@;
    let (page, slot) = joins[i];
    law_abort_is_precise(old(registry)@, joins, joins.len() as int, page, slot);
    law_abort_frees_pages(old(registry)@, joins, joins.len() as int, i, 0);
}

/// A page that could not be made read-only is not guarded, and one that was is recorded with the
/// protection it had, for the child if that is there and for nobody if not.
pub proof fn law_only_protected_pages_are_recorded<H>(
    registry: &mut GuardRegistry<H>,
    page: usize,
    old_protect: Option<u32>,
    r: GuardAction,
)
    requires
        call_ensures(GuardRegistry::<H>::on_protected, (registry, page, old_protect), r),
    ensures
        old_protect is None <==> r == GuardAction::Done,
        old_protect is None ==> !final(registry)@.contains_key(page),
        old_protect matches Some(p) ==> r == (GuardAction::NeedHandle {
            after: AfterHandle::Fresh { old_protect: p },
        }),
{
}

/// A page that nobody has guarded is made read-only first, one that living children depend on is only
/// joined, and one whose children are all gone gets its own protection back before it is guarded
/// again; a page without a slot is passed over.
pub proof fn law_pages_are_guarded_by_need<H>(
    registry: &mut GuardRegistry<H>,
    claim: &GuardCowClaim<H>,
    page: usize,
    index: usize,
    alive: &Vec<bool>,
    r: GuardAction,
    i: int,
)
    requires
        call_ensures(GuardRegistry::<H>::guard_one_page, (registry, claim, page, index, alive), r),
        old(registry)@.contains_key(page) ==> alive@.len() == old(registry)@[page].slots.len(),
    ensures
        index >= claim.slots <==> r == GuardAction::Done,
        index < claim.slots && !old(registry)@.contains_key(page) ==> r == (GuardAction::Protect {
            restore: None,
        }),
        index < claim.slots && old(registry)@.contains_key(page) && 0 <= i < alive@.len()
            && alive@[i] ==> r == (GuardAction::NeedHandle { after: AfterHandle::Join }),
        index < claim.slots && old(registry)@.contains_key(page) && (forall|k: int|
            0 <= k < alive@.len() ==> !#[trigger] alive@[k]) ==> r == (GuardAction::Protect {
            restore: Some(old(registry)@[page].protect),
        }),
{
    if index < claim.slots && old(registry)@.contains_key(page) {
        let slots = old(registry)@[page].slots;
        if 0 <= i < alive@.len() && alive@[i] {
            law_capture_serves_all(slots, alive@, i);
            let k = choose|k: int|
                0 <= k < kept(slots, alive@).len() && kept(slots, alive@)[k] == slots[i];
            assert(kept(slots, alive@).len() > 0);
        }
        if forall|k: int| 0 <= k < alive@.len() ==> !#[trigger] alive@[k] {
            if kept(slots, alive@).len() > 0 {
                law_capture_serves_no_other(slots, alive@, 0);
            }
        }
    }
}

/// A region counts as unopened only if no page of it is guarded.
pub proof fn law_unopened_regions_hold_no_page<H>(
    registry: &GuardRegistry<H>,
    start: usize,
    end: usize,
    r: bool,
    p: usize,
)
    requires
        call_ensures(GuardRegistry::<H>::region_is_unopened, (registry, start, end), r),
    ensures
        r && start <= p < end && (p - start) % 4096 == 0 ==> !registry@.contains_key(p),
        !r ==> exists|q: usize|
            start <= q < end && (q - start) % 4096 == 0 && #[trigger] registry@.contains_key(q),
{
    law_open_regions_hold_a_page(registry@, start as int, end as int, p);
}

} // verus!
