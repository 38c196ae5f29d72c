//! The address map between a forked child and its parent.
//!
//! A fork duplicates the parent's guest memory at other addresses. The map records, for each of
//! the parent's ranges, where its copy begins in the child.

use vstd::prelude::*;

verus! {

/// One range of the parent's memory and its copy in the child.
#[derive(Debug, Clone, Copy, PartialEq, Eq, Structural)]
pub struct RelocatedRange {
    /// The first address of the range in the parent.
    pub source_start: u64,
    /// The address after the last one of the range in the parent.
    pub source_end: u64,
    /// Where the copy begins in the child, if the range was copied.
    pub dest_base: Option<u64>,
    /// Whether the range holds code.
    pub executable: bool,
    /// Whether the range is the heap.
    pub heap: bool,
}

impl RelocatedRange {
    /// Whether the range is ordered and its copy ends below the top of the address space.
    pub open spec fn fits(self) -> bool {
        &&& self.source_start <= self.source_end
        &&& self.dest_base matches Some(d) ==> d + (self.source_end - self.source_start) <= u64::MAX
    }

    /// Whether `a` lies in the range.
    pub open spec fn has_source(self, a: u64) -> bool {
        self.source_start <= a < self.source_end
    }

    /// Whether `a` lies in the copy of the range.
    pub open spec fn has_dest(self, a: u64) -> bool {
        self.dest_base matches Some(d) && d <= a < d + (self.source_end - self.source_start)
    }
}

/// The address map of one fork.
#[derive(Debug, PartialEq, Eq)]
pub struct AddressRelocations {
    ranges: Vec<RelocatedRange>,
}

/// The index of the first range that holds `a`, at or after `from`.
pub open spec fn covering(ranges: Seq<RelocatedRange>, a: u64, from: int) -> Option<int>
    decreases ranges.len() - from,
{
    if from < 0 || from >= ranges.len() {
        None
    } else if ranges[from].has_source(a) {
        Some(from)
    } else {
        covering(ranges, a, from + 1)
    }
}

impl View for AddressRelocations {
    type V = Seq<RelocatedRange>;

    closed spec fn view(&self) -> Seq<RelocatedRange> {
        self.ranges@
    }
}

/// Whether every range fits.
pub open spec fn all_fit(ranges: Seq<RelocatedRange>) -> bool {
    forall|i: int| 0 <= i < ranges.len() ==> (#[trigger] ranges[i]).fits()
}

/// Whether `a` lies in one of the parent's ranges.
pub open spec fn in_source(ranges: Seq<RelocatedRange>, a: u64) -> bool {
    exists|i: int| 0 <= i < ranges.len() && (#[trigger] ranges[i]).has_source(a)
}

/// Whether `a` lies in one of the child's copies.
pub open spec fn in_dest(ranges: Seq<RelocatedRange>, a: u64) -> bool {
    exists|i: int| 0 <= i < ranges.len() && (#[trigger] ranges[i]).has_dest(a)
}

/// Whether `a` lies in the child's copy of the heap.
pub open spec fn in_dest_heap(ranges: Seq<RelocatedRange>, a: u64) -> bool {
    exists|i: int|
        0 <= i < ranges.len() && (#[trigger] ranges[i]).has_dest(a) && ranges[i].heap
}

/// Whether `a` lies in the child's copy of a code range.
pub open spec fn in_dest_code(ranges: Seq<RelocatedRange>, a: u64) -> bool {
    exists|i: int|
        0 <= i < ranges.len() && (#[trigger] ranges[i]).has_dest(a) && ranges[i].executable
}

/// The child's address for the parent's address `a`: the same offset into the copy of the first
/// range that holds `a`.
pub open spec fn translation(ranges: Seq<RelocatedRange>, a: u64) -> Option<u64> {
    match covering(ranges, a, 0) {
        Some(i) => match ranges[i].dest_base {
            Some(d) => Some((d + (a - ranges[i].source_start)) as u64),
            None => None,
        },
        None => None,
    }
}

/// Whether no address belongs both to the parent's ranges and to the child's copies.
pub open spec fn is_separated(ranges: Seq<RelocatedRange>) -> bool {
    forall|a: u64| !(#[trigger] in_source(ranges, a) && in_dest(ranges, a))
}

proof fn lemma_covering(ranges: Seq<RelocatedRange>, a: u64, from: int)
    requires
        0 <= from,
    ensures
        match covering(ranges, a, from) {
            Some(i) => from <= i < ranges.len() && ranges[i].has_source(a),
            None => forall|i: int|
                from <= i < ranges.len() ==> !(#[trigger] ranges[i]).has_source(a),
        },
    decreases ranges.len() - from,
{
    if from < ranges.len() && !ranges[from].has_source(a) {
        lemma_covering(ranges, a, from + 1);
    }
}

/// Whether range `q` is the first that holds `a`.
pub open spec fn is_first_with(ranges: Seq<RelocatedRange>, a: u64, q: int) -> bool {
    &&& 0 <= q < ranges.len()
    &&& ranges[q].source_start <= a < ranges[q].source_end
    &&& forall|p: int|
        0 <= p < q ==> !((#[trigger] ranges[p]).source_start <= a < ranges[p].source_end)
}

/// An address is translated by the first range that holds it: it keeps its distance from the start
/// of the range, and has no translation if the range was not copied.
pub proof fn law_translation_is_an_offset(ranges: Seq<RelocatedRange>, a: u64, q: int)
    requires
        all_fit(ranges),
        is_first_with(ranges, a, q),
    ensures
        translation(ranges, a) is Some <==> ranges[q].dest_base is Some,
        translation(ranges, a) matches Some(t) ==> t - ranges[q].dest_base->0 == a
            - ranges[q].source_start,
{
    assert(ranges[q].fits());
    lemma_first_covers(ranges, a, q, 0);
}

proof fn lemma_first_covers(ranges: Seq<RelocatedRange>, a: u64, q: int, from: int)
    requires
        is_first_with(ranges, a, q),
        0 <= from <= q,
    ensures
        covering(ranges, a, from) == Some(q),
    decreases q - from,
{
    if from < q {
        assert(!(ranges[from].source_start <= a < ranges[from].source_end));
        lemma_first_covers(ranges, a, q, from + 1);
    }
}

/// An address that no range holds has no translation.
pub proof fn law_foreign_addresses_stay(ranges: Seq<RelocatedRange>, a: u64)
    requires
        forall|p: int|
            0 <= p < ranges.len() ==> !((#[trigger] ranges[p]).source_start <= a
                < ranges[p].source_end),
    ensures
        translation(ranges, a) is None,
        !in_source(ranges, a),
{
    lemma_covering(ranges, a, 0);
    if let Some(i) = covering(ranges, a, 0) {
        assert(!(ranges[i].source_start <= a < ranges[i].source_end));
    }
    assert forall|i: int| 0 <= i < ranges.len() implies !(#[trigger] ranges[i]).has_source(a) by {
        assert(!(ranges[i].source_start <= a < ranges[i].source_end));
    }
}

/// Each range owns its addresses from the first up to the end, on both sides of the fork; its copy
/// is as long as it is, and holds code or the heap if the range does.
pub proof fn law_ranges_own_their_addresses(ranges: Seq<RelocatedRange>, q: int, offset: int)
    requires
        all_fit(ranges),
        0 <= q < ranges.len(),
        0 <= offset < ranges[q].source_end - ranges[q].source_start,
    ensures
        in_source(ranges, (ranges[q].source_start + offset) as u64),
        ranges[q].dest_base matches Some(d) ==> in_dest(ranges, (d + offset) as u64) && (
        ranges[q].heap ==> in_dest_heap(ranges, (d + offset) as u64)) && (ranges[q].executable
            ==> in_dest_code(ranges, (d + offset) as u64)),
{
    assert(ranges[q].fits());
    assert(ranges[q].has_source((ranges[q].source_start + offset) as u64));
    if let Some(d) = ranges[q].dest_base {
        assert(ranges[q].has_dest((d + offset) as u64));
    }
}

/// What is in none of the copies is no address of the child, and what is in no copy of the heap, or
/// of code, is no address of the child's heap, or code.
pub proof fn law_copies_are_all_there_is(ranges: Seq<RelocatedRange>, a: u64)
    ensures
        in_dest(ranges, a) ==> exists|q: int| #[trigger]
            is_copied_to(ranges, q, a),
        in_dest_heap(ranges, a) ==> exists|q: int| #[trigger]
            is_copied_to(ranges, q, a) && ranges[q].heap,
        in_dest_code(ranges, a) ==> exists|q: int| #[trigger]
            is_copied_to(ranges, q, a) && ranges[q].executable,
{
    if in_dest(ranges, a) {
        let q = choose|q: int| 0 <= q < ranges.len() && (#[trigger] ranges[q]).has_dest(a);
        assert(is_copied_to(ranges, q, a));
    }
    if in_dest_heap(ranges, a) {
        let q = choose|q: int|
            0 <= q < ranges.len() && (#[trigger] ranges[q]).has_dest(a) && ranges[q].heap;
        assert(is_copied_to(ranges, q, a));
    }
    if in_dest_code(ranges, a) {
        let q = choose|q: int|
            0 <= q < ranges.len() && (#[trigger] ranges[q]).has_dest(a) && ranges[q].executable;
        assert(is_copied_to(ranges, q, a));
    }
}

/// Whether `a` is the child's address of some address of range `q`.
pub open spec fn is_copied_to(ranges: Seq<RelocatedRange>, q: int, a: u64) -> bool {
    &&& 0 <= q < ranges.len()
    &&& ranges[q].dest_base is Some
    &&& ranges[q].dest_base->0 <= a
    &&& a - ranges[q].dest_base->0 < ranges[q].source_end - ranges[q].source_start
}

/// Only an address of the parent is translated, and its translation is an address of the child.
pub proof fn law_translation(ranges: Seq<RelocatedRange>, a: u64)
    requires
        all_fit(ranges),
    ensures
        translation(ranges, a) is Some ==> in_source(ranges, a),
        translation(ranges, a) matches Some(t) ==> in_dest(ranges, t),
{
    lemma_covering(ranges, a, 0);
    if let Some(i) = covering(ranges, a, 0) {
        assert(ranges[i].fits());
        if let Some(d) = ranges[i].dest_base {
            let t = (d + (a - ranges[i].source_start)) as u64;
            assert(ranges[i].has_dest(t));
        }
    }
}

/// Where the child's copies avoid the parent's ranges, a translated address is never translated
/// again, and an address of the child is never taken for one of the parent.
pub proof fn law_translation_settles(ranges: Seq<RelocatedRange>, a: u64)
    requires
        all_fit(ranges),
        is_separated(ranges),
    ensures
        translation(ranges, a) matches Some(t) ==> !in_source(ranges, t) && translation(ranges, t)
            is None,
        in_dest(ranges, a) ==> !in_source(ranges, a) && translation(ranges, a) is None,
{
    law_translation(ranges, a);
    if let Some(t) = translation(ranges, a) {
        law_translation(ranges, t);
        assert(!(in_source(ranges, t) && in_dest(ranges, t)));
    }
    assert(!(in_source(ranges, a) && in_dest(ranges, a)));
}

/// Two addresses of one range keep their distance when translated.
pub proof fn law_translation_keeps_offsets(ranges: Seq<RelocatedRange>, a: u64, b: u64)
    requires
        all_fit(ranges),
        covering(ranges, a, 0) == covering(ranges, b, 0),
        translation(ranges, a) is Some,
    ensures
        translation(ranges, b) is Some,
        translation(ranges, b)->0 - translation(ranges, a)->0 == b - a,
{
    lemma_covering(ranges, a, 0);
    lemma_covering(ranges, b, 0);
    let i = covering(ranges, a, 0)->0;
    assert(ranges[i].fits());
}

impl AddressRelocations {
    /// Whether every range is ordered and fits the address space.
    #[verifier::type_invariant]
    spec fn well_formed(self) -> bool {
        all_fit(self.ranges@)
    }

    /// The map made of `ranges`, if every range is ordered and its copy fits.
    pub fn new(ranges: Vec<RelocatedRange>) -> (r: Option<Self>)
        ensures
            match r {
                Some(map) => all_fit(ranges@) && map@ == ranges@,
                None => !all_fit(ranges@),
            },
    {
        let mut i: usize = 0;
        while i < ranges.len()
            invariant
                i <= ranges@.len(),
                forall|j: int| 0 <= j < i ==> (#[trigger] ranges@[j]).fits(),
            decreases ranges@.len() - i,
        {
            let range = ranges[i];
            if range.source_start > range.source_end {
                assert(!ranges@[i as int].fits());
                return None;
            }
            if let Some(d) = range.dest_base {
                if d > u64::MAX - (range.source_end - range.source_start) {
                    assert(!ranges@[i as int].fits());
                    return None;
                }
            }
            assert(ranges@[i as int].fits());
            i += 1;
        }
        Some(AddressRelocations { ranges })
    }

    /// The ranges of the map.
    pub fn ranges(&self) -> (r: &Vec<RelocatedRange>)
        ensures
            r@ == self@,
            all_fit(r@),
    {
        proof {
            use_type_invariant(self);
        }
        &self.ranges
    }

    fn covering_index(&self, a: u64) -> (r: Option<usize>)
        ensures
            match r {
                Some(i) => covering(self@, a, 0) == Some(i as int),
                None => covering(self@, a, 0) is None,
            },
    {
        let mut i: usize = 0;
        while i < self.ranges.len()
            invariant
                i <= self.ranges@.len(),
                covering(self.ranges@, a, 0) == covering(self.ranges@, a, i as int),
            decreases self.ranges@.len() - i,
        {
            let range = self.ranges[i];
            if range.source_start <= a && a < range.source_end {
                return Some(i);
            }
            i += 1;
        }
        None
    }

    /// Whether `a` lies in one of the parent's ranges.
    pub fn is_in_source(&self, a: u64) -> (r: bool)
        ensures
            r == in_source(self@, a),
    {
        let found = self.covering_index(a);
        proof {
            lemma_covering(self@, a, 0);
        }
        found.is_some()
    }

    /// The child's address for the parent's address `a`.
    pub fn translate(&self, a: u64) -> (r: Option<u64>)
        ensures
            r == translation(self@, a),
    {
        proof {
            use_type_invariant(self);
            lemma_covering(self@, a, 0);
        }
        match self.covering_index(a) {
            Some(i) => {
                let range = self.ranges[i];
                assert(self.ranges@[i as int].fits());
                match range.dest_base {
                    Some(d) => Some(d + (a - range.source_start)),
                    None => None,
                }
            },
            None => None,
        }
    }

    /// Whether `a` lies in one of the child's copies.
    pub fn is_in_destination(&self, a: u64) -> (r: bool)
        ensures
            r == in_dest(self@, a),
    {
        proof {
            use_type_invariant(self);
        }
        let mut i: usize = 0;
        while i < self.ranges.len()
            invariant
                i <= self.ranges@.len(),
                all_fit(self.ranges@),
                forall|j: int| 0 <= j < i ==> !(#[trigger] self.ranges@[j]).has_dest(a),
            decreases self.ranges@.len() - i,
        {
            if copy_holds(&self.ranges[i], a) {
                assert(self.ranges@[i as int].has_dest(a));
                return true;
            }
            i += 1;
        }
        false
    }

    /// Whether `a` lies in the child's copy of the heap.
    pub fn is_in_destination_heap_range(&self, a: u64) -> (r: bool)
        ensures
            r == in_dest_heap(self@, a),
    {
        proof {
            use_type_invariant(self);
        }
        let mut i: usize = 0;
        while i < self.ranges.len()
            invariant
                i <= self.ranges@.len(),
                all_fit(self.ranges@),
                forall|j: int|
                    0 <= j < i ==> !((#[trigger] self.ranges@[j]).has_dest(a)
                        && self.ranges@[j].heap),
            decreases self.ranges@.len() - i,
        {
            if copy_holds(&self.ranges[i], a) && self.ranges[i].heap {
                assert(self.ranges@[i as int].has_dest(a));
                return true;
            }
            i += 1;
        }
        false
    }

    /// Whether `a` lies in the child's copy of a code range.
    pub fn is_in_destination_executable_range(&self, a: u64) -> (r: bool)
        ensures
            r == in_dest_code(self@, a),
    {
        proof {
            use_type_invariant(self);
        }
        let mut i: usize = 0;
        while i < self.ranges.len()
            invariant
                i <= self.ranges@.len(),
                all_fit(self.ranges@),
                forall|j: int|
                    0 <= j < i ==> !((#[trigger] self.ranges@[j]).has_dest(a)
                        && self.ranges@[j].executable),
            decreases self.ranges@.len() - i,
        {
            if copy_holds(&self.ranges[i], a) && self.ranges[i].executable {
                assert(self.ranges@[i as int].has_dest(a));
                return true;
            }
            i += 1;
        }
        false
    }
}

fn copy_holds(range: &RelocatedRange, a: u64) -> (r: bool)
    requires
        range.fits(),
    ensures
        r == range.has_dest(a),
{
    match range.dest_base {
        Some(d) => d <= a && a < d + (range.source_end - range.source_start),
        None => false,
    }
}

/// An address of the parent that was copied is translated to the address as far into the copy, which
/// is an address of the child; an address of no range is neither the parent's nor translated.
pub proof fn law_translated_addresses_are_the_childs(
    map: &AddressRelocations,
    a: u64,
    t: Option<u64>,
    source: bool,
    dest: bool,
    q: int,
)
    requires
        all_fit(map@),
        call_ensures(AddressRelocations::translate, (map, a), t),
        call_ensures(AddressRelocations::is_in_source, (map, a), source),
        t matches Some(b) ==> call_ensures(AddressRelocations::is_in_destination, (map, b), dest),
    ensures
        t is Some ==> source && dest,
        is_first_with(map@, a, q) ==> source && (t is Some <==> map@[q].dest_base is Some),
        is_first_with(map@, a, q) && t is Some ==> t->0 - map@[q].dest_base->0 == a
            - map@[q].source_start,
{
    law_translation(map@, a);
    if is_first_with(map@, a, q) {
        law_translation_is_an_offset(map@, a, q);
        assert(map@[q].has_source(a));
    }
}

} // verus!
