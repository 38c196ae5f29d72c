//! Page arithmetic and what the operating system reports about a region of memory.

use vstd::prelude::*;

verus! {

/// The size of a guest page.
pub const PAGE_SIZE: usize = 4096;

pub const MEM_COMMIT: u32 = 0x1000;

pub const MEM_IMAGE: u32 = 0x100_0000;

pub const PAGE_NOACCESS: u32 = 0x01;

pub const PAGE_READONLY: u32 = 0x02;

pub const PAGE_READWRITE: u32 = 0x04;

pub const PAGE_EXECUTE_READ: u32 = 0x20;

pub const PAGE_EXECUTE_READWRITE: u32 = 0x40;

/// No access, or a guard page.
pub const NO_ACCESS: u32 = 0x101;

/// Every protection that permits writing.
pub const WRITABLE: u32 = 0xcc;

/// The code of an access violation.
pub const EXCEPTION_ACCESS_VIOLATION: u32 = 0xC000_0005;

/// The code of a breakpoint.
pub const EXCEPTION_BREAKPOINT: u32 = 0x8000_0003;

/// The exit code that a process reports while it runs.
pub const STILL_ACTIVE: u32 = 259;

/// The answer to a query about the region around an address.
#[derive(Debug, Clone, Copy, PartialEq, Eq, Structural)]
pub struct MemoryRegion {
    /// The first address of the region.
    pub base: usize,
    /// The size of the region in bytes.
    pub size: usize,
    /// Whether the region is committed, reserved or free.
    pub state: u32,
    /// The protection of its pages.
    pub protect: u32,
}

/// Whether a queried address can be read: the query succeeded, the region is committed, and its
/// protection neither forbids access nor traps it.
pub open spec fn readable(region: Option<MemoryRegion>) -> bool {
    region matches Some(r) && r.state == MEM_COMMIT && r.protect & NO_ACCESS == 0
}

/// Whether a queried address can be written.
pub open spec fn writable(region: Option<MemoryRegion>) -> bool {
    region matches Some(r) && r.state == MEM_COMMIT && r.protect & WRITABLE != 0
}

/// Whether the queried address can be read.
pub fn is_readable(region: Option<MemoryRegion>) -> (r: bool)
    ensures
        r == readable(region),
{
    match region {
        Some(region) => region.state == MEM_COMMIT && region.protect & NO_ACCESS == 0,
        None => false,
    }
}

/// Whether the queried address can be written.
pub fn is_writable(region: Option<MemoryRegion>) -> (r: bool)
    ensures
        r == writable(region),
{
    match region {
        Some(region) => region.state == MEM_COMMIT && region.protect & WRITABLE != 0,
        None => false,
    }
}

/// The first address of the page that holds `a`.
pub open spec fn page_of(a: usize) -> usize {
    (a - a % 4096) as usize
}

/// The first address of the page that holds `a`.
pub fn page_start(a: usize) -> (r: usize)
    ensures
        r == page_of(a),
        r <= a,
        r % 4096 == 0,
{
    a - a % PAGE_SIZE
}

/// The number of pages that hold `len` bytes.
pub open spec fn pages_in(len: nat) -> nat {
    (len + 4095) / 4096
}

/// The number of pages that hold `len` bytes.
pub fn page_count(len: usize) -> (r: usize)
    ensures
        r == pages_in(len as nat),
        r <= len,
{
    len / PAGE_SIZE + if len % PAGE_SIZE == 0 {
        0
    } else {
        1
    }
}

/// A page begins at a multiple of the page size, and holds the 4096 addresses from there on; all of
/// them belong to it.
pub proof fn law_pages_hold_their_addresses(a: usize, b: usize)
    ensures
        page_of(a) as int % 4096 == 0,
        page_of(a) <= a < page_of(a) + 4096,
        page_of(a) <= b < page_of(a) + 4096 ==> page_of(b) == page_of(a),
        page_of(a) == page_of(b) ==> a as int / 4096 == b as int / 4096,
{
}

/// As many pages as hold so many bytes hold them, and one less does not.
pub proof fn law_pages_hold_the_bytes(len: nat)
    ensures
        len <= 4096 * pages_in(len) < len + 4096,
{
}

/// Only committed memory is accessible: it can be read unless its protection forbids every access or
/// marks it as a guard, and written if its protection permits that.
pub proof fn law_access_follows_protection(region: MemoryRegion)
    ensures
        readable(Some(region)) <==> region.state == 0x1000 && region.protect & 0x101 == 0,
        writable(Some(region)) <==> region.state == 0x1000 && region.protect & 0xcc != 0,
        !readable(None),
        !writable(None),
{
}

/// The sum of two numbers, modulo the word size.
pub fn wrapping_sum(a: usize, b: usize) -> (r: usize)
    ensures
        r == (a + b) % (usize::MAX + 1),
{
    proof {
        let m = usize::MAX + 1;
        let sum = a + b;
        if sum < m {
            vstd::arithmetic::div_mod::lemma_small_mod(sum as nat, m as nat);
        } else {
            vstd::arithmetic::div_mod::lemma_small_mod((sum - m) as nat, m as nat);
            vstd::arithmetic::div_mod::lemma_mod_add_multiples_vanish(sum - m, m);
        }
    }
    a.wrapping_add(b)
}

} // verus!
