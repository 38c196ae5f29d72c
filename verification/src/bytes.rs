//! Byte strings: little-endian numbers and searching.

use vstd::prelude::*;

verus! {

/// The low `count` bytes of `n`, least significant first.
pub open spec fn le_bytes(n: nat, count: nat) -> Seq<u8>
    decreases count,
{
    if count == 0 {
        Seq::empty()
    } else {
        seq![(n % 256) as u8] + le_bytes(n / 256, (count - 1) as nat)
    }
}

/// The number of bytes is the count that was asked for.
pub proof fn lemma_le_bytes_len(n: nat, count: nat)
    ensures
        le_bytes(n, count).len() == count,
    decreases count,
{
    if count > 0 {
        lemma_le_bytes_len(n / 256, (count - 1) as nat);
    }
}

/// Byte `i` of a number counts 256 to the power of `i`: the first byte is the number's remainder by
/// 256, and each byte of the whole part divided by 256 stands one place further on.
pub proof fn law_le_bytes_are_digits(n: nat, count: nat, i: int)
    requires
        0 <= i < count,
    ensures
        le_bytes(n, count).len() == count,
        i == 0 ==> le_bytes(n, count)[0] as nat == n % 256,
        i > 0 ==> le_bytes(n, count)[i] == le_bytes(n / 256, (count - 1) as nat)[i - 1],
{
    lemma_le_bytes_len(n, count);
    lemma_le_bytes_len(n / 256, (count - 1) as nat);
}

/// The four bytes of a number below 2^32 give the number back.
pub proof fn law_four_bytes_hold_the_number(n: nat)
    requires
        n < 0x1_0000_0000,
    ensures
        le_bytes(n, 4).len() == 4,
        n == le_bytes(n, 4)[0] + 0x100 * le_bytes(n, 4)[1] + 0x1_0000 * le_bytes(n, 4)[2]
            + 0x100_0000 * le_bytes(n, 4)[3],
{
    reveal_with_fuel(le_bytes, 5);
    let (a, b, c) = (n / 256, n / 256 / 256, n / 256 / 256 / 256);
    assert(le_bytes(n, 4) =~= seq![
        (n % 256) as u8,
        (a % 256) as u8,
        (b % 256) as u8,
        (c % 256) as u8,
    ]);
}

/// Appends the low `count` bytes of `n`, least significant first.
pub fn push_le(out: &mut Vec<u8>, n: u64, count: usize)
    ensures
        final(out)@ == old(out)@ + le_bytes(n as nat, count as nat),
{
    let ghost before = out@;
    let ghost goal = le_bytes(n as nat, count as nat);
    let mut rest: u64 = n;
    let mut left: usize = count;
    assert(before + goal =~= out@ + goal);
    while left > 0
        invariant
            before + goal == out@ + le_bytes(rest as nat, left as nat),
        decreases left,
    {
        let ghost so_far = out@;
        let b: u8 = (rest % 256) as u8;
        out.push(b);
        proof {
            let tail = le_bytes(rest as nat / 256, (left - 1) as nat);
            assert(so_far + (seq![b] + tail) =~= out@ + tail);
        }
        rest = rest / 256;
        left -= 1;
    }
    assert(out@ + le_bytes(rest as nat, 0) =~= out@);
}

/// Appends `bytes`.
pub fn push_all(out: &mut Vec<u8>, bytes: &[u8])
    ensures
        final(out)@ == old(out)@ + bytes@,
{
    let ghost before = out@;
    let mut i: usize = 0;
    while i < bytes.len()
        invariant
            i <= bytes@.len(),
            out@ =~= before + bytes@.take(i as int),
        decreases bytes@.len() - i,
    {
        out.push(bytes[i]);
        i += 1;
    }
    assert(bytes@.take(i as int) =~= bytes@);
}

/// A copy of `bytes[from..to]`.
pub fn copy_range(bytes: &[u8], from: usize, to: usize) -> (r: Vec<u8>)
    requires
        from <= to <= bytes@.len(),
    ensures
        r@ == bytes@.subrange(from as int, to as int),
{
    let mut out: Vec<u8> = Vec::new();
    let mut i: usize = from;
    while i < to
        invariant
            from <= i <= to <= bytes@.len(),
            out@ =~= bytes@.subrange(from as int, i as int),
        decreases to - i,
    {
        out.push(bytes[i]);
        i += 1;
    }
    out
}

/// Whether `needle` stands in `hay` at `i`.
pub open spec fn occurs_at(hay: Seq<u8>, needle: Seq<u8>, i: int) -> bool {
    0 <= i && i + needle.len() <= hay.len() && hay.subrange(i, i + needle.len()) == needle
}

/// Whether `needle` stands somewhere in `hay`.
pub open spec fn occurs(hay: Seq<u8>, needle: Seq<u8>) -> bool {
    exists|i: int| occurs_at(hay, needle, i)
}

fn stands_at(hay: &[u8], needle: &[u8], at: usize) -> (r: bool)
    requires
        at + needle@.len() <= hay@.len(),
    ensures
        r == occurs_at(hay@, needle@, at as int),
{
    let ghost window = hay@.subrange(at as int, at + needle@.len());
    let len: usize = hay.len();
    let mut j: usize = 0;
    while j < needle.len()
        invariant
            j <= needle@.len(),
            at + needle@.len() <= hay@.len() == len,
            window == hay@.subrange(at as int, at + needle@.len()),
            forall|k: int| 0 <= k < j ==> #[trigger] window[k] == needle@[k],
        decreases needle@.len() - j,
    {
        assert(window[j as int] == hay@[at + j]);
        if hay[at + j] != needle[j] {
            return false;
        }
        j += 1;
    }
    assert(window =~= needle@);
    true
}

/// The first place where `needle` stands in `hay`.
pub fn find(hay: &[u8], needle: &[u8]) -> (r: Option<usize>)
    ensures
        match r {
            Some(i) => occurs_at(hay@, needle@, i as int) && forall|j: int|
                0 <= j < i ==> !occurs_at(hay@, needle@, j),
            None => !occurs(hay@, needle@),
        },
{
    if needle.len() > hay.len() {
        return None;
    }
    let last: usize = hay.len() - needle.len();
    let mut i: usize = 0;
    while i <= last
        invariant
            i <= last + 1,
            last == hay@.len() - needle@.len(),
            forall|j: int| 0 <= j < i ==> !occurs_at(hay@, needle@, j),
        decreases last + 1 - i,
    {
        if stands_at(hay, needle, i) {
            return Some(i);
        }
        if i == last {
            return None;
        }
        i += 1;
    }
    None
}

/// The first place of `b` in `hay` at or after `from`.
pub fn find_byte(hay: &[u8], b: u8, from: usize) -> (r: Option<usize>)
    requires
        from <= hay@.len(),
    ensures
        match r {
            Some(i) => from <= i < hay@.len() && hay@[i as int] == b && forall|j: int|
                from <= j < i ==> #[trigger] hay@[j] != b,
            None => forall|j: int| from <= j < hay@.len() ==> #[trigger] hay@[j] != b,
        },
{
    let mut i: usize = from;
    while i < hay.len()
        invariant
            from <= i <= hay@.len(),
            forall|j: int| from <= j < i ==> #[trigger] hay@[j] != b,
        decreases hay@.len() - i,
    {
        if hay[i] == b {
            return Some(i);
        }
        i += 1;
    }
    None
}

} // verus!
