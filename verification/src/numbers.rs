//! Numbers as text: positional notation in a radix between 2 and 16.

use crate::text;
use vstd::prelude::*;

verus! {

broadcast use vstd::seq_lib::group_seq_properties;

/// The character that stands for digit `d`, below 16.
pub open spec fn digit_char(d: nat) -> char {
    if d < 10 {
        (48 + d) as char
    } else {
        (87 + d) as char
    }
}

/// The digit that `c` stands for in `radix`, letters in either case.
pub open spec fn digit_of(c: char, radix: nat) -> Option<nat> {
    let n = c as u32;
    let d: int = if 48 <= n <= 57 {
        n - 48
    } else if 97 <= n <= 102 {
        n - 87
    } else if 65 <= n <= 70 {
        n - 55
    } else {
        99
    };
    if d < radix {
        Some(d as nat)
    } else {
        None
    }
}

/// The digits of `n` in `radix`, most significant first, without leading zeros.
pub open spec fn digits(n: nat, radix: nat) -> Seq<char>
    decreases n,
{
    if n < radix || radix < 2 {
        seq![digit_char(n)]
    } else {
        proof {
            assert(n / radix < n) by (nonlinear_arith)
                requires
                    n >= radix >= 2,
            ;
        }
        digits(n / radix, radix).push(digit_char(n % radix))
    }
}

/// The number that a run of digits stands for, if every character is a digit.
pub open spec fn digits_value(s: Seq<char>, radix: nat) -> Option<nat>
    decreases s.len(),
{
    if s.len() == 0 {
        Some(0)
    } else {
        match (digits_value(s.drop_last(), radix), digit_of(s.last(), radix)) {
            (Some(v), Some(d)) => Some(v * radix + d),
            _ => None,
        }
    }
}

/// Decimal notation with a leading minus sign for negative numbers.
pub open spec fn decimal(n: int) -> Seq<char> {
    if n < 0 {
        seq!['-'] + digits((-n) as nat, 10)
    } else {
        digits(n as nat, 10)
    }
}

/// What is left of `s` after one leading plus sign, if it has one.
pub open spec fn without_plus(s: Seq<char>) -> Seq<char> {
    if s.len() > 0 && s[0] == '+' {
        s.skip(1)
    } else {
        s
    }
}

/// The number at most `max` that `s` writes in `radix`: an optional plus sign and one or more
/// digits.
pub open spec fn unsigned_value(s: Seq<char>, radix: nat, max: nat) -> Option<nat> {
    let body = without_plus(s);
    if body.len() == 0 {
        None
    } else {
        match digits_value(body, radix) {
            Some(v) => if v <= max {
                Some(v)
            } else {
                None
            },
            None => None,
        }
    }
}

/// The number between `min` and `max` that `s` writes in decimal: an optional sign and one or more
/// digits.
pub open spec fn signed_value(s: Seq<char>, min: int, max: int) -> Option<int> {
    let negative = s.len() > 0 && s[0] == '-';
    let body = if negative {
        s.skip(1)
    } else {
        without_plus(s)
    };
    if body.len() == 0 {
        None
    } else {
        match digits_value(body, 10) {
            Some(v) => {
                let n = if negative {
                    -(v as int)
                } else {
                    v as int
                };
                if min <= n <= max {
                    Some(n)
                } else {
                    None
                }
            },
            None => None,
        }
    }
}

/// Whether `c` can stand in a run of lower-case digits.
pub open spec fn is_digit_char(c: char) -> bool {
    48 <= c as u32 <= 57 || 97 <= c as u32 <= 102
}

proof fn lemma_digit_char(d: nat, radix: nat)
    requires
        d < radix <= 16,
    ensures
        digit_of(digit_char(d), radix) == Some(d),
        is_digit_char(digit_char(d)),
{
}

/// Digits count by their place: one more digit at the end makes the number `radix` times as large and
/// adds the digit, letters standing for ten and more in either case; any other character makes the
/// text no number.
pub proof fn law_digits_count_by_place(s: Seq<char>, c: char, radix: nat)
    requires
        2 <= radix <= 16,
    ensures
        digits_value(Seq::<char>::empty(), radix) == Some(0nat),
        digits_value(s, radix) is None ==> digits_value(s.push(c), radix) is None,
        digits_value(s, radix) matches Some(v) ==> {
            let n = c as u32;
            &&& '0' <= c <= '9' && n - 48 < radix ==> digits_value(s.push(c), radix) == Some(
                (v * radix + (n - 48)) as nat,
            )
            &&& 'a' <= c <= 'f' && n - 87 < radix ==> digits_value(s.push(c), radix) == Some(
                (v * radix + (n - 87)) as nat,
            )
            &&& 'A' <= c <= 'F' && n - 55 < radix ==> digits_value(s.push(c), radix) == Some(
                (v * radix + (n - 55)) as nat,
            )
            &&& !('0' <= c <= '9' && n - 48 < radix) && !('a' <= c <= 'f' && n - 87 < radix) && !(
            'A' <= c <= 'F' && n - 55 < radix) ==> digits_value(s.push(c), radix) is None
        },
{
    assert(s.push(c).drop_last() =~= s);
    assert(s.push(c).last() == c);
}

/// A number may have a plus sign, and one that is allowed to be negative a minus sign; without a
/// digit, or beyond its bounds, there is none.
pub proof fn law_numbers_have_signs_and_bounds(
    s: Seq<char>,
    radix: nat,
    max: nat,
    low: int,
    high: int,
)
    requires
        s.len() > 0,
        s[0] != '+',
        s[0] != '-',
    ensures
        unsigned_value(s, radix, max) == match digits_value(s, radix) {
            Some(v) if v <= max => Some(v),
            _ => None,
        },
        unsigned_value(seq!['+'] + s, radix, max) == unsigned_value(s, radix, max),
        signed_value(seq!['+'] + s, low, high) == signed_value(s, low, high),
        signed_value(s, low, high) == match digits_value(s, 10) {
            Some(v) if low <= v <= high => Some(v as int),
            _ => None,
        },
        signed_value(seq!['-'] + s, low, high) == match digits_value(s, 10) {
            Some(v) if low <= -(v as int) <= high => Some(-(v as int)),
            _ => None,
        },
        unsigned_value(Seq::<char>::empty(), radix, max) is None,
        signed_value(Seq::<char>::empty(), low, high) is None,
{
    assert((seq!['+'] + s).skip(1) =~= s);
    assert((seq!['-'] + s).skip(1) =~= s);
}

/// Writing a number and reading the digits back gives the number.
pub proof fn lemma_digits_roundtrip(n: nat, radix: nat)
    requires
        2 <= radix <= 16,
    ensures
        digits(n, radix).len() > 0,
        digits_value(digits(n, radix), radix) == Some(n),
        forall|i: int|
            0 <= i < digits(n, radix).len() ==> is_digit_char(#[trigger] digits(n, radix)[i]),
    decreases n,
{
    reveal_with_fuel(digits_value, 2);
    if n < radix {
        lemma_digit_char(n, radix);
        assert(digits(n, radix).drop_last() =~= Seq::empty());
        assert(0 * radix == 0);
    } else {
        assert(n / radix < n) by (nonlinear_arith)
            requires
                n >= radix >= 2,
        ;
        lemma_digits_roundtrip(n / radix, radix);
        lemma_digit_char(n % radix, radix);
        let head = digits(n / radix, radix);
        assert(digits(n, radix).drop_last() =~= head);
        assert((n / radix) * radix + n % radix == n) by (nonlinear_arith)
            requires
                radix >= 2,
        ;
        assert forall|i: int| 0 <= i < digits(n, radix).len() implies is_digit_char(
            #[trigger] digits(n, radix)[i],
        ) by {
            if i < head.len() {
                assert(digits(n, radix)[i] == head[i]);
            }
        }
    }
}

/// Reading back the digits of a number that fits gives the number.
pub proof fn lemma_unsigned_roundtrip(n: nat, radix: nat, max: nat)
    requires
        2 <= radix <= 16,
        n <= max,
    ensures
        unsigned_value(digits(n, radix), radix, max) == Some(n),
{
    lemma_digits_roundtrip(n, radix);
    assert(is_digit_char(digits(n, radix)[0]));
}

/// Reading back the decimal notation of a number that fits gives the number.
pub proof fn lemma_signed_roundtrip(n: int, min: int, max: int)
    requires
        min <= n <= max,
    ensures
        signed_value(decimal(n), min, max) == Some(n),
{
    if n < 0 {
        lemma_digits_roundtrip((-n) as nat, 10);
        assert(decimal(n).skip(1) =~= digits((-n) as nat, 10));
    } else {
        lemma_digits_roundtrip(n as nat, 10);
        assert(is_digit_char(decimal(n)[0]));
    }
}

/// The notation of a number is a word: it is not empty and holds no separator.
pub proof fn lemma_digits_word(n: nat, radix: nat)
    requires
        2 <= radix <= 16,
    ensures
        text::is_word(digits(n, radix)),
{
    lemma_digits_roundtrip(n, radix);
    assert forall|i: int| 0 <= i < digits(n, radix).len() implies !text::is_space(
        #[trigger] digits(n, radix)[i],
    ) by {
        assert(is_digit_char(digits(n, radix)[i]));
    }
}

/// Decimal notation is a word.
pub proof fn lemma_decimal_word(n: int)
    ensures
        text::is_word(decimal(n)),
{
    if n < 0 {
        lemma_digits_word((-n) as nat, 10);
        assert forall|i: int| 0 <= i < decimal(n).len() implies !text::is_space(
            #[trigger] decimal(n)[i],
        ) by {
            if i > 0 {
                assert(decimal(n)[i] == digits((-n) as nat, 10)[i - 1]);
            }
        }
    } else {
        lemma_digits_word(n as nat, 10);
    }
}

proof fn lemma_prefix_value(s: Seq<char>, i: int, radix: nat)
    requires
        radix >= 1,
        0 <= i <= s.len(),
        digits_value(s, radix) is Some,
    ensures
        digits_value(s.take(i), radix) is Some,
        digits_value(s.take(i), radix)->0 <= digits_value(s, radix)->0,
    decreases s.len(),
{
    if i == s.len() {
        assert(s.take(i) =~= s);
    } else {
        lemma_prefix_value(s.drop_last(), i, radix);
        assert(s.drop_last().take(i) =~= s.take(i));
        let v = digits_value(s.drop_last(), radix)->0;
        assert(v * radix >= v) by (nonlinear_arith)
            requires
                radix >= 1,
        ;
    }
}

fn digit_to_char(d: u64) -> (c: char)
    requires
        d < 16,
    ensures
        c == digit_char(d as nat),
{
    match d {
        0 => '0',
        1 => '1',
        2 => '2',
        3 => '3',
        4 => '4',
        5 => '5',
        6 => '6',
        7 => '7',
        8 => '8',
        9 => '9',
        10 => 'a',
        11 => 'b',
        12 => 'c',
        13 => 'd',
        14 => 'e',
        _ => 'f',
    }
}

fn char_to_digit(c: char, radix: u64) -> (r: Option<u64>)
    requires
        2 <= radix <= 16,
    ensures
        match r {
            Some(d) => d < radix && digit_of(c, radix as nat) == Some(d as nat),
            None => digit_of(c, radix as nat) is None,
        },
{
    let n: u32 = c as u32;
    let d: u32 = if 48 <= n && n <= 57 {
        n - 48
    } else if 97 <= n && n <= 102 {
        n - 87
    } else if 65 <= n && n <= 70 {
        n - 55
    } else {
        99
    };
    if (d as u64) < radix {
        Some(d as u64)
    } else {
        None
    }
}

/// Appends the digits of `n` in `radix` to `out`.
pub fn push_digits(out: &mut String, n: u64, radix: u64)
    requires
        2 <= radix <= 16,
    ensures
        final(out)@ == old(out)@ + digits(n as nat, radix as nat),
    decreases n,
{
    let ghost before = out@;
    if n >= radix {
        assert(n / radix < n) by (nonlinear_arith)
            requires
                n >= radix >= 2,
        ;
        push_digits(out, n / radix, radix);
    }
    let last: u64 = n % radix;
    assert(n < radix ==> last == n) by (nonlinear_arith)
        requires
            last == n % radix,
            radix >= 2,
    ;
    out.push(digit_to_char(last));
    assert(out@ =~= before + digits(n as nat, radix as nat));
}

/// Appends the decimal notation of `n` to `out`.
pub fn push_decimal(out: &mut String, n: i64)
    ensures
        final(out)@ == old(out)@ + decimal(n as int),
{
    let ghost before = out@;
    if n < 0 {
        out.push('-');
        let magnitude: u64 = if n == i64::MIN {
            0x8000_0000_0000_0000
        } else {
            (-n) as u64
        };
        push_digits(out, magnitude, 10);
        assert(out@ =~= before + decimal(n as int));
    } else {
        push_digits(out, n as u64, 10);
    }
}

/// The digits of `n` in decimal.
pub fn unsigned_text(n: u64) -> (r: String)
    ensures
        r@ == digits(n as nat, 10),
{
    let mut out = String::new();
    push_digits(&mut out, n, 10);
    assert(out@ =~= digits(n as nat, 10));
    out
}

/// The number at most `max` that `chars[from..]` writes as digits alone.
fn digits_from(chars: &Vec<char>, from: usize, radix: u64, max: u64) -> (r: Option<u64>)
    requires
        from <= chars@.len(),
        2 <= radix <= 16,
    ensures
        match r {
            Some(v) => from < chars@.len() && v <= max && digits_value(
                chars@.skip(from as int),
                radix as nat,
            ) == Some(v as nat),
            None => from == chars@.len() || match digits_value(
                chars@.skip(from as int),
                radix as nat,
            ) {
                Some(v) => v > max,
                None => true,
            },
        },
{
    if from == chars.len() {
        return None;
    }
    let ghost body = chars@.skip(from as int);
    let mut value: u64 = 0;
    let mut i: usize = from;
    assert(body.take(0) =~= Seq::empty());
    while i < chars.len()
        invariant
            from <= i <= chars@.len(),
            2 <= radix <= 16,
            body == chars@.skip(from as int),
            value <= max,
            digits_value(body.take(i - from), radix as nat) == Some(value as nat),
        decreases chars@.len() - i,
    {
        let ghost now = body.take(i - from + 1);
        assert(now.drop_last() =~= body.take(i - from));
        assert(now.last() == chars@[i as int]);
        let d: u64 = match char_to_digit(chars[i], radix) {
            Some(d) => d,
            None => {
                proof {
                    if digits_value(body, radix as nat) is Some {
                        lemma_prefix_value(body, i - from + 1, radix as nat);
                    }
                }
                return None;
            },
        };
        assert(value * radix + d <= 0xffff_ffff_ffff_ffff * 16 + 16) by (nonlinear_arith)
            requires
                value <= 0xffff_ffff_ffff_ffff,
                radix <= 16,
                d < 16,
        ;
        let next: u128 = (value as u128) * (radix as u128) + (d as u128);
        if next > max as u128 {
            proof {
                if digits_value(body, radix as nat) is Some {
                    lemma_prefix_value(body, i - from + 1, radix as nat);
                }
            }
            return None;
        }
        value = next as u64;
        i += 1;
    }
    assert(body.take(i - from) =~= body);
    Some(value)
}

/// The number at most `max` that `s` writes in `radix`, with an optional plus sign.
pub fn parse_unsigned(s: &str, radix: u64, max: u64) -> (r: Option<u64>)
    requires
        2 <= radix <= 16,
    ensures
        match r {
            Some(v) => unsigned_value(s@, radix as nat, max as nat) == Some(v as nat),
            None => unsigned_value(s@, radix as nat, max as nat) is None,
        },
{
    let chars = text::chars_of(s);
    let from: usize = if chars.len() > 0 && chars[0] == '+' {
        1
    } else {
        0
    };
    assert(chars@.skip(0) =~= chars@);
    digits_from(&chars, from, radix, max)
}

/// The number between `min` and `max` that `s` writes in decimal, with an optional sign.
pub fn parse_signed(s: &str, min: i64, max: i64) -> (r: Option<i64>)
    ensures
        match r {
            Some(v) => signed_value(s@, min as int, max as int) == Some(v as int),
            None => signed_value(s@, min as int, max as int) is None,
        },
{
    let chars = text::chars_of(s);
    let negative: bool = chars.len() > 0 && chars[0] == '-';
    let from: usize = if negative || (chars.len() > 0 && chars[0] == '+') {
        1
    } else {
        0
    };
    assert(chars@.skip(0) =~= chars@);
    match digits_from(&chars, from, 10, 0x8000_0000_0000_0000) {
        None => None,
        Some(v) => {
            let n: i128 = if negative {
                -(v as i128)
            } else {
                v as i128
            };
            if min as i128 <= n && n <= max as i128 {
                Some(n as i64)
            } else {
                None
            }
        },
    }
}

/// A number that was written in a radix is read back from its text, if it is within the bound.
pub proof fn law_written_numbers_are_read(
    out: &mut String,
    n: u64,
    radix: u64,
    s: &str,
    max: u64,
    r: Option<u64>,
)
    requires
        2 <= radix <= 16,
        old(out)@.len() == 0,
        call_ensures(push_digits, (out, n, radix), ()),
        s@ == final(out)@,
        call_ensures(parse_unsigned, (s, radix, max), r),
    ensures
        n <= max ==> r == Some(n),
        n > max ==> r is None,
{
    assert(final(out)@ =~= digits(n as nat, radix as nat));
    lemma_digits_roundtrip(n as nat, radix as nat);
    assert(is_digit_char(digits(n as nat, radix as nat)[0]));
}

/// A signed number that was written is read back from its text, if it is within the bounds.
pub proof fn law_written_signed_numbers_are_read(
    out: &mut String,
    n: i64,
    s: &str,
    min: i64,
    max: i64,
    r: Option<i64>,
)
    requires
        old(out)@.len() == 0,
        call_ensures(push_decimal, (out, n), ()),
        s@ == final(out)@,
        call_ensures(parse_signed, (s, min, max), r),
        min <= n <= max,
    ensures
        r == Some(n),
{
    assert(final(out)@ =~= decimal(n as int));
    lemma_signed_roundtrip(n as int, min as int, max as int);
}

} // verus!
