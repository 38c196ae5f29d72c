//! Text: splitting into words and into parts, joining, and trimming.

use vstd::prelude::*;

verus! {

/// `String::push` appends one character to the string.
pub assume_specification[ String::push ](s: &mut String, c: char)
    ensures
        final(s)@ == old(s)@.push(c),
;

/// The characters of each string in turn.
pub open spec fn views(v: Seq<String>) -> Seq<Seq<char>> {
    v.map_values(|s: String| s@)
}

/// The characters that separate words: those with the Unicode `White_Space` property.
pub open spec fn is_space(c: char) -> bool {
    let n = c as u32;
    ||| 0x9 <= n <= 0xd
    ||| n == 0x20
    ||| n == 0x85
    ||| n == 0xa0
    ||| n == 0x1680
    ||| 0x2000 <= n <= 0x200a
    ||| n == 0x2028
    ||| n == 0x2029
    ||| n == 0x202f
    ||| n == 0x205f
    ||| n == 0x3000
}

/// Whether `s` is a word: it has characters, and none of them is a separator.
pub open spec fn is_word(s: Seq<char>) -> bool {
    s.len() > 0 && forall|i: int| 0 <= i < s.len() ==> !is_space(#[trigger] s[i])
}

/// The number of characters before the first separator, or all of them.
pub open spec fn word_len(s: Seq<char>) -> nat
    decreases s.len(),
{
    if s.len() == 0 || is_space(s[0]) {
        0
    } else {
        1 + word_len(s.skip(1))
    }
}

/// The words of `s`: its maximal runs of characters that are not separators, in order.
pub open spec fn words(s: Seq<char>) -> Seq<Seq<char>>
    decreases s.len(),
{
    if s.len() == 0 {
        Seq::empty()
    } else if is_space(s[0]) {
        words(s.skip(1))
    } else {
        let n = word_len(s) as int;
        if 0 < n <= s.len() {
            seq![s.take(n)] + words(s.skip(n))
        } else {
            Seq::empty()
        }
    }
}

/// The parts of `parts` one after the other, with `sep` between each two.
pub open spec fn joined(parts: Seq<Seq<char>>, sep: char) -> Seq<char>
    decreases parts.len(),
{
    if parts.len() == 0 {
        Seq::empty()
    } else if parts.len() == 1 {
        parts[0]
    } else {
        joined(parts.drop_last(), sep).push(sep) + parts.last()
    }
}

proof fn lemma_word_len(s: Seq<char>)
    ensures
        word_len(s) <= s.len(),
        forall|i: int| 0 <= i < word_len(s) ==> !is_space(#[trigger] s[i]),
        word_len(s) < s.len() ==> is_space(s[word_len(s) as int]),
    decreases s.len(),
{
    if s.len() > 0 && !is_space(s[0]) {
        let t = s.skip(1);
        lemma_word_len(t);
        assert forall|i: int| 0 <= i < word_len(s) implies !is_space(#[trigger] s[i]) by {
            if i > 0 {
                assert(s[i] == t[i - 1]);
            }
        }
        if word_len(s) < s.len() {
            assert(s[word_len(s) as int] == t[word_len(t) as int]);
        }
    }
}

proof fn lemma_word_len_is(s: Seq<char>, n: int)
    requires
        0 <= n <= s.len(),
        forall|i: int| 0 <= i < n ==> !is_space(#[trigger] s[i]),
        n < s.len() ==> is_space(s[n]),
    ensures
        word_len(s) == n,
{
    lemma_word_len(s);
    let m = word_len(s) as int;
    if m < n {
        assert(!is_space(s[m]));
    }
    if n < m {
        assert(!is_space(s[n]));
    }
}

/// A word followed by one separator is split off the text after it.
pub proof fn lemma_words_cons(w: Seq<char>, sep: char, rest: Seq<char>)
    requires
        is_word(w),
        is_space(sep),
    ensures
        words(w.push(sep) + rest) == seq![w] + words(rest),
{
    reveal_with_fuel(words, 3);
    let s = w.push(sep) + rest;
    assert(s[0] == w[0]);
    assert forall|i: int| 0 <= i < w.len() implies !is_space(#[trigger] s[i]) by {
        assert(s[i] == w[i]);
    }
    lemma_word_len_is(s, w.len() as int);
    assert(s.take(w.len() as int) =~= w);
    let t = s.skip(w.len() as int);
    assert(t[0] == sep);
    assert(t.skip(1) =~= rest);
}

/// A single word is its own only word.
pub proof fn lemma_words_single(w: Seq<char>)
    requires
        is_word(w),
    ensures
        words(w) == seq![w],
{
    reveal_with_fuel(words, 2);
    assert(!is_space(w[0]));
    lemma_word_len_is(w, w.len() as int);
    assert(w.take(w.len() as int) =~= w);
    assert(w.skip(w.len() as int).len() == 0);
    assert(words(w) =~= seq![w]);
}

/// Words joined by single separators and split again give the same words.
pub proof fn lemma_words_joined(parts: Seq<Seq<char>>, sep: char)
    requires
        is_space(sep),
        forall|i: int| 0 <= i < parts.len() ==> is_word(#[trigger] parts[i]),
    ensures
        words(joined(parts, sep)) == parts,
    decreases parts.len(),
{
    if parts.len() == 0 {
        assert(parts =~= Seq::<Seq<char>>::empty());
    } else if parts.len() == 1 {
        lemma_words_single(parts[0]);
        assert(parts =~= seq![parts[0]]);
    } else {
        lemma_joined_front(parts, sep);
        let rest = parts.drop_first();
        assert forall|i: int| 0 <= i < rest.len() implies is_word(#[trigger] rest[i]) by {
            assert(rest[i] == parts[i + 1]);
        }
        lemma_words_joined(rest, sep);
        lemma_words_cons(parts[0], sep, joined(rest, sep));
        assert(seq![parts[0]] + rest =~= parts);
    }
}

/// Joining two or more parts starts with the first part and the separator.
pub proof fn lemma_joined_front(parts: Seq<Seq<char>>, sep: char)
    requires
        parts.len() >= 2,
    ensures
        joined(parts, sep) == parts[0].push(sep) + joined(parts.drop_first(), sep),
    decreases parts.len(),
{
    let front = parts.drop_last();
    let rest = parts.drop_first();
    if parts.len() == 2 {
        assert(joined(front, sep) == parts[0]);
        assert(joined(rest, sep) == parts[1]);
    } else {
        lemma_joined_front(front, sep);
        assert(front.drop_first() =~= rest.drop_last());
        assert(joined(rest, sep) == joined(rest.drop_last(), sep).push(sep) + rest.last());
        assert(joined(parts, sep) =~= parts[0].push(sep) + joined(rest, sep));
    }
}

/// Joining a single part gives the part.
pub proof fn lemma_joined_one(w: Seq<char>, sep: char)
    ensures
        joined(seq![w], sep) == w,
{
}

/// Joining one more part adds the separator and the part.
pub proof fn lemma_joined_push(parts: Seq<Seq<char>>, w: Seq<char>, sep: char)
    requires
        parts.len() > 0,
    ensures
        joined(parts.push(w), sep) == joined(parts, sep).push(sep) + w,
{
    assert(parts.push(w).drop_last() =~= parts);
}

/// The characters of the strings of a list with one more string.
pub proof fn lemma_views_push(v: Seq<String>, s: String)
    ensures
        views(v.push(s)) == views(v).push(s@),
{
    assert(views(v.push(s)) =~= views(v).push(s@));
}

/// Joining two lists of parts puts the separator between them.
pub proof fn lemma_joined_append(a: Seq<Seq<char>>, b: Seq<Seq<char>>, sep: char)
    requires
        a.len() > 0,
        b.len() > 0,
    ensures
        joined(a + b, sep) == joined(a, sep).push(sep) + joined(b, sep),
    decreases b.len(),
{
    let all = a + b;
    assert(all.last() == b.last());
    assert(all.drop_last() =~= a + b.drop_last());
    if b.len() == 1 {
        assert(a + b.drop_last() =~= a);
    } else {
        lemma_joined_append(a, b.drop_last(), sep);
        assert(joined(all, sep) =~= joined(a, sep).push(sep) + joined(b, sep));
    }
}

/// The words of a text are words.
pub proof fn lemma_words_are_words(s: Seq<char>)
    ensures
        forall|i: int| 0 <= i < words(s).len() ==> is_word(#[trigger] words(s)[i]),
    decreases s.len(),
{
    if s.len() > 0 {
        if is_space(s[0]) {
            lemma_words_are_words(s.skip(1));
            assert(words(s) == words(s.skip(1)));
        } else {
            lemma_word_len(s);
            let n = word_len(s) as int;
            let rest = words(s.skip(n));
            lemma_words_are_words(s.skip(n));
            assert forall|i: int| 0 <= i < words(s).len() implies is_word(#[trigger] words(s)[i]) by {
                if i == 0 {
                    let w = s.take(n);
                    assert(words(s)[0] == w);
                    assert forall|j: int| 0 <= j < w.len() implies !is_space(#[trigger] w[j]) by {
                        assert(w[j] == s[j]);
                    }
                } else {
                    assert(words(s)[i] == rest[i - 1]);
                }
            }
        }
    }
}

/// Text without characters has no words.
pub proof fn lemma_words_empty(s: Seq<char>)
    requires
        s.len() == 0,
    ensures
        words(s).len() == 0,
{
}

/// The number of characters before the first `sep`, or all of them.
pub open spec fn part_len(s: Seq<char>, sep: char) -> nat
    decreases s.len(),
{
    if s.len() == 0 || s[0] == sep {
        0
    } else {
        1 + part_len(s.skip(1), sep)
    }
}

/// The parts of `s` between the occurrences of `sep`; there is always one more than those.
pub open spec fn parts_of(s: Seq<char>, sep: char) -> Seq<Seq<char>>
    decreases s.len(),
{
    let n = part_len(s, sep) as int;
    if n < s.len() {
        seq![s.take(n)] + parts_of(s.skip(n + 1), sep)
    } else {
        seq![s]
    }
}

proof fn lemma_part_len_is(s: Seq<char>, sep: char, n: int)
    requires
        0 <= n <= s.len(),
        forall|i: int| 0 <= i < n ==> #[trigger] s[i] != sep,
        n < s.len() ==> s[n] == sep,
    ensures
        part_len(s, sep) == n,
    decreases s.len(),
{
    if n > 0 {
        assert(s[0] != sep);
        let t = s.skip(1);
        assert forall|i: int| 0 <= i < n - 1 implies #[trigger] t[i] != sep by {
            assert(t[i] == s[i + 1]);
        }
        lemma_part_len_is(t, sep, n - 1);
    }
}

/// Parts without the separator, joined by it and split again, are the same parts.
pub proof fn lemma_parts_joined(parts: Seq<Seq<char>>, sep: char)
    requires
        parts.len() > 0,
        forall|i: int| 0 <= i < parts.len() ==> !(#[trigger] parts[i]).contains(sep),
    ensures
        parts_of(joined(parts, sep), sep) == parts,
    decreases parts.len(),
{
    let s = joined(parts, sep);
    let first = parts[0];
    assert(!first.contains(sep));
    if parts.len() == 1 {
        assert forall|i: int| 0 <= i < s.len() implies #[trigger] s[i] != sep by {
            assert(first.contains(s[i]));
        }
        lemma_part_len_is(s, sep, s.len() as int);
        assert(parts =~= seq![first]);
    } else {
        lemma_joined_front(parts, sep);
        let rest = parts.drop_first();
        assert forall|i: int| 0 <= i < rest.len() implies !(#[trigger] rest[i]).contains(sep) by {
            assert(rest[i] == parts[i + 1]);
        }
        lemma_parts_joined(rest, sep);
        let n = first.len() as int;
        assert forall|i: int| 0 <= i < n implies #[trigger] s[i] != sep by {
            assert(s[i] == first[i]);
            assert(first.contains(first[i]));
        }
        assert(s[n] == sep);
        lemma_part_len_is(s, sep, n);
        assert(s.take(n) =~= first);
        assert(s.skip(n + 1) =~= joined(rest, sep));
        assert(seq![first] + rest =~= parts);
    }
}

/// The parts of `s` between the occurrences of `sep`.
pub fn split_on(s: &str, sep: char) -> (r: Vec<String>)
    ensures
        views(r@) == parts_of(s@, sep),
        r@.len() > 0,
{
    let chars = chars_of(s);
    let mut out: Vec<String> = Vec::new();
    let mut start: usize = 0;
    let mut i: usize = 0;
    assert(chars@.skip(0) =~= chars@);
    assert(views(out@) + parts_of(chars@, sep) =~= parts_of(chars@, sep));
    while i < chars.len()
        invariant
            start <= i <= chars@.len(),
            forall|j: int| start <= j < i ==> #[trigger] chars@[j] != sep,
            views(out@) + parts_of(chars@.skip(start as int), sep) == parts_of(chars@, sep),
        decreases chars@.len() - i,
    {
        if chars[i] == sep {
            let ghost rest = chars@.skip(start as int);
            let ghost n = i - start;
            let part = text_of(chars.as_slice(), start, i);
            proof {
                assert forall|j: int| 0 <= j < n implies #[trigger] rest[j] != sep by {
                    assert(rest[j] == chars@[start + j]);
                }
                assert(rest[n] == chars@[i as int]);
                lemma_part_len_is(rest, sep, n);
                assert(rest.take(n) =~= part@);
                assert(rest.skip(n + 1) =~= chars@.skip(i + 1));
                lemma_views_push(out@, part);
                let tail = parts_of(chars@.skip(i + 1), sep);
                assert(parts_of(rest, sep) == seq![part@] + tail);
                assert(views(out@).push(part@) + tail =~= views(out@) + (seq![part@] + tail));
            }
            out.push(part);
            start = i + 1;
        }
        i += 1;
    }
    let ghost rest = chars@.skip(start as int);
    let part = text_of(chars.as_slice(), start, i);
    proof {
        assert forall|j: int| 0 <= j < rest.len() implies #[trigger] rest[j] != sep by {
            assert(rest[j] == chars@[start + j]);
        }
        lemma_part_len_is(rest, sep, rest.len() as int);
        assert(part@ =~= rest);
        lemma_views_push(out@, part);
        assert(views(out@).push(part@) =~= views(out@) + seq![rest]);
    }
    out.push(part);
    out
}

/// The text before and after the first `sep`, if there is one.
pub open spec fn cut_at(s: Seq<char>, sep: char) -> Option<(Seq<char>, Seq<char>)> {
    let n = part_len(s, sep) as int;
    if n < s.len() {
        Some((s.take(n), s.skip(n + 1)))
    } else {
        None
    }
}

/// Text without the separator before it is cut off in front of it.
pub proof fn lemma_cut_at(a: Seq<char>, sep: char, b: Seq<char>)
    requires
        !a.contains(sep),
    ensures
        cut_at(a.push(sep) + b, sep) == Some((a, b)),
{
    let s = a.push(sep) + b;
    assert forall|i: int| 0 <= i < a.len() implies #[trigger] s[i] != sep by {
        assert(s[i] == a[i]);
        assert(a.contains(a[i]));
    }
    lemma_part_len_is(s, sep, a.len() as int);
    assert(s.take(a.len() as int) =~= a);
    assert(s.skip(a.len() as int + 1) =~= b);
}

/// The text before and after the first `sep`, if there is one.
pub fn cut(s: &str, sep: char) -> (r: Option<(String, String)>)
    ensures
        match r {
            Some((a, b)) => cut_at(s@, sep) == Some((a@, b@)),
            None => cut_at(s@, sep) is None,
        },
{
    let chars = chars_of(s);
    let mut i: usize = 0;
    while i < chars.len()
        invariant
            i <= chars@.len(),
            chars@ == s@,
            forall|j: int| 0 <= j < i ==> #[trigger] chars@[j] != sep,
        decreases chars@.len() - i,
    {
        if chars[i] == sep {
            proof {
                lemma_part_len_is(chars@, sep, i as int);
            }
            let a = text_of(chars.as_slice(), 0, i);
            let b = text_of(chars.as_slice(), i + 1, chars.len());
            assert(a@ =~= chars@.take(i as int));
            assert(b@ =~= chars@.skip(i + 1));
            return Some((a, b));
        }
        i += 1;
    }
    proof {
        lemma_part_len_is(chars@, sep, chars@.len() as int);
    }
    None
}

/// Whether `c` separates words.
pub fn is_space_char(c: char) -> (r: bool)
    ensures
        r == is_space(c),
{
    let n: u32 = c as u32;
    (0x9 <= n && n <= 0xd) || n == 0x20 || n == 0x85 || n == 0xa0 || n == 0x1680 || (0x2000 <= n
        && n <= 0x200a) || n == 0x2028 || n == 0x2029 || n == 0x202f || n == 0x205f || n == 0x3000
}

/// The characters of `s`, in order.
pub fn chars_of(s: &str) -> (r: Vec<char>)
    ensures
        r@ == s@,
{
    let mut out: Vec<char> = Vec::new();
    for c in it: s.chars()
        invariant
            out@ == it.seq().take(it.index() as int),
            it.seq() == s@,
    {
        out.push(c);
        assert(it.seq().take(it.index() + 1) =~= it.seq().take(it.index() as int).push(c));
    }
    out
}

/// The string made of `chars[from..to]`.
pub fn text_of(chars: &[char], from: usize, to: usize) -> (r: String)
    requires
        from <= to <= chars@.len(),
    ensures
        r@ == chars@.subrange(from as int, to as int),
{
    let mut out = String::new();
    let mut i: usize = from;
    while i < to
        invariant
            from <= i <= to <= chars@.len(),
            out@ == chars@.subrange(from as int, i as int),
        decreases to - i,
    {
        out.push(chars[i]);
        i += 1;
        assert(chars@.subrange(from as int, i as int) =~= chars@.subrange(
            from as int,
            i - 1,
        ).push(chars@[i - 1]));
    }
    out
}

/// Whether the two strings hold the same characters.
pub fn same_text(a: &str, b: &str) -> (r: bool)
    ensures
        r == (a@ == b@),
{
    a.to_owned() == b.to_owned()
}

/// The words of `s`, in order.
pub fn split_words(s: &str) -> (r: Vec<String>)
    ensures
        views(r@) == words(s@),
{
    let chars = chars_of(s);
    let mut out: Vec<String> = Vec::new();
    let mut i: usize = 0;
    assert(chars@.skip(0) =~= chars@);
    assert(views(out@) + words(chars@) =~= words(chars@));
    while i < chars.len()
        invariant
            i <= chars@.len(),
            views(out@) + words(chars@.skip(i as int)) == words(chars@),
        decreases chars@.len() - i,
    {
        let ghost rest = chars@.skip(i as int);
        if is_space_char(chars[i]) {
            i += 1;
            assert(rest.skip(1) =~= chars@.skip(i as int));
        } else {
            let start: usize = i;
            while i < chars.len() && !is_space_char(chars[i])
                invariant
                    start <= i <= chars@.len(),
                    rest == chars@.skip(start as int),
                    forall|j: int| 0 <= j < i - start ==> !is_space(#[trigger] rest[j]),
                decreases chars@.len() - i,
            {
                assert(rest[i - start] == chars@[i as int]);
                i += 1;
            }
            proof {
                if i < chars.len() {
                    assert(rest[i - start] == chars@[i as int]);
                }
                lemma_word_len_is(rest, i - start);
                assert(!is_space(rest[0]));
                assert(rest.take(i - start) =~= chars@.subrange(start as int, i as int));
                assert(rest.skip(i - start) =~= chars@.skip(i as int));
            }
            let ghost before = out@;
            let word = text_of(chars.as_slice(), start, i);
            out.push(word);
            proof {
                lemma_views_push(before, word);
                let tail = words(chars@.skip(i as int));
                assert(words(rest) == seq![word@] + tail);
                assert(views(before).push(word@) + tail =~= views(before) + (seq![word@] + tail));
            }
        }
    }
    assert(chars@.skip(i as int).len() == 0);
    assert(views(out@) + words(chars@.skip(i as int)) =~= views(out@));
    out
}

/// The number of separators that `s` begins with.
pub open spec fn blank_len(s: Seq<char>) -> nat
    decreases s.len(),
{
    if s.len() == 0 || !is_space(s[0]) {
        0
    } else {
        1 + blank_len(s.skip(1))
    }
}

/// `s` without the separators at its end.
pub open spec fn trimmed_end(s: Seq<char>) -> Seq<char>
    decreases s.len(),
{
    if s.len() > 0 && is_space(s.last()) {
        trimmed_end(s.drop_last())
    } else {
        s
    }
}

proof fn lemma_blank_len(s: Seq<char>)
    ensures
        blank_len(s) <= s.len(),
        forall|i: int| 0 <= i < blank_len(s) ==> is_space(#[trigger] s[i]),
        blank_len(s) < s.len() ==> !is_space(s[blank_len(s) as int]),
    decreases s.len(),
{
    if s.len() > 0 && is_space(s[0]) {
        let rest = s.skip(1);
        lemma_blank_len(rest);
        assert forall|i: int| 0 <= i < blank_len(s) implies is_space(#[trigger] s[i]) by {
            if i > 0 {
                assert(rest[i - 1] == s[i]);
            }
        }
        if blank_len(s) < s.len() {
            assert(rest[blank_len(rest) as int] == s[blank_len(s) as int]);
        }
    }
}

proof fn lemma_trimmed_end(s: Seq<char>)
    ensures
        trimmed_end(s).len() <= s.len(),
        trimmed_end(s) == s.take(trimmed_end(s).len() as int),
        forall|i: int| trimmed_end(s).len() <= i < s.len() ==> is_space(#[trigger] s[i]),
        trimmed_end(s).len() > 0 ==> !is_space(trimmed_end(s).last()),
    decreases s.len(),
{
    if s.len() > 0 && is_space(s.last()) {
        let front = s.drop_last();
        lemma_trimmed_end(front);
        assert(front.take(trimmed_end(front).len() as int) =~= s.take(
            trimmed_end(front).len() as int,
        ));
        assert forall|i: int| trimmed_end(s).len() <= i < s.len() implies is_space(
            #[trigger] s[i],
        ) by {
            if i < front.len() {
                assert(front[i] == s[i]);
            }
        }
    } else {
        assert(s.take(s.len() as int) =~= s);
    }
}

/// Trimming takes off separators at both ends, and nothing else: what is left stands in the text
/// between separators alone, and neither begins nor ends with one.
pub proof fn law_trimming_takes_separators(s: Seq<char>)
    ensures
        exists|a: int, b: int|
            #![trigger s.subrange(a, b)]
            0 <= a <= b <= s.len() && trimmed(s) == s.subrange(a, b) && (forall|i: int|
                0 <= i < a || b <= i < s.len() ==> is_space(#[trigger] s[i])),
        trimmed(s).len() > 0 ==> !is_space(trimmed(s)[0]) && !is_space(trimmed(s).last()),
{
    let a = blank_len(s) as int;
    lemma_blank_len(s);
    let t = s.skip(a);
    lemma_trimmed_end(t);
    let n = trimmed_end(t).len();
    let b = a + n;
    assert(trimmed(s) =~= s.subrange(a, b));
    assert forall|i: int| 0 <= i < a || b <= i < s.len() implies is_space(#[trigger] s[i]) by {
        if b <= i {
            assert(t[i - a] == s[i]);
        }
    }
    if n > 0 {
        assert(trimmed(s)[0] == s[a]);
    }
}

/// Of the ASCII characters, the blank and the five control characters from tab to carriage return
/// separate words, and no others.
pub proof fn law_ascii_separators(c: char)
    requires
        (c as u32) < 128,
    ensures
        is_space(c) <==> c as u32 == 32 || 9 <= c as u32 <= 13,
{
}

/// Separators in front of a text change nothing about its words, however many there are.
pub proof fn law_separators_do_not_count(c: char, s: Seq<char>)
    requires
        is_space(c),
    ensures
        words(seq![c] + s) == words(s),
        words(Seq::<char>::empty()).len() == 0,
{
    assert((seq![c] + s).skip(1) =~= s);
}

/// A text without the separator cannot be cut at it.
pub proof fn law_cut_needs_a_separator(s: Seq<char>, sep: char)
    ensures
        cut_at(s, sep) is None <==> !s.contains(sep),
    decreases s.len(),
{
    if !s.contains(sep) {
        assert forall|i: int| 0 <= i < s.len() implies #[trigger] s[i] != sep by {
            assert(s.contains(s[i]));
        }
        lemma_part_len_is(s, sep, s.len() as int);
    } else {
        let k = choose|k: int| 0 <= k < s.len() && s[k] == sep;
        lemma_part_len_first(s, sep, k);
    }
}

proof fn lemma_part_len_first(s: Seq<char>, sep: char, k: int)
    requires
        0 <= k < s.len(),
        s[k] == sep,
    ensures
        part_len(s, sep) <= k,
    decreases s.len(),
{
    if s[0] != sep {
        assert(s.skip(1)[k - 1] == sep);
        lemma_part_len_first(s.skip(1), sep, k - 1);
    }
}

/// `s` without the separators at its beginning and its end.
pub open spec fn trimmed(s: Seq<char>) -> Seq<char> {
    trimmed_end(s.skip(blank_len(s) as int))
}

/// `s` without the separators at its beginning and its end.
pub fn trim(s: &str) -> (r: String)
    ensures
        r@ == trimmed(s@),
{
    let chars = chars_of(s);
    let mut from: usize = 0;
    assert(chars@.skip(0) =~= chars@);
    while from < chars.len() && is_space_char(chars[from])
        invariant
            from <= chars@.len(),
            blank_len(chars@) == from + blank_len(chars@.skip(from as int)),
        decreases chars@.len() - from,
    {
        assert(chars@.skip(from as int).skip(1) =~= chars@.skip(from + 1));
        from += 1;
    }
    let ghost rest = chars@.skip(from as int);
    assert(blank_len(rest) == 0);
    let mut to: usize = chars.len();
    assert(rest =~= chars@.subrange(from as int, to as int));
    while to > from && is_space_char(chars[to - 1])
        invariant
            from <= to <= chars@.len(),
            trimmed_end(rest) == trimmed_end(chars@.subrange(from as int, to as int)),
        decreases to,
    {
        assert(chars@.subrange(from as int, to as int).drop_last() =~= chars@.subrange(
            from as int,
            to - 1,
        ));
        to -= 1;
    }
    text_of(chars.as_slice(), from, to)
}

/// What the standard library makes of bytes that are meant to be UTF-8: the text they encode, with
/// each malformed part replaced.
pub uninterp spec fn utf8_lossy(bytes: Seq<u8>) -> Seq<char>;

/// Decodes bytes with `String::from_utf8_lossy`. The contract names the result and states that
/// bytes in valid UTF-8 are decoded as they stand; how malformed parts are replaced is left to the
/// standard library.
#[verifier::external_body]
pub(crate) fn lossy_text(bytes: &[u8]) -> (r: String)
    ensures
        r@ == utf8_lossy(bytes@),
        vstd::utf8::valid_utf8(bytes@) ==> vstd::utf8::encode_utf8(r@) == bytes@,
{
    String::from_utf8_lossy(bytes).into_owned()
}

/// What the standard library's debug formatting makes of a string: the string in quotes, with its
/// special characters escaped.
pub uninterp spec fn debug_text(s: Seq<char>) -> Seq<char>;

/// Formats `s` with `{:?}`, that is with `<str as Debug>::fmt`. The contract only names the
/// result: which characters are escaped, and how, is left to the standard library.
#[verifier::external_body]
pub(crate) fn debug_of(s: &str) -> (r: String)
    ensures
        r@ == debug_text(s@),
{
    format!("{:?}", s)
}

/// The strings of `parts[from..]` joined with `sep` between each two.
pub fn join_from(parts: &Vec<String>, from: usize, sep: char) -> (r: String)
    requires
        from <= parts@.len(),
    ensures
        r@ == joined(views(parts@).skip(from as int), sep),
{
    let mut out = String::new();
    let mut i: usize = from;
    let ghost all = views(parts@).skip(from as int);
    assert(all.take(0) =~= Seq::empty());
    while i < parts.len()
        invariant
            from <= i <= parts@.len(),
            all == views(parts@).skip(from as int),
            out@ == joined(all.take(i - from), sep),
        decreases parts@.len() - i,
    {
        let ghost before = out@;
        if i > from {
            out.push(sep);
        }
        out.append(parts[i].as_str());
        i += 1;
        proof {
            let now = all.take(i - from);
            assert(now.drop_last() =~= all.take(i - from - 1));
            assert(now.last() == parts@[i - 1]@);
            if i - 1 == from {
                assert(before =~= Seq::empty());
                assert(out@ =~= now[0]);
            }
        }
    }
    assert(all.take(i - from) =~= all);
    out
}

} // verus!
