//! Characters, whitespace, words, lines and decimal numbers: the vocabulary
//! that the command grammar and the kernel's text records share.

use vstd::prelude::*;

verus! {

/// Whether `c` has the Unicode property White_Space.
pub open spec fn is_space(c: char) -> bool {
    let n = c as u32;
    (0x09 <= n && n <= 0x0D) || n == 0x20 || n == 0x85 || n == 0xA0 || n == 0x1680 || (0x2000 <= n
        && n <= 0x200A) || n == 0x2028 || n == 0x2029 || n == 0x202F || n == 0x205F || n
        == 0x3000
}

/// Decides [`is_space`].
pub fn char_is_space(c: char) -> (r: bool)
    ensures
        r == is_space(c),
{
    let n: u32 = c as u32;
    (0x09 <= n && n <= 0x0D) || n == 0x20 || n == 0x85 || n == 0xA0 || n == 0x1680 || (0x2000 <= n
        && n <= 0x200A) || n == 0x2028 || n == 0x2029 || n == 0x202F || n == 0x205F || n
        == 0x3000
}

/// The characters of `s`, in order.
pub fn chars_of(s: &str) -> (v: Vec<char>)
    ensures
        v@ == s@,
{
    broadcast use vstd::string::axiom_spec_iter;

    let mut v: Vec<char> = Vec::new();
    for c in it: s.chars()
        invariant
            it.seq() == s@,
            v@ == it.history(),
    {
        v.push(c);
    }
    assert(v@ =~= s@);
    v
}

/// A half-open range of character positions in some text.
#[derive(Clone, Copy, Debug, PartialEq, Eq, Structural)]
pub struct Span {
    pub start: usize,
    pub end: usize,
}

impl Span {
    /// The range is ordered and lies inside `s`.
    pub open spec fn within(self, s: Seq<char>) -> bool {
        self.start <= self.end <= s.len()
    }

    /// The characters of `s` that the range covers.
    pub open spec fn of(self, s: Seq<char>) -> Seq<char> {
        s.subrange(self.start as int, self.end as int)
    }
}

/// Every span lies inside `s`.
pub open spec fn all_within(s: Seq<char>, spans: Seq<Span>) -> bool {
    forall|i: int| 0 <= i < spans.len() ==> (#[trigger] spans[i]).within(s)
}

/// The pieces of `s` that the spans cover, in the spans' order.
pub open spec fn cut(s: Seq<char>, spans: Seq<Span>) -> Seq<Seq<char>> {
    Seq::new(spans.len(), |i: int| spans[i].of(s))
}

/// The number of characters before the first whitespace character of `s`.
pub open spec fn word_len(s: Seq<char>) -> nat
    decreases s.len(),
{
    if s.len() == 0 || is_space(s[0]) {
        0
    } else {
        1 + word_len(s.skip(1))
    }
}

/// The maximal runs of non-whitespace characters of `s`, in order.
pub open spec fn words(s: Seq<char>) -> Seq<Seq<char>>
    decreases s.len(),
{
    if s.len() == 0 {
        Seq::empty()
    } else if is_space(s[0]) {
        words(s.skip(1))
    } else {
        proof {
            lemma_word_len_bounds(s);
        }
        let n = word_len(s) as int;
        seq![s.take(n)] + words(s.skip(n))
    }
}

/// `word_len` stays inside the text and is positive where a word starts.
pub proof fn lemma_word_len_bounds(s: Seq<char>)
    ensures
        word_len(s) <= s.len(),
        s.len() > 0 && !is_space(s[0]) ==> word_len(s) >= 1,
    decreases s.len(),
{
    if s.len() > 0 && !is_space(s[0]) {
        lemma_word_len_bounds(s.skip(1));
    }
}

/// A run of `n` non-whitespace characters that ends at whitespace or at the
/// end of the text is the first word's extent.
pub proof fn lemma_word_len_is(s: Seq<char>, n: int)
    requires
        0 <= n <= s.len(),
        forall|k: int| 0 <= k < n ==> !is_space(#[trigger] s[k]),
        n == s.len() || is_space(s[n]),
    ensures
        word_len(s) == n,
    decreases n,
{
    if n > 0 {
        assert(!is_space(s[0]));
        let t = s.skip(1);
        assert forall|k: int| 0 <= k < n - 1 implies !is_space(#[trigger] t[k]) by {
            assert(t[k] == s[k + 1]);
        }
        lemma_word_len_is(t, n - 1);
    }
}

/// The number of characters before the first line feed of `s`.
pub open spec fn line_len(s: Seq<char>) -> nat
    decreases s.len(),
{
    if s.len() == 0 || s[0] == '\n' {
        0
    } else {
        1 + line_len(s.skip(1))
    }
}

/// The lines of `s`: the text between line feeds. A line feed at the very
/// end opens no further line. A carriage return stays in its line, where
/// it counts as whitespace.
pub open spec fn lines(s: Seq<char>) -> Seq<Seq<char>>
    decreases s.len(),
{
    if s.len() == 0 {
        Seq::empty()
    } else {
        let n = line_len(s) as int;
        if n >= s.len() {
            seq![s]
        } else {
            seq![s.take(n)] + lines(s.skip(n + 1))
        }
    }
}

/// A run of `n` characters without a line feed that ends at a line feed or
/// at the end of the text is the first line's extent.
pub proof fn lemma_line_len_is(s: Seq<char>, n: int)
    requires
        0 <= n <= s.len(),
        forall|k: int| 0 <= k < n ==> #[trigger] s[k] != '\n',
        n == s.len() || s[n] == '\n',
    ensures
        line_len(s) == n,
    decreases n,
{
    if n > 0 {
        assert(s[0] != '\n');
        let t = s.skip(1);
        assert forall|k: int| 0 <= k < n - 1 implies #[trigger] t[k] != '\n' by {
            assert(t[k] == s[k + 1]);
        }
        lemma_line_len_is(t, n - 1);
    }
}

/// Where the word that starts at `from` ends, looking no further than `to`.
pub fn scan_word(v: &Vec<char>, from: usize, to: usize) -> (j: usize)
    requires
        from <= to <= v.len(),
    ensures
        from <= j <= to,
        j - from == word_len(v@.subrange(from as int, to as int)),
{
    let mut j: usize = from;
    while j < to && !char_is_space(v[j])
        invariant
            from <= j <= to <= v.len(),
            forall|k: int| from <= k < j ==> !is_space(#[trigger] v@[k]),
        decreases to - j,
    {
        j += 1;
    }
    proof {
        let s = v@.subrange(from as int, to as int);
        assert forall|k: int| 0 <= k < j - from implies !is_space(#[trigger] s[k]) by {
            assert(s[k] == v@[from + k]);
        }
        lemma_word_len_is(s, j - from);
    }
    j
}

/// The words of `v[from..to]`, as spans of `v`.
pub fn word_spans(v: &Vec<char>, from: usize, to: usize) -> (r: Vec<Span>)
    requires
        from <= to <= v.len(),
    ensures
        all_within(v@, r@),
        cut(v@, r@) == words(v@.subrange(from as int, to as int)),
{
    let mut r: Vec<Span> = Vec::new();
    let mut i: usize = from;
    assert(cut(v@, r@) =~= Seq::<Seq<char>>::empty());
    while i < to
        invariant
            from <= i <= to <= v.len(),
            all_within(v@, r@),
            cut(v@, r@) + words(v@.subrange(i as int, to as int)) == words(
                v@.subrange(from as int, to as int),
            ),
        decreases to - i,
    {
        let ghost rest = v@.subrange(i as int, to as int);
        if char_is_space(v[i]) {
            assert(rest.skip(1) =~= v@.subrange(i + 1, to as int));
            i += 1;
        } else {
            let j = scan_word(v, i, to);
            proof {
                lemma_word_len_bounds(rest);
                assert(rest.take(j - i) =~= v@.subrange(i as int, j as int));
                assert(rest.skip(j - i) =~= v@.subrange(j as int, to as int));
                let piece = Span { start: i, end: j };
                assert(cut(v@, r@.push(piece)) =~= cut(v@, r@) + seq![piece.of(v@)]);
                assert(cut(v@, r@) + (seq![piece.of(v@)] + words(
                    v@.subrange(j as int, to as int),
                )) =~= (cut(v@, r@) + seq![piece.of(v@)]) + words(
                    v@.subrange(j as int, to as int),
                ));
            }
            r.push(Span { start: i, end: j });
            i = j;
        }
    }
    assert(cut(v@, r@) + Seq::<Seq<char>>::empty() =~= cut(v@, r@));
    r
}

/// The lines of `v`, as spans of `v`.
pub fn line_spans(v: &Vec<char>) -> (r: Vec<Span>)
    ensures
        all_within(v@, r@),
        cut(v@, r@) == lines(v@),
{
    let n = v.len();
    let mut r: Vec<Span> = Vec::new();
    let mut i: usize = 0;
    assert(cut(v@, r@) =~= Seq::<Seq<char>>::empty());
    assert(v@.subrange(0, n as int) =~= v@);
    while i < n
        invariant
            i <= n == v.len(),
            all_within(v@, r@),
            cut(v@, r@) + lines(v@.subrange(i as int, n as int)) == lines(v@),
        decreases n - i,
    {
        let ghost rest = v@.subrange(i as int, n as int);
        let mut j: usize = i;
        while j < n && v[j] != '\n'
            invariant
                i <= j <= n == v.len(),
                forall|k: int| i <= k < j ==> #[trigger] v@[k] != '\n',
            decreases n - j,
        {
            j += 1;
        }
        proof {
            assert forall|k: int| 0 <= k < j - i implies #[trigger] rest[k] != '\n' by {
                assert(rest[k] == v@[i + k]);
            }
            lemma_line_len_is(rest, j - i);
            let piece = Span { start: i, end: j };
            assert(cut(v@, r@.push(piece)) =~= cut(v@, r@) + seq![piece.of(v@)]);
            assert(rest.take(j - i) =~= piece.of(v@));
            if j < n {
                assert(rest.skip(j - i + 1) =~= v@.subrange(j + 1, n as int));
                assert(cut(v@, r@) + (seq![piece.of(v@)] + lines(v@.subrange(j + 1, n as int)))
                    =~= (cut(v@, r@) + seq![piece.of(v@)]) + lines(
                    v@.subrange(j + 1, n as int),
                ));
            } else {
                assert(rest =~= piece.of(v@));
                assert(lines(v@.subrange(n as int, n as int)) =~= Seq::<Seq<char>>::empty());
            }
        }
        r.push(Span { start: i, end: j });
        i = if j < n {
            j + 1
        } else {
            n
        };
    }
    assert(cut(v@, r@) + Seq::<Seq<char>>::empty() =~= cut(v@, r@));
    r
}

/// Whether `c` is one of the ten ASCII digits.
pub open spec fn is_digit(c: char) -> bool {
    0x30 <= c as u32 <= 0x39
}

/// The number that the digit `c` stands for.
pub open spec fn digit_value(c: char) -> nat {
    (c as u32 - 0x30) as nat
}

/// Every character of `s` is an ASCII digit.
pub open spec fn all_digits(s: Seq<char>) -> bool {
    forall|i: int| 0 <= i < s.len() ==> is_digit(#[trigger] s[i])
}

/// The number that the digits of `s` write in base ten.
pub open spec fn decimal(s: Seq<char>) -> nat
    decreases s.len(),
{
    if s.len() == 0 {
        0
    } else {
        10 * decimal(s.drop_last()) + digit_value(s.last())
    }
}

/// `s` without one leading plus sign.
pub open spec fn unsigned_digits(s: Seq<char>) -> Seq<char> {
    if s.len() > 0 && s[0] == '+' {
        s.skip(1)
    } else {
        s
    }
}

/// The number that `s` writes, if `s` is one or more ASCII digits and the
/// number is at most `max`.
pub open spec fn digits_value(s: Seq<char>, max: nat) -> Option<nat> {
    if s.len() > 0 && all_digits(s) && decimal(s) <= max {
        Some(decimal(s))
    } else {
        None
    }
}

/// The unsigned number that `s` writes, if it writes one that is at most
/// `max`: an optional plus sign, then one or more ASCII digits.
pub open spec fn unsigned(s: Seq<char>, max: nat) -> Option<nat> {
    digits_value(unsigned_digits(s), max)
}

/// A number is at least as large as what any prefix of its digits writes.
pub proof fn lemma_decimal_prefix(s: Seq<char>, k: int)
    requires
        0 <= k <= s.len(),
    ensures
        decimal(s.take(k)) <= decimal(s),
    decreases s.len() - k,
{
    if k == s.len() {
        assert(s.take(k) =~= s);
    } else {
        lemma_decimal_prefix(s, k + 1);
        assert(s.take(k + 1).drop_last() =~= s.take(k));
    }
}

/// Reads `v[from..to]` as a run of digits that writes a number of at most
/// `max`.
pub fn parse_digits(v: &Vec<char>, from: usize, to: usize, max: u64) -> (r: Option<u64>)
    requires
        from <= to <= v.len(),
    ensures
        match r {
            Some(n) => digits_value(v@.subrange(from as int, to as int), max as nat) == Some(
                n as nat,
            ),
            None => digits_value(v@.subrange(from as int, to as int), max as nat) is None,
        },
{
    let ghost d = v@.subrange(from as int, to as int);
    if from == to {
        return None;
    }
    let mut acc: u64 = 0;
    let mut i: usize = from;
    assert(d.take(0) =~= Seq::<char>::empty());
    while i < to
        invariant
            from <= i <= to <= v.len(),
            d == v@.subrange(from as int, to as int),
            all_digits(d.take(i - from)),
            acc == decimal(d.take(i - from)),
            acc <= max,
        decreases to - i,
    {
        let c: u32 = v[i] as u32;
        assert(d[i - from] == v@[i as int]);
        if c < 0x30 || c > 0x39 {
            return None;
        }
        let wide: u128 = (acc as u128) * 10 + ((c - 0x30) as u128);
        proof {
            assert(d.take(i - from + 1).drop_last() =~= d.take(i - from));
            assert(d.take(i - from + 1).last() == v@[i as int]);
            assert(decimal(d.take(i - from + 1)) == wide);
            assert forall|k: int| 0 <= k < i - from + 1 implies is_digit(
                #[trigger] d.take(i - from + 1)[k],
            ) by {
                if k < i - from {
                    assert(d.take(i - from)[k] == d[k]);
                }
            }
        }
        if wide > max as u128 {
            proof {
                lemma_decimal_prefix(d, i - from + 1);
            }
            return None;
        }
        acc = wide as u64;
        i += 1;
    }
    assert(d.take(to - from) =~= d);
    Some(acc)
}

/// Reads `v[from..to]` as an unsigned decimal number that is at most `max`.
pub fn parse_unsigned(v: &Vec<char>, from: usize, to: usize, max: u64) -> (r: Option<u64>)
    requires
        from <= to <= v.len(),
    ensures
        match r {
            Some(n) => unsigned(v@.subrange(from as int, to as int), max as nat) == Some(n as nat),
            None => unsigned(v@.subrange(from as int, to as int), max as nat) is None,
        },
{
    let start: usize = if from < to && v[from] == '+' {
        from + 1
    } else {
        from
    };
    assert(unsigned_digits(v@.subrange(from as int, to as int)) =~= v@.subrange(
        start as int,
        to as int,
    ));
    parse_digits(v, start, to, max)
}

/// Whether `v[from..to]` begins with the characters of `prefix`.
pub fn starts_with(v: &Vec<char>, from: usize, to: usize, prefix: &Vec<char>) -> (r: bool)
    requires
        from <= to <= v.len(),
    ensures
        r == prefix@.is_prefix_of(v@.subrange(from as int, to as int)),
{
    let ghost s = v@.subrange(from as int, to as int);
    let m = prefix.len();
    if m > to - from {
        return false;
    }
    let mut k: usize = 0;
    while k < m
        invariant
            from <= to <= v.len(),
            k <= m == prefix.len(),
            m <= to - from,
            s == v@.subrange(from as int, to as int),
            forall|t: int| 0 <= t < k ==> prefix@[t] == s[t],
        decreases m - k,
    {
        if prefix[k] != v[from + k] {
            assert(s[k as int] == v@[from + k]);
            assert(s.subrange(0, m as int)[k as int] != prefix@[k as int]);
            return false;
        }
        assert(s[k as int] == v@[from + k]);
        k += 1;
    }
    assert(s.subrange(0, m as int) =~= prefix@);
    true
}

/// The unsigned 64-bit number that `s` writes, if it writes one.
pub open spec fn as_u64(s: Seq<char>) -> Option<u64> {
    match unsigned(s, u64::MAX as nat) {
        Some(n) => Some(n as u64),
        None => None,
    }
}

/// The unsigned 32-bit number that `s` writes, if it writes one.
pub open spec fn as_u32(s: Seq<char>) -> Option<u32> {
    match unsigned(s, u32::MAX as nat) {
        Some(n) => Some(n as u32),
        None => None,
    }
}

/// Reads `v[from..to]` as an unsigned 64-bit number.
pub fn parse_u64_in(v: &Vec<char>, from: usize, to: usize) -> (r: Option<u64>)
    requires
        from <= to <= v.len(),
    ensures
        r == as_u64(v@.subrange(from as int, to as int)),
{
    parse_unsigned(v, from, to, u64::MAX)
}

/// Reads the whole of `s` as an unsigned 64-bit number.
pub fn parse_u64(s: &str) -> (r: Option<u64>)
    ensures
        r == as_u64(s@),
{
    let v = chars_of(s);
    assert(v@.subrange(0, v.len() as int) =~= s@);
    parse_unsigned(&v, 0, v.len(), u64::MAX)
}

/// Reads the whole of `s` as an unsigned 32-bit number.
pub fn parse_u32(s: &str) -> (r: Option<u32>)
    ensures
        r == as_u32(s@),
{
    let v = chars_of(s);
    assert(v@.subrange(0, v.len() as int) =~= s@);
    match parse_unsigned(&v, 0, v.len(), 0xFFFF_FFFF) {
        Some(n) => Some(n as u32),
        None => None,
    }
}

/// Whether two string slices hold the same characters.
pub fn same_text(a: &str, b: &str) -> (r: bool)
    ensures
        r == (a@ == b@),
{
    let x = chars_of(a);
    let y = chars_of(b);
    if x.len() != y.len() {
        return false;
    }
    let mut i: usize = 0;
    while i < x.len()
        invariant
            i <= x.len() == y.len(),
            x@ == a@,
            y@ == b@,
            forall|k: int| 0 <= k < i ==> x@[k] == y@[k],
        decreases x.len() - i,
    {
        if x[i] != y[i] {
            return false;
        }
        i += 1;
    }
    assert(x@ =~= y@);
    true
}

/// The number of whitespace characters at the start of `s`.
pub open spec fn leading_spaces(s: Seq<char>) -> nat
    decreases s.len(),
{
    if s.len() > 0 && is_space(s[0]) {
        1 + leading_spaces(s.skip(1))
    } else {
        0
    }
}

/// The number of whitespace characters at the end of `s`.
pub open spec fn trailing_spaces(s: Seq<char>) -> nat
    decreases s.len(),
{
    if s.len() > 0 && is_space(s.last()) {
        1 + trailing_spaces(s.drop_last())
    } else {
        0
    }
}

/// `s` without the whitespace at its start and at its end.
pub open spec fn trim(s: Seq<char>) -> Seq<char> {
    let rest = s.skip(leading_spaces(s) as int);
    rest.take(rest.len() - trailing_spaces(rest))
}

/// A run of `n` whitespace characters that ends at another character or
/// at the end of the text is all the leading whitespace.
pub proof fn lemma_leading_spaces_is(s: Seq<char>, n: int)
    requires
        0 <= n <= s.len(),
        forall|k: int| 0 <= k < n ==> is_space(#[trigger] s[k]),
        n == s.len() || !is_space(s[n]),
    ensures
        leading_spaces(s) == n,
    decreases n,
{
    if n > 0 {
        assert(is_space(s[0]));
        let t = s.skip(1);
        assert forall|k: int| 0 <= k < n - 1 implies is_space(#[trigger] t[k]) by {
            assert(t[k] == s[k + 1]);
        }
        lemma_leading_spaces_is(t, n - 1);
    }
}

/// A run of `n` whitespace characters at the end of the text that follows
/// another character or the start of the text is all the trailing
/// whitespace.
pub proof fn lemma_trailing_spaces_is(s: Seq<char>, n: int)
    requires
        0 <= n <= s.len(),
        forall|k: int| s.len() - n <= k < s.len() ==> is_space(#[trigger] s[k]),
        n == s.len() || !is_space(s[s.len() - n - 1]),
    ensures
        trailing_spaces(s) == n,
    decreases n,
{
    if n > 0 {
        assert(is_space(s[s.len() - 1]));
        let t = s.drop_last();
        assert forall|k: int| t.len() - (n - 1) <= k < t.len() implies is_space(
            #[trigger] t[k],
        ) by {
            assert(t[k] == s[k]);
        }
        lemma_trailing_spaces_is(t, n - 1);
    }
}

/// The part of `v` that is left when the whitespace at both ends is
/// taken away.
pub fn trim_span(v: &Vec<char>) -> (r: Span)
    ensures
        r.within(v@),
        r.of(v@) == trim(v@),
        r.start < r.end ==> !is_space(v@[r.start as int]),
{
    let n = v.len();
    let mut a: usize = 0;
    while a < n && char_is_space(v[a])
        invariant
            a <= n == v.len(),
            forall|k: int| 0 <= k < a ==> is_space(#[trigger] v@[k]),
        decreases n - a,
    {
        a += 1;
    }
    let mut b: usize = n;
    while b > a && char_is_space(v[b - 1])
        invariant
            a <= b <= n == v.len(),
            forall|k: int| b <= k < n ==> is_space(#[trigger] v@[k]),
        decreases b,
    {
        b -= 1;
    }
    proof {
        lemma_leading_spaces_is(v@, a as int);
        let rest = v@.skip(a as int);
        assert forall|k: int| rest.len() - (n - b) <= k < rest.len() implies is_space(
            #[trigger] rest[k],
        ) by {
            assert(rest[k] == v@[a + k]);
        }
        if n - b < rest.len() {
            assert(rest[rest.len() - (n - b) - 1] == v@[b - 1]);
        }
        lemma_trailing_spaces_is(rest, n - b);
        assert(rest.take(rest.len() - (n - b)) =~= v@.subrange(a as int, b as int));
    }
    Span { start: a, end: b }
}

/// Where `c` first occurs in `v`.
pub fn find_first(v: &Vec<char>, c: char) -> (r: Option<usize>)
    ensures
        match r {
            Some(i) => v@.index_of_first(c) == Some(i as int),
            None => v@.index_of_first(c) is None,
        },
{
    let mut i: usize = 0;
    while i < v.len()
        invariant
            i <= v.len(),
            forall|k: int| 0 <= k < i ==> #[trigger] v@[k] != c,
        decreases v.len() - i,
    {
        if v[i] == c {
            proof {
                v@.index_of_first_ensures(c);
                assert(v@.contains(c));
                let first = v@.index_of_first(c).unwrap();
                assert(v@[first] == c);
                assert(v@[i as int] == c);
            }
            return Some(i);
        }
        i += 1;
    }
    proof {
        v@.index_of_first_ensures(c);
        if v@.index_of_first(c) is Some {
            let first = v@.index_of_first(c).unwrap();
            assert(v@[first] == c);
        }
    }
    None
}

/// Where `c` last occurs in `v`.
pub fn find_last(v: &Vec<char>, c: char) -> (r: Option<usize>)
    ensures
        match r {
            Some(i) => v@.index_of_last(c) == Some(i as int),
            None => v@.index_of_last(c) is None,
        },
{
    let mut i: usize = v.len();
    while i > 0
        invariant
            i <= v.len(),
            forall|k: int| i <= k < v.len() ==> #[trigger] v@[k] != c,
        decreases i,
    {
        if v[i - 1] == c {
            proof {
                v@.index_of_last_ensures(c);
                assert(v@.contains(c));
                let last = v@.index_of_last(c).unwrap();
                assert(v@[last] == c);
                assert(v@[i - 1] == c);
            }
            return Some(i - 1);
        }
        i -= 1;
    }
    proof {
        v@.index_of_last_ensures(c);
        if v@.index_of_last(c) is Some {
            let last = v@.index_of_last(c).unwrap();
            assert(v@[last] == c);
        }
    }
    None
}

/// A copy of the characters that `span` covers.
pub fn copy_span(v: &Vec<char>, span: Span) -> (r: Vec<char>)
    requires
        span.within(v@),
    ensures
        r@ == span.of(v@),
{
    let mut r: Vec<char> = Vec::new();
    let mut i: usize = span.start;
    while i < span.end
        invariant
            span.start <= i <= span.end <= v.len(),
            r@ == v@.subrange(span.start as int, i as int),
        decreases span.end - i,
    {
        r.push(v[i]);
        assert(r@ =~= v@.subrange(span.start as int, i + 1));
        i += 1;
    }
    r
}

/// Ten to the power `n`.
pub open spec fn pow10(n: nat) -> nat
    decreases n,
{
    if n == 0 {
        1
    } else {
        10 * pow10((n - 1) as nat)
    }
}

/// `n` digits write a number below ten to the power `n`.
pub proof fn lemma_decimal_bound(s: Seq<char>)
    requires
        all_digits(s),
    ensures
        decimal(s) < pow10(s.len()),
    decreases s.len(),
{
    if s.len() > 0 {
        let t = s.drop_last();
        assert forall|i: int| 0 <= i < t.len() implies is_digit(#[trigger] t[i]) by {
            assert(t[i] == s[i]);
        }
        lemma_decimal_bound(t);
        assert(is_digit(s[s.len() - 1]));
    }
}

} // verus!
