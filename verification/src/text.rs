//! Character sequences: whitespace, trimming, words, lines and decimal numbers.
//!
//! Every function here is stated over `Seq<char>`; the executable versions work
//! on a slice of characters and a half-open range `[start, end)` into it.

use vstd::prelude::*;
use vstd::string::*;

verus! {

/// The characters with the Unicode property `White_Space`.
pub open spec fn is_whitespace(c: char) -> bool {
    let u = c as u32;
    ||| 0x09 <= u <= 0x0D
    ||| u == 0x20
    ||| u == 0x85
    ||| u == 0xA0
    ||| u == 0x1680
    ||| 0x2000 <= u <= 0x200A
    ||| u == 0x2028
    ||| u == 0x2029
    ||| u == 0x202F
    ||| u == 0x205F
    ||| u == 0x3000
}

/// Whether a character is whitespace.
pub fn is_whitespace_char(c: char) -> (b: bool)
    ensures
        b == is_whitespace(c),
{
    let u: u32 = c as u32;
    (0x09 <= u && u <= 0x0D) || u == 0x20 || u == 0x85 || u == 0xA0 || u == 0x1680 || (0x2000 <= u
        && u <= 0x200A) || u == 0x2028 || u == 0x2029 || u == 0x202F || u == 0x205F || u == 0x3000
}

/// The first index at which `c` stands in `s`, or `s.len()` where it does not occur.
pub open spec fn position(s: Seq<char>, c: char) -> int
    decreases s.len(),
{
    if s.len() == 0 || s[0] == c {
        0
    } else {
        1 + position(s.drop_first(), c)
    }
}

/// `position` is an index of `c`, or the end, with no `c` before it.
pub proof fn lemma_position(s: Seq<char>, c: char)
    ensures
        0 <= position(s, c) <= s.len(),
        position(s, c) < s.len() ==> s[position(s, c)] == c,
        forall|j: int| 0 <= j < position(s, c) ==> s[j] != c,
    decreases s.len(),
{
    if s.len() == 0 || s[0] == c {
    } else {
        let t = s.drop_first();
        lemma_position(t, c);
        assert forall|j: int| 0 <= j < position(s, c) implies s[j] != c by {
            if j > 0 {
                assert(s[j] == t[j - 1]);
            }
        }
    }
}

/// `position` is the only index that has `c` (or the end) with no `c` before it.
pub proof fn lemma_position_unique(s: Seq<char>, c: char, k: int)
    requires
        0 <= k <= s.len(),
        k < s.len() ==> s[k] == c,
        forall|j: int| 0 <= j < k ==> s[j] != c,
    ensures
        position(s, c) == k,
{
    lemma_position(s, c);
    let p = position(s, c);
    if p < k {
        assert(s[p] != c);
    }
}

/// Finds the first `c` in `chars[start..end]`; the result is `end` where there is none.
pub(crate) fn find_char(chars: &[char], start: usize, end: usize, c: char) -> (at: usize)
    requires
        start <= end <= chars@.len(),
    ensures
        start <= at <= end,
        at - start == position(chars@.subrange(start as int, end as int), c),
{
    let mut i: usize = start;
    while i < end && chars[i] != c
        invariant
            start <= i <= end <= chars@.len(),
            forall|j: int| start <= j < i ==> chars@[j] != c,
        decreases end - i,
    {
        i += 1;
    }
    proof {
        let s = chars@.subrange(start as int, end as int);
        assert forall|j: int| 0 <= j < i - start implies s[j] != c by {
            assert(s[j] == chars@[start + j]);
        }
        lemma_position_unique(s, c, i - start);
    }
    i
}

/// The length of the longest prefix of `s` whose characters are all whitespace
/// (`ws` true) or all not whitespace (`ws` false).
pub open spec fn leading(s: Seq<char>, ws: bool) -> int
    decreases s.len(),
{
    if s.len() == 0 || is_whitespace(s[0]) != ws {
        0
    } else {
        1 + leading(s.drop_first(), ws)
    }
}

/// `leading` is where the first character of the other kind stands, or the end.
pub proof fn lemma_leading(s: Seq<char>, ws: bool)
    ensures
        0 <= leading(s, ws) <= s.len(),
        leading(s, ws) < s.len() ==> is_whitespace(s[leading(s, ws)]) != ws,
        forall|j: int| 0 <= j < leading(s, ws) ==> is_whitespace(s[j]) == ws,
    decreases s.len(),
{
    if s.len() == 0 || is_whitespace(s[0]) != ws {
    } else {
        let t = s.drop_first();
        lemma_leading(t, ws);
        assert forall|j: int| 0 <= j < leading(s, ws) implies is_whitespace(s[j]) == ws by {
            if j > 0 {
                assert(s[j] == t[j - 1]);
            }
        }
    }
}

/// `leading` is the only length with that property.
pub proof fn lemma_leading_unique(s: Seq<char>, ws: bool, k: int)
    requires
        0 <= k <= s.len(),
        k < s.len() ==> is_whitespace(s[k]) != ws,
        forall|j: int| 0 <= j < k ==> is_whitespace(s[j]) == ws,
    ensures
        leading(s, ws) == k,
{
    lemma_leading(s, ws);
    let p = leading(s, ws);
    if p < k {
        assert(is_whitespace(s[p]) == ws);
    }
}

/// The number of whitespace characters at the end of `s`.
pub open spec fn trailing_whitespace(s: Seq<char>) -> int
    decreases s.len(),
{
    if s.len() == 0 || !is_whitespace(s.last()) {
        0
    } else {
        1 + trailing_whitespace(s.drop_last())
    }
}

/// `trailing_whitespace` counts exactly the whitespace after the last other character.
pub proof fn lemma_trailing_whitespace(s: Seq<char>)
    ensures
        0 <= trailing_whitespace(s) <= s.len(),
        trailing_whitespace(s) < s.len() ==> !is_whitespace(
            s[s.len() - 1 - trailing_whitespace(s)],
        ),
        forall|j: int| s.len() - trailing_whitespace(s) <= j < s.len() ==> is_whitespace(s[j]),
    decreases s.len(),
{
    if s.len() == 0 || !is_whitespace(s.last()) {
    } else {
        let t = s.drop_last();
        lemma_trailing_whitespace(t);
        assert forall|j: int| s.len() - trailing_whitespace(s) <= j < s.len() implies is_whitespace(
            s[j],
        ) by {
            if j < s.len() - 1 {
                assert(s[j] == t[j]);
            }
        }
    }
}

/// `trailing_whitespace` is the only number with that property.
pub proof fn lemma_trailing_whitespace_unique(s: Seq<char>, k: int)
    requires
        0 <= k <= s.len(),
        k < s.len() ==> !is_whitespace(s[s.len() - 1 - k]),
        forall|j: int| s.len() - k <= j < s.len() ==> is_whitespace(s[j]),
    ensures
        trailing_whitespace(s) == k,
{
    lemma_trailing_whitespace(s);
    let p = trailing_whitespace(s);
    if p < k {
        assert(is_whitespace(s[s.len() - 1 - p]));
    }
    if k < p {
        assert(is_whitespace(s[s.len() - 1 - k]));
    }
}

/// `s` without the whitespace at its two ends.
pub open spec fn trim(s: Seq<char>) -> Seq<char> {
    let rest = s.skip(leading(s, true));
    rest.take(rest.len() - trailing_whitespace(rest))
}

/// The range of `chars[start..end]` that is left when the whitespace at both ends is taken off.
pub(crate) fn trim_range(chars: &[char], start: usize, end: usize) -> (r: (usize, usize))
    requires
        start <= end <= chars@.len(),
    ensures
        start <= r.0 <= r.1 <= end,
        chars@.subrange(r.0 as int, r.1 as int) == trim(chars@.subrange(start as int, end as int)),
{
    let mut a: usize = start;
    while a < end && is_whitespace_char(chars[a])
        invariant
            start <= a <= end <= chars@.len(),
            forall|j: int| start <= j < a ==> is_whitespace(chars@[j]),
        decreases end - a,
    {
        a += 1;
    }
    let mut b: usize = end;
    while a < b && is_whitespace_char(chars[b - 1])
        invariant
            a <= b <= end <= chars@.len(),
            forall|j: int| b <= j < end ==> is_whitespace(chars@[j]),
        decreases b - a,
    {
        b -= 1;
    }
    proof {
        let s = chars@.subrange(start as int, end as int);
        assert forall|j: int| 0 <= j < a - start implies is_whitespace(s[j]) by {
            assert(s[j] == chars@[start + j]);
        }
        lemma_leading_unique(s, true, a - start);
        let rest = s.skip(a - start);
        assert(rest =~= chars@.subrange(a as int, end as int));
        assert forall|j: int| rest.len() - (end - b) <= j < rest.len() implies is_whitespace(
            rest[j],
        ) by {
            assert(rest[j] == chars@[a + j]);
        }
        lemma_trailing_whitespace_unique(rest, end - b);
        assert(rest.take(rest.len() - (end - b)) =~= chars@.subrange(a as int, b as int));
    }
    (a, b)
}

/// The pieces of `chars` that a list of ranges names.
pub open spec fn pieces(chars: Seq<char>, ranges: Seq<(usize, usize)>) -> Seq<Seq<char>> {
    Seq::new(ranges.len(), |k: int| chars.subrange(ranges[k].0 as int, ranges[k].1 as int))
}

/// Whether every range lies inside `[start, end)` with its ends in order.
pub open spec fn ranges_within(ranges: Seq<(usize, usize)>, start: int, end: int) -> bool {
    forall|k: int| 0 <= k < ranges.len() ==> start <= (#[trigger] ranges[k]).0 <= ranges[k].1 <= end
}

/// The maximal runs of characters that are not whitespace, in order.
pub open spec fn words(s: Seq<char>) -> Seq<Seq<char>>
    decreases s.len(),
{
    let a = leading(s, true);
    let n = leading(s.skip(a), false);
    if 0 <= a && 0 < n && a + n <= s.len() {
        seq![s.subrange(a, a + n)] + words(s.skip(a + n))
    } else {
        seq![]
    }
}

/// The words of `chars[start..end]`, each as a range into `chars`.
pub(crate) fn split_words(chars: &[char], start: usize, end: usize) -> (out: Vec<(usize, usize)>)
    requires
        start <= end <= chars@.len(),
    ensures
        ranges_within(out@, start as int, end as int),
        pieces(chars@, out@) == words(chars@.subrange(start as int, end as int)),
{
    let mut out: Vec<(usize, usize)> = Vec::new();
    let mut i: usize = start;
    let ghost whole = chars@.subrange(start as int, end as int);
    proof {
        assert(whole.skip(0) =~= whole);
        assert(pieces(chars@, out@) =~= Seq::<Seq<char>>::empty());
    }
    while i < end
        invariant
            start <= i <= end <= chars@.len(),
            whole == chars@.subrange(start as int, end as int),
            ranges_within(out@, start as int, end as int),
            words(whole) == pieces(chars@, out@) + words(whole.skip(i - start)),
        decreases end - i,
    {
        let ghost rest = whole.skip(i - start);
        let mut a: usize = i;
        while a < end && is_whitespace_char(chars[a])
            invariant
                i <= a <= end <= chars@.len(),
                forall|j: int| i <= j < a ==> is_whitespace(chars@[j]),
            decreases end - a,
        {
            a += 1;
        }
        let mut b: usize = a;
        while b < end && !is_whitespace_char(chars[b])
            invariant
                a <= b <= end <= chars@.len(),
                forall|j: int| a <= j < b ==> !is_whitespace(chars@[j]),
            decreases end - b,
        {
            b += 1;
        }
        proof {
            assert forall|j: int| 0 <= j < a - i implies is_whitespace(rest[j]) by {
                assert(rest[j] == chars@[i + j]);
            }
            lemma_leading_unique(rest, true, a - i);
            let tail = rest.skip(a - i);
            assert forall|j: int| 0 <= j < b - a implies !is_whitespace(tail[j]) by {
                assert(tail[j] == chars@[a + j]);
            }
            lemma_leading_unique(tail, false, b - a);
            assert(rest.skip((a - i) + (b - a)) =~= whole.skip(b - start));
            assert(rest.subrange(a - i, (a - i) + (b - a)) =~= chars@.subrange(a as int, b as int));
        }
        if a < b {
            let ghost before = out@;
            out.push((a, b));
            proof {
                assert(pieces(chars@, out@) =~= pieces(chars@, before) + seq![
                    chars@.subrange(a as int, b as int),
                ]);
            }
        } else {
            proof {
                assert(b == end);
                assert(words(whole.skip(b - start)) =~= Seq::<Seq<char>>::empty());
            }
        }
        i = b;
    }
    proof {
        assert(words(whole.skip(end - start)) =~= Seq::<Seq<char>>::empty());
    }
    out
}

/// `s` without one carriage return at its end, where it has one.
pub open spec fn strip_cr(s: Seq<char>) -> Seq<char> {
    if s.len() > 0 && s.last() == '\r' {
        s.drop_last()
    } else {
        s
    }
}

/// The lines of `s`. A line ends at a line feed, or at a carriage return followed by
/// a line feed; the last line need not be ended, and an empty text has no line.
pub open spec fn lines(s: Seq<char>) -> Seq<Seq<char>>
    decreases s.len(),
{
    if s.len() == 0 {
        seq![]
    } else {
        let k = position(s, '\n');
        if 0 <= k < s.len() {
            seq![strip_cr(s.take(k))] + lines(s.skip(k + 1))
        } else {
            seq![s]
        }
    }
}

/// The lines of `chars[start..end]`, each as a range into `chars`.
pub(crate) fn split_lines(chars: &[char], start: usize, end: usize) -> (out: Vec<(usize, usize)>)
    requires
        start <= end <= chars@.len(),
    ensures
        ranges_within(out@, start as int, end as int),
        pieces(chars@, out@) == lines(chars@.subrange(start as int, end as int)),
{
    let mut out: Vec<(usize, usize)> = Vec::new();
    let mut i: usize = start;
    let ghost whole = chars@.subrange(start as int, end as int);
    proof {
        assert(whole.skip(0) =~= whole);
        assert(pieces(chars@, out@) =~= Seq::<Seq<char>>::empty());
    }
    while i < end
        invariant
            start <= i <= end <= chars@.len(),
            whole == chars@.subrange(start as int, end as int),
            ranges_within(out@, start as int, end as int),
            lines(whole) == pieces(chars@, out@) + lines(whole.skip(i - start)),
        decreases end - i,
    {
        let ghost rest = whole.skip(i - start);
        let ghost before = out@;
        let k = find_char(chars, i, end, '\n');
        proof {
            assert(rest =~= chars@.subrange(i as int, end as int));
        }
        if k < end {
            let stop = if i < k && chars[k - 1] == '\r' {
                k - 1
            } else {
                k
            };
            out.push((i, stop));
            proof {
                assert(rest.take(k - i) =~= chars@.subrange(i as int, k as int));
                assert(strip_cr(rest.take(k - i)) =~= chars@.subrange(i as int, stop as int));
                assert(rest.skip(k - i + 1) =~= whole.skip(k + 1 - start));
                assert(pieces(chars@, out@) =~= pieces(chars@, before) + seq![
                    chars@.subrange(i as int, stop as int),
                ]);
            }
            i = k + 1;
        } else {
            out.push((i, end));
            proof {
                assert(whole.skip(end - start).len() == 0);
                assert(pieces(chars@, out@) =~= pieces(chars@, before) + seq![rest]);
            }
            i = end;
        }
    }
    proof {
        assert(whole.skip(end - start).len() == 0);
    }
    out
}

/// The pieces of `s` between the occurrences of `sep`: one more than there are separators.
pub open spec fn split(s: Seq<char>, sep: char) -> Seq<Seq<char>>
    decreases s.len(),
{
    let k = position(s, sep);
    if 0 <= k < s.len() {
        seq![s.take(k)] + split(s.skip(k + 1), sep)
    } else {
        seq![s]
    }
}

/// The pieces of `chars[start..end]` between the occurrences of `sep`, as ranges into `chars`.
pub(crate) fn split_on(chars: &[char], start: usize, end: usize, sep: char) -> (out: Vec<
    (usize, usize),
>)
    requires
        start <= end <= chars@.len(),
    ensures
        ranges_within(out@, start as int, end as int),
        pieces(chars@, out@) == split(chars@.subrange(start as int, end as int), sep),
{
    let mut out: Vec<(usize, usize)> = Vec::new();
    let mut i: usize = start;
    let ghost whole = chars@.subrange(start as int, end as int);
    proof {
        assert(whole.skip(0) =~= whole);
        assert(pieces(chars@, out@) =~= Seq::<Seq<char>>::empty());
    }
    loop
        invariant_except_break
            split(whole, sep) == pieces(chars@, out@) + split(whole.skip(i - start), sep),
        invariant
            start <= i <= end <= chars@.len(),
            whole == chars@.subrange(start as int, end as int),
            ranges_within(out@, start as int, end as int),
        ensures
            ranges_within(out@, start as int, end as int),
            pieces(chars@, out@) == split(whole, sep),
        decreases end - i,
    {
        let ghost rest = whole.skip(i - start);
        let ghost before = out@;
        let k = find_char(chars, i, end, sep);
        proof {
            assert(rest =~= chars@.subrange(i as int, end as int));
        }
        out.push((i, k));
        if k < end {
            proof {
                assert(rest.take(k - i) =~= chars@.subrange(i as int, k as int));
                assert(rest.skip(k - i + 1) =~= whole.skip(k + 1 - start));
                assert(pieces(chars@, out@) =~= pieces(chars@, before) + seq![
                    chars@.subrange(i as int, k as int),
                ]);
            }
            i = k + 1;
        } else {
            proof {
                assert(pieces(chars@, out@) =~= pieces(chars@, before) + seq![rest]);
            }
            break ;
        }
    }
    out
}

/// Whether `chars[start..end]` spells `word`.
pub(crate) fn range_is(chars: &[char], start: usize, end: usize, word: &str) -> (b: bool)
    requires
        start <= end <= chars@.len(),
    ensures
        b == (chars@.subrange(start as int, end as int) == word@),
{
    let n = word.unicode_len();
    if end - start != n {
        return false;
    }
    let mut i: usize = 0;
    while i < n
        invariant
            0 <= i <= n,
            n == word@.len(),
            start + n == end,
            end <= chars@.len(),
            forall|j: int| 0 <= j < i ==> chars@[start + j] == word@[j],
        decreases n - i,
    {
        if chars[start + i] != word.get_char(i) {
            proof {
                assert(chars@.subrange(start as int, end as int)[i as int] != word@[i as int]);
            }
            return false;
        }
        i += 1;
    }
    proof {
        assert(chars@.subrange(start as int, end as int) =~= word@);
    }
    true
}

/// Whether `chars` begins with `word`.
pub(crate) fn begins_with(chars: &[char], word: &str) -> (b: bool)
    ensures
        b == word@.is_prefix_of(chars@),
{
    let n = word.unicode_len();
    if chars.len() < n {
        return false;
    }
    let b = range_is(chars, 0, n, word);
    proof {
        assert(chars@.subrange(0, n as int) =~= chars@.take(n as int));
        if word@.is_prefix_of(chars@) {
            assert(chars@.take(n as int) =~= word@);
        }
    }
    b
}

/// Whether a character is one of the decimal digits `0` to `9`.
pub open spec fn is_digit(c: char) -> bool {
    0x30 <= c as u32 <= 0x39
}

/// The number that a decimal digit stands for.
pub open spec fn digit_value(c: char) -> nat {
    (c as u32 - 0x30) as nat
}

/// Whether a text holds decimal digits only.
pub open spec fn all_digits(s: Seq<char>) -> bool {
    forall|i: int| 0 <= i < s.len() ==> is_digit(#[trigger] s[i])
}

/// The number that a run of decimal digits writes.
pub open spec fn digits_value(s: Seq<char>) -> nat
    decreases s.len(),
{
    if s.len() == 0 {
        0
    } else {
        digits_value(s.drop_last()) * 10 + digit_value(s.last())
    }
}

/// The number that `s` writes in decimal: an optional `+`, then one digit or more and nothing else.
pub open spec fn parse_decimal(s: Seq<char>) -> Option<nat> {
    let digits = if s.len() > 0 && s[0] == '+' {
        s.drop_first()
    } else {
        s
    };
    if digits.len() > 0 && all_digits(digits) {
        Some(digits_value(digits))
    } else {
        None
    }
}

/// `parse_decimal`, for a number that fits a `usize`.
pub open spec fn parse_decimal_usize(s: Seq<char>) -> Option<usize> {
    match parse_decimal(s) {
        Some(n) => if n <= usize::MAX {
            Some(n as usize)
        } else {
            None
        },
        None => None,
    }
}

/// The digits at the front of a number write a number that is not greater.
pub proof fn lemma_digits_value_prefix(s: Seq<char>, k: int)
    requires
        0 <= k <= s.len(),
    ensures
        digits_value(s.take(k)) <= digits_value(s),
    decreases s.len(),
{
    if k == s.len() {
        assert(s.take(k) =~= s);
    } else {
        let t = s.drop_last();
        assert(t.take(k) =~= s.take(k));
        lemma_digits_value_prefix(t, k);
    }
}

/// Reads `chars[start..end]` as a decimal number.
pub(crate) fn read_decimal(chars: &[char], start: usize, end: usize) -> (r: Option<usize>)
    requires
        start <= end <= chars@.len(),
    ensures
        r == parse_decimal_usize(chars@.subrange(start as int, end as int)),
{
    let ghost whole = chars@.subrange(start as int, end as int);
    let first: usize = if start < end && chars[start] == '+' {
        start + 1
    } else {
        start
    };
    let ghost digits = chars@.subrange(first as int, end as int);
    proof {
        if first > start {
            assert(whole.drop_first() =~= digits);
        } else {
            assert(whole =~= digits);
        }
    }
    if first == end {
        return None;
    }
    let mut value: usize = 0;
    let mut i: usize = first;
    proof {
        assert(digits.take(0) =~= Seq::<char>::empty());
    }
    while i < end
        invariant
            first <= i <= end <= chars@.len(),
            first < end,
            digits == chars@.subrange(first as int, end as int),
            whole == chars@.subrange(start as int, end as int),
            parse_decimal(whole) == if all_digits(digits) {
                Some(digits_value(digits))
            } else {
                None::<nat>
            },
            all_digits(digits.take(i - first)),
            value == digits_value(digits.take(i - first)),
        decreases end - i,
    {
        let c = chars[i];
        let u: u32 = c as u32;
        if u < 0x30 || u > 0x39 {
            proof {
                assert(digits[i - first] == c);
                assert(!is_digit(digits[i - first]));
            }
            return None;
        }
        let d: usize = (u - 0x30) as usize;
        let ghost next = digits.take(i - first + 1);
        proof {
            assert(next.drop_last() =~= digits.take(i - first));
            assert(next.last() == c);
            assert(digits_value(next) == value * 10 + d);
            lemma_digits_value_prefix(digits, i - first + 1);
            assert forall|j: int| 0 <= j < next.len() implies is_digit(#[trigger] next[j]) by {
                if j < i - first {
                    assert(next[j] == digits.take(i - first)[j]);
                }
            }
        }
        let tenfold = match value.checked_mul(10) {
            Some(t) => t,
            None => {
                return None;
            },
        };
        value = match tenfold.checked_add(d) {
            Some(v) => v,
            None => {
                return None;
            },
        };
        i += 1;
    }
    proof {
        assert(digits.take(end - first) =~= digits);
    }
    Some(value)
}

/// The character that writes a digit below ten.
pub open spec fn digit_char(d: nat) -> char {
    if d == 0 {
        '0'
    } else if d == 1 {
        '1'
    } else if d == 2 {
        '2'
    } else if d == 3 {
        '3'
    } else if d == 4 {
        '4'
    } else if d == 5 {
        '5'
    } else if d == 6 {
        '6'
    } else if d == 7 {
        '7'
    } else if d == 8 {
        '8'
    } else {
        '9'
    }
}

/// The decimal digits of `n`, without a sign or leading zeros.
pub open spec fn decimal_text(n: nat) -> Seq<char>
    decreases n,
{
    if n < 10 {
        seq![digit_char(n)]
    } else {
        decimal_text(n / 10).push(digit_char(n % 10))
    }
}

/// The text of one digit.
fn digit_str(d: u64) -> (s: &'static str)
    requires
        d < 10,
    ensures
        s@ == seq![digit_char(d as nat)],
{
    proof {
        reveal_strlit("0");
        reveal_strlit("1");
        reveal_strlit("2");
        reveal_strlit("3");
        reveal_strlit("4");
        reveal_strlit("5");
        reveal_strlit("6");
        reveal_strlit("7");
        reveal_strlit("8");
        reveal_strlit("9");
    }
    let s = if d == 0 {
        "0"
    } else if d == 1 {
        "1"
    } else if d == 2 {
        "2"
    } else if d == 3 {
        "3"
    } else if d == 4 {
        "4"
    } else if d == 5 {
        "5"
    } else if d == 6 {
        "6"
    } else if d == 7 {
        "7"
    } else if d == 8 {
        "8"
    } else {
        "9"
    };
    assert(s@ =~= seq![digit_char(d as nat)]);
    s
}

/// Appends the decimal digits of `n` to `out`.
pub fn push_decimal(out: &mut String, n: u64)
    ensures
        final(out)@ == old(out)@ + decimal_text(n as nat),
    decreases n,
{
    if n >= 10 {
        push_decimal(out, n / 10);
    }
    let ghost before = out@;
    out.append(digit_str(n % 10));
    proof {
        if n >= 10 {
            assert(before + seq![digit_char((n % 10) as nat)] =~= old(out)@ + decimal_text(
                (n / 10) as nat,
            ).push(digit_char((n % 10) as nat)));
        }
    }
}

/// The characters of a text, one by one.
pub fn chars_of(text: &str) -> (chars: Vec<char>)
    ensures
        chars@ == text@,
{
    let mut chars: Vec<char> = Vec::new();
    for c in it: text.chars()
        invariant
            chars@ == it.seq().take(it.index() as int),
            it.seq() == text@,
    {
        chars.push(c);
    }
    chars
}

/// A copy of the characters `[start, end)` of `text`.
pub(crate) fn copy_range(text: &str, start: usize, end: usize) -> (piece: String)
    requires
        start <= end <= text@.len(),
    ensures
        piece@ == text@.subrange(start as int, end as int),
{
    text.substring_char(start, end).to_owned()
}

} // verus!
