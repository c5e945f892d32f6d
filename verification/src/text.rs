//! Character sequences: the searches, cuts and replacements that the
//! server's text formats are built from, each stated over `Seq<char>`.

use vstd::prelude::*;

verus! {

/// `String::push` of the standard library appends one character to the end
/// of the string and leaves the rest as it was.
pub assume_specification[ String::push ](s: &mut String, c: char)
    ensures
        final(s)@ == old(s)@.push(c),
;

/// The characters of a string slice, in order.
pub fn chars_of(s: &str) -> (v: Vec<char>)
    ensures
        v@ == s@,
{
    broadcast use vstd::string::group_string_axioms;

    let mut v: Vec<char> = Vec::new();
    for c in it: s.chars()
        invariant
            it.seq() == s@,
            v@ == s@.take(it.index() as int),
    {
        v.push(c);
    }
    v
}

/// The string made of the given characters, in order.
pub fn string_of(v: &Vec<char>) -> (s: String)
    ensures
        s@ == v@,
{
    let mut s = String::new();
    let mut i: usize = 0;
    while i < v.len()
        invariant
            i <= v.len(),
            s@ == v@.take(i as int),
        decreases v.len() - i,
    {
        s.push(v[i]);
        i += 1;
    }
    s
}

/// Appends every character of `tail` to `out`.
pub fn append_chars(out: &mut Vec<char>, tail: &Vec<char>)
    ensures
        final(out)@ == old(out)@ + tail@,
{
    let mut i: usize = 0;
    while i < tail.len()
        invariant
            i <= tail.len(),
            out@ == old(out)@ + tail@.take(i as int),
        decreases tail.len() - i,
    {
        out.push(tail[i]);
        i += 1;
    }
}

/// Whether `pat` occurs in `s` starting exactly at index `at`.
pub fn occurs_at(s: &Vec<char>, at: usize, pat: &Vec<char>) -> (found: bool)
    requires
        at <= s.len(),
    ensures
        found == pat@.is_prefix_of(s@.skip(at as int)),
{
    if pat.len() > s.len() - at {
        return false;
    }
    let mut k: usize = 0;
    while k < pat.len()
        invariant
            at <= s.len(),
            pat.len() <= s.len() - at,
            k <= pat.len(),
            forall|j: int| 0 <= j < k ==> pat@[j] == s@[at + j],
        decreases pat.len() - k,
    {
        if pat[k] != s[at + k] {
            assert(s@.skip(at as int)[k as int] == s@[at + k]);
            return false;
        }
        k += 1;
    }
    assert(pat@ =~= s@.skip(at as int).subrange(0, pat@.len() as int));
    true
}

/// Whether `s` begins with `prefix`.
pub fn starts_with(s: &Vec<char>, prefix: &Vec<char>) -> (found: bool)
    ensures
        found == prefix@.is_prefix_of(s@),
{
    assert(s@.skip(0) =~= s@);
    occurs_at(s, 0, prefix)
}

/// `s` with every occurrence of `pat` replaced by `with`. Occurrences are
/// found from the left and do not overlap; an empty `pat` matches before
/// every character and at the end.
pub open spec fn replace_all(s: Seq<char>, pat: Seq<char>, with: Seq<char>) -> Seq<char>
    decreases s.len(),
{
    if s.len() == 0 {
        if pat.len() == 0 {
            with
        } else {
            s
        }
    } else if pat.len() == 0 {
        with + seq![s[0]] + replace_all(s.skip(1), pat, with)
    } else if pat.is_prefix_of(s) {
        with + replace_all(s.skip(pat.len() as int), pat, with)
    } else {
        seq![s[0]] + replace_all(s.skip(1), pat, with)
    }
}

/// Replaces every occurrence of `pat` in `s` by `with`.
pub fn replace(s: &Vec<char>, pat: &Vec<char>, with: &Vec<char>) -> (out: Vec<char>)
    ensures
        out@ == replace_all(s@, pat@, with@),
{
    let mut out: Vec<char> = Vec::new();
    let mut i: usize = 0;
    assert(s@.skip(0) =~= s@);
    while i < s.len()
        invariant
            i <= s.len(),
            out@ + replace_all(s@.skip(i as int), pat@, with@) == replace_all(s@, pat@, with@),
        decreases s.len() - i,
    {
        let ghost rest = s@.skip(i as int);
        let ghost before = out@;
        assert(rest.len() > 0 && rest[0] == s@[i as int]);
        if pat.len() == 0 {
            append_chars(&mut out, with);
            out.push(s[i]);
            assert(rest.skip(1) =~= s@.skip(i + 1));
            assert(out@ =~= before + (with@ + seq![rest[0]]));
            assert(out@ + replace_all(rest.skip(1), pat@, with@) =~= before + replace_all(
                rest,
                pat@,
                with@,
            ));
            i += 1;
        } else if occurs_at(s, i, pat) {
            append_chars(&mut out, with);
            assert(rest.skip(pat@.len() as int) =~= s@.skip(i + pat@.len()));
            assert(out@ + replace_all(rest.skip(pat@.len() as int), pat@, with@) =~= before
                + replace_all(rest, pat@, with@));
            i += pat.len();
        } else {
            out.push(s[i]);
            assert(rest.skip(1) =~= s@.skip(i + 1));
            assert(out@ + replace_all(rest.skip(1), pat@, with@) =~= before + replace_all(
                rest,
                pat@,
                with@,
            ));
            i += 1;
        }
    }
    assert(s@.skip(i as int) =~= Seq::<char>::empty());
    if pat.len() == 0 {
        append_chars(&mut out, with);
    } else {
        assert(out@ + Seq::<char>::empty() =~= out@);
    }
    out
}

/// Length of the longest prefix of `s` whose characters all satisfy `keep`.
pub open spec fn span(s: Seq<char>, keep: spec_fn(char) -> bool) -> int
    decreases s.len(),
{
    if s.len() == 0 || !keep(s[0]) {
        0
    } else {
        1 + span(s.skip(1), keep)
    }
}

/// A prefix length is the span as soon as every character before it is
/// kept and the character at it, if there is one, is not.
pub proof fn lemma_span_is(s: Seq<char>, keep: spec_fn(char) -> bool, n: int)
    requires
        0 <= n <= s.len(),
        forall|j: int| 0 <= j < n ==> keep(#[trigger] s[j]),
        n < s.len() ==> !keep(s[n]),
    ensures
        span(s, keep) == n,
    decreases s.len(),
{
    if n > 0 {
        assert(keep(s[0]));
        let rest = s.skip(1);
        assert forall|j: int| 0 <= j < n - 1 implies keep(#[trigger] rest[j]) by {
            assert(rest[j] == s[j + 1]);
        }
        lemma_span_is(rest, keep, n - 1);
    }
}

/// The test that holds of every character but `c`.
pub open spec fn other_than(c: char) -> spec_fn(char) -> bool {
    |x: char| x != c
}

/// The test that holds of white space when `white` is set, and of
/// everything else when it is not.
pub open spec fn white_is(white: bool) -> spec_fn(char) -> bool {
    |x: char| is_white_space(x) == white
}

/// Index of the first `c` in `s`, or `s.len()` where `s` holds none.
pub open spec fn position(s: Seq<char>, c: char) -> int {
    span(s, other_than(c))
}

/// The part of `s` in front of its first `c`: all of `s` where it holds none.
pub open spec fn before(s: Seq<char>, c: char) -> Seq<char> {
    s.take(position(s, c))
}

/// Finds the first `c` at or after index `from`; the length of `s` if there
/// is none.
pub fn find_char(s: &Vec<char>, from: usize, c: char) -> (at: usize)
    requires
        from <= s.len(),
    ensures
        from <= at <= s.len(),
        at == from + position(s@.skip(from as int), c),
{
    let mut i: usize = from;
    while i < s.len() && s[i] != c
        invariant
            from <= i <= s.len(),
            forall|j: int| from <= j < i ==> s@[j] != c,
        decreases s.len() - i,
    {
        i += 1;
    }
    proof {
        lemma_span_is(s@.skip(from as int), other_than(c), i - from);
    }
    i
}

/// Copies the characters of `s` from index `from` up to, not including, `to`.
pub fn slice_of(s: &Vec<char>, from: usize, to: usize) -> (out: Vec<char>)
    requires
        from <= to <= s.len(),
    ensures
        out@ == s@.subrange(from as int, to as int),
{
    let mut out: Vec<char> = Vec::new();
    let mut i: usize = from;
    while i < to
        invariant
            from <= i <= to <= s.len(),
            out@ == s@.subrange(from as int, i as int),
        decreases to - i,
    {
        out.push(s[i]);
        i += 1;
    }
    out
}

/// Line `k` of `s`, counted from zero, where lines are the pieces between
/// line feeds; `None` where `s` has no more than `k` lines. A text without
/// a line feed is one line, and a trailing line feed ends in an empty line.
pub open spec fn nth_line(s: Seq<char>, k: nat) -> Option<Seq<char>>
    decreases k,
{
    let p = position(s, '\n');
    if k == 0 {
        Some(s.take(p))
    } else if p >= s.len() {
        None
    } else {
        nth_line(s.skip(p + 1), (k - 1) as nat)
    }
}

/// Cuts line `k` out of `s`.
pub fn line_at(s: &Vec<char>, k: usize) -> (found: Option<Vec<char>>)
    ensures
        found is Some <==> nth_line(s@, k as nat) is Some,
        found is Some ==> found->0@ == nth_line(s@, k as nat)->0,
{
    let mut start: usize = 0;
    let mut left: usize = k;
    assert(s@.skip(0) =~= s@);
    loop
        invariant
            start <= s.len(),
            nth_line(s@, k as nat) == nth_line(s@.skip(start as int), left as nat),
        decreases left,
    {
        let end = find_char(s, start, '\n');
        if left == 0 {
            let found = slice_of(s, start, end);
            assert(found@ =~= s@.skip(start as int).take(end - start));
            return Some(found);
        }
        if end >= s.len() {
            return None;
        }
        assert(s@.skip(start as int).skip(end - start + 1) =~= s@.skip(end + 1));
        start = end + 1;
        left -= 1;
    }
}

/// The characters that Unicode gives the property White_Space.
pub open spec fn is_white_space(c: char) -> bool {
    let n = c as u32;
    ||| 0x09 <= n <= 0x0d
    ||| n == 0x20
    ||| n == 0x85
    ||| n == 0xa0
    ||| n == 0x1680
    ||| 0x2000 <= n <= 0x200a
    ||| n == 0x2028
    ||| n == 0x2029
    ||| n == 0x202f
    ||| n == 0x205f
    ||| n == 0x3000
}

/// Tells whether `c` is white space.
pub fn white_space(c: char) -> (white: bool)
    ensures
        white == is_white_space(c),
{
    let n: u32 = c as u32;
    (0x09 <= n && n <= 0x0d) || n == 0x20 || n == 0x85 || n == 0xa0 || n == 0x1680 || (0x2000 <= n
        && n <= 0x200a) || n == 0x2028 || n == 0x2029 || n == 0x202f || n == 0x205f || n == 0x3000
}

/// The first run of characters of `s` that holds no white space, white
/// space in front of it skipped; empty where `s` is all white space.
pub open spec fn first_word(s: Seq<char>) -> Seq<char> {
    let rest = s.skip(span(s, white_is(true)));
    rest.take(span(rest, white_is(false)))
}

/// Cuts the first word out of `s`.
pub fn word(s: &Vec<char>) -> (out: Vec<char>)
    ensures
        out@ == first_word(s@),
{
    let mut start: usize = 0;
    while start < s.len() && white_space(s[start])
        invariant
            start <= s.len(),
            forall|j: int| 0 <= j < start ==> is_white_space(s@[j]),
        decreases s.len() - start,
    {
        start += 1;
    }
    proof {
        lemma_span_is(s@, white_is(true), start as int);
    }
    let mut end: usize = start;
    while end < s.len() && !white_space(s[end])
        invariant
            start <= end <= s.len(),
            forall|j: int| start <= j < end ==> !is_white_space(s@[j]),
        decreases s.len() - end,
    {
        end += 1;
    }
    proof {
        lemma_span_is(s@.skip(start as int), white_is(false), end - start);
    }
    let out = slice_of(s, start, end);
    assert(out@ =~= s@.skip(start as int).take(end - start));
    out
}

/// `s` without its last character; empty stays empty.
pub open spec fn without_last(s: Seq<char>) -> Seq<char> {
    if s.len() == 0 {
        s
    } else {
        s.drop_last()
    }
}

/// Removes the last character of `s`, if it has one.
pub fn remove_last(s: &mut Vec<char>)
    ensures
        final(s)@ == without_last(old(s)@),
{
    let _ = s.pop();
}

/// The character for a single decimal digit.
pub open spec fn digit(d: nat) -> char
    recommends
        d < 10,
{
    (0x30 + d) as u8 as char
}

/// The decimal numeral of `n`, without sign or leading zeros.
pub open spec fn decimal(n: nat) -> Seq<char>
    decreases n,
{
    if n < 10 {
        seq![digit(n)]
    } else {
        decimal(n / 10).push(digit(n % 10))
    }
}

/// Appends the decimal numeral of `n` to `out`.
pub fn push_decimal(out: &mut Vec<char>, n: usize)
    ensures
        final(out)@ == old(out)@ + decimal(n as nat),
    decreases n,
{
    if n >= 10 {
        push_decimal(out, n / 10);
    }
    let d: u8 = (n % 10) as u8;
    out.push((0x30u8 + d) as char);
    assert(final(out)@ =~= old(out)@ + decimal(n as nat));
}

/// Whether `c` is one of the ten decimal digits.
pub open spec fn is_digit(c: char) -> bool {
    0x30 <= c as u32 <= 0x39
}

/// Whether `s` holds decimal digits only.
pub open spec fn all_digits(s: Seq<char>) -> bool {
    forall|i: int| 0 <= i < s.len() ==> is_digit(#[trigger] s[i])
}

/// The number that a run of decimal digits writes.
pub open spec fn digits_value(s: Seq<char>) -> nat
    decreases s.len(),
{
    if s.len() == 0 {
        0
    } else {
        10 * digits_value(s.drop_last()) + (s.last() as u32 - 0x30) as nat
    }
}

/// `s` without the `+` that it may begin with.
pub open spec fn unsigned(s: Seq<char>) -> Seq<char> {
    if s.len() > 0 && s[0] == '+' {
        s.skip(1)
    } else {
        s
    }
}

/// The number that `s` writes in decimal: digits, at least one, with at
/// most a `+` in front and nothing else around them.
pub open spec fn numeral(s: Seq<char>) -> Option<nat> {
    if unsigned(s).len() > 0 && all_digits(unsigned(s)) {
        Some(digits_value(unsigned(s)))
    } else {
        None
    }
}

/// More digits do not write a smaller number.
proof fn lemma_digits_grow(s: Seq<char>, k: int)
    requires
        0 <= k <= s.len(),
        all_digits(s),
    ensures
        digits_value(s.take(k)) <= digits_value(s),
    decreases s.len() - k,
{
    if k == s.len() {
        assert(s.take(k) =~= s);
    } else {
        lemma_digits_grow(s, k + 1);
        assert(s.take(k + 1).drop_last() =~= s.take(k));
        assert(is_digit(s[k]));
    }
}

/// Reads a decimal numeral; `None` where `s` is none or writes a number
/// too large for `usize`.
pub fn parse_decimal(s: &str) -> (value: Option<usize>)
    ensures
        value == match numeral(s@) {
            Some(n) => if n <= usize::MAX {
                Some(n as usize)
            } else {
                None
            },
            None => None,
        },
{
    let text = chars_of(s);
    let start: usize = if text.len() > 0 && text[0] == '+' {
        1
    } else {
        0
    };
    let ghost digits = unsigned(s@);
    assert(text@.skip(0) =~= text@);
    if start >= text.len() {
        return None;
    }
    let mut value: usize = 0;
    let mut i: usize = start;
    assert(digits.take(0) =~= Seq::<char>::empty());
    while i < text.len()
        invariant
            start <= i <= text.len(),
            digits == unsigned(s@),
            digits == text@.skip(start as int),
            all_digits(digits.take(i - start)),
            value == digits_value(digits.take(i - start)),
        decreases text.len() - i,
    {
        let c: u32 = text[i] as u32;
        assert(digits[i - start] == text@[i as int]);
        if c < 0x30 || c > 0x39 {
            assert(!is_digit(digits[i - start]));
            return None;
        }
        let d: usize = (c - 0x30) as usize;
        assert(digits.take(i - start + 1).drop_last() =~= digits.take(i - start));
        assert forall|j: int| 0 <= j < i - start + 1 implies is_digit(
            #[trigger] digits.take(i - start + 1)[j],
        ) by {
            if j < i - start {
                assert(is_digit(digits.take(i - start)[j]));
            }
        }
        if value > (usize::MAX - d) / 10 {
            proof {
                if all_digits(digits) {
                    lemma_digits_grow(digits, i - start + 1);
                }
            }
            return None;
        }
        value = value * 10 + d;
        i += 1;
    }
    assert(digits.take(i - start) =~= digits);
    Some(value)
}

/// Reading a number's decimal numeral gives the number back.
pub proof fn law_decimal_reads_back(n: nat)
    ensures
        numeral(decimal(n)) == Some(n),
        decimal(n).len() > 0,
        all_digits(decimal(n)),
        digits_value(decimal(n)) == n,
    decreases n,
{
    let text = decimal(n);
    if n < 10 {
        assert(text.drop_last() =~= Seq::<char>::empty());
        assert(digits_value(text.drop_last()) == 0);
    } else {
        law_decimal_reads_back(n / 10);
        let front = decimal(n / 10);
        assert(text.drop_last() =~= front);
        assert forall|i: int| 0 <= i < text.len() implies is_digit(#[trigger] text[i]) by {
            if i < front.len() {
                assert(text[i] == front[i]);
                assert(is_digit(front[i]));
            }
        }
        assert(text[0] == front[0]);
    }
    assert(is_digit(text[0]));
}

} // verus!
