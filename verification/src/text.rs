//! Searching, trimming and number parsing on sequences of characters.
//!
//! Every function here works on a line that has already been split into
//! characters, and is specified over `Seq<char>`.

use vstd::prelude::*;
use vstd::slice::slice_subrange;

verus! {

/// `String::push` of the standard library: afterwards the string is what it
/// was, with `ch` at its end. Taken from its documentation, not proved.
pub assume_specification[ String::push ](s: &mut String, ch: char)
    ensures
        final(s)@ == old(s)@.push(ch),
;

/// `needle` stands in `hay` at position `i`.
pub open spec fn occurs_at(hay: Seq<char>, needle: Seq<char>, i: int) -> bool {
    &&& 0 <= i
    &&& i + needle.len() <= hay.len()
    &&& hay.subrange(i, i + needle.len()) == needle
}

/// `needle` stands somewhere in `hay`.
pub open spec fn contains(hay: Seq<char>, needle: Seq<char>) -> bool {
    exists|i: int| occurs_at(hay, needle, i)
}

/// `needle` stands in `hay` at `i` and nowhere further right.
pub open spec fn is_last_occurrence(hay: Seq<char>, needle: Seq<char>, i: int) -> bool {
    &&& occurs_at(hay, needle, i)
    &&& forall|j: int| i < j ==> !occurs_at(hay, needle, j)
}

/// Position of the rightmost occurrence of `needle` in `hay`. Meaningful
/// only when `contains(hay, needle)`.
pub open spec fn last_occurrence(hay: Seq<char>, needle: Seq<char>) -> int {
    choose|i: int| is_last_occurrence(hay, needle, i)
}

/// What follows the rightmost occurrence of `needle` in `hay`. Meaningful
/// only when `contains(hay, needle)`.
pub open spec fn after_last(hay: Seq<char>, needle: Seq<char>) -> Seq<char> {
    hay.subrange(last_occurrence(hay, needle) + needle.len(), hay.len() as int)
}

/// A rightmost occurrence is unique, so it is the one `last_occurrence` names.
pub proof fn lemma_last_occurrence_unique(hay: Seq<char>, needle: Seq<char>, i: int)
    requires
        is_last_occurrence(hay, needle, i),
    ensures
        contains(hay, needle),
        last_occurrence(hay, needle) == i,
{
    let k = last_occurrence(hay, needle);
    assert(is_last_occurrence(hay, needle, k));
    if k < i {
        assert(!occurs_at(hay, needle, i));
    }
    if i < k {
        assert(!occurs_at(hay, needle, k));
    }
}

/// The characters of a string slice, one element each.
pub fn to_chars(s: &str) -> (chars: Vec<char>)
    ensures
        chars@ == s@,
{
    let mut chars: Vec<char> = Vec::new();
    for c in it: s.chars()
        invariant
            chars@ == it.seq().take(it.index() as int),
            it.seq() == s@,
    {
        chars.push(c);
    }
    chars
}

/// The string made of the given characters.
pub fn from_chars(chars: &[char]) -> (s: String)
    ensures
        s@ == chars@,
{
    let mut s = String::new();
    let mut i: usize = 0;
    while i < chars.len()
        invariant
            i <= chars.len(),
            s@ == chars@.take(i as int),
        decreases chars.len() - i,
    {
        s.push(chars[i]);
        i += 1;
    }
    s
}

/// Whether `needle` stands in `hay` at position `at`.
pub fn matches_at(hay: &[char], needle: &[char], at: usize) -> (found: bool)
    ensures
        found == occurs_at(hay@, needle@, at as int),
{
    if at > hay.len() || needle.len() > hay.len() - at {
        return false;
    }
    let mut k: usize = 0;
    while k < needle.len()
        invariant
            k <= needle.len(),
            at + needle.len() <= hay.len(),
            forall|j: int| 0 <= j < k ==> hay@[at + j] == needle@[j],
        decreases needle.len() - k,
    {
        if hay[at + k] != needle[k] {
            proof {
                let window = hay@.subrange(at as int, at + needle.len());
                assert(window[k as int] == hay@[at + k]);
            }
            return false;
        }
        k += 1;
    }
    proof {
        assert(hay@.subrange(at as int, at + needle.len()) =~= needle@);
    }
    true
}

/// Position of the rightmost occurrence of `needle` in `hay`, if there is one.
pub fn find_last(hay: &[char], needle: &[char]) -> (found: Option<usize>)
    ensures
        found is Some <==> contains(hay@, needle@),
        found matches Some(i) ==> is_last_occurrence(hay@, needle@, i as int),
{
    if needle.len() > hay.len() {
        return None;
    }
    let mut i: usize = hay.len() - needle.len();
    loop
        invariant
            needle.len() <= hay.len(),
            i <= hay.len() - needle.len(),
            forall|j: int| i < j ==> !occurs_at(hay@, needle@, j),
        decreases i,
    {
        if matches_at(hay, needle, i) {
            return Some(i);
        }
        if i == 0 {
            return None;
        }
        i -= 1;
    }
}

/// Whether `needle` stands somewhere in `hay`.
pub fn has(hay: &[char], needle: &[char]) -> (found: bool)
    ensures
        found == contains(hay@, needle@),
{
    find_last(hay, needle).is_some()
}

/// `s` with every occurrence of `pat` taken out, scanning from the left and
/// resuming after each occurrence. An empty `pat` takes nothing out.
pub open spec fn remove_all(s: Seq<char>, pat: Seq<char>) -> Seq<char>
    decreases s.len(),
{
    if pat.len() == 0 || s.len() < pat.len() {
        s
    } else if s.subrange(0, pat.len() as int) == pat {
        remove_all(s.subrange(pat.len() as int, s.len() as int), pat)
    } else {
        seq![s[0]] + remove_all(s.drop_first(), pat)
    }
}

/// The characters with the Unicode property `White_Space`.
pub open spec fn is_whitespace(c: char) -> bool {
    let u = c as u32;
    ||| 0x09 <= u <= 0x0D
    ||| u == 0x20
    ||| u == 0x85
    ||| u == 0xA0
    ||| u == 0x1680
    ||| 0x2000 <= u <= 0x200A
    ||| u == 0x2028
    ||| u == 0x2029
    ||| u == 0x202F
    ||| u == 0x205F
    ||| u == 0x3000
}

/// `s` without its leading whitespace.
pub open spec fn trim_start(s: Seq<char>) -> Seq<char>
    decreases s.len(),
{
    if s.len() > 0 && is_whitespace(s[0]) {
        trim_start(s.drop_first())
    } else {
        s
    }
}

/// `s` without its trailing whitespace.
pub open spec fn trim_end(s: Seq<char>) -> Seq<char>
    decreases s.len(),
{
    if s.len() > 0 && is_whitespace(s.last()) {
        trim_end(s.drop_last())
    } else {
        s
    }
}

/// `s` without its leading and trailing whitespace.
pub open spec fn trim(s: Seq<char>) -> Seq<char> {
    trim_end(trim_start(s))
}

/// Where the leading whitespace of `s` ends: `trim_start` cuts there, only
/// whitespace stands before, and what stands there, if anything, is none.
pub proof fn lemma_trim_start(s: Seq<char>) -> (from: int)
    ensures
        0 <= from <= s.len(),
        trim_start(s) == s.subrange(from, s.len() as int),
        forall|i: int| 0 <= i < from ==> is_whitespace(#[trigger] s[i]),
        from < s.len() ==> !is_whitespace(s[from]),
    decreases s.len(),
{
    if s.len() > 0 && is_whitespace(s[0]) {
        let rest = s.drop_first();
        let inner = lemma_trim_start(rest);
        assert(rest.subrange(inner, rest.len() as int) =~= s.subrange(inner + 1, s.len() as int));
        assert forall|i: int| 0 <= i < inner + 1 implies is_whitespace(#[trigger] s[i]) by {
            if i > 0 {
                assert(s[i] == rest[i - 1]);
            }
        }
        inner + 1
    } else {
        assert(s.subrange(0, s.len() as int) =~= s);
        0
    }
}

/// Where the trailing whitespace of `s` begins: `trim_end` cuts there, only
/// whitespace stands behind, and what stands just before, if anything, is
/// none.
pub proof fn lemma_trim_end(s: Seq<char>) -> (to: int)
    ensures
        0 <= to <= s.len(),
        trim_end(s) == s.subrange(0, to),
        forall|i: int| to <= i < s.len() ==> is_whitespace(#[trigger] s[i]),
        0 < to ==> !is_whitespace(s[to - 1]),
    decreases s.len(),
{
    if s.len() > 0 && is_whitespace(s.last()) {
        let front = s.drop_last();
        let inner = lemma_trim_end(front);
        assert(front.subrange(0, inner) =~= s.subrange(0, inner));
        assert forall|i: int| inner <= i < s.len() implies is_whitespace(#[trigger] s[i]) by {
            if i < s.len() - 1 {
                assert(s[i] == front[i]);
            }
        }
        inner
    } else {
        assert(s.subrange(0, s.len() as int) =~= s);
        s.len() as int
    }
}

/// Trimming keeps the middle of `s`: the part from `bounds.0` to `bounds.1`,
/// with nothing but whitespace outside it and no whitespace at either of its
/// ends.
pub proof fn lemma_trim_is_the_middle(s: Seq<char>) -> (bounds: (int, int))
    ensures
        0 <= bounds.0 <= bounds.1 <= s.len(),
        trim(s) == s.subrange(bounds.0, bounds.1),
        forall|i: int| 0 <= i < bounds.0 || bounds.1 <= i < s.len() ==> is_whitespace(#[trigger] s[i]),
        bounds.0 < bounds.1 ==> !is_whitespace(s[bounds.0]) && !is_whitespace(s[bounds.1 - 1]),
{
    let from = lemma_trim_start(s);
    let body = s.subrange(from, s.len() as int);
    let len = lemma_trim_end(body);
    assert(body.subrange(0, len) =~= s.subrange(from, from + len));
    assert forall|i: int| from + len <= i < s.len() implies is_whitespace(#[trigger] s[i]) by {
        assert(s[i] == body[i - from]);
    }
    if 0 < len {
        assert(body[len - 1] == s[from + len - 1]);
        assert(body[0] == s[from]);
    }
    (from, from + len)
}

/// One of the ten ASCII digits.
pub open spec fn is_digit(c: char) -> bool {
    '0' <= c <= '9'
}

/// Every character of `s` is an ASCII digit.
pub open spec fn all_digits(s: Seq<char>) -> bool {
    forall|i: int| 0 <= i < s.len() ==> is_digit(#[trigger] s[i])
}

/// The number that a sequence of ASCII digits writes in base ten.
pub open spec fn decimal_value(s: Seq<char>) -> nat
    decreases s.len(),
{
    if s.len() == 0 {
        0
    } else {
        (decimal_value(s.drop_last()) * 10 + (s.last() as u32 - '0' as u32)) as nat
    }
}

/// The unsigned 16-bit number that `s` writes: an optional `+`, then one or
/// more ASCII digits whose value is at most 65535. Anything else is no number.
pub open spec fn parse_u16(s: Seq<char>) -> Option<u16> {
    let digits = if s.len() > 0 && s[0] == '+' {
        s.drop_first()
    } else {
        s
    };
    if digits.len() > 0 && all_digits(digits) && decimal_value(digits) <= u16::MAX {
        Some(decimal_value(digits) as u16)
    } else {
        None
    }
}

/// The value of a digit sequence is at least the value of each of its prefixes.
pub proof fn lemma_decimal_value_prefix(s: Seq<char>, k: int)
    requires
        all_digits(s),
        0 <= k <= s.len(),
    ensures
        decimal_value(s.take(k)) <= decimal_value(s),
    decreases s.len(),
{
    if k == s.len() {
        assert(s.take(k) =~= s);
    } else {
        let front = s.drop_last();
        assert(all_digits(front)) by {
            assert forall|i: int| 0 <= i < front.len() implies is_digit(#[trigger] front[i]) by {
                assert(front[i] == s[i]);
            }
        }
        lemma_decimal_value_prefix(front, k);
        assert(front.take(k) =~= s.take(k));
        assert(is_digit(s.last()));
    }
}

/// Whether `c` has the Unicode property `White_Space`.
pub fn whitespace(c: char) -> (yes: bool)
    ensures
        yes == is_whitespace(c),
{
    let u: u32 = c as u32;
    (0x09 <= u && u <= 0x0D) || u == 0x20 || u == 0x85 || u == 0xA0 || u == 0x1680 || (0x2000 <= u
        && u <= 0x200A) || u == 0x2028 || u == 0x2029 || u == 0x202F || u == 0x205F || u == 0x3000
}

/// The part of `s` between its leading and its trailing whitespace.
pub fn trimmed<'a>(s: &'a [char]) -> (t: &'a [char])
    ensures
        t@ == trim(s@),
{
    let n: usize = s.len();
    let mut from: usize = 0;
    assert(s@.subrange(0, n as int) =~= s@);
    while from < n && whitespace(s[from])
        invariant
            n == s.len(),
            from <= n,
            trim_start(s@) == trim_start(s@.subrange(from as int, n as int)),
        decreases n - from,
    {
        proof {
            let rest = s@.subrange(from as int, n as int);
            assert(rest.drop_first() =~= s@.subrange(from + 1, n as int));
        }
        from += 1;
    }
    let ghost body = s@.subrange(from as int, n as int);
    assert(trim_start(s@) == body);
    let mut to: usize = n;
    while to > from && whitespace(s[to - 1])
        invariant
            n == s.len(),
            from <= to <= n,
            body == s@.subrange(from as int, n as int),
            trim_end(body) == trim_end(s@.subrange(from as int, to as int)),
        decreases to,
    {
        proof {
            let rest = s@.subrange(from as int, to as int);
            assert(rest.drop_last() =~= s@.subrange(from as int, to - 1));
        }
        to -= 1;
    }
    slice_subrange(s, from, to)
}

/// Reads `s` as an unsigned 16-bit number in base ten.
pub fn read_u16(s: &[char]) -> (value: Option<u16>)
    ensures
        value == parse_u16(s@),
{
    let n: usize = s.len();
    let start: usize = if n > 0 && s[0] == '+' {
        1
    } else {
        0
    };
    if start == n {
        return None;
    }
    let ghost digits = s@.subrange(start as int, n as int);
    proof {
        if start == 1 {
            assert(digits =~= s@.drop_first());
        } else {
            assert(digits =~= s@);
        }
        assert(digits.take(0) =~= Seq::<char>::empty());
    }
    let mut acc: u32 = 0;
    let mut i: usize = start;
    while i < n
        invariant
            n == s.len(),
            start <= i <= n,
            digits == s@.subrange(start as int, n as int),
            digits == if s@.len() > 0 && s@[0] == '+' {
                s@.drop_first()
            } else {
                s@
            },
            all_digits(digits.take(i - start)),
            acc == decimal_value(digits.take(i - start)),
            acc <= u16::MAX,
        decreases n - i,
    {
        let c: char = s[i];
        let ghost seen = digits.take(i - start + 1);
        proof {
            assert(seen.drop_last() =~= digits.take(i - start));
            assert(seen.last() == c);
        }
        if !(c >= '0' && c <= '9') {
            proof {
                assert(!is_digit(digits[i - start]));
            }
            return None;
        }
        let d: u32 = c as u32 - '0' as u32;
        let next: u32 = acc * 10 + d;
        proof {
            assert(all_digits(seen)) by {
                assert forall|j: int| 0 <= j < seen.len() implies is_digit(#[trigger] seen[j]) by {
                    if j < seen.len() - 1 {
                        assert(seen[j] == digits.take(i - start)[j]);
                    }
                }
            }
            assert(next == decimal_value(seen));
        }
        if next > 65535 {
            proof {
                if all_digits(digits) {
                    lemma_decimal_value_prefix(digits, i - start + 1);
                }
            }
            return None;
        }
        acc = next;
        i += 1;
    }
    proof {
        assert(digits.take(n - start) =~= digits);
    }
    Some(acc as u16)
}

/// `s` with every occurrence of `pat` taken out.
pub fn without(s: &[char], pat: &[char]) -> (out: Vec<char>)
    ensures
        out@ == remove_all(s@, pat@),
{
    let n: usize = s.len();
    let m: usize = pat.len();
    let mut out: Vec<char> = Vec::new();
    let mut i: usize = 0;
    proof {
        assert(s@.subrange(0, n as int) =~= s@);
        assert(out@ + remove_all(s@, pat@) =~= remove_all(s@, pat@));
    }
    while i < n
        invariant
            n == s.len(),
            m == pat.len(),
            i <= n,
            out@ + remove_all(s@.subrange(i as int, n as int), pat@) == remove_all(s@, pat@),
        decreases n - i,
    {
        let ghost rest = s@.subrange(i as int, n as int);
        if m > 0 && matches_at(s, pat, i) {
            proof {
                assert(rest.subrange(0, m as int) =~= s@.subrange(i as int, i + m));
                assert(rest.subrange(m as int, rest.len() as int) =~= s@.subrange(i + m, n as int));
            }
            i += m;
        } else {
            proof {
                if m > 0 && rest.len() >= m {
                    assert(rest.subrange(0, m as int) =~= s@.subrange(i as int, i + m));
                    assert(rest.drop_first() =~= s@.subrange(i + 1, n as int));
                    assert(out@.push(s@[i as int]) + remove_all(rest.drop_first(), pat@) =~= out@
                        + (seq![rest[0]] + remove_all(rest.drop_first(), pat@)));
                } else {
                    assert(rest.drop_first() =~= s@.subrange(i + 1, n as int));
                    assert(out@.push(s@[i as int]) + rest.drop_first() =~= out@ + rest);
                }
            }
            out.push(s[i]);
            i += 1;
        }
    }
    proof {
        assert(s@.subrange(n as int, n as int) =~= Seq::<char>::empty());
        assert(out@ + Seq::<char>::empty() =~= out@);
    }
    out
}

/// Nothing is taken out of a sequence in which `pat` does not stand.
pub proof fn lemma_remove_all_absent(s: Seq<char>, pat: Seq<char>)
    requires
        !contains(s, pat),
    ensures
        remove_all(s, pat) == s,
    decreases s.len(),
{
    if pat.len() == 0 || s.len() < pat.len() {
    } else {
        assert(!occurs_at(s, pat, 0));
        let rest = s.drop_first();
        assert(!contains(rest, pat)) by {
            if contains(rest, pat) {
                let i = choose|i: int| occurs_at(rest, pat, i);
                assert(rest.subrange(i, i + pat.len()) =~= s.subrange(i + 1, i + 1 + pat.len()));
                assert(occurs_at(s, pat, i + 1));
            }
        }
        lemma_remove_all_absent(rest, pat);
        assert(seq![s[0]] + rest =~= s);
    }
}

} // verus!
