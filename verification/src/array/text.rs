//! Searching and reading numbers in text held as bytes.

use vstd::prelude::*;
use vstd::utf8::valid_utf8;

verus! {

/// `needle` stands in `hay` at position `at`.
pub open spec fn matches_at(hay: Seq<u8>, needle: Seq<u8>, at: int) -> bool {
    &&& 0 <= at
    &&& at + needle.len() <= hay.len()
    &&& hay.subrange(at, at + needle.len()) == needle
}

/// The first position from `from` on at which `needle` stands in `hay`.
pub open spec fn find_from(hay: Seq<u8>, needle: Seq<u8>, from: int) -> Option<int>
    decreases hay.len() - from + 1,
{
    if from < 0 || from + needle.len() > hay.len() {
        None
    } else if matches_at(hay, needle, from) {
        Some(from)
    } else {
        find_from(hay, needle, from + 1)
    }
}

/// The text of `source` between the first `start` and the first `end` that
/// follows it.
pub open spec fn between(source: Seq<u8>, start: Seq<u8>, end: Seq<u8>) -> Option<Seq<u8>> {
    match find_from(source, start, 0) {
        None => None,
        Some(i) => match find_from(source, end, i + start.len()) {
            None => None,
            Some(j) => Some(source.subrange(i + start.len(), j)),
        },
    }
}

/// A space, a tab, a line feed, a vertical tab, a form feed or a carriage
/// return.
pub open spec fn is_space(b: u8) -> bool {
    b == 32 || (9 <= b && b <= 13)
}

/// The text without the white space at its two ends.
pub open spec fn trimmed(s: Seq<u8>) -> Seq<u8>
    decreases s.len(),
{
    if s.len() > 0 && is_space(s[0]) {
        trimmed(s.skip(1))
    } else if s.len() > 0 && is_space(s.last()) {
        trimmed(s.drop_last())
    } else {
        s
    }
}

/// Every byte is a decimal digit.
pub open spec fn all_digits(s: Seq<u8>) -> bool {
    forall|i: int| 0 <= i < s.len() ==> 48 <= #[trigger] s[i] <= 57
}

/// The number that decimal digits spell.
pub open spec fn digits_value(s: Seq<u8>) -> nat
    decreases s.len(),
{
    if s.len() == 0 {
        0
    } else {
        digits_value(s.drop_last()) * 10 + (s.last() - 48) as nat
    }
}

/// The number that a text spells: decimal digits, at least one, after an
/// optional plus sign, of a value that a `usize` can hold.
pub open spec fn parse_number(s: Seq<u8>) -> Option<usize> {
    let body = if s.len() > 0 && s[0] == 43 {
        s.skip(1)
    } else {
        s
    };
    if body.len() > 0 && all_digits(body) && digits_value(body) <= usize::MAX {
        Some(digits_value(body) as usize)
    } else {
        None
    }
}

/// The decimal digits of a number, without leading zeros.
pub open spec fn decimal_text(n: nat) -> Seq<u8>
    decreases n,
{
    if n < 10 {
        seq![(48 + n) as u8]
    } else {
        decimal_text(n / 10).push((48 + n % 10) as u8)
    }
}

/// A position in a text, or none, as a mathematical integer.
pub open spec fn as_position(r: Option<usize>) -> Option<int> {
    match r {
        Some(i) => Some(i as int),
        None => None,
    }
}

/// The bytes of a text, or none.
pub open spec fn as_text(r: Option<Vec<u8>>) -> Option<Seq<u8>> {
    match r {
        Some(v) => Some(v@),
        None => None,
    }
}

/// `std::str::from_utf8`: it succeeds on the well-formed UTF-8 texts, and
/// on those alone.
#[verifier::external_body]
pub(crate) fn is_utf8(bytes: &[u8]) -> (r: bool)
    ensures
        r == valid_utf8(bytes@),
{
    std::str::from_utf8(bytes).is_ok()
}

/// The `Display` of `usize`, through `format!`: the decimal digits of the
/// number, without sign and without leading zeros.
#[verifier::external_body]
pub(crate) fn format_usize(n: usize) -> (text: Vec<u8>)
    ensures
        text@ == decimal_text(n as nat),
{
    format!("{}", n).into_bytes()
}

/// Tells whether `needle` stands in `hay` at position `at`.
pub fn starts_at(hay: &[u8], needle: &[u8], at: usize) -> (r: bool)
    requires
        at + needle@.len() <= hay@.len(),
    ensures
        r == matches_at(hay@, needle@, at as int),
{
    let n: usize = hay.len();
    let mut k: usize = 0;
    while k < needle.len()
        invariant
            k <= needle@.len(),
            n == hay@.len(),
            at + needle@.len() <= hay@.len(),
            forall|i: int| 0 <= i < k ==> hay@[at + i] == needle@[i],
        decreases needle@.len() - k,
    {
        if hay[at + k] != needle[k] {
            assert(hay@.subrange(at as int, at + needle@.len())[k as int] != needle@[k as int]);
            return false;
        }
        k += 1;
    }
    assert(hay@.subrange(at as int, at + needle@.len()) =~= needle@);
    true
}

/// The first position from `from` on at which `needle` stands in `hay`.
pub fn find(hay: &[u8], needle: &[u8], from: usize) -> (r: Option<usize>)
    ensures
        as_position(r) == find_from(hay@, needle@, from as int),
        r matches Some(i) ==> from <= i && i + needle@.len() <= hay@.len(),
{
    if needle.len() > hay.len() || from > hay.len() - needle.len() {
        return None;
    }
    let last: usize = hay.len() - needle.len();
    let mut i: usize = from;
    while i < last
        invariant
            from <= i <= last,
            last == hay@.len() - needle@.len(),
            find_from(hay@, needle@, from as int) == find_from(hay@, needle@, i as int),
        decreases last - i,
    {
        if starts_at(hay, needle, i) {
            return Some(i);
        }
        i += 1;
    }
    if starts_at(hay, needle, last) {
        Some(last)
    } else {
        assert(find_from(hay@, needle@, last + 1) is None);
        None
    }
}

/// The text of `source` between the first `start` and the first `end` that
/// follows it.
pub fn extract_in_between(source: &[u8], start: &[u8], end: &[u8]) -> (r: Option<Vec<u8>>)
    ensures
        as_text(r) == between(source@, start@, end@),
{
    let len: usize = source.len();
    let idx1: usize = match find(source, start, 0) {
        Some(i) => i + start.len(),
        None => {
            return None;
        },
    };
    let idx2: usize = match find(source, end, idx1) {
        Some(i) => i,
        None => {
            return None;
        },
    };
    Some(copy_range(source, idx1, idx2))
}

/// A copy of the bytes from `from` up to `to`.
pub fn copy_range(source: &[u8], from: usize, to: usize) -> (r: Vec<u8>)
    requires
        from <= to <= source@.len(),
    ensures
        r@ == source@.subrange(from as int, to as int),
{
    let mut r: Vec<u8> = Vec::new();
    let mut i: usize = from;
    while i < to
        invariant
            from <= i <= to,
            to <= source@.len(),
            r@ == source@.subrange(from as int, i as int),
        decreases to - i,
    {
        r.push(source[i]);
        assert(r@ =~= source@.subrange(from as int, i + 1));
        i += 1;
    }
    r
}

/// Tells whether a byte is white space.
pub fn is_space_byte(b: u8) -> (r: bool)
    ensures
        r == is_space(b),
{
    b == 32 || (9 <= b && b <= 13)
}

/// The text without the white space at its two ends.
pub fn trim(s: &[u8]) -> (r: Vec<u8>)
    ensures
        r@ == trimmed(s@),
{
    let mut a: usize = 0;
    assert(s@.subrange(0, s@.len() as int) =~= s@);
    while a < s.len() && is_space_byte(s[a])
        invariant
            a <= s@.len(),
            trimmed(s@) == trimmed(s@.subrange(a as int, s@.len() as int)),
        decreases s@.len() - a,
    {
        assert(s@.subrange(a as int, s@.len() as int).skip(1) =~= s@.subrange(
            a + 1,
            s@.len() as int,
        ));
        a += 1;
    }
    let mut b: usize = s.len();
    while b > a && is_space_byte(s[b - 1])
        invariant
            a <= b <= s@.len(),
            a < s@.len() ==> !is_space(s@[a as int]),
            trimmed(s@) == trimmed(s@.subrange(a as int, b as int)),
        decreases b,
    {
        assert(s@.subrange(a as int, b as int).drop_last() =~= s@.subrange(a as int, b - 1));
        b -= 1;
    }
    copy_range(s, a, b)
}

/// The value of decimal digits does not shrink when digits are added.
pub proof fn lemma_digits_value_grows(s: Seq<u8>, k: int)
    requires
        0 <= k <= s.len(),
        all_digits(s),
    ensures
        digits_value(s.subrange(0, k)) <= digits_value(s),
    decreases s.len() - k,
{
    if k < s.len() {
        let longer = s.subrange(0, k + 1);
        assert(longer.drop_last() =~= s.subrange(0, k));
        assert(longer.last() == s[k]);
        lemma_digits_value_grows(s, k + 1);
    } else {
        assert(s.subrange(0, k) =~= s);
    }
}

/// The number that a text spells, if it spells one that a `usize` holds.
pub fn parse_usize(s: &[u8]) -> (r: Option<usize>)
    ensures
        r == parse_number(s@),
{
    let start: usize = if s.len() > 0 && s[0] == 43 {
        1
    } else {
        0
    };
    let ghost body = s@.subrange(start as int, s@.len() as int);
    assert(body =~= (if s@.len() > 0 && s@[0] == 43 {
        s@.skip(1)
    } else {
        s@
    }));
    if start == s.len() {
        return None;
    }
    let mut value: usize = 0;
    let mut i: usize = start;
    while i < s.len()
        invariant
            start <= i <= s@.len(),
            start < s@.len(),
            body == s@.subrange(start as int, s@.len() as int),
            body == (if s@.len() > 0 && s@[0] == 43 {
                s@.skip(1)
            } else {
                s@
            }),
            all_digits(body.subrange(0, i - start)),
            value == digits_value(body.subrange(0, i - start)),
        decreases s@.len() - i,
    {
        let c: u8 = s[i];
        if c < 48 || c > 57 {
            assert(body[i - start] == c);
            return None;
        }
        let ghost longer = body.subrange(0, i - start + 1);
        proof {
            assert(longer.drop_last() =~= body.subrange(0, i - start));
            assert(longer.last() == c);
            assert forall|k: int| 0 <= k < longer.len() implies 48 <= #[trigger] longer[k]
                <= 57 by {
                if k < i - start {
                    assert(body.subrange(0, i - start)[k] == longer[k]);
                }
            }
        }
        let digit: usize = (c - 48) as usize;
        let next: Option<usize> = match value.checked_mul(10) {
            Some(v) => v.checked_add(digit),
            None => None,
        };
        match next {
            Some(v) => {
                value = v;
            },
            None => {
                proof {
                    assert(digits_value(longer) > usize::MAX);
                    if all_digits(body) {
                        lemma_digits_value_grows(body, i - start + 1);
                    }
                }
                return None;
            },
        }
        i += 1;
    }
    assert(body.subrange(0, i - start) =~= body);
    Some(value)
}

} // verus!
