//! Byte-level text helpers: finding bytes and reading unsigned decimal numbers
//! the way `FromStr` for unsigned integers reads them.

use vstd::prelude::*;
use vstd::utf8::encode_utf8;

verus! {

/// The UTF-8 bytes of a text.
pub open spec fn utf8(t: Seq<char>) -> Seq<u8> {
    encode_utf8(t)
}

/// The view of an optional string.
pub open spec fn opt_text(o: Option<String>) -> Option<Seq<char>> {
    match o {
        Some(s) => Some(s@),
        None => None,
    }
}

/// The text of a field, or `default` where the field is absent.
pub open spec fn text_or(field: Option<Seq<char>>, default: Seq<char>) -> Seq<char> {
    match field {
        Some(t) => t,
        None => default,
    }
}

/// The field's text, or `default` where there is none.
pub fn field_text<'a>(field: &'a Option<String>, default: &'a str) -> (r: &'a str)
    ensures
        r@ == text_or(opt_text(*field), default@),
{
    match field {
        Some(s) => s.as_str(),
        None => default,
    }
}

/// The byte of an ASCII space.
pub const SPACE: u8 = 32;

/// The byte of an ASCII `/`.
pub const SLASH: u8 = 47;

/// The byte of an ASCII `+`.
pub const PLUS: u8 = 43;

pub open spec fn is_ascii_digit(b: u8) -> bool {
    48 <= b <= 57
}

pub open spec fn all_ascii_digits(s: Seq<u8>) -> bool {
    forall|i: int| 0 <= i < s.len() ==> is_ascii_digit(#[trigger] s[i])
}

/// The number that a string of decimal digits denotes.
pub open spec fn digits_value(s: Seq<u8>) -> nat
    decreases s.len(),
{
    if s.len() == 0 {
        0
    } else {
        digits_value(s.drop_last()) * 10 + (s.last() - 48) as nat
    }
}

/// The text without one leading `+`, if it has one.
pub open spec fn unsigned_part(s: Seq<u8>) -> Seq<u8> {
    if s.len() > 0 && s[0] == PLUS {
        s.drop_first()
    } else {
        s
    }
}

/// Reading of an unsigned decimal number no larger than `max`: an optional `+`
/// followed by one or more ASCII digits and nothing else.
pub open spec fn spec_parse_decimal(s: Seq<u8>, max: nat) -> Option<nat> {
    let d = unsigned_part(s);
    if d.len() > 0 && all_ascii_digits(d) && digits_value(d) <= max {
        Some(digits_value(d))
    } else {
        None
    }
}

pub open spec fn contains_byte(s: Seq<u8>, b: u8) -> bool {
    exists|i: int| 0 <= i < s.len() && s[i] == b
}

/// `i` is the position of the first occurrence of `b` in `s`.
pub open spec fn is_first_index(s: Seq<u8>, b: u8, i: int) -> bool {
    &&& 0 <= i < s.len()
    &&& s[i] == b
    &&& forall|j: int| 0 <= j < i ==> s[j] != b
}

/// `i` is the position of the last occurrence of `b` in `s`.
pub open spec fn is_last_index(s: Seq<u8>, b: u8, i: int) -> bool {
    &&& 0 <= i < s.len()
    &&& s[i] == b
    &&& forall|j: int| i < j < s.len() ==> s[j] != b
}

pub open spec fn first_index(s: Seq<u8>, b: u8) -> int {
    choose|i: int| is_first_index(s, b, i)
}

pub open spec fn last_index(s: Seq<u8>, b: u8) -> int {
    choose|i: int| is_last_index(s, b, i)
}

pub proof fn lemma_first_index_unique(s: Seq<u8>, b: u8, i: int)
    requires
        is_first_index(s, b, i),
    ensures
        first_index(s, b) == i,
{
    let j = first_index(s, b);
    assert(is_first_index(s, b, j));
    if j < i {
        assert(s[j] != b);
    }
    if i < j {
        assert(s[i] != b);
    }
}

pub proof fn lemma_last_index_unique(s: Seq<u8>, b: u8, i: int)
    requires
        is_last_index(s, b, i),
    ensures
        last_index(s, b) == i,
{
    let j = last_index(s, b);
    assert(is_last_index(s, b, j));
    if j < i {
        assert(s[i] != b);
    }
    if i < j {
        assert(s[j] != b);
    }
}

/// Position of the first `b` in `s`.
pub fn find_byte(s: &[u8], b: u8) -> (r: Option<usize>)
    ensures
        match r {
            Some(i) => is_first_index(s@, b, i as int),
            None => !contains_byte(s@, b),
        },
{
    let mut i: usize = 0;
    while i < s.len()
        invariant
            i <= s@.len(),
            forall|j: int| 0 <= j < i ==> s@[j] != b,
        decreases s@.len() - i,
    {
        if s[i] == b {
            return Some(i);
        }
        i = i + 1;
    }
    None
}

/// Position of the last `b` in `s`.
pub fn rfind_byte(s: &[u8], b: u8) -> (r: Option<usize>)
    ensures
        match r {
            Some(i) => is_last_index(s@, b, i as int),
            None => !contains_byte(s@, b),
        },
{
    let mut i: usize = s.len();
    while i > 0
        invariant
            i <= s@.len(),
            forall|j: int| i <= j < s@.len() ==> s@[j] != b,
        decreases i,
    {
        if s[i - 1] == b {
            return Some(i - 1);
        }
        i = i - 1;
    }
    None
}

proof fn lemma_digits_value_prefix(d: Seq<u8>, k: int)
    requires
        all_ascii_digits(d),
        0 <= k <= d.len(),
    ensures
        digits_value(d.take(k)) <= digits_value(d),
    decreases d.len(),
{
    if k < d.len() {
        assert(d.drop_last().take(k) =~= d.take(k));
        assert(is_ascii_digit(d[d.len() - 1]));
        lemma_digits_value_prefix(d.drop_last(), k);
    } else {
        assert(d.take(k) =~= d);
    }
}

/// Reads `s` as an unsigned decimal number no larger than `max`, with the rules of
/// `FromStr` for unsigned integers: one optional `+`, then only ASCII digits, at
/// least one of them.
pub fn parse_decimal(s: &[u8], max: u32) -> (r: Option<u32>)
    ensures
        match r {
            Some(v) => spec_parse_decimal(s@, max as nat) == Some(v as nat),
            None => spec_parse_decimal(s@, max as nat) is None,
        },
{
    let len = s.len();
    let start: usize = if len > 0 && s[0] == PLUS {
        1
    } else {
        0
    };
    let ghost d = unsigned_part(s@);
    assert(d =~= s@.subrange(start as int, len as int));
    if start == len {
        return None;
    }
    let mut acc: u64 = 0;
    let mut i: usize = start;
    while i < len
        invariant
            start <= i <= len,
            len == s@.len(),
            d == s@.subrange(start as int, len as int),
            d == unsigned_part(s@),
            acc == digits_value(s@.subrange(start as int, i as int)),
            acc <= max,
            all_ascii_digits(s@.subrange(start as int, i as int)),
        decreases len - i,
    {
        let c = s[i];
        if c < 48 || c > 57 {
            assert(d[i - start] == c);
            return None;
        }
        let ghost prev = s@.subrange(start as int, i as int);
        let ghost next = s@.subrange(start as int, i + 1);
        assert(next.drop_last() =~= prev);
        assert(next.last() == c);
        acc = acc * 10 + (c - 48) as u64;
        assert(all_ascii_digits(next)) by {
            assert forall|j: int| 0 <= j < next.len() implies is_ascii_digit(#[trigger] next[j]) by {
                if j < prev.len() {
                    assert(next[j] == prev[j]);
                }
            }
        }
        if acc > max as u64 {
            proof {
                if all_ascii_digits(d) {
                    assert(d.take(i + 1 - start) =~= next);
                    lemma_digits_value_prefix(d, i + 1 - start);
                }
            }
            return None;
        }
        i = i + 1;
    }
    assert(s@.subrange(start as int, i as int) =~= d);
    Some(acc as u32)
}

} // verus!
