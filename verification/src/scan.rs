//! Executable text handling, proved against the model in `text`: whitespace
//! trimming, splitting on a separator character, and parsing bounded decimal
//! fields.

use vstd::prelude::*;
use vstd::string::StrSliceExecFns;

use crate::text::{
    all_digits, bounded_decimal, digits_value, is_digit_char, is_space_char,
    lemma_digits_value_prefix_le, lemma_split_at_first, lemma_trim_end_at, lemma_trim_start_at,
    parse_u16_spec, parse_u8_spec, split_spec, trim_spec,
};

verus! {

/// The views of a sequence of string slices.
pub open spec fn token_views(tokens: Seq<&str>) -> Seq<Seq<char>> {
    tokens.map_values(|t: &str| t@)
}

fn is_space(c: char) -> (r: bool)
    ensures
        r == is_space_char(c),
{
    let u = c as u32;
    u == 0x09 || u == 0x0A || u == 0x0B || u == 0x0C || u == 0x0D || u == 0x20 || u == 0x85
        || u == 0xA0 || u == 0x1680 || (0x2000 <= u && u <= 0x200A) || u == 0x2028 || u == 0x2029
        || u == 0x202F || u == 0x205F || u == 0x3000
}

/// Removes surrounding whitespace.
pub fn trim(s: &str) -> (t: &str)
    ensures
        t@ == trim_spec(s@),
{
    let n = s.unicode_len();
    let mut i: usize = 0;
    while i < n && is_space(s.get_char(i))
        invariant
            n == s@.len(),
            0 <= i <= n,
            forall|k: int| 0 <= k < i ==> is_space_char(s@[k]),
        decreases n - i,
    {
        i = i + 1;
    }
    let mut j: usize = n;
    while j > i && is_space(s.get_char(j - 1))
        invariant
            n == s@.len(),
            i <= j <= n,
            forall|k: int| j <= k < n ==> is_space_char(s@[k]),
        decreases j,
    {
        j = j - 1;
    }
    proof {
        lemma_trim_start_at(s@, i as int);
        let mid = s@.subrange(i as int, s@.len() as int);
        assert(forall|k: int| j - i <= k < mid.len() ==> is_space_char(#[trigger] mid[k]));
        lemma_trim_end_at(mid, j - i);
        assert(mid.subrange(0, j - i) =~= s@.subrange(i as int, j as int));
    }
    s.substring_char(i, j)
}

/// Splits at every occurrence of `sep`; n separators give n + 1 tokens,
/// empty tokens included.
pub fn split_at_char<'a>(s: &'a str, sep: char) -> (tokens: Vec<&'a str>)
    ensures
        token_views(tokens@) == split_spec(s@, sep),
{
    let n = s.unicode_len();
    let mut tokens: Vec<&'a str> = Vec::new();
    proof {
        assert(s@.subrange(0, n as int) =~= s@);
        assert(token_views(tokens@) + split_spec(s@, sep) =~= split_spec(s@, sep));
    }
    let mut start: usize = 0;
    let mut i: usize = 0;
    while i < n
        invariant
            n == s@.len(),
            0 <= start <= i <= n,
            forall|k: int| start <= k < i ==> s@[k] != sep,
            token_views(tokens@) + split_spec(s@.subrange(start as int, n as int), sep)
                == split_spec(s@, sep),
        decreases n - i,
    {
        let c = s.get_char(i);
        if c == sep {
            let token = s.substring_char(start, i);
            proof {
                let rest = s@.subrange(start as int, n as int);
                assert(forall|k: int| 0 <= k < i - start ==> #[trigger] rest[k] != sep);
                assert(rest[i - start] == sep);
                lemma_split_at_first(rest, sep, i - start);
                assert(rest.subrange(0, i - start) =~= s@.subrange(start as int, i as int));
                assert(rest.subrange(i - start + 1, rest.len() as int) =~= s@.subrange(
                    i as int + 1,
                    n as int,
                ));
                assert(token_views(tokens@.push(token)) =~= token_views(tokens@) + seq![token@]);
            }
            tokens.push(token);
            start = i + 1;
        }
        i = i + 1;
    }
    let token = s.substring_char(start, n);
    proof {
        let rest = s@.subrange(start as int, n as int);
        assert(forall|k: int| 0 <= k < rest.len() ==> #[trigger] rest[k] != sep);
        lemma_split_at_first(rest, sep, rest.len() as int);
        assert(rest =~= token@);
        assert(token_views(tokens@.push(token)) =~= token_views(tokens@) + seq![token@]);
    }
    tokens.push(token);
    tokens
}

/// Parses an unsigned decimal numeral of at most `bound`, with
/// `bound <= u16::MAX`.
fn parse_bounded_decimal(s: &str, bound: u32) -> (r: Option<u32>)
    requires
        bound <= u16::MAX,
    ensures
        match r {
            Some(v) => bounded_decimal(s@, bound as int) == Some(v as int),
            None => bounded_decimal(s@, bound as int) is None,
        },
{
    let n = s.unicode_len();
    if n == 0 {
        return None;
    }
    let mut acc: u32 = 0;
    let mut i: usize = 0;
    while i < n
        invariant
            n == s@.len(),
            0 <= i <= n,
            bound <= u16::MAX,
            forall|k: int| 0 <= k < i ==> is_digit_char(s@[k]),
            acc as int == digits_value(s@.subrange(0, i as int)),
            acc <= bound,
        decreases n - i,
    {
        let c = s.get_char(i);
        let u = c as u32;
        if u < 48 || u > 57 {
            proof {
                assert(!is_digit_char(s@[i as int]));
            }
            return None;
        }
        let d = u - 48;
        proof {
            let longer = s@.subrange(0, i as int + 1);
            assert(longer.drop_last() =~= s@.subrange(0, i as int));
            assert(longer.last() == s@[i as int]);
            assert(digits_value(longer) == acc as int * 10 + d as int);
        }
        let next = acc * 10 + d;
        if next > bound {
            proof {
                if all_digits(s@) {
                    lemma_digits_value_prefix_le(s@, i as int + 1);
                    assert(s@.subrange(0, n as int) =~= s@);
                }
            }
            return None;
        }
        acc = next;
        i = i + 1;
    }
    proof {
        assert(s@.subrange(0, n as int) =~= s@);
    }
    Some(acc)
}

/// Parses an unsigned 16-bit decimal field.
pub fn parse_u16(s: &str) -> (r: Option<u16>)
    ensures
        r == parse_u16_spec(s@),
{
    match parse_bounded_decimal(s, 65535) {
        Some(v) => Some(v as u16),
        None => None,
    }
}

/// Parses an unsigned 8-bit decimal field.
pub fn parse_u8(s: &str) -> (r: Option<u8>)
    ensures
        r == parse_u8_spec(s@),
{
    match parse_bounded_decimal(s, 255) {
        Some(v) => Some(v as u8),
        None => None,
    }
}

} // verus!
