//! The mathematical model of the text handling: whitespace trimming,
//! splitting on a separator character, and decimal fields, all stated over
//! `Seq<char>`.

use vstd::prelude::*;

verus! {

/// A whitespace character: one of the Unicode `White_Space` code points,
/// the set that `str::trim` removes from the ends of a line.
pub open spec fn is_space_char(c: char) -> bool {
    let u = c as int;
    u == 0x09 || u == 0x0A || u == 0x0B || u == 0x0C || u == 0x0D || u == 0x20 || u == 0x85
        || u == 0xA0 || u == 0x1680 || (0x2000 <= u && u <= 0x200A) || u == 0x2028 || u == 0x2029
        || u == 0x202F || u == 0x205F || u == 0x3000
}

/// A decimal digit, `'0'` (code point 48) through `'9'` (code point 57).
pub open spec fn is_digit_char(c: char) -> bool {
    48 <= c as int <= 57
}

/// The numeric value of a decimal digit character.
pub open spec fn digit_value(c: char) -> int {
    c as int - 48
}

/// Every character of `s` is a decimal digit.
pub open spec fn all_digits(s: Seq<char>) -> bool {
    forall|k: int| 0 <= k < s.len() ==> is_digit_char(s[k])
}

/// The value of `s` read as a base-ten numeral.
pub open spec fn digits_value(s: Seq<char>) -> int
    decreases s.len(),
{
    if s.len() == 0 {
        0
    } else {
        digits_value(s.drop_last()) * 10 + digit_value(s.last())
    }
}

/// What parsing `s` as an unsigned decimal integer yields: its numeric value
/// when `s` is non-empty and all digits, and nothing otherwise.
pub open spec fn decimal_value(s: Seq<char>) -> Option<int> {
    if s.len() > 0 && all_digits(s) {
        Some(digits_value(s))
    } else {
        None
    }
}

/// Parsing an unsigned decimal field that must not exceed `bound`.
pub open spec fn bounded_decimal(s: Seq<char>, bound: int) -> Option<int> {
    match decimal_value(s) {
        Some(v) => if v <= bound {
            Some(v)
        } else {
            None
        },
        None => None,
    }
}

/// What parsing `s` as a `u16` field yields.
pub open spec fn parse_u16_spec(s: Seq<char>) -> Option<u16> {
    match bounded_decimal(s, u16::MAX as int) {
        Some(v) => Some(v as u16),
        None => None,
    }
}

/// What parsing `s` as a `u8` field yields.
pub open spec fn parse_u8_spec(s: Seq<char>) -> Option<u8> {
    match bounded_decimal(s, u8::MAX as int) {
        Some(v) => Some(v as u8),
        None => None,
    }
}

pub proof fn lemma_digits_value_nonneg(s: Seq<char>)
    requires
        all_digits(s),
    ensures
        digits_value(s) >= 0,
    decreases s.len(),
{
    if s.len() > 0 {
        assert(all_digits(s.drop_last())) by {
            assert(forall|k: int| 0 <= k < s.len() - 1 ==> s.drop_last()[k] == s[k]);
        }
        lemma_digits_value_nonneg(s.drop_last());
    }
}

/// Reading more digits can only increase the value.
pub proof fn lemma_digits_value_prefix_le(s: Seq<char>, i: int)
    requires
        all_digits(s),
        0 <= i <= s.len(),
    ensures
        digits_value(s.subrange(0, i)) <= digits_value(s),
    decreases s.len() - i,
{
    if i == s.len() {
        assert(s.subrange(0, i) =~= s);
    } else {
        let shorter = s.subrange(0, i);
        let longer = s.subrange(0, i + 1);
        assert(longer.drop_last() =~= shorter);
        assert(all_digits(shorter));
        lemma_digits_value_nonneg(shorter);
        assert(digits_value(longer) == digits_value(shorter) * 10 + digit_value(longer.last()));
        assert(digits_value(shorter) <= digits_value(longer));
        lemma_digits_value_prefix_le(s, i + 1);
    }
}

/// `s` with leading whitespace removed.
pub open spec fn trim_start_spec(s: Seq<char>) -> Seq<char>
    decreases s.len(),
{
    if s.len() > 0 && is_space_char(s[0]) {
        trim_start_spec(s.drop_first())
    } else {
        s
    }
}

/// `s` with trailing whitespace removed.
pub open spec fn trim_end_spec(s: Seq<char>) -> Seq<char>
    decreases s.len(),
{
    if s.len() > 0 && is_space_char(s.last()) {
        trim_end_spec(s.drop_last())
    } else {
        s
    }
}

/// `s` with surrounding whitespace removed.
pub open spec fn trim_spec(s: Seq<char>) -> Seq<char> {
    trim_end_spec(trim_start_spec(s))
}

/// Trimming from the start keeps exactly the suffix that begins at the first
/// non-whitespace character.
pub proof fn lemma_trim_start_at(s: Seq<char>, i: int)
    requires
        0 <= i <= s.len(),
        forall|k: int| 0 <= k < i ==> is_space_char(s[k]),
        i < s.len() ==> !is_space_char(s[i]),
    ensures
        trim_start_spec(s) == s.subrange(i, s.len() as int),
    decreases i,
{
    if i == 0 {
        assert(s.subrange(0, s.len() as int) =~= s);
    } else {
        let t = s.drop_first();
        assert(forall|k: int| 0 <= k < i - 1 ==> is_space_char(#[trigger] t[k]));
        lemma_trim_start_at(t, i - 1);
        assert(t.subrange(i - 1, t.len() as int) =~= s.subrange(i, s.len() as int));
    }
}

/// Trimming from the end keeps exactly the prefix that ends after the last
/// non-whitespace character.
pub proof fn lemma_trim_end_at(s: Seq<char>, j: int)
    requires
        0 <= j <= s.len(),
        forall|k: int| j <= k < s.len() ==> is_space_char(s[k]),
        j > 0 ==> !is_space_char(s[j - 1]),
    ensures
        trim_end_spec(s) == s.subrange(0, j),
    decreases s.len() - j,
{
    if j == s.len() {
        assert(s.subrange(0, j) =~= s);
    } else {
        let t = s.drop_last();
        assert(is_space_char(s.last()));
        assert(forall|k: int| j <= k < t.len() ==> is_space_char(#[trigger] t[k]));
        lemma_trim_end_at(t, j);
        assert(t.subrange(0, j) =~= s.subrange(0, j));
    }
}

/// The index of the first occurrence of `sep` in `s`, or `s.len()` when
/// there is none.
pub open spec fn first_sep_index(s: Seq<char>, sep: char) -> int
    decreases s.len(),
{
    if s.len() == 0 {
        0
    } else if s[0] == sep {
        0
    } else {
        1 + first_sep_index(s.drop_first(), sep)
    }
}

/// `s` split at every occurrence of `sep`; n separators give n + 1 tokens,
/// empty tokens included.
pub open spec fn split_spec(s: Seq<char>, sep: char) -> Seq<Seq<char>>
    decreases s.len(),
{
    let i = first_sep_index(s, sep);
    if 0 <= i < s.len() {
        seq![s.subrange(0, i)] + split_spec(s.subrange(i + 1, s.len() as int), sep)
    } else {
        seq![s]
    }
}

/// `first_sep_index` is the position at which the separator first stands:
/// nothing before it is the separator, and it is in bounds exactly when the
/// separator occurs at all.
pub proof fn lemma_first_sep_index_is(s: Seq<char>, sep: char, i: int)
    requires
        0 <= i <= s.len(),
        forall|k: int| 0 <= k < i ==> s[k] != sep,
        i < s.len() ==> s[i] == sep,
    ensures
        first_sep_index(s, sep) == i,
    decreases s.len(),
{
    if s.len() == 0 {
    } else if s[0] == sep {
        assert(i == 0);
    } else {
        let t = s.drop_first();
        assert(forall|k: int| 0 <= k < i - 1 ==> #[trigger] t[k] != sep);
        lemma_first_sep_index_is(t, sep, i - 1);
    }
}

/// Splitting a text whose first separator stands at `i` yields the prefix
/// before `i` and then the split of what follows `i`; a text without the
/// separator is one single token.
pub proof fn lemma_split_at_first(s: Seq<char>, sep: char, i: int)
    requires
        0 <= i <= s.len(),
        forall|k: int| 0 <= k < i ==> s[k] != sep,
        i < s.len() ==> s[i] == sep,
    ensures
        i < s.len() ==> split_spec(s, sep) == seq![s.subrange(0, i)] + split_spec(
            s.subrange(i + 1, s.len() as int),
            sep,
        ),
        i == s.len() ==> split_spec(s, sep) == seq![s],
{
    lemma_first_sep_index_is(s, sep, i);
}

/// A character absent from a text is absent from any of its subranges.
pub proof fn lemma_subrange_absent(s: Seq<char>, a: int, b: int, c: char)
    requires
        0 <= a <= b <= s.len(),
        !s.contains(c),
    ensures
        !s.subrange(a, b).contains(c),
{
    if s.subrange(a, b).contains(c) {
        let k = choose|k: int| 0 <= k < b - a && s.subrange(a, b)[k] == c;
        assert(s[a + k] == c);
    }
}

/// A character absent from a text is absent from every token of its split.
pub proof fn lemma_split_absent(s: Seq<char>, sep: char, c: char)
    requires
        !s.contains(c),
    ensures
        forall|j: int|
            0 <= j < split_spec(s, sep).len() ==> !(#[trigger] split_spec(s, sep)[j]).contains(c),
    decreases s.len(),
{
    let i = first_sep_index(s, sep);
    if 0 <= i < s.len() {
        let rest = s.subrange(i + 1, s.len() as int);
        lemma_subrange_absent(s, 0, i, c);
        lemma_subrange_absent(s, i + 1, s.len() as int, c);
        lemma_split_absent(rest, sep, c);
        assert(forall|j: int|
            1 <= j < split_spec(s, sep).len() ==> split_spec(s, sep)[j] == split_spec(rest, sep)[j
                - 1]);
    }
}

/// Trimming removes no occurrence-free character: what the trimmed text
/// contains, the text contained.
pub proof fn lemma_trim_absent(s: Seq<char>, c: char)
    requires
        !s.contains(c),
    ensures
        !trim_spec(s).contains(c),
{
    lemma_trim_start_absent(s, c);
    lemma_trim_end_absent(trim_start_spec(s), c);
}

pub proof fn lemma_trim_start_absent(s: Seq<char>, c: char)
    requires
        !s.contains(c),
    ensures
        !trim_start_spec(s).contains(c),
    decreases s.len(),
{
    if s.len() > 0 && is_space_char(s[0]) {
        lemma_subrange_absent(s, 1, s.len() as int, c);
        lemma_trim_start_absent(s.drop_first(), c);
    }
}

pub proof fn lemma_trim_end_absent(s: Seq<char>, c: char)
    requires
        !s.contains(c),
    ensures
        !trim_end_spec(s).contains(c),
    decreases s.len(),
{
    if s.len() > 0 && is_space_char(s.last()) {
        lemma_subrange_absent(s, 0, s.len() as int - 1, c);
        lemma_trim_end_absent(s.drop_last(), c);
    }
}

/// The tokens joined into one text, with `sep` between neighbours.
pub open spec fn join_spec(tokens: Seq<Seq<char>>, sep: char) -> Seq<char>
    decreases tokens.len(),
{
    if tokens.len() == 0 {
        Seq::empty()
    } else if tokens.len() == 1 {
        tokens[0]
    } else {
        tokens[0] + seq![sep] + join_spec(tokens.drop_first(), sep)
    }
}

/// Splitting undoes joining, as long as no token contains the separator.
pub proof fn lemma_split_of_join(tokens: Seq<Seq<char>>, sep: char)
    requires
        tokens.len() >= 1,
        forall|j: int| 0 <= j < tokens.len() ==> !(#[trigger] tokens[j]).contains(sep),
    ensures
        split_spec(join_spec(tokens, sep), sep) == tokens,
    decreases tokens.len(),
{
    let s = join_spec(tokens, sep);
    let t0 = tokens[0];
    if tokens.len() == 1 {
        assert forall|k: int| 0 <= k < s.len() implies s[k] != sep by {
            if s[k] == sep {
                assert(t0.contains(sep));
            }
        }
        lemma_split_at_first(s, sep, s.len() as int);
        assert(seq![s] =~= tokens);
    } else {
        let rest = join_spec(tokens.drop_first(), sep);
        assert(s == t0 + seq![sep] + rest);
        assert forall|k: int| 0 <= k < t0.len() implies s[k] != sep by {
            assert(s[k] == t0[k]);
            if s[k] == sep {
                assert(t0.contains(sep));
            }
        }
        assert(s[t0.len() as int] == sep);
        lemma_split_at_first(s, sep, t0.len() as int);
        assert(s.subrange(0, t0.len() as int) =~= t0);
        assert(s.subrange(t0.len() as int + 1, s.len() as int) =~= rest);
        assert(forall|j: int|
            0 <= j < tokens.drop_first().len() ==> !(#[trigger] tokens.drop_first()[j]).contains(
                sep,
            ));
        lemma_split_of_join(tokens.drop_first(), sep);
        assert(seq![t0] + tokens.drop_first() =~= tokens);
    }
}

pub proof fn lemma_trim_start_pad(p: Seq<char>, x: Seq<char>)
    requires
        forall|k: int| 0 <= k < p.len() ==> is_space_char(p[k]),
    ensures
        trim_start_spec(p + x) == trim_start_spec(x),
    decreases p.len(),
{
    if p.len() == 0 {
        assert(p + x =~= x);
    } else {
        assert((p + x)[0] == p[0]);
        assert((p + x).drop_first() =~= p.drop_first() + x);
        assert(forall|k: int| 0 <= k < p.len() - 1 ==> is_space_char(#[trigger] p.drop_first()[k]));
        lemma_trim_start_pad(p.drop_first(), x);
    }
}

pub proof fn lemma_trim_end_pad(x: Seq<char>, q: Seq<char>)
    requires
        forall|k: int| 0 <= k < q.len() ==> is_space_char(q[k]),
    ensures
        trim_end_spec(x + q) == trim_end_spec(x),
    decreases q.len(),
{
    if q.len() == 0 {
        assert(x + q =~= x);
    } else {
        assert((x + q).last() == q.last());
        assert((x + q).drop_last() =~= x + q.drop_last());
        assert(forall|k: int| 0 <= k < q.len() - 1 ==> is_space_char(#[trigger] q.drop_last()[k]));
        lemma_trim_end_pad(x, q.drop_last());
    }
}

/// Trimming the start of `x + y` stops inside `x` whenever `x` holds a
/// non-whitespace character.
pub proof fn lemma_trim_start_concat(x: Seq<char>, y: Seq<char>)
    requires
        exists|k: int| 0 <= k < x.len() && !is_space_char(x[k]),
    ensures
        trim_start_spec(x + y) == trim_start_spec(x) + y,
    decreases x.len(),
{
    let k = choose|k: int| 0 <= k < x.len() && !is_space_char(x[k]);
    if is_space_char(x[0]) {
        assert(k >= 1);
        assert(!is_space_char(x.drop_first()[k - 1]));
        assert((x + y)[0] == x[0]);
        assert((x + y).drop_first() =~= x.drop_first() + y);
        lemma_trim_start_concat(x.drop_first(), y);
    } else {
        assert((x + y)[0] == x[0]);
    }
}

/// A text of whitespace alone trims from the start to nothing.
pub proof fn lemma_trim_start_all_space(s: Seq<char>)
    requires
        forall|k: int| 0 <= k < s.len() ==> is_space_char(s[k]),
    ensures
        trim_start_spec(s) == Seq::<char>::empty(),
    decreases s.len(),
{
    if s.len() == 0 {
        assert(s =~= Seq::<char>::empty());
    } else {
        assert(forall|k: int|
            0 <= k < s.len() - 1 ==> is_space_char(#[trigger] s.drop_first()[k]));
        lemma_trim_start_all_space(s.drop_first());
    }
}

/// Surrounding whitespace never affects the trimmed text.
pub proof fn lemma_trim_pad(p: Seq<char>, s: Seq<char>, q: Seq<char>)
    requires
        forall|k: int| 0 <= k < p.len() ==> is_space_char(p[k]),
        forall|k: int| 0 <= k < q.len() ==> is_space_char(q[k]),
    ensures
        trim_spec(p + s + q) == trim_spec(s),
{
    assert(p + s + q =~= p + (s + q));
    lemma_trim_start_pad(p, s + q);
    if exists|k: int| 0 <= k < s.len() && !is_space_char(s[k]) {
        lemma_trim_start_concat(s, q);
        lemma_trim_end_pad(trim_start_spec(s), q);
    } else {
        assert(forall|k: int| 0 <= k < s.len() ==> is_space_char(s[k]));
        assert(forall|k: int| 0 <= k < (s + q).len() ==> is_space_char(#[trigger] (s + q)[k]));
        lemma_trim_start_all_space(s + q);
        lemma_trim_start_all_space(s);
    }
}

} // verus!
