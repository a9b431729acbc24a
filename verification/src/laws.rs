//! The laws of the parser: what holds of every well-formed line, and how
//! malformed lines are classified, proved once and for all over the
//! specification functions of `ident`.

use vstd::prelude::*;

use crate::ident::{
    filter_flag_value, sample_value, side_token, spec_parse, spec_parse_coordinates, strip_first,
    swath_token, tile_token, CoordinateIdentifierView, IlluminaError, SampleView,
    SequenceIdentifierView,
};
use crate::text::{
    is_space_char, join_spec, lemma_split_absent, lemma_split_at_first, lemma_split_of_join,
    lemma_trim_absent, lemma_trim_pad, parse_u16_spec, parse_u8_spec, split_spec, trim_spec,
};

verus! {

/// A token of a well-formed line: free of the separators and of whitespace.
pub open spec fn clean_token(t: Seq<char>) -> bool {
    forall|k: int| 0 <= k < t.len() ==> (t[k] != ':' && !is_space_char(t[k]))
}

/// Every token of `ts` is clean.
pub open spec fn clean_tokens(ts: Seq<Seq<char>>) -> bool {
    forall|j: int| 0 <= j < ts.len() ==> clean_token(#[trigger] ts[j])
}

/// The full-format line assembled from its seven left and four right tokens.
pub open spec fn full_line(lt: Seq<Seq<char>>, rt: Seq<Seq<char>>) -> Seq<char> {
    join_spec(lt, ':') + seq![' '] + join_spec(rt, ':')
}

/// Every character of a join of clean tokens with a non-whitespace separator
/// is itself non-whitespace.
proof fn lemma_join_clean_chars(ts: Seq<Seq<char>>, sep: char)
    requires
        !is_space_char(sep),
        clean_tokens(ts),
    ensures
        forall|k: int|
            0 <= k < join_spec(ts, sep).len() ==> !is_space_char(#[trigger] join_spec(ts, sep)[k]),
    decreases ts.len(),
{
    if ts.len() == 0 {
    } else if ts.len() == 1 {
        assert(join_spec(ts, sep) == ts[0]);
    } else {
        let t0 = ts[0];
        let rest = join_spec(ts.drop_first(), sep);
        assert(clean_tokens(ts.drop_first()));
        lemma_join_clean_chars(ts.drop_first(), sep);
        assert forall|k: int|
            0 <= k < join_spec(ts, sep).len() implies !is_space_char(
            #[trigger] join_spec(ts, sep)[k],
        ) by {
            if k < t0.len() {
                assert(join_spec(ts, sep)[k] == t0[k]);
            } else if k == t0.len() {
                assert(join_spec(ts, sep)[k] == sep);
            } else {
                assert(join_spec(ts, sep)[k] == rest[k - t0.len() - 1]);
            }
        }
    }
}

/// A join of clean tokens with a non-whitespace separator contains no
/// whitespace character.
proof fn lemma_join_clean_absent(ts: Seq<Seq<char>>, sep: char, c: char)
    requires
        !is_space_char(sep),
        is_space_char(c),
        clean_tokens(ts),
    ensures
        !join_spec(ts, sep).contains(c),
{
    lemma_join_clean_chars(ts, sep);
    if join_spec(ts, sep).contains(c) {
        let k = choose|k: int|
            0 <= k < join_spec(ts, sep).len() && join_spec(ts, sep)[k] == c;
        assert(!is_space_char(join_spec(ts, sep)[k]));
    }
}

/// Clean tokens do not contain the colon separator.
proof fn lemma_clean_tokens_no_colon(ts: Seq<Seq<char>>)
    requires
        clean_tokens(ts),
    ensures
        forall|j: int| 0 <= j < ts.len() ==> !(#[trigger] ts[j]).contains(':'),
{
    assert forall|j: int| 0 <= j < ts.len() implies !(#[trigger] ts[j]).contains(':') by {
        if ts[j].contains(':') {
            let k = choose|k: int| 0 <= k < ts[j].len() && ts[j][k] == ':';
        }
    }
}

/// The halves and token lists that a full-format line of clean tokens
/// decomposes into: trimming leaves the line as it is, the space split
/// yields the two joined halves, and the colon splits yield the tokens.
proof fn lemma_full_line_shape(lt: Seq<Seq<char>>, rt: Seq<Seq<char>>)
    requires
        lt.len() >= 1,
        rt.len() >= 1,
        clean_tokens(lt),
        clean_tokens(rt),
        join_spec(lt, ':').len() >= 1,
        join_spec(rt, ':').len() >= 1,
    ensures
        trim_spec(full_line(lt, rt)) == full_line(lt, rt),
        split_spec(full_line(lt, rt), ' ') == seq![join_spec(lt, ':'), join_spec(rt, ':')],
        split_spec(join_spec(lt, ':'), ':') == lt,
        split_spec(join_spec(rt, ':'), ':') == rt,
{
    let jl = join_spec(lt, ':');
    let jr = join_spec(rt, ':');
    let line = full_line(lt, rt);
    lemma_join_clean_chars(lt, ':');
    lemma_join_clean_chars(rt, ':');
    // Trimming is the identity: the first and last characters are token
    // characters, never whitespace.
    assert(line[0] == jl[0]);
    assert(line.last() == jr[jr.len() - 1]);
    assert(!is_space_char(line[0]));
    assert(!is_space_char(line.last()));
    assert(crate::text::trim_start_spec(line) == line);
    assert(crate::text::trim_end_spec(line) == line);
    // The space split returns the two halves.
    let halves = seq![jl, jr];
    lemma_join_clean_absent(lt, ':', ' ');
    lemma_join_clean_absent(rt, ':', ' ');
    assert(halves.drop_first() =~= seq![jr]);
    assert(join_spec(halves, ' ') == jl + seq![' '] + join_spec(seq![jr], ' '));
    assert(join_spec(seq![jr], ' ') == jr);
    assert(forall|j: int| 0 <= j < halves.len() ==> !(#[trigger] halves[j]).contains(' '));
    lemma_split_of_join(halves, ' ');
    // The colon splits return the tokens.
    lemma_clean_tokens_no_colon(lt);
    lemma_clean_tokens_no_colon(rt);
    lemma_split_of_join(lt, ':');
    lemma_split_of_join(rt, ':');
}

/// Law: a well-formed full-format line parses successfully, and every field
/// of the record is exactly the value its token encodes. In particular the
/// compound position token contributes its first character as the side, its
/// second as the swath and the remaining digits as the tile, and the sample
/// token becomes its number when numeric and the literal sequence otherwise.
pub proof fn lemma_full_format_round_trip(lt: Seq<Seq<char>>, rt: Seq<Seq<char>>)
    requires
        lt.len() == 7,
        rt.len() == 4,
        clean_tokens(lt),
        clean_tokens(rt),
        parse_u16_spec(lt[1]) is Some,
        parse_u8_spec(lt[3]) is Some,
        parse_u8_spec(side_token(lt[4])) is Some,
        parse_u8_spec(swath_token(lt[4])) is Some,
        parse_u8_spec(tile_token(lt[4])) is Some,
        parse_u16_spec(lt[5]) is Some,
        parse_u16_spec(lt[6]) is Some,
        parse_u8_spec(rt[0]) is Some,
        rt[1] == seq!['Y'] || rt[1] == seq!['N'],
        parse_u8_spec(rt[2]) is Some,
    ensures
        spec_parse(full_line(lt, rt)) == Ok::<SequenceIdentifierView, IlluminaError>(
            (SequenceIdentifierView {
                sequencer_id: strip_first(lt[0]),
                run_count: parse_u16_spec(lt[1])->Some_0,
                flow_cell_id: lt[2],
                lane: parse_u8_spec(lt[3])->Some_0,
                side: parse_u8_spec(side_token(lt[4]))->Some_0,
                swath: parse_u8_spec(swath_token(lt[4]))->Some_0,
                tile: parse_u8_spec(tile_token(lt[4]))->Some_0,
                x: parse_u16_spec(lt[5])->Some_0,
                y: parse_u16_spec(lt[6])->Some_0,
                read: parse_u8_spec(rt[0])->Some_0,
                is_filtered: rt[1] == seq!['Y'],
                control_number: parse_u8_spec(rt[2])->Some_0,
                sample: sample_value(rt[3]),
            }),
        ),
{
    assert(join_spec(lt, ':') == lt[0] + seq![':'] + join_spec(lt.drop_first(), ':'));
    assert(join_spec(rt, ':') == rt[0] + seq![':'] + join_spec(rt.drop_first(), ':'));
    lemma_full_line_shape(lt, rt);
    if rt[1] == seq!['Y'] {
        assert(filter_flag_value(rt[1]) == Some(true));
    } else {
        assert(rt[1] != seq!['Y']) by {
            assert(rt[1][0] == 'N');
        }
        assert(filter_flag_value(rt[1]) == Some(false));
    }
}

/// Law: whatever surrounds the line as whitespace, a trailing newline
/// included, does not affect the result, in either format.
pub proof fn lemma_surrounding_whitespace_ignored(p: Seq<char>, s: Seq<char>, q: Seq<char>)
    requires
        forall|k: int| 0 <= k < p.len() ==> is_space_char(p[k]),
        forall|k: int| 0 <= k < q.len() ==> is_space_char(q[k]),
    ensures
        spec_parse(p + s + q) == spec_parse(s),
        spec_parse_coordinates(p + s + q) == spec_parse_coordinates(s),
{
    lemma_trim_pad(p, s, q);
}

/// Law: a line whose halves hold the wrong number of colon-delimited tokens
/// fails with `SplitError`, never with `ParseError`, whatever the tokens
/// hold.
pub proof fn lemma_wrong_token_count_is_split_error(lt: Seq<Seq<char>>, rt: Seq<Seq<char>>)
    requires
        lt.len() >= 1,
        rt.len() >= 1,
        clean_tokens(lt),
        clean_tokens(rt),
        join_spec(lt, ':').len() >= 1,
        join_spec(rt, ':').len() >= 1,
        lt.len() != 7 || rt.len() != 4,
    ensures
        spec_parse(full_line(lt, rt)) == Err::<SequenceIdentifierView, IlluminaError>(
            IlluminaError::SplitError,
        ),
{
    lemma_full_line_shape(lt, rt);
}

/// Law: on a full-format line whose filter-flag token is neither `Y` nor
/// `N`, parsing fails with `ParseError`, whatever the other tokens hold.
pub proof fn lemma_bad_filter_flag_is_parse_error(lt: Seq<Seq<char>>, rt: Seq<Seq<char>>)
    requires
        lt.len() == 7,
        rt.len() == 4,
        clean_tokens(lt),
        clean_tokens(rt),
        rt[1] != seq!['Y'],
        rt[1] != seq!['N'],
    ensures
        spec_parse(full_line(lt, rt)) == Err::<SequenceIdentifierView, IlluminaError>(
            IlluminaError::ParseError,
        ),
{
    assert(join_spec(lt, ':') == lt[0] + seq![':'] + join_spec(lt.drop_first(), ':'));
    assert(join_spec(rt, ':') == rt[0] + seq![':'] + join_spec(rt.drop_first(), ':'));
    lemma_full_line_shape(lt, rt);
    assert(filter_flag_value(rt[1]) is None);
}

/// Law: reading the sample token never fails: a token that parses as an
/// unsigned 8-bit number yields that number, and any other token, the empty
/// one included, yields the token itself as a literal sequence.
pub proof fn lemma_sample_token_never_fails(s: Seq<char>)
    ensures
        parse_u8_spec(s) is Some ==> sample_value(s) == SampleView::Number(
            parse_u8_spec(s)->Some_0,
        ),
        parse_u8_spec(s) is None ==> sample_value(s) == SampleView::Sequence(s),
{
}

/// Law: a line without a single colon, a raw base sequence for one, fails
/// with `SplitError` in both formats.
pub proof fn lemma_no_colons_is_split_error(s: Seq<char>)
    requires
        !s.contains(':'),
    ensures
        spec_parse(s) == Err::<SequenceIdentifierView, IlluminaError>(IlluminaError::SplitError),
        spec_parse_coordinates(s) == Err::<CoordinateIdentifierView, IlluminaError>(
            IlluminaError::SplitError,
        ),
{
    let t = trim_spec(s);
    lemma_trim_absent(s, ':');
    let halves = split_spec(t, ' ');
    lemma_split_absent(t, ' ', ':');
    if halves.len() == 2 {
        assert(!halves[0].contains(':'));
        assert forall|k: int| 0 <= k < halves[0].len() implies halves[0][k] != ':' by {
            if halves[0][k] == ':' {
                assert(halves[0].contains(':'));
            }
        }
        lemma_split_at_first(halves[0], ':', halves[0].len() as int);
    }
    if halves.len() == 1 {
        assert(!halves[0].contains(':'));
        assert forall|k: int| 0 <= k < halves[0].len() implies halves[0][k] != ':' by {
            if halves[0][k] == ':' {
                assert(halves[0].contains(':'));
            }
        }
        lemma_split_at_first(halves[0], ':', halves[0].len() as int);
    }
}

/// Law: a well-formed coordinate-only line parses successfully to exactly
/// the nine position fields its tokens encode.
pub proof fn lemma_coordinate_round_trip(lt: Seq<Seq<char>>)
    requires
        lt.len() == 7,
        clean_tokens(lt),
        parse_u16_spec(lt[1]) is Some,
        parse_u8_spec(lt[3]) is Some,
        parse_u8_spec(side_token(lt[4])) is Some,
        parse_u8_spec(swath_token(lt[4])) is Some,
        parse_u8_spec(tile_token(lt[4])) is Some,
        parse_u16_spec(lt[5]) is Some,
        parse_u16_spec(lt[6]) is Some,
    ensures
        spec_parse_coordinates(join_spec(lt, ':')) == Ok::<
            CoordinateIdentifierView,
            IlluminaError,
        >(
            (CoordinateIdentifierView {
                sequencer_id: strip_first(lt[0]),
                run_count: parse_u16_spec(lt[1])->Some_0,
                flow_cell_id: lt[2],
                lane: parse_u8_spec(lt[3])->Some_0,
                side: parse_u8_spec(side_token(lt[4]))->Some_0,
                swath: parse_u8_spec(swath_token(lt[4]))->Some_0,
                tile: parse_u8_spec(tile_token(lt[4]))->Some_0,
                x: parse_u16_spec(lt[5])->Some_0,
                y: parse_u16_spec(lt[6])->Some_0,
            }),
        ),
{
    let jl = join_spec(lt, ':');
    assert(jl == lt[0] + seq![':'] + join_spec(lt.drop_first(), ':'));
    lemma_join_clean_chars(lt, ':');
    assert(!is_space_char(jl[0]));
    assert(!is_space_char(jl.last()));
    assert(crate::text::trim_start_spec(jl) == jl);
    assert(crate::text::trim_end_spec(jl) == jl);
    lemma_join_clean_absent(lt, ':', ' ');
    assert forall|k: int| 0 <= k < jl.len() implies jl[k] != ' ' by {
        if jl[k] == ' ' {
            assert(jl.contains(' '));
        }
    }
    lemma_split_at_first(jl, ' ', jl.len() as int);
    lemma_clean_tokens_no_colon(lt);
    lemma_split_of_join(lt, ':');
}

} // verus!
