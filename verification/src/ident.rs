//! The identifier records and the parser itself.
//!
//! A full-format line reads `<left> <right>`: the two halves are separated by
//! exactly one space, the left half splits on `:` into seven tokens
//! (instrument, run, flow cell, lane, compound position, x, y) and the right
//! half into four (read, filter flag, control, sample). The coordinate-only
//! line is the left half alone.

use vstd::prelude::*;
use vstd::string::{StrSliceExecFns, StringExecFns};

use crate::scan::{parse_u16, parse_u8, split_at_char, token_views, trim};
use crate::text::{parse_u16_spec, parse_u8_spec, split_spec, trim_spec};

verus! {

/// Sample-sheet entry of a read: the sample number, or, for a read among the
/// undetermined reads, the literal barcode sequence.
#[derive(Debug, PartialOrd, PartialEq)]
pub enum Sample {
    /// Sample number from the sample sheet.
    Number(u8),
    /// Base sequence, for a read in the undetermined reads.
    Sequence(String),
}

/// Ghost mirror of `Sample`, over character sequences.
pub enum SampleView {
    Number(u8),
    Sequence(Seq<char>),
}

impl View for Sample {
    type V = SampleView;

    open spec fn view(&self) -> SampleView {
        match self {
            Sample::Number(n) => SampleView::Number(*n),
            Sample::Sequence(s) => SampleView::Sequence(s@),
        }
    }
}

/// The position fields of an identifier: everything the coordinate-only
/// format carries.
pub struct CoordinateIdentifier {
    /// ID of the sequencing machine.
    pub sequencer_id: String,
    /// The number of sequencing runs this machine has performed.
    pub run_count: u16,
    /// ID of the flow cell, printed on the side of the glass slide.
    pub flow_cell_id: String,
    /// Lane number.
    pub lane: u8,
    /// The near or far side of the flow cell surface.
    pub side: u8,
    /// The row within a lane, where the lane is wide enough to have several.
    pub swath: u8,
    /// The positional order of the region where the cluster is located.
    pub tile: u8,
    /// The x-coordinate of the cluster.
    pub x: u16,
    /// The y-coordinate of the cluster.
    pub y: u16,
}

/// Ghost mirror of `CoordinateIdentifier`, over character sequences.
pub struct CoordinateIdentifierView {
    pub sequencer_id: Seq<char>,
    pub run_count: u16,
    pub flow_cell_id: Seq<char>,
    pub lane: u8,
    pub side: u8,
    pub swath: u8,
    pub tile: u8,
    pub x: u16,
    pub y: u16,
}

impl View for CoordinateIdentifier {
    type V = CoordinateIdentifierView;

    open spec fn view(&self) -> CoordinateIdentifierView {
        CoordinateIdentifierView {
            sequencer_id: self.sequencer_id@,
            run_count: self.run_count,
            flow_cell_id: self.flow_cell_id@,
            lane: self.lane,
            side: self.side,
            swath: self.swath,
            tile: self.tile,
            x: self.x,
            y: self.y,
        }
    }
}

/// A parsed full-format sequence identifier.
pub struct SequenceIdentifier {
    /// ID of the sequencing machine.
    pub sequencer_id: String,
    /// The number of sequencing runs this machine has performed.
    pub run_count: u16,
    /// ID of the flow cell, printed on the side of the glass slide.
    pub flow_cell_id: String,
    /// Lane number.
    pub lane: u8,
    /// The near or far side of the flow cell surface.
    pub side: u8,
    /// The row within a lane, where the lane is wide enough to have several.
    pub swath: u8,
    /// The positional order of the region where the cluster is located.
    pub tile: u8,
    /// The x-coordinate of the cluster.
    pub x: u16,
    /// The y-coordinate of the cluster.
    pub y: u16,
    /// The read number.
    pub read: u8,
    /// Whether the read was filtered out for low quality (`Y` = filtered).
    pub is_filtered: bool,
    /// Indicates the type of control, 0 = not a control read.
    pub control_number: u8,
    /// Number from the sample sheet, or the literal sequence for a read in
    /// the undetermined reads.
    pub sample: Sample,
}

/// Ghost mirror of `SequenceIdentifier`, over character sequences.
pub struct SequenceIdentifierView {
    pub sequencer_id: Seq<char>,
    pub run_count: u16,
    pub flow_cell_id: Seq<char>,
    pub lane: u8,
    pub side: u8,
    pub swath: u8,
    pub tile: u8,
    pub x: u16,
    pub y: u16,
    pub read: u8,
    pub is_filtered: bool,
    pub control_number: u8,
    pub sample: SampleView,
}

impl View for SequenceIdentifier {
    type V = SequenceIdentifierView;

    open spec fn view(&self) -> SequenceIdentifierView {
        SequenceIdentifierView {
            sequencer_id: self.sequencer_id@,
            run_count: self.run_count,
            flow_cell_id: self.flow_cell_id@,
            lane: self.lane,
            side: self.side,
            swath: self.swath,
            tile: self.tile,
            x: self.x,
            y: self.y,
            read: self.read,
            is_filtered: self.is_filtered,
            control_number: self.control_number,
            sample: self.sample@,
        }
    }
}

/// Errors encountered when parsing an identifier line.
#[derive(Debug)]
pub enum IlluminaError {
    /// A token that had to be a value for its field was not one.
    ParseError,
    /// The line was not structured as expected.
    SplitError,
}

/// The token with its first character, the `@` sentinel position, removed.
pub open spec fn strip_first(s: Seq<char>) -> Seq<char> {
    if s.len() >= 1 {
        s.subrange(1, s.len() as int)
    } else {
        s
    }
}

/// The first character of the compound position token: the side.
pub open spec fn side_token(s: Seq<char>) -> Seq<char> {
    if s.len() >= 1 {
        s.subrange(0, 1)
    } else {
        Seq::empty()
    }
}

/// The second character of the compound position token: the swath.
pub open spec fn swath_token(s: Seq<char>) -> Seq<char> {
    if s.len() >= 2 {
        s.subrange(1, 2)
    } else {
        Seq::empty()
    }
}

/// What remains of the compound position token after side and swath: the
/// tile.
pub open spec fn tile_token(s: Seq<char>) -> Seq<char> {
    if s.len() >= 2 {
        s.subrange(2, s.len() as int)
    } else {
        Seq::empty()
    }
}

/// What the seven left-half tokens yield: the position record when every
/// numeric field parses, nothing otherwise.
pub open spec fn spec_parse_left(t: Seq<Seq<char>>) -> Option<CoordinateIdentifierView>
    recommends
        t.len() == 7,
{
    match (parse_u16_spec(t[1]), parse_u8_spec(t[3]), parse_u8_spec(side_token(t[4])),
    parse_u8_spec(swath_token(t[4])), parse_u8_spec(tile_token(t[4])), parse_u16_spec(t[5]),
    parse_u16_spec(t[6])) {
        (
            Some(run_count),
            Some(lane),
            Some(side),
            Some(swath),
            Some(tile),
            Some(x),
            Some(y),
        ) => Some(
            CoordinateIdentifierView {
                sequencer_id: strip_first(t[0]),
                run_count,
                flow_cell_id: t[2],
                lane,
                side,
                swath,
                tile,
                x,
                y,
            },
        ),
        _ => None,
    }
}

/// What the filter-flag token yields: `Y` is filtered, `N` is not, anything
/// else is no flag at all.
pub open spec fn filter_flag_value(s: Seq<char>) -> Option<bool> {
    if s == seq!['Y'] {
        Some(true)
    } else if s == seq!['N'] {
        Some(false)
    } else {
        None
    }
}

/// What the sample token yields: the sample number when the token is
/// numeric, and otherwise the token itself as a literal sequence. This
/// fallback never fails.
pub open spec fn sample_value(s: Seq<char>) -> SampleView {
    match parse_u8_spec(s) {
        Some(n) => SampleView::Number(n),
        None => SampleView::Sequence(s),
    }
}

/// What the seven left and four right tokens of a full-format line yield.
pub open spec fn spec_parse_tokens(lt: Seq<Seq<char>>, rt: Seq<Seq<char>>) -> Result<
    SequenceIdentifierView,
    IlluminaError,
>
    recommends
        lt.len() == 7,
        rt.len() == 4,
{
    match (spec_parse_left(lt), parse_u8_spec(rt[0]), filter_flag_value(rt[1]), parse_u8_spec(
        rt[2],
    )) {
        (Some(c), Some(read), Some(is_filtered), Some(control_number)) => Ok(
            SequenceIdentifierView {
                sequencer_id: c.sequencer_id,
                run_count: c.run_count,
                flow_cell_id: c.flow_cell_id,
                lane: c.lane,
                side: c.side,
                swath: c.swath,
                tile: c.tile,
                x: c.x,
                y: c.y,
                read,
                is_filtered,
                control_number,
                sample: sample_value(rt[3]),
            },
        ),
        _ => Err(IlluminaError::ParseError),
    }
}

/// What `parse_sequence_identifier` returns, over the line's characters.
pub open spec fn spec_parse(s: Seq<char>) -> Result<SequenceIdentifierView, IlluminaError> {
    let halves = split_spec(trim_spec(s), ' ');
    if halves.len() != 2 {
        Err(IlluminaError::SplitError)
    } else {
        let lt = split_spec(halves[0], ':');
        let rt = split_spec(halves[1], ':');
        if lt.len() != 7 || rt.len() != 4 {
            Err(IlluminaError::SplitError)
        } else {
            spec_parse_tokens(lt, rt)
        }
    }
}

/// What `parse_coordinate_identifier` returns, over the line's characters.
pub open spec fn spec_parse_coordinates(s: Seq<char>) -> Result<
    CoordinateIdentifierView,
    IlluminaError,
> {
    let halves = split_spec(trim_spec(s), ' ');
    if halves.len() != 1 {
        Err(IlluminaError::SplitError)
    } else {
        let lt = split_spec(halves[0], ':');
        if lt.len() != 7 {
            Err(IlluminaError::SplitError)
        } else {
            match spec_parse_left(lt) {
                Some(c) => Ok(c),
                None => Err(IlluminaError::ParseError),
            }
        }
    }
}

/// Parses the seven colon-delimited tokens of a line's left half.
fn parse_left_tokens(tokens: &Vec<&str>) -> (r: Option<CoordinateIdentifier>)
    requires
        tokens@.len() == 7,
    ensures
        match r {
            Some(c) => spec_parse_left(token_views(tokens@)) == Some(c@),
            None => spec_parse_left(token_views(tokens@)) is None,
        },
{
    let run_count = match parse_u16(tokens[1]) {
        Some(v) => v,
        None => {
            return None;
        },
    };
    let lane = match parse_u8(tokens[3]) {
        Some(v) => v,
        None => {
            return None;
        },
    };
    let compound = tokens[4];
    let compound_len = compound.unicode_len();
    let side_str = if compound_len >= 1 {
        compound.substring_char(0, 1)
    } else {
        compound.substring_char(0, 0)
    };
    let swath_str = if compound_len >= 2 {
        compound.substring_char(1, 2)
    } else {
        compound.substring_char(0, 0)
    };
    let tile_str = if compound_len >= 2 {
        compound.substring_char(2, compound_len)
    } else {
        compound.substring_char(0, 0)
    };
    proof {
        assert(side_str@ =~= side_token(compound@));
        assert(swath_str@ =~= swath_token(compound@));
        assert(tile_str@ =~= tile_token(compound@));
    }
    let side = match parse_u8(side_str) {
        Some(v) => v,
        None => {
            return None;
        },
    };
    let swath = match parse_u8(swath_str) {
        Some(v) => v,
        None => {
            return None;
        },
    };
    let tile = match parse_u8(tile_str) {
        Some(v) => v,
        None => {
            return None;
        },
    };
    let x = match parse_u16(tokens[5]) {
        Some(v) => v,
        None => {
            return None;
        },
    };
    let y = match parse_u16(tokens[6]) {
        Some(v) => v,
        None => {
            return None;
        },
    };
    let first = tokens[0];
    let first_len = first.unicode_len();
    let stripped = if first_len >= 1 {
        first.substring_char(1, first_len)
    } else {
        first
    };
    proof {
        assert(stripped@ =~= strip_first(first@));
    }
    let sequencer_id = String::from_str(stripped);
    let flow_cell_id = String::from_str(tokens[2]);
    Some(
        CoordinateIdentifier {
            sequencer_id,
            run_count,
            flow_cell_id,
            lane,
            side,
            swath,
            tile,
            x,
            y,
        },
    )
}

/// Reads the filter-flag token: exactly `Y` or exactly `N`.
fn parse_filter_flag(s: &str) -> (r: Option<bool>)
    ensures
        r == filter_flag_value(s@),
{
    let n = s.unicode_len();
    if n != 1 {
        proof {
            assert(s@ != seq!['Y']);
            assert(s@ != seq!['N']);
        }
        return None;
    }
    let c = s.get_char(0);
    if c == 'Y' {
        proof {
            assert(s@ =~= seq!['Y']);
        }
        Some(true)
    } else if c == 'N' {
        proof {
            assert(s@ =~= seq!['N']);
        }
        Some(false)
    } else {
        proof {
            assert(s@ != seq!['Y']);
            assert(s@ != seq!['N']);
        }
        None
    }
}

/// Parses location information from a full-format Illumina sequence
/// identifier line, such as
/// `@M03745:11:000000000-B54L5:1:2108:4127:8949 1:N:0:0`.
///
/// Surrounding whitespace, a trailing newline included, is ignored. The line
/// must hold two space-separated halves, the left with seven colon-delimited
/// tokens and the right with four, else `SplitError` is returned. A numeric
/// field that does not parse within its width, or a filter flag other than
/// `Y` or `N`, gives `ParseError`. The sample token falls back to a literal
/// sequence when it is not numeric; that fallback never fails.
pub fn parse_sequence_identifier(text: &str) -> (r: Result<SequenceIdentifier, IlluminaError>)
    ensures
        match r {
            Ok(id) => spec_parse(text@) == Ok::<SequenceIdentifierView, IlluminaError>(id@),
            Err(e) => spec_parse(text@) == Err::<SequenceIdentifierView, IlluminaError>(e),
        },
{
    let trimmed = trim(text);
    let halves = split_at_char(trimmed, ' ');
    if halves.len() != 2 {
        return Err(IlluminaError::SplitError);
    }
    let left = split_at_char(halves[0], ':');
    let right = split_at_char(halves[1], ':');
    if left.len() != 7 {
        return Err(IlluminaError::SplitError);
    }
    if right.len() != 4 {
        return Err(IlluminaError::SplitError);
    }
    let coordinates = match parse_left_tokens(&left) {
        Some(c) => c,
        None => {
            return Err(IlluminaError::ParseError);
        },
    };
    let read = match parse_u8(right[0]) {
        Some(v) => v,
        None => {
            return Err(IlluminaError::ParseError);
        },
    };
    let is_filtered = match parse_filter_flag(right[1]) {
        Some(v) => v,
        None => {
            return Err(IlluminaError::ParseError);
        },
    };
    let control_number = match parse_u8(right[2]) {
        Some(v) => v,
        None => {
            return Err(IlluminaError::ParseError);
        },
    };
    let sample = match parse_u8(right[3]) {
        Some(n) => Sample::Number(n),
        None => Sample::Sequence(String::from_str(right[3])),
    };
    Ok(
        SequenceIdentifier {
            sequencer_id: coordinates.sequencer_id,
            run_count: coordinates.run_count,
            flow_cell_id: coordinates.flow_cell_id,
            lane: coordinates.lane,
            side: coordinates.side,
            swath: coordinates.swath,
            tile: coordinates.tile,
            x: coordinates.x,
            y: coordinates.y,
            read,
            is_filtered,
            control_number,
            sample,
        },
    )
}

/// Parses a coordinate-only identifier line: the left half of the full
/// format standing alone, such as
/// `@M03745:11:000000000-B54L5:1:2108:4127:8949`.
///
/// Surrounding whitespace is ignored. The line must hold no space and
/// exactly seven colon-delimited tokens, else `SplitError` is returned; a
/// numeric field that does not parse within its width gives `ParseError`.
pub fn parse_coordinate_identifier(text: &str) -> (r: Result<CoordinateIdentifier, IlluminaError>)
    ensures
        match r {
            Ok(c) => spec_parse_coordinates(text@) == Ok::<CoordinateIdentifierView, IlluminaError>(
                c@,
            ),
            Err(e) => spec_parse_coordinates(text@) == Err::<
                CoordinateIdentifierView,
                IlluminaError,
            >(e),
        },
{
    let trimmed = trim(text);
    let halves = split_at_char(trimmed, ' ');
    if halves.len() != 1 {
        return Err(IlluminaError::SplitError);
    }
    let left = split_at_char(halves[0], ':');
    if left.len() != 7 {
        return Err(IlluminaError::SplitError);
    }
    match parse_left_tokens(&left) {
        Some(c) => Ok(c),
        None => Err(IlluminaError::ParseError),
    }
}

} // verus!
