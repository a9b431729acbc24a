use illumina_coordinates::parse_sequence_identifier;
use illumina_coordinates::Sample;

#[test]
fn test_parse() {
    let line = "@M03745:11:000000000-B54L5:1:2108:4127:8949 1:N:0:0";
    let seq_id = parse_sequence_identifier(&line).unwrap();
    assert_eq!(seq_id.sequencer_id, "M03745".to_string());
    assert_eq!(seq_id.run_count, 11);
    assert_eq!(seq_id.flow_cell_id, "000000000-B54L5".to_string());
    assert_eq!(seq_id.lane, 1);
    assert_eq!(seq_id.side, 2);
    assert_eq!(seq_id.swath, 1);
    assert_eq!(seq_id.tile, 8);
    assert_eq!(seq_id.x, 4127);
    assert_eq!(seq_id.y, 8949);
    assert_eq!(seq_id.read, 1);
    assert_eq!(seq_id.is_filtered, false);
    assert_eq!(seq_id.control_number, 0);
    assert_eq!(seq_id.sample, Sample::Number(0));
}

#[test]
fn test_parse_with_newline() {
    let line = "@M03745:11:000000000-B54L5:1:2108:4127:8949 1:Y:0:0\n";
    let seq_id = parse_sequence_identifier(&line).unwrap();
    assert_eq!(seq_id.sequencer_id, "M03745".to_string());
    assert_eq!(seq_id.run_count, 11);
    assert_eq!(seq_id.flow_cell_id, "000000000-B54L5".to_string());
    assert_eq!(seq_id.lane, 1);
    assert_eq!(seq_id.side, 2);
    assert_eq!(seq_id.swath, 1);
    assert_eq!(seq_id.tile, 8);
    assert_eq!(seq_id.x, 4127);
    assert_eq!(seq_id.y, 8949);
    assert_eq!(seq_id.read, 1);
    assert_eq!(seq_id.is_filtered, true);
    assert_eq!(seq_id.control_number, 0);
    assert_eq!(seq_id.sample, Sample::Number(0));
}

#[test]
fn test_parse_error() {
    let result = parse_sequence_identifier("CACGACGACTAGCTACGGACGCGGCACGACGCAG");
    assert!(result.is_err());
}

#[test]
fn filtered_flag_parses_to_true() {
    let line = "@M03745:11:000000000-B54L5:1:2108:4127:8949 1:Y:0:0";
    let seq_id = parse_sequence_identifier(&line).unwrap();
    assert_eq!(seq_id.is_filtered, true);
    assert_eq!(seq_id.sequencer_id, "M03745".to_string());
    assert_eq!(seq_id.run_count, 11);
    assert_eq!(seq_id.flow_cell_id, "000000000-B54L5".to_string());
    assert_eq!(seq_id.lane, 1);
    assert_eq!(seq_id.side, 2);
    assert_eq!(seq_id.swath, 1);
    assert_eq!(seq_id.tile, 8);
    assert_eq!(seq_id.x, 4127);
    assert_eq!(seq_id.y, 8949);
    assert_eq!(seq_id.read, 1);
    assert_eq!(seq_id.control_number, 0);
    assert_eq!(seq_id.sample, Sample::Number(0));
}

#[test]
fn surrounding_whitespace_is_ignored() {
    let plain = parse_sequence_identifier(
        "@M03745:11:000000000-B54L5:1:2108:4127:8949 1:N:0:0",
    )
    .unwrap();
    let padded = parse_sequence_identifier(
        "  \t@M03745:11:000000000-B54L5:1:2108:4127:8949 1:N:0:0 \r\n",
    )
    .unwrap();
    assert_eq!(plain.sequencer_id, padded.sequencer_id);
    assert_eq!(plain.run_count, padded.run_count);
    assert_eq!(plain.flow_cell_id, padded.flow_cell_id);
    assert_eq!(plain.lane, padded.lane);
    assert_eq!(plain.side, padded.side);
    assert_eq!(plain.swath, padded.swath);
    assert_eq!(plain.tile, padded.tile);
    assert_eq!(plain.x, padded.x);
    assert_eq!(plain.y, padded.y);
    assert_eq!(plain.read, padded.read);
    assert_eq!(plain.is_filtered, padded.is_filtered);
    assert_eq!(plain.control_number, padded.control_number);
    assert_eq!(plain.sample, padded.sample);
}

#[test]
fn unicode_whitespace_padding_is_ignored() {
    let line = "\u{A0}@M03745:11:000000000-B54L5:1:2108:4127:8949 1:N:0:0\u{2028}\x0B";
    let seq_id = parse_sequence_identifier(&line).unwrap();
    assert_eq!(seq_id.sequencer_id, "M03745".to_string());
    assert_eq!(seq_id.y, 8949);
    assert_eq!(seq_id.sample, Sample::Number(0));
}

#[test]
fn multi_digit_tile_splits_after_side_and_swath() {
    let line = "@M00001:1:FC1:1:2119:100:200 2:N:0:5";
    let seq_id = parse_sequence_identifier(&line).unwrap();
    assert_eq!(seq_id.side, 2);
    assert_eq!(seq_id.swath, 1);
    assert_eq!(seq_id.tile, 19);
    assert_eq!(seq_id.read, 2);
    assert_eq!(seq_id.sample, Sample::Number(5));
}

#[test]
fn sample_sequence_fallback_is_not_an_error() {
    let line = "@M03745:11:000000000-B54L5:1:2108:4127:8949 1:N:0:ACGT";
    let seq_id = parse_sequence_identifier(&line).unwrap();
    assert_eq!(seq_id.sample, Sample::Sequence("ACGT".to_string()));
}

#[test]
fn sample_number_too_wide_falls_back_to_sequence() {
    let line = "@M03745:11:000000000-B54L5:1:2108:4127:8949 1:N:0:256";
    let seq_id = parse_sequence_identifier(&line).unwrap();
    assert_eq!(seq_id.sample, Sample::Sequence("256".to_string()));
}

#[test]
fn leading_zeros_parse_as_their_value() {
    let line = "@M03745:007:000000000-B54L5:1:2108:4127:8949 1:N:0:0";
    let seq_id = parse_sequence_identifier(&line).unwrap();
    assert_eq!(seq_id.run_count, 7);
}
