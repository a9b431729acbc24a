use illumina_coordinates::parse_sequence_identifier;
use illumina_coordinates::IlluminaError;

#[test]
fn raw_base_sequence_is_a_split_error() {
    let result = parse_sequence_identifier("CACGACGACTAGCTACGGACGCGGCACGACGCAG");
    assert!(matches!(result, Err(IlluminaError::SplitError)));
}

#[test]
fn empty_line_is_a_split_error() {
    let result = parse_sequence_identifier("");
    assert!(matches!(result, Err(IlluminaError::SplitError)));
}

#[test]
fn whitespace_only_line_is_a_split_error() {
    let result = parse_sequence_identifier("  \n");
    assert!(matches!(result, Err(IlluminaError::SplitError)));
}

#[test]
fn too_few_left_tokens_is_a_split_error() {
    let result = parse_sequence_identifier("@M03745:11:000000000-B54L5:1:2108:4127 1:N:0:0");
    assert!(matches!(result, Err(IlluminaError::SplitError)));
}

#[test]
fn too_many_left_tokens_is_a_split_error() {
    let result =
        parse_sequence_identifier("@M03745:11:000000000-B54L5:1:2108:4127:8949:77 1:N:0:0");
    assert!(matches!(result, Err(IlluminaError::SplitError)));
}

#[test]
fn too_few_right_tokens_is_a_split_error() {
    let result = parse_sequence_identifier("@M03745:11:000000000-B54L5:1:2108:4127:8949 1:N:0");
    assert!(matches!(result, Err(IlluminaError::SplitError)));
}

#[test]
fn missing_right_half_is_a_split_error() {
    let result = parse_sequence_identifier("@M03745:11:000000000-B54L5:1:2108:4127:8949");
    assert!(matches!(result, Err(IlluminaError::SplitError)));
}

#[test]
fn two_spaces_is_a_split_error() {
    let result = parse_sequence_identifier("@M03745:11:000000000-B54L5:1:2108:4127:8949 1:N:0:0 x");
    assert!(matches!(result, Err(IlluminaError::SplitError)));
}

#[test]
fn bad_filter_flag_is_a_parse_error() {
    let result = parse_sequence_identifier("@M03745:11:000000000-B54L5:1:2108:4127:8949 1:X:0:0");
    assert!(matches!(result, Err(IlluminaError::ParseError)));
}

#[test]
fn lowercase_filter_flag_is_a_parse_error() {
    let result = parse_sequence_identifier("@M03745:11:000000000-B54L5:1:2108:4127:8949 1:n:0:0");
    assert!(matches!(result, Err(IlluminaError::ParseError)));
}

#[test]
fn non_numeric_run_count_is_a_parse_error() {
    let result = parse_sequence_identifier("@M03745:xx:000000000-B54L5:1:2108:4127:8949 1:N:0:0");
    assert!(matches!(result, Err(IlluminaError::ParseError)));
}

#[test]
fn signed_run_count_is_a_parse_error() {
    let result = parse_sequence_identifier("@M03745:+11:000000000-B54L5:1:2108:4127:8949 1:N:0:0");
    assert!(matches!(result, Err(IlluminaError::ParseError)));
}

#[test]
fn run_count_too_wide_is_a_parse_error() {
    let result =
        parse_sequence_identifier("@M03745:70000:000000000-B54L5:1:2108:4127:8949 1:N:0:0");
    assert!(matches!(result, Err(IlluminaError::ParseError)));
}

#[test]
fn lane_too_wide_is_a_parse_error() {
    let result = parse_sequence_identifier("@M03745:11:000000000-B54L5:256:2108:4127:8949 1:N:0:0");
    assert!(matches!(result, Err(IlluminaError::ParseError)));
}

#[test]
fn x_coordinate_too_wide_is_a_parse_error() {
    let result = parse_sequence_identifier("@M03745:11:000000000-B54L5:1:2108:65536:8949 1:N:0:0");
    assert!(matches!(result, Err(IlluminaError::ParseError)));
}

#[test]
fn empty_lane_token_is_a_parse_error() {
    let result = parse_sequence_identifier("@M03745:11:000000000-B54L5::2108:4127:8949 1:N:0:0");
    assert!(matches!(result, Err(IlluminaError::ParseError)));
}

#[test]
fn one_character_compound_token_is_a_parse_error() {
    let result = parse_sequence_identifier("@M03745:11:000000000-B54L5:1:2:4127:8949 1:N:0:0");
    assert!(matches!(result, Err(IlluminaError::ParseError)));
}

#[test]
fn two_character_compound_token_is_a_parse_error() {
    let result = parse_sequence_identifier("@M03745:11:000000000-B54L5:1:21:4127:8949 1:N:0:0");
    assert!(matches!(result, Err(IlluminaError::ParseError)));
}

#[test]
fn non_digit_compound_token_is_a_parse_error() {
    let result = parse_sequence_identifier("@M03745:11:000000000-B54L5:1:2x08:4127:8949 1:N:0:0");
    assert!(matches!(result, Err(IlluminaError::ParseError)));
}
