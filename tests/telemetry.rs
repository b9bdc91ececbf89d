use microbit_cutebot::parse_distance_angle;

#[test]
fn parses_well_formed_line() {
    assert_eq!(parse_distance_angle("D: 150, A: 22"), Some((150, 22)));
    assert_eq!(parse_distance_angle("D: 0, A: -32768"), Some((0, -32768)));
    assert_eq!(parse_distance_angle("D: 65535, A: 32767"), Some((65535, 32767)));
}

#[test]
fn tags_in_either_order() {
    assert_eq!(parse_distance_angle("A: -5, D: 42"), Some((42, -5)));
}

#[test]
fn missing_tag_gives_none() {
    assert_eq!(parse_distance_angle("D: 150"), None);
    assert_eq!(parse_distance_angle("A: 10"), None);
    assert_eq!(parse_distance_angle(""), None);
    assert_eq!(parse_distance_angle("hello"), None);
}

#[test]
fn out_of_range_or_bad_values_give_none() {
    assert_eq!(parse_distance_angle("D: 65536, A: 0"), None);
    assert_eq!(parse_distance_angle("D: -1, A: 0"), None);
    assert_eq!(parse_distance_angle("D: 10, A: 32768"), None);
    assert_eq!(parse_distance_angle("D: 10, A: -32769"), None);
    assert_eq!(parse_distance_angle("D: x, A: 1"), None);
    assert_eq!(parse_distance_angle("D: , A: 1"), None);
    assert_eq!(parse_distance_angle("D: 1 2, A: 1"), None);
}

#[test]
fn white_space_and_signs_around_values() {
    assert_eq!(parse_distance_angle("D:   7 , A:  -3  "), Some((7, -3)));
    assert_eq!(parse_distance_angle("D: +7, A: +3"), Some((7, 3)));
    assert_eq!(parse_distance_angle("D: 7, A: 3\r"), Some((7, 3)));
}

#[test]
fn value_starts_three_characters_after_tag() {
    // no space after the colon: the first digit is skipped
    assert_eq!(parse_distance_angle("D:123, A:45"), Some((23, 5)));
    // a tag at the very end leaves an empty value
    assert_eq!(parse_distance_angle("A: 1, D:"), None);
}

#[test]
fn extra_fields_are_ignored() {
    assert_eq!(parse_distance_angle("ID 3, D: 80, A: 4, Q: 9"), Some((80, 4)));
}

#[test]
fn positions_count_characters_and_unicode_white_space_is_trimmed() {
    assert_eq!(parse_distance_angle("ÄD: 12, A: 3"), Some((12, 3)));
    assert_eq!(parse_distance_angle("D:\u{a0}\u{a0}5, A: 1\u{3000}"), Some((5, 1)));
    assert_eq!(parse_distance_angle("D: 5, A: 7 ü"), None);
}
