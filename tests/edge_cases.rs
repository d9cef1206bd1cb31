use split_triple::split_string_3;

#[test]
fn well_formed_with_long_delimiter() {
    assert_eq!(split_string_3("10::200::3000", "::"), Some((10, 200, 3000)));
}

#[test]
fn leading_zeros_are_read() {
    assert_eq!(split_string_3("007,0010,00000", ","), Some((7, 10, 0)));
}

#[test]
fn plus_sign_is_refused() {
    assert_eq!(split_string_3("+1,2,3", ","), None);
    assert_eq!(split_string_3("1,+2,3", ","), None);
}

#[test]
fn whitespace_is_refused() {
    assert_eq!(split_string_3(" 1,2,3", ","), None);
    assert_eq!(split_string_3("1,2 ,3", ","), None);
    assert_eq!(split_string_3("1,2,3\n", ","), None);
}

#[test]
fn empty_delimiter_gives_none() {
    assert_eq!(split_string_3("1,2,3", ""), None);
    assert_eq!(split_string_3("123", ""), None);
    assert_eq!(split_string_3("", ""), None);
}

#[test]
fn empty_value_gives_none() {
    assert_eq!(split_string_3("", ","), None);
}

#[test]
fn delimiter_absent_gives_none() {
    assert_eq!(split_string_3("123", ","), None);
}

#[test]
fn trailing_and_leading_delimiters_give_none() {
    assert_eq!(split_string_3("1,2,3,", ","), None);
    assert_eq!(split_string_3(",1,2,3", ","), None);
    assert_eq!(split_string_3(",2,3", ","), None);
    assert_eq!(split_string_3("1,2,", ","), None);
}

#[test]
fn delimiter_is_literal_not_a_pattern() {
    assert_eq!(split_string_3("1.2.3", "."), Some((1, 2, 3)));
    assert_eq!(split_string_3("1a2b3", "."), None);
    assert_eq!(split_string_3("1*2*3", ".*"), None);
    assert_eq!(split_string_3("1.*2.*3", ".*"), Some((1, 2, 3)));
}

#[test]
fn digit_delimiter_splits_where_it_stands() {
    assert_eq!(split_string_3("19293", "9"), Some((1, 2, 3)));
}

#[test]
fn overlapping_occurrences_split_from_the_left() {
    // "aa" is found at 1, then at 5: the segments are "1", "a2", "3".
    assert_eq!(split_string_3("1aaa2aa3", "aa"), None);
    assert_eq!(split_string_3("1aa2aa3", "aa"), Some((1, 2, 3)));
}

#[test]
fn non_ascii_delimiter() {
    assert_eq!(split_string_3("1→22→333", "→"), Some((1, 22, 333)));
    assert_eq!(split_string_3("1→2→３", "→"), None);
}

#[test]
fn far_out_of_range_gives_none() {
    assert_eq!(split_string_3("99999999999999999999,1,2", ","), None);
    assert_eq!(split_string_3("1,2,70000", ","), None);
    assert_eq!(split_string_3("1,2,65535", ","), Some((1, 2, 65535)));
}

#[test]
fn failure_repeats_across_calls() {
    for input in ["1,2", "1,2,3,4", "1,,3", "A,2,3", "65536,0,0", "-1,0,0"] {
        let first = split_string_3(input, ",");
        let second = split_string_3(input, ",");
        assert_eq!(first, None);
        assert_eq!(second, None);
    }
}

#[test]
fn round_trip_of_formatted_triples() {
    let triples = [(0u16, 0u16, 0u16), (1, 2, 3), (65535, 0, 65535), (12, 345, 6789), (65535, 65535, 65535)];
    for delimiter in [",", "::", "; ", "x", "→"] {
        for &(x, y, z) in triples.iter() {
            let text = format!("{}{}{}{}{}", x, delimiter, y, delimiter, z);
            assert_eq!(split_string_3(&text, delimiter), Some((x, y, z)));
        }
    }
}

#[test]
fn boundary_values() {
    assert_eq!(split_string_3("0,0,0", ","), Some((0, 0, 0)));
    assert_eq!(split_string_3("65535,65535,65535", ","), Some((65535, 65535, 65535)));
    assert_eq!(split_string_3("65536,0,0", ","), None);
    assert_eq!(split_string_3("-1,0,0", ","), None);
}

#[test]
fn segment_count_boundary() {
    assert_eq!(split_string_3("1,2", ","), None);
    assert_eq!(split_string_3("1,2,3,4", ","), None);
    assert_eq!(split_string_3("1,2,3", ","), Some((1, 2, 3)));
}

#[test]
fn overlapping_separator_occurrence_is_skipped() {
    // "a1a" also stands at 3, inside the scan's reach only after the first separator.
    assert_eq!(split_string_3("5a1a1a1a3", "a1a"), Some((5, 1, 3)));
}

#[test]
fn delimiter_conflicting_with_a_field_gives_none() {
    // "11" first stands at 0, inside the rendering of the first field.
    assert_eq!(split_string_3("1112113", "11"), None);
}
