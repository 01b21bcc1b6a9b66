use serial_telemetry::fields::{
    find_record, parse_frame, parse_frame_bytes, scan_until, split_segment, without_prefix,
    FIELD_SEPARATOR, FRAME_DELIMITER, HUMIDITY_PREFIX, TEMPERATURE_PREFIX,
};

#[test]
fn parses_first_record_of_frame() {
    assert_eq!(parse_frame("t25,h50;"), Some((25, 50)));
}

#[test]
fn first_qualifying_segment_wins_over_later_ones() {
    assert_eq!(parse_frame("t25,h50;t30,h60;"), Some((25, 50)));
    assert_eq!(parse_frame("t-5,h07;t99,h99;garbage"), Some((-5, 7)));
}

#[test]
fn unqualified_segments_are_passed_over() {
    assert_eq!(parse_frame("t,h1;t25,h50;"), Some((25, 50)));
    assert_eq!(parse_frame(";;t25,h50;"), Some((25, 50)));
    assert_eq!(parse_frame("0;t21,h40;"), Some((21, 40)));
}

#[test]
fn short_temperature_token_rejects_the_frame() {
    assert_eq!(parse_frame("t,h1"), None);
    assert_eq!(parse_frame("t,h1;"), None);
}

#[test]
fn short_humidity_token_rejects_the_frame() {
    assert_eq!(parse_frame("t25,h;"), None);
    assert_eq!(parse_frame("t25,;"), None);
}

#[test]
fn frame_without_separator_carries_nothing() {
    assert_eq!(parse_frame("t25h50;"), None);
    assert_eq!(parse_frame(""), None);
    assert_eq!(parse_frame(";"), None);
}

#[test]
fn failed_parse_of_first_record_is_not_retried_on_later_segments() {
    assert_eq!(parse_frame("tx5,h50;t25,h50;"), None);
    assert_eq!(parse_frame("t25,hxx;t25,h50;"), None);
}

#[test]
fn both_fields_or_neither() {
    assert_eq!(parse_frame("t25,h300;"), None);
    assert_eq!(parse_frame("t200,h50;"), None);
}

#[test]
fn tokens_after_the_second_are_ignored() {
    assert_eq!(parse_frame("t25,h50,zz;"), Some((25, 50)));
}

#[test]
fn one_prefix_is_stripped_and_no_more() {
    assert_eq!(parse_frame("tt5,h50;"), None);
    assert_eq!(parse_frame("t25,hh5;"), None);
    assert_eq!(parse_frame("2t5,h50;"), None);
}

#[test]
fn prefix_may_be_absent() {
    assert_eq!(parse_frame("25,50;"), Some((25, 50)));
}

#[test]
fn frame_without_delimiter_is_one_segment() {
    assert_eq!(parse_frame("t25,h50"), Some((25, 50)));
}

#[test]
fn token_length_counts_bytes() {
    // One character of two bytes is longer than one byte: the segment
    // qualifies, its temperature is no number, and the frame is rejected.
    assert_eq!(parse_frame("\u{e9},h50;t25,h50;"), None);
    // One character of one byte is not: the segment is passed over.
    assert_eq!(parse_frame("e,h50;t25,h50;"), Some((25, 50)));
}

#[test]
fn grammar_bytes_are_the_documented_ones() {
    assert_eq!(FRAME_DELIMITER, b';');
    assert_eq!(FIELD_SEPARATOR, b',');
    assert_eq!(TEMPERATURE_PREFIX, b't');
    assert_eq!(HUMIDITY_PREFIX, b'h');
}

#[test]
fn record_is_found_in_the_first_qualifying_segment() {
    assert_eq!(find_record(b"x;t25,h50;t30,h60"), Some((&b"t25"[..], &b"h50"[..])));
    assert_eq!(find_record(b"x;y;z"), None);
    assert_eq!(find_record(b""), None);
}

#[test]
fn every_well_formed_frame_carries_its_numbers() {
    for t in i8::MIN..=i8::MAX {
        for h in [0u8, 1, 9, 10, 50, 99, 100, 255] {
            let frame = format!("t{},h{};t0,h0;", t, h);
            assert_eq!(parse_frame(&frame), Some((t, h)), "{frame:?}");
        }
    }
}

#[test]
fn scan_stops_at_first_stop_byte() {
    assert_eq!(scan_until(b"ab;cd;", b';'), 2);
    assert_eq!(scan_until(b";", b';'), 0);
    assert_eq!(scan_until(b"abc", b';'), 3);
    assert_eq!(scan_until(b"", b';'), 0);
}

#[test]
fn segment_splits_into_first_two_tokens() {
    assert_eq!(split_segment(b"t25,h50"), Some((&b"t25"[..], &b"h50"[..])));
    assert_eq!(split_segment(b"t25,h50,rest"), Some((&b"t25"[..], &b"h50"[..])));
    assert_eq!(split_segment(b"t25"), None);
    assert_eq!(split_segment(b"t,h50"), None);
    assert_eq!(split_segment(b"t25,h"), None);
    assert_eq!(split_segment(b""), None);
}

#[test]
fn prefix_is_removed_once() {
    assert_eq!(without_prefix(b"t25", b't'), &b"25"[..]);
    assert_eq!(without_prefix(b"tt5", b't'), &b"t5"[..]);
    assert_eq!(without_prefix(b"25", b't'), &b"25"[..]);
    assert_eq!(without_prefix(b"", b't'), &b""[..]);
}

#[test]
fn bytes_that_are_no_text_can_be_parsed_too() {
    assert_eq!(parse_frame_bytes(b"\xff\xfe;t21,h43;"), Some((21, 43)));
    assert_eq!(parse_frame_bytes(b"t21,h43;\xff"), Some((21, 43)));
}
