use serial_telemetry::reading::Reading;
use serial_telemetry::writer::{encode_batch, encode_reading, join_rows, EncodeError};

fn reading(temperature: i8, humidity: u8, captured_at: &str) -> Reading {
    Reading::new(temperature, humidity, captured_at.to_string())
}

fn parse_back(bytes: &[u8]) -> Vec<(i8, u8, String)> {
    let mut reader = csv::ReaderBuilder::new().has_headers(false).from_reader(bytes);
    let mut rows = Vec::new();
    for record in reader.records() {
        let record = record.expect("a record");
        assert_eq!(record.len(), 3);
        rows.push((
            record.get(0).unwrap().parse::<i8>().expect("a temperature"),
            record.get(1).unwrap().parse::<u8>().expect("a humidity"),
            record.get(2).unwrap().to_string(),
        ));
    }
    rows
}

#[test]
fn reading_becomes_one_record_of_three_fields() {
    let row = encode_reading(&reading(25, 50, "01-01-2024 10:00:00")).expect("a record");
    assert_eq!(row, b"25,50,01-01-2024 10:00:00\n");
}

#[test]
fn negative_temperature_is_written_with_its_sign() {
    let row = encode_reading(&reading(-128, 255, "31-12-2024 23:59:59")).expect("a record");
    assert_eq!(row, b"-128,255,31-12-2024 23:59:59\n");
}

#[test]
fn field_with_a_separator_is_quoted() {
    let row = encode_reading(&reading(1, 2, "a,b \"c\"")).expect("a record");
    assert_eq!(row, b"1,2,\"a,b \"\"c\"\"\"\n");
}

#[test]
fn record_round_trips_through_a_csv_reader() {
    let samples = [
        reading(25, 50, "01-01-2024 10:00:00"),
        reading(-128, 0, "29-02-2024 00:00:00"),
        reading(127, 255, "31-12-1999 23:59:59"),
        reading(0, 100, "with, comma"),
        reading(-1, 1, "with \"quotes\""),
        reading(5, 5, "two\nlines"),
        reading(6, 6, "gr\u{fc}\u{df}e"),
    ];
    for sample in samples {
        let row = encode_reading(&sample).expect("a record");
        assert_eq!(
            parse_back(&row),
            vec![(sample.temperature, sample.humidity, sample.captured_at.clone())]
        );
    }
}

#[test]
fn every_pair_of_numbers_is_written_in_decimal() {
    for t in i8::MIN..=i8::MAX {
        for h in [0u8, 7, 10, 99, 100, 255] {
            let row = encode_reading(&reading(t, h, "01-01-2024 10:00:00")).expect("a record");
            assert_eq!(row, format!("{},{},01-01-2024 10:00:00\n", t, h).into_bytes());
            assert_eq!(parse_back(&row), vec![(t, h, "01-01-2024 10:00:00".to_string())]);
        }
    }
}

#[test]
fn empty_capture_time_is_an_empty_field() {
    let row = encode_reading(&reading(1, 2, "")).expect("a record");
    assert_eq!(row, b"1,2,\n");
}

#[test]
fn field_with_an_end_of_line_is_quoted() {
    assert_eq!(encode_reading(&reading(1, 2, "a\rb")).expect("a record"), b"1,2,\"a\rb\"\n");
    assert_eq!(encode_reading(&reading(1, 2, "a\nb")).expect("a record"), b"1,2,\"a\nb\"\n");
    assert_eq!(encode_reading(&reading(1, 2, "a b\tc")).expect("a record"), b"1,2,a b\tc\n");
}

#[test]
fn batch_is_encoded_row_by_row_in_order() {
    let batch = vec![
        reading(20, 50, "01-01-2024 10:00:00"),
        reading(21, 51, "01-01-2024 10:00:01"),
        reading(22, 52, "01-01-2024 10:00:02"),
    ];
    let rows = encode_batch(&batch);
    assert_eq!(rows.len(), 3);
    let bytes = join_rows(&rows);
    assert_eq!(
        bytes,
        b"20,50,01-01-2024 10:00:00\n21,51,01-01-2024 10:00:01\n22,52,01-01-2024 10:00:02\n"
    );
    assert_eq!(
        parse_back(&bytes),
        vec![
            (20, 50, "01-01-2024 10:00:00".to_string()),
            (21, 51, "01-01-2024 10:00:01".to_string()),
            (22, 52, "01-01-2024 10:00:02".to_string()),
        ]
    );
}

#[test]
fn no_header_row_is_written() {
    let bytes = join_rows(&encode_batch(&vec![reading(1, 2, "t")]));
    assert_eq!(bytes, b"1,2,t\n");
}

#[test]
fn empty_batch_gives_no_bytes() {
    let rows = encode_batch(&vec![]);
    assert!(rows.is_empty());
    assert!(join_rows(&rows).is_empty());
}

#[test]
fn failed_row_is_left_out_and_holds_back_no_other() {
    let rows = vec![
        Ok(b"1,2,a\n".to_vec()),
        Err(EncodeError { message: "refused".to_string() }),
        Ok(b"3,4,b\n".to_vec()),
        Err(EncodeError { message: "refused again".to_string() }),
    ];
    assert_eq!(join_rows(&rows), b"1,2,a\n3,4,b\n");
}

#[test]
fn only_failed_rows_give_no_bytes() {
    let rows = vec![Err(EncodeError { message: "refused".to_string() })];
    assert!(join_rows(&rows).is_empty());
}
