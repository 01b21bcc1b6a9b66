use serial_telemetry::ingest::Ingestion;
use serial_telemetry::reading::Reading;
use serial_telemetry::writer::{encode_batch, join_rows};

fn reading(temperature: i8, humidity: u8, captured_at: &str) -> Reading {
    Reading::new(temperature, humidity, captured_at.to_string())
}

fn window(text: &str) -> ([u8; 12], usize) {
    let mut bytes = [0u8; 12];
    bytes[..text.len()].copy_from_slice(text.as_bytes());
    (bytes, text.len())
}

fn feed(state: &mut Ingestion, text: &str, captured_at: &str) -> Option<Vec<Reading>> {
    let (bytes, read) = window(text);
    state.accept(&bytes, read, captured_at.to_string())
}

#[test]
fn state_starts_at_zero_with_an_empty_buffer() {
    let state = Ingestion::new("start".to_string());
    assert_eq!(state.current(), &reading(0, 0, "start"));
    assert_eq!(state.occupancy(), 0);
}

#[test]
fn start_reads_the_clock() {
    let state = Ingestion::start();
    assert_eq!(state.current().temperature, 0);
    assert_eq!(state.current().humidity, 0);
    assert_eq!(state.current().captured_at.len(), 19);
    assert_eq!(state.occupancy(), 0);
}

#[test]
fn valid_frame_updates_the_reading_and_is_buffered() {
    let mut state = Ingestion::new("start".to_string());
    assert_eq!(feed(&mut state, "t25,h50;", "first"), None);
    assert_eq!(state.current(), &reading(25, 50, "first"));
    assert_eq!(state.occupancy(), 1);
}

#[test]
fn window_without_delimiter_changes_neither_numbers_nor_buffer() {
    let mut state = Ingestion::new("start".to_string());
    feed(&mut state, "t25,h50;", "first");
    assert_eq!(feed(&mut state, "t30,h60", "second"), None);
    assert_eq!(state.current().temperature, 25);
    assert_eq!(state.current().humidity, 50);
    assert_eq!(state.occupancy(), 1);
    // The time on display is refreshed all the same.
    assert_eq!(state.current().captured_at, "second");
}

#[test]
fn rejected_frame_changes_neither_number() {
    let mut state = Ingestion::new("start".to_string());
    feed(&mut state, "t25,h50;", "first");
    assert_eq!(feed(&mut state, "t,h1;", "second"), None);
    assert_eq!(feed(&mut state, "t26,h999;", "third"), None);
    assert_eq!(feed(&mut state, "t999,h51;", "fourth"), None);
    assert_eq!(state.current(), &reading(25, 50, "fourth"));
    assert_eq!(state.occupancy(), 1);
}

#[test]
fn set_time_touches_the_time_alone() {
    let mut state = Ingestion::new("start".to_string());
    feed(&mut state, "t25,h50;", "first");
    state.set_time("later".to_string());
    assert_eq!(state.current(), &reading(25, 50, "later"));
    assert_eq!(state.occupancy(), 1);
}

#[test]
fn refresh_reads_the_clock_and_keeps_the_numbers() {
    let mut state = Ingestion::new("start".to_string());
    feed(&mut state, "t25,h50;", "first");
    assert!(state.refresh());
    assert_eq!(state.current().temperature, 25);
    assert_eq!(state.current().humidity, 50);
    assert_ne!(state.current().captured_at, "first");
    assert_eq!(state.occupancy(), 1);
}

#[test]
fn ten_untied_readings_then_one_more_flush_ten_rows_in_order() {
    let mut state = Ingestion::new("start".to_string());
    for i in 0..10 {
        let frame = format!("t{},h{};", 29 - i, 40 + i);
        let stamp = format!("01-01-2024 10:00:{:02}", i);
        assert_eq!(feed(&mut state, &frame, &stamp), None);
        assert_eq!(state.occupancy(), i + 1);
    }
    let batch = feed(&mut state, "t-3,h7;", "01-01-2024 10:00:10").expect("one flush");
    let expected: Vec<Reading> = (0..10)
        .map(|i| reading(20 + i, 49 - i as u8, &format!("01-01-2024 10:00:{:02}", 9 - i)))
        .collect();
    assert_eq!(batch, expected);
    // The reading that came with the flush starts the next batch.
    assert_eq!(state.occupancy(), 1);
    assert_eq!(state.current(), &reading(-3, 7, "01-01-2024 10:00:10"));

    let bytes = join_rows(&encode_batch(&batch));
    let text = String::from_utf8(bytes).unwrap();
    let lines: Vec<&str> = text.lines().collect();
    assert_eq!(lines.len(), 10);
    assert_eq!(lines[0], "20,49,01-01-2024 10:00:09");
    assert_eq!(lines[9], "29,40,01-01-2024 10:00:00");
}

#[test]
fn window_without_delimiter_flushes_nothing_from_a_full_buffer() {
    let mut state = Ingestion::new("start".to_string());
    for i in 0..10 {
        feed(&mut state, &format!("t{},h{};", 20 + i, 40 + i), "t");
    }
    assert_eq!(state.occupancy(), 10);
    assert_eq!(feed(&mut state, "t99,h99", "later"), None);
    assert_eq!(state.occupancy(), 10);
    assert_eq!(state.current().temperature, 29);
    assert_eq!(state.current().humidity, 49);
}

#[test]
fn ingest_stamps_the_reading_with_the_present_moment() {
    let mut state = Ingestion::new("start".to_string());
    let (bytes, read) = window("t25,h50;");
    assert_eq!(state.ingest(&bytes, read), None);
    assert_eq!(state.current().temperature, 25);
    assert_eq!(state.current().humidity, 50);
    assert_eq!(state.current().captured_at.len(), 19);
    assert_eq!(state.occupancy(), 1);
    let (bytes, read) = window("nothing here");
    assert_eq!(state.ingest(&bytes, read), None);
    assert_eq!(state.current().temperature, 25);
    assert_eq!(state.occupancy(), 1);
}

#[test]
fn ties_are_merged_in_the_flushed_batch() {
    let mut state = Ingestion::new("start".to_string());
    for i in 0..10 {
        // The same numbers ten times: one reading survives, the earliest.
        feed(&mut state, "t25,h50;", &format!("01-01-2024 10:00:{:02}", i));
    }
    let batch = feed(&mut state, "t26,h51;", "01-01-2024 10:00:10").expect("one flush");
    assert_eq!(batch, vec![reading(25, 50, "01-01-2024 10:00:00")]);
}
