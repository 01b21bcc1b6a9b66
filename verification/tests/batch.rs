use serial_telemetry::batch::{dedup_readings, sort_readings, BatchBuffer, BATCH_CAPACITY};
use serial_telemetry::reading::Reading;

fn reading(temperature: i8, humidity: u8, captured_at: &str) -> Reading {
    Reading::new(temperature, humidity, captured_at.to_string())
}

fn untied(n: usize) -> Vec<Reading> {
    // Temperatures fall while humidities rise: no two readings share a number.
    (0..n).map(|i| reading(30 - i as i8, 40 + i as u8, &format!("01-01-2024 10:00:{:02}", i))).collect()
}

#[test]
fn capacity_is_ten() {
    assert_eq!(BATCH_CAPACITY, 10);
}

#[test]
fn sort_orders_by_temperature_humidity_time() {
    let sorted = sort_readings(vec![
        reading(25, 60, "c"),
        reading(20, 60, "b"),
        reading(20, 50, "z"),
        reading(20, 50, "a"),
        reading(-4, 99, "b"),
    ]);
    assert_eq!(
        sorted,
        vec![
            reading(-4, 99, "b"),
            reading(20, 50, "a"),
            reading(20, 50, "z"),
            reading(20, 60, "b"),
            reading(25, 60, "c"),
        ]
    );
}

#[test]
fn sort_agrees_with_std_sort_of_tuples() {
    let raw: Vec<(i8, u8, String)> = (0..40u32)
        .map(|i| (((i * 37) % 7) as i8 - 3, ((i * 11) % 5) as u8, format!("t{}", (i * 13) % 4)))
        .collect();
    let mut expected = raw.clone();
    expected.sort();
    let sorted = sort_readings(raw.iter().map(|r| Reading::new(r.0, r.1, r.2.clone())).collect());
    let got: Vec<(i8, u8, String)> =
        sorted.into_iter().map(|r| (r.temperature, r.humidity, r.captured_at)).collect();
    assert_eq!(got, expected);
}

#[test]
fn sort_of_nothing_is_nothing() {
    assert_eq!(sort_readings(vec![]), vec![]);
    assert_eq!(sort_readings(vec![reading(1, 2, "x")]), vec![reading(1, 2, "x")]);
}

#[test]
fn dedup_compares_with_the_last_reading_kept() {
    let kept = dedup_readings(vec![reading(20, 50, "t1"), reading(20, 60, "t2"), reading(25, 60, "t3")]);
    // The second ties with the first on temperature and goes. The third is
    // then held against the first, with which it shares nothing, and stays,
    // although it ties with the second on humidity.
    assert_eq!(kept, vec![reading(20, 50, "t1"), reading(25, 60, "t3")]);
}

#[test]
fn dedup_merges_on_either_number() {
    let kept = dedup_readings(vec![
        reading(20, 50, "a"),
        reading(21, 50, "b"),
        reading(22, 50, "c"),
        reading(22, 51, "d"),
        reading(23, 52, "e"),
        reading(23, 52, "e"),
    ]);
    assert_eq!(kept, vec![reading(20, 50, "a"), reading(22, 51, "d"), reading(23, 52, "e")]);
}

#[test]
fn dedup_agrees_with_std_dedup_by() {
    let raw: Vec<Reading> = (0..60u32)
        .map(|i| reading(((i * 7) % 4) as i8, ((i * 5) % 3) as u8, &format!("{}", i)))
        .collect();
    let mut expected = raw.clone();
    expected.dedup_by(|a, b| a.temperature == b.temperature || a.humidity == b.humidity);
    assert_eq!(dedup_readings(raw), expected);
}

#[test]
fn dedup_of_nothing_is_nothing() {
    assert_eq!(dedup_readings(vec![]), vec![]);
    assert_eq!(dedup_readings(vec![reading(1, 2, "x")]), vec![reading(1, 2, "x")]);
}

#[test]
fn dedup_keeps_untied_readings() {
    assert_eq!(dedup_readings(untied(10)), untied(10));
}

#[test]
fn buffer_takes_ten_readings_without_a_flush() {
    let mut buffer = BatchBuffer::new();
    assert_eq!(buffer.len(), 0);
    for (i, r) in untied(10).into_iter().enumerate() {
        assert!(!buffer.is_full());
        assert!(buffer.push(r).is_none());
        assert_eq!(buffer.len(), i + 1);
    }
    assert!(buffer.is_full());
    assert_eq!(buffer.readings(), &untied(10));
}

#[test]
fn eleventh_push_flushes_once_and_starts_the_next_batch() {
    let mut buffer = BatchBuffer::new();
    let all = untied(12);
    let mut flushes: Vec<Vec<Reading>> = Vec::new();
    for r in all.iter().cloned() {
        if let Some(batch) = buffer.push(r) {
            flushes.push(batch);
        }
        assert!(buffer.len() <= BATCH_CAPACITY);
    }
    let mut first_ten = all[..10].to_vec();
    first_ten.reverse();
    assert_eq!(flushes, vec![first_ten]);
    assert_eq!(buffer.readings(), &all[10..].to_vec());
}

#[test]
fn push_onto_full_buffer_flushes_sorted_and_deduplicated() {
    let mut buffer = BatchBuffer::new();
    for i in 0..10u8 {
        // Five temperatures, each twice.
        assert!(buffer.push(reading((9 - i) as i8 / 2, 100 + i, "t")).is_none());
    }
    let flushed = buffer.push(reading(50, 50, "next")).expect("a full buffer flushes");
    assert_eq!(
        flushed,
        vec![
            reading(0, 108, "t"),
            reading(1, 106, "t"),
            reading(2, 104, "t"),
            reading(3, 102, "t"),
            reading(4, 100, "t"),
        ]
    );
    assert_eq!(buffer.readings(), &vec![reading(50, 50, "next")]);
}

#[test]
fn ten_untied_readings_flush_as_ten_in_order() {
    let mut buffer = BatchBuffer::new();
    for r in untied(10) {
        assert!(buffer.push(r).is_none());
    }
    let batch = buffer.flush();
    let mut expected = untied(10);
    expected.reverse();
    assert_eq!(batch, expected);
    assert_eq!(buffer.len(), 0);
    assert!(buffer.readings().is_empty());
}

#[test]
fn flush_of_partial_buffer_empties_it() {
    let mut buffer = BatchBuffer::new();
    buffer.push(reading(3, 3, "c"));
    buffer.push(reading(1, 1, "a"));
    buffer.push(reading(1, 2, "b"));
    assert_eq!(buffer.flush(), vec![reading(1, 1, "a"), reading(3, 3, "c")]);
    assert_eq!(buffer.len(), 0);
    assert_eq!(buffer.flush(), vec![]);
}

#[test]
fn clear_empties_the_buffer() {
    let mut buffer = BatchBuffer::new();
    for r in untied(10) {
        buffer.push(r);
    }
    buffer.clear();
    assert_eq!(buffer.len(), 0);
    assert!(buffer.push(reading(1, 1, "a")).is_none());
    assert_eq!(buffer.len(), 1);
}

#[test]
fn buffer_never_exceeds_capacity_over_many_pushes() {
    let mut buffer = BatchBuffer::new();
    let mut flushes = 0;
    for i in 0..1000u32 {
        if buffer.push(reading((i % 100) as i8, (i % 7) as u8, "t")).is_some() {
            flushes += 1;
        }
        assert!(buffer.len() >= 1 && buffer.len() <= BATCH_CAPACITY);
    }
    // Pushes 11, 21, ..., 991 each find a full buffer.
    assert_eq!(flushes, 99);
    assert_eq!(buffer.len(), 10);
}
