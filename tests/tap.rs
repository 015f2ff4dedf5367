use noctavox_core::tap::{new_tap, read_span, write_span};

#[test]
fn fitting_batch_comes_back_in_order() {
    let (mut writer, mut reader) = new_tap(8);
    writer.push(&[1, 2, 3]);
    assert_eq!(reader.get_latest(8), vec![1, 2, 3]);
}

#[test]
fn overflowing_batch_keeps_its_newest_samples() {
    let (mut writer, mut reader) = new_tap(4);
    writer.push(&[1, 2, 3, 4, 5, 6, 7, 8, 9, 10]);
    assert_eq!(reader.get_latest(10), vec![7, 8, 9, 10]);
}

#[test]
fn partly_full_channel_takes_newest_part_of_batch() {
    let (mut writer, mut reader) = new_tap(4);
    writer.push(&[1, 2]);
    writer.push(&[3, 4, 5, 6]);
    assert_eq!(reader.get_latest(4), vec![1, 2, 5, 6]);
}

#[test]
fn full_channel_drops_whole_batch() {
    let (mut writer, mut reader) = new_tap(3);
    writer.push(&[1, 2, 3]);
    writer.push(&[4, 5]);
    assert_eq!(reader.get_latest(3), vec![1, 2, 3]);
    assert_eq!(reader.get_latest(3), Vec::<u32>::new());
}

#[test]
fn short_read_is_not_padded() {
    let (mut writer, mut reader) = new_tap(16);
    writer.push(&[9, 8]);
    let got = reader.get_latest(10);
    assert_eq!(got, vec![9, 8]);
    assert!(got.len() < 10);
}

#[test]
fn empty_channel_reads_nothing() {
    let (_writer, mut reader) = new_tap(16);
    assert!(reader.get_latest(4).is_empty());
}

#[test]
fn read_after_burst_returns_freshest() {
    let (mut writer, mut reader) = new_tap(16);
    writer.push(&[1, 2, 3]);
    writer.push(&[4, 5, 6]);
    writer.push(&[7, 8]);
    assert_eq!(reader.get_latest(3), vec![6, 7, 8]);
    assert!(reader.get_latest(3).is_empty());
}

#[test]
fn read_is_clamped_to_capacity() {
    let (mut writer, mut reader) = new_tap(4);
    writer.push(&[1, 2, 3, 4]);
    assert_eq!(reader.get_latest(100), vec![1, 2, 3, 4]);
}

#[test]
fn write_span_values() {
    assert_eq!(write_span(10, 4), (6, 4));
    assert_eq!(write_span(3, 4), (0, 3));
    assert_eq!(write_span(5, 0), (5, 0));
}

#[test]
fn read_span_values() {
    assert_eq!(read_span(4, 16, 10), (6, 4));
    assert_eq!(read_span(20, 8, 8), (0, 8));
    assert_eq!(read_span(10, 16, 3), (0, 3));
}

#[test]
fn paired_push_keeps_backlog_and_newest_of_batch() {
    let (mut writer, mut reader) = new_tap(4);
    writer.push_with_reader(&reader, &[1, 2]);
    writer.push_with_reader(&reader, &[3, 4, 5]);
    assert_eq!(reader.get_latest_with_writer(&writer, 4), vec![1, 2, 4, 5]);
}

#[test]
fn paired_full_channel_drops_batch() {
    let (mut writer, mut reader) = new_tap(4);
    writer.push_with_reader(&reader, &[1, 2, 3, 4]);
    writer.push_with_reader(&reader, &[5, 6]);
    assert_eq!(reader.get_latest_with_writer(&writer, 4), vec![1, 2, 3, 4]);
}

#[test]
fn paired_round_trip_and_short_read() {
    let (mut writer, mut reader) = new_tap(4);
    writer.push_with_reader(&reader, &[1, 2, 3]);
    assert_eq!(reader.get_latest_with_writer(&writer, 3), vec![1, 2, 3]);
    writer.push_with_reader(&reader, &[1, 2]);
    assert_eq!(reader.get_latest_with_writer(&writer, 3), vec![1, 2]);
    assert!(reader.get_latest_with_writer(&writer, 3).is_empty());
}

#[test]
fn paired_read_after_burst() {
    let (mut writer, mut reader) = new_tap(8);
    writer.push_with_reader(&reader, &[1, 2, 3]);
    writer.push_with_reader(&reader, &[4, 5, 6]);
    writer.push_with_reader(&reader, &[7]);
    assert_eq!(reader.get_latest_with_writer(&writer, 2), vec![6, 7]);
    assert!(reader.get_latest_with_writer(&writer, 8).is_empty());
}

#[test]
fn paired_after_reads_frees_slots() {
    let (mut writer, mut reader) = new_tap(3);
    writer.push_with_reader(&reader, &[1, 2, 3]);
    assert_eq!(reader.get_latest_with_writer(&writer, 1), vec![3]);
    writer.push_with_reader(&reader, &[4, 5, 6, 7]);
    assert_eq!(reader.get_latest_with_writer(&writer, 3), vec![5, 6, 7]);
}

#[test]
fn zero_capacity_tap_carries_nothing() {
    let (mut writer, mut reader) = new_tap(0);
    writer.push(&[1, 2]);
    assert!(reader.get_latest(4).is_empty());
}
