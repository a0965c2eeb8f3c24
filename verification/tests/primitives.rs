use spectre_v1::channel::{line_offset, touched_channel};
use spectre_v1::gadget::fetch_function;
use spectre_v1::length::{pick_reported_length, reported_length};
use spectre_v1::sink::Sink;
use spectre_v1::timer::{cycle_count, elapsed};
use spectre_v1::tuning::{CHANNEL_LEN, LINE_STRIDE};

fn channel() -> Vec<u8> {
    let mut channel = vec![0u8; CHANNEL_LEN];
    for value in 0..256usize {
        channel[value * LINE_STRIDE] = (255 - value) as u8;
    }
    channel
}

#[test]
fn gadget_reads_the_line_of_an_in_bounds_byte() {
    let buffer: Vec<u8> = vec![17, 8, 24, 14];
    let mut legal_length: usize = 4;
    let channel = channel();
    assert_eq!(fetch_function(&buffer, &mut legal_length, &channel, 0), 255 - 17);
    assert_eq!(fetch_function(&buffer, &mut legal_length, &channel, 2), 255 - 24);
    assert_eq!(fetch_function(&buffer, &mut legal_length, &channel, 3), 255 - 14);
    assert_eq!(legal_length, 4);
}

#[test]
fn gadget_returns_zero_past_the_reported_length() {
    let buffer: Vec<u8> = vec![17, 8, 24, 14];
    let mut legal_length: usize = 2;
    let channel = channel();
    assert_eq!(fetch_function(&buffer, &mut legal_length, &channel, 1), 255 - 8);
    assert_eq!(fetch_function(&buffer, &mut legal_length, &channel, 2), 0);
    assert_eq!(fetch_function(&buffer, &mut legal_length, &channel, 3), 0);
    assert_eq!(fetch_function(&buffer, &mut legal_length, &channel, 4), 0);
    assert_eq!(fetch_function(&buffer, &mut legal_length, &channel, usize::MAX), 0);
    assert_eq!(legal_length, 2);
}

#[test]
fn gadget_with_length_zero_accepts_nothing() {
    let buffer: Vec<u8> = vec![200];
    let mut legal_length: usize = 0;
    let channel = channel();
    assert_eq!(fetch_function(&buffer, &mut legal_length, &channel, 0), 0);
    assert_eq!(legal_length, 0);
}

#[test]
fn gadget_reaches_the_last_line() {
    let buffer: Vec<u8> = vec![255];
    let mut legal_length: usize = 1;
    let mut channel = vec![0u8; CHANNEL_LEN];
    channel[255 * LINE_STRIDE] = 9;
    assert_eq!(fetch_function(&buffer, &mut legal_length, &channel, 0), 9);
}

#[test]
fn cycle_count_joins_the_halves() {
    assert_eq!(cycle_count(0, 0), 0);
    assert_eq!(cycle_count(0, 7), 7);
    assert_eq!(cycle_count(1, 2), 0x1_0000_0002);
    assert_eq!(cycle_count(0xdead_beef, 0x0123_4567), 0xdead_beef_0123_4567);
    assert_eq!(cycle_count(u32::MAX, u32::MAX), u64::MAX);
}

#[test]
fn elapsed_is_the_difference() {
    assert_eq!(elapsed(100, 100), 0);
    assert_eq!(elapsed(100, 350), 250);
    assert_eq!(elapsed(0, u64::MAX), u64::MAX);
}

#[test]
fn elapsed_over_a_wrapped_counter() {
    assert_eq!(elapsed(u64::MAX, 4), 5);
    assert_eq!(elapsed(1, 0), u64::MAX);
}

#[test]
fn sink_starts_empty() {
    assert_eq!(Sink::new().value(), 0);
}

#[test]
fn sink_absorbs_by_subtraction() {
    let mut sink = Sink::new();
    sink.absorb(3);
    assert_eq!(sink.value(), 3);
    sink.absorb(5);
    assert_eq!(sink.value(), 2);
    sink.absorb(1);
    assert_eq!(sink.value(), 255);
    sink.absorb(0);
    assert_eq!(sink.value(), 1);
}

#[test]
fn sink_depends_on_the_order() {
    let mut one = Sink::new();
    one.absorb(10);
    one.absorb(1);
    let mut other = Sink::new();
    other.absorb(1);
    other.absorb(10);
    assert_eq!(one.value(), 247);
    assert_eq!(other.value(), 9);
}

#[test]
fn sink_stirs() {
    let mut sink = Sink::new();
    sink.stir(0);
    assert_eq!(sink.value(), 0);
    sink.stir(1);
    assert_eq!(sink.value(), 166);
    let mut again = Sink::new();
    again.stir(3);
    let mut expected: u8 = 0;
    for _ in 0..3 {
        expected = expected.wrapping_sub(expected ^ 0x5a);
    }
    assert_eq!(again.value(), expected);
}

#[test]
fn sink_stirs_a_hundred_times() {
    let mut sink = Sink { sum: 77 };
    sink.stir(100);
    let mut expected: u8 = 77;
    for _ in 0..100 {
        expected = expected.wrapping_sub(expected ^ 0x5a);
    }
    assert_eq!(sink.value(), expected);
}

#[test]
fn reported_length_is_the_remainder_plus_one() {
    assert_eq!(reported_length(0, 16), 1);
    assert_eq!(reported_length(14, 16), 15);
    assert_eq!(reported_length(15, 16), 1);
    assert_eq!(reported_length(17, 16), 3);
    assert_eq!(reported_length(usize::MAX, 2), 1);
    assert_eq!(reported_length(12345, 2), 1);
}

#[test]
fn picked_length_is_shorter_than_the_buffer() {
    for _ in 0..200 {
        let len = pick_reported_length(16);
        assert!(1 <= len && len < 16);
    }
    assert_eq!(pick_reported_length(2), 1);
}

#[test]
fn every_value_has_a_line_of_its_own() {
    assert_eq!(line_offset(0), 0);
    assert_eq!(line_offset(1), 512);
    assert_eq!(line_offset(b'H'), 36_864);
    assert_eq!(line_offset(255), 130_560);
    for value in 1..=255u8 {
        assert_eq!(line_offset(value) - line_offset(value - 1), LINE_STRIDE);
        assert!(line_offset(value) < CHANNEL_LEN);
    }
}

#[test]
fn touched_channel_is_written_throughout() {
    let channel = touched_channel();
    assert_eq!(channel.len(), 256 * 512);
    assert!(channel.iter().all(|byte| *byte == 1));
}
