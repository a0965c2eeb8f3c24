use spectre_v1::gadget::fetch_function;
use spectre_v1::histogram::Guess;
use spectre_v1::reader::{merged_index, Action, ByteReader, Event};
use spectre_v1::schedule::init_attack;
use spectre_v1::tuning::{CHANNEL_LEN, INBETWEEN_DELAY, NUM_TRIES, TRAINING_LOOPS};

const TARGET: usize = 4096;
const LEGAL: usize = 7;

fn reader() -> ByteReader {
    let (is_attack, attack_pattern) = init_attack();
    ByteReader::new(TARGET, LEGAL, is_attack, attack_pattern).unwrap()
}

/// Answers `action` as a machine would on which only the line of `hot` is cached.
fn answer(action: Action, hot: u8) -> Event {
    match action {
        Action::Invoke { .. } => Event::Returned { byte: 1 },
        Action::Probe { value, .. } => {
            Event::Timed { byte: 1, elapsed: if value == hot { 40 } else { 300 } }
        }
        _ => Event::Done,
    }
}

#[test]
fn merged_index_selects_without_changing() {
    assert_eq!(merged_index(true, 4096, 3), 4096);
    assert_eq!(merged_index(false, 4096, 3), 3);
    assert_eq!(merged_index(true, usize::MAX, usize::MAX), usize::MAX);
    assert_eq!(merged_index(false, usize::MAX, 0), 0);
    assert_eq!(merged_index(true, 0, usize::MAX), 0);
}

#[test]
fn reader_wants_a_length_and_a_probe_order() {
    let (is_attack, attack_pattern) = init_attack();
    assert!(ByteReader::new(0, 1, is_attack.clone(), attack_pattern.clone()).is_some());
    assert!(ByteReader::new(0, 0, is_attack.clone(), attack_pattern.clone()).is_none());
    let ascending: Vec<u8> = (0..=255u8).collect();
    assert!(ByteReader::new(0, 5, is_attack.clone(), ascending).is_none());
    assert!(ByteReader::new(0, 5, is_attack.clone(), vec![1, 2, 3]).is_none());
    assert!(ByteReader::new(0, 5, Vec::new(), attack_pattern).is_some());
}

#[test]
fn reader_starts_zeroed() {
    let reader = reader();
    assert!(!reader.is_finished());
    assert_eq!(reader.sum(), 0);
    for value in 0..=255u8 {
        assert_eq!(reader.score(value), 0);
    }
    assert_eq!(reader.pending(), Action::FlushSlot { offset: 0 });
}

#[test]
fn attempt_opens_with_the_eviction_of_every_line() {
    let mut reader = reader();
    let mut action = reader.pending();
    for value in 0..256usize {
        assert_eq!(action, Action::FlushSlot { offset: value * 512 });
        action = reader.step(Event::Done);
    }
    assert_eq!(action, Action::FlushLength);
}

#[test]
fn training_follows_the_schedule_backwards() {
    let (is_attack, _) = init_attack();
    let mut reader = reader();
    for _ in 0..256 {
        reader.step(Event::Done);
    }
    let train = ((NUM_TRIES - 1) as usize) % LEGAL;
    assert_eq!(train, 5);
    let mut attacks = 0;
    for at in (0..TRAINING_LOOPS).rev() {
        assert_eq!(reader.pending(), Action::FlushLength);
        assert_eq!(reader.step(Event::Done), Action::Fence);
        assert_eq!(reader.step(Event::Done), Action::FlushDescriptor);
        assert_eq!(reader.step(Event::Done), Action::Fence);
        let expected = if is_attack[at] { TARGET } else { train };
        assert_eq!(reader.step(Event::Done), Action::Invoke { idx: expected });
        if expected == TARGET {
            attacks += 1;
            assert_eq!(at % 10, 0);
        }
        reader.step(Event::Returned { byte: 0 });
    }
    assert_eq!(attacks, 10);
    assert!(matches!(reader.pending(), Action::Probe { .. }));
}

#[test]
fn scan_visits_every_line_once_in_reverse_probe_order() {
    let (_, attack_pattern) = init_attack();
    let mut reader = reader();
    let mut action = reader.pending();
    while !matches!(action, Action::Probe { .. }) {
        action = reader.step(answer(action, 0));
    }
    let mut visits = [0u32; 256];
    for at in (0..256usize).rev() {
        let value = attack_pattern[at];
        assert_eq!(action, Action::Probe { value, offset: value as usize * 512 });
        visits[value as usize] += 1;
        action = reader.step(Event::Timed { byte: 0, elapsed: 1 });
    }
    assert!(visits.iter().all(|count| *count == 1));
    assert_eq!(action, Action::FlushSlot { offset: 0 });
    for value in 0..=255u8 {
        assert_eq!(reader.score(value), 1);
    }
}

#[test]
fn timed_load_adds_to_the_accumulator_of_its_value() {
    let mut reader = reader();
    let mut action = reader.pending();
    while !matches!(action, Action::Probe { .. }) {
        action = reader.step(answer(action, 0));
    }
    let Action::Probe { value: first, .. } = action else { unreachable!() };
    assert_eq!(first, 50);
    let action = reader.step(Event::Timed { byte: 0, elapsed: 1234 });
    let Action::Probe { value: second, .. } = action else { unreachable!() };
    assert_eq!(second, 56);
    reader.step(Event::Timed { byte: 0, elapsed: 77 });
    for value in 0..=255u8 {
        let expected = if value == first {
            1234
        } else if value == second {
            77
        } else {
            0
        };
        assert_eq!(reader.score(value), expected);
    }
}

#[test]
fn event_for_another_action_is_ignored() {
    let mut reader = reader();
    assert_eq!(reader.step(Event::Returned { byte: 9 }), Action::FlushSlot { offset: 0 });
    assert_eq!(
        reader.step(Event::Timed { byte: 9, elapsed: 9 }),
        Action::FlushSlot { offset: 0 }
    );
    assert_eq!(reader.sum(), 0);
    assert_eq!(reader.step(Event::Done), Action::FlushSlot { offset: 512 });
    let mut action = reader.pending();
    while !matches!(action, Action::Invoke { .. }) {
        action = reader.step(Event::Done);
    }
    let sum = reader.sum();
    assert_eq!(reader.step(Event::Done), action);
    assert_eq!(reader.step(Event::Timed { byte: 4, elapsed: 4 }), action);
    assert_eq!(reader.sum(), sum);
    assert_eq!(reader.step(Event::Returned { byte: 4 }), Action::FlushLength);
    while !matches!(action, Action::Probe { .. }) {
        action = reader.step(answer(action, 0));
    }
    assert_eq!(reader.step(Event::Done), action);
    assert_eq!(reader.step(Event::Returned { byte: 1 }), action);
    for value in 0..=255u8 {
        assert_eq!(reader.score(value), 0);
    }
}

#[test]
fn sink_takes_in_the_delay_and_every_byte_that_comes_back() {
    let mut reader = reader();
    let mut expected: u8 = 0;
    let mut action = reader.pending();
    let mut fed: u8 = 0;
    for _ in 0..3 * (256 + 5 * 100 + 256) {
        let event = match action {
            Action::FlushLength => {
                for _ in 0..INBETWEEN_DELAY {
                    expected = expected.wrapping_sub(expected ^ 0x5a);
                }
                Event::Done
            }
            Action::Invoke { .. } => {
                fed = fed.wrapping_mul(31).wrapping_add(7);
                expected = fed.wrapping_sub(expected);
                Event::Returned { byte: fed }
            }
            Action::Probe { .. } => {
                fed = fed.wrapping_mul(31).wrapping_add(7);
                expected = fed.wrapping_sub(expected);
                Event::Timed { byte: fed, elapsed: 3 }
            }
            _ => {
                fed = fed.wrapping_add(1);
                Event::Done
            }
        };
        action = reader.step(event);
        assert_eq!(reader.sum(), expected);
    }
}

#[test]
fn training_index_rotates_with_the_attempt() {
    let mut reader = reader();
    let mut attempt = NUM_TRIES - 1;
    let mut action = reader.pending();
    for _ in 0..20 {
        let mut seen = Vec::new();
        loop {
            if let Action::Invoke { idx } = action {
                seen.push(idx);
            }
            action = reader.step(answer(action, 0));
            if action == (Action::FlushSlot { offset: 0 }) {
                break;
            }
        }
        assert_eq!(seen.len(), 100);
        let train = (attempt as usize) % LEGAL;
        assert!(train < LEGAL);
        assert_eq!(seen.iter().filter(|idx| **idx == TARGET).count(), 10);
        assert_eq!(seen.iter().filter(|idx| **idx == train).count(), 90);
        attempt -= 1;
    }
}

#[test]
fn reader_runs_all_attempts_and_finishes() {
    let mut reader = reader();
    let mut action = reader.pending();
    let mut steps: u64 = 0;
    let mut probes: u64 = 0;
    while !matches!(action, Action::Finish { .. }) {
        let event = match action {
            Action::Invoke { .. } => Event::Returned { byte: 1 },
            Action::Probe { value, .. } => {
                probes += 1;
                Event::Timed { byte: 1, elapsed: value as u64 + 1 }
            }
            _ => Event::Done,
        };
        action = reader.step(event);
        steps += 1;
    }
    assert_eq!(steps, (NUM_TRIES - 1) * (256 + 5 * 100 + 256));
    assert_eq!(probes, 999 * 256);
    assert!(reader.is_finished());
    assert_eq!(action, Action::Finish { sum: reader.sum() });
    for value in 0..=255u8 {
        assert_eq!(reader.score(value), 999 * (value as u32 + 1));
    }
    let sum = reader.sum();
    assert_eq!(reader.step(Event::Done), Action::Finish { sum });
    assert_eq!(reader.step(Event::Timed { byte: 3, elapsed: 3 }), Action::Finish { sum });
    assert_eq!(reader.score(3), 999 * 4);
}

#[test]
fn reader_without_a_schedule_only_evicts_and_scans() {
    let (_, attack_pattern) = init_attack();
    let mut reader = ByteReader::new(TARGET, LEGAL, Vec::new(), attack_pattern).unwrap();
    for _ in 0..255 {
        assert!(matches!(reader.step(Event::Done), Action::FlushSlot { .. }));
    }
    assert!(matches!(reader.step(Event::Done), Action::Probe { value: 50, .. }));
}

#[test]
fn reader_and_decode_recover_the_cached_byte() {
    let mut reader = reader();
    let mut action = reader.pending();
    while !matches!(action, Action::Finish { .. }) {
        action = reader.step(answer(action, b'H'));
    }
    let scores = reader.into_scores();
    assert_eq!(scores.score(b'H'), 999 * 40);
    assert_eq!(scores.score(b'I'), 999 * 300);
    assert_eq!(scores.decode(), Guess { character: b'H', score: 39_960 });
}

#[test]
fn reader_drives_the_gadget_within_bounds() {
    let buffer: Vec<u8> = vec![17, 8, 24, 14, 3, 28, 6, 19];
    let mut legal_length: usize = LEGAL;
    let channel = vec![1u8; CHANNEL_LEN];
    let mut reader = reader();
    let mut action = reader.pending();
    let mut accepted = 0;
    let mut refused = 0;
    while !matches!(action, Action::Probe { .. }) {
        let event = match action {
            Action::Invoke { idx } => {
                let byte = fetch_function(&buffer, &mut legal_length, &channel, idx);
                if idx < LEGAL {
                    assert_eq!(byte, 1);
                    accepted += 1;
                } else {
                    assert_eq!(idx, TARGET);
                    assert_eq!(byte, 0);
                    refused += 1;
                }
                Event::Returned { byte }
            }
            _ => Event::Done,
        };
        action = reader.step(event);
    }
    assert_eq!(accepted, 90);
    assert_eq!(refused, 10);
}
