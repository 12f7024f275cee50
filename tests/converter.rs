use resampler::converter::{output_frame_count, RateConverter, RateError, Step};

fn run(input_len: u64, input_rate: u32, output_rate: u32) -> Vec<Step> {
    let mut conv = RateConverter::new(input_rate, output_rate).unwrap();
    let mut pulled: u64 = 0;
    let mut steps = Vec::new();
    loop {
        let step = conv.next_step(input_len - pulled);
        steps.push(step);
        match step {
            Step::Pull => pulled += 1,
            Step::Emit { .. } => {}
            Step::Done => return steps,
        }
    }
}

fn emit(numer: u32, denom: u32) -> Step {
    Step::Emit { numer, denom }
}

#[test]
fn zero_rate_is_refused() {
    assert!(matches!(RateConverter::new(0, 48000), Err(RateError::ZeroRate)));
    assert!(matches!(RateConverter::new(44100, 0), Err(RateError::ZeroRate)));
    assert_eq!(output_frame_count(10, 0, 48000), Err(RateError::ZeroRate));
    assert_eq!(output_frame_count(10, 44100, 0), Err(RateError::ZeroRate));
}

#[test]
fn four_silent_frames_44100_to_48000() {
    let steps = run(4, 44100, 48000);
    assert_eq!(
        steps,
        vec![
            emit(0, 48000),
            emit(44100, 48000),
            Step::Pull,
            emit(40200, 48000),
            Step::Pull,
            emit(36300, 48000),
            Step::Pull,
            Step::Pull,
            Step::Done,
        ]
    );
    assert_eq!(steps.iter().filter(|s| **s == Step::Pull).count(), 4);
    assert_eq!(output_frame_count(4, 44100, 48000), Ok(4));
}

#[test]
fn done_keeps_the_state() {
    let mut conv = RateConverter::new(1, 1).unwrap();
    assert_eq!(conv.next_step(0), Step::Done);
    assert_eq!(conv.next_step(1), emit(0, 1));
    assert!(conv.needs_frame());
    assert_eq!(conv.next_step(0), Step::Done);
    assert_eq!(conv.next_step(0), Step::Done);
    assert_eq!(conv.next_step(1), Step::Pull);
    assert!(!conv.needs_frame());
    assert_eq!(conv.next_step(0), Step::Done);
}

#[test]
fn frames_left_after_the_last_output_are_still_pulled() {
    let mut conv = RateConverter::new(3, 1).unwrap();
    assert_eq!(conv.next_step(2), Step::Pull);
    assert!(!conv.needs_frame());
    assert_eq!(conv.next_step(1), Step::Pull);
    assert_eq!(conv.next_step(0), Step::Done);
}

#[test]
fn equal_rates_emit_one_frame_per_input_frame() {
    let steps = run(10, 48000, 48000);
    let emits: Vec<Step> = steps.iter().copied().filter(|s| matches!(s, Step::Emit { .. })).collect();
    assert_eq!(emits.len(), 10);
    assert!(emits.iter().all(|s| *s == emit(0, 48000)));
    assert_eq!(steps.iter().filter(|s| **s == Step::Pull).count(), 10);
    assert_eq!(output_frame_count(10, 48000, 48000), Ok(10));
    assert_eq!(output_frame_count(10, 1, 1), Ok(10));
}

#[test]
fn empty_input_yields_nothing() {
    assert_eq!(run(0, 44100, 48000), vec![Step::Done]);
    assert_eq!(output_frame_count(0, 44100, 48000), Ok(0));
}

#[test]
fn downsampling_length() {
    assert_eq!(output_frame_count(4, 48000, 44100), Ok(3));
    assert_eq!(output_frame_count(3, 2, 1), Ok(1));
    assert_eq!(output_frame_count(300, 48000, 44100), Ok(275));
}

#[test]
fn upsampling_length() {
    assert_eq!(output_frame_count(3, 1, 2), Ok(6));
    assert_eq!(output_frame_count(1000, 44100, 48000), Ok(1088));
    assert_eq!(output_frame_count(37, 1, 3), Ok(111));
}

#[test]
fn count_matches_a_full_run() {
    for (len, i, o) in [(0u64, 3u32, 7u32), (5, 7, 3), (17, 44100, 48000), (17, 48000, 44100), (9, 5, 5)] {
        let steps = run(len, i, o);
        let emitted = steps.iter().filter(|s| matches!(s, Step::Emit { .. })).count() as u64;
        let pulled = steps.iter().filter(|s| **s == Step::Pull).count() as u64;
        assert_eq!(output_frame_count(len, i, o), Ok(emitted));
        assert_eq!(pulled, len);
    }
}

#[test]
fn offsets_stay_below_one() {
    for step in run(50, 7, 3) {
        if let Step::Emit { numer, denom } = step {
            assert!(numer < denom);
            assert_eq!(denom, 3);
        }
    }
}

#[test]
fn same_input_same_schedule() {
    assert_eq!(run(25, 44100, 48000), run(25, 44100, 48000));
}

#[test]
fn same_ratio_same_schedule() {
    let a = run(25, 44100, 48000);
    let b = run(25, 88200, 96000);
    assert_eq!(a.len(), b.len());
    for (x, y) in a.iter().zip(b.iter()) {
        match (x, y) {
            (Step::Emit { numer: n1, denom: d1 }, Step::Emit { numer: n2, denom: d2 }) => {
                assert_eq!(*n1 as u64 * *d2 as u64, *n2 as u64 * *d1 as u64);
            }
            _ => assert_eq!(x, y),
        }
    }
}
