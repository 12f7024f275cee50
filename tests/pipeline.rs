use resampler::converter::{RateConverter, Step};
use resampler::pcm::Frame;

fn run_dasp(input: &[Frame], input_rate: u32, output_rate: u32) -> Vec<[f32; 2]> {
    let ring = dasp_ring_buffer::Fixed::from([[0f32; 2]; 128]);
    let mut sinc = dasp_interpolate::sinc::Sinc::new(ring);
    let mut conv = RateConverter::new(input_rate, output_rate).unwrap();
    let mut i = 0;
    let mut out = Vec::new();
    loop {
        match conv.next_step((input.len() - i) as u64) {
            Step::Pull => {
                dasp_interpolate::Interpolator::next_source_frame(
                    &mut sinc,
                    input[i].map(<f32 as dasp_sample::Sample>::from_sample),
                );
                i += 1;
            }
            Step::Emit { numer, denom } => out.push(dasp_interpolate::Interpolator::interpolate(
                &sinc,
                numer as f64 / denom as f64,
            )),
            Step::Done => return out,
        }
    }
}

fn run_sampara(input: &[Frame], input_rate: u32, output_rate: u32) -> Vec<[f32; 2]> {
    let mut sinc: sampara::interpolate::Sinc<[f32; 2], [[f32; 2]; 128], 2> =
        sampara::interpolate::Sinc::new([[0f32; 2]; 128]);
    let mut conv = RateConverter::new(input_rate, output_rate).unwrap();
    let mut i = 0;
    let mut out = Vec::new();
    loop {
        match conv.next_step((input.len() - i) as u64) {
            Step::Pull => {
                sampara::interpolate::Interpolator::advance(
                    &mut sinc,
                    input[i].map(<f32 as sampara::Sample>::from_sample),
                );
                i += 1;
            }
            Step::Emit { numer, denom } => out.push(sampara::interpolate::Interpolator::interpolate(
                &sinc,
                numer as f64 / denom as f64,
            )),
            Step::Done => return out,
        }
    }
}

#[test]
fn silence_stays_silent_dasp() {
    for (len, i, o) in [(4usize, 44100u32, 48000u32), (300, 48000, 44100), (37, 1, 3)] {
        let out = run_dasp(&vec![[0, 0]; len], i, o);
        assert_eq!(out.len() as u64, len as u64 * o as u64 / i as u64);
        assert!(out.iter().all(|f| f[0] == 0.0 && f[1] == 0.0));
    }
}

#[test]
fn silence_stays_silent_sampara() {
    let out = run_sampara(&[[0, 0]; 4], 44100, 48000);
    assert_eq!(out.len(), 4);
    assert!(out.iter().all(|f| f[0] == 0.0 && f[1] == 0.0));
}

#[test]
fn two_runs_are_bit_identical() {
    let input: Vec<Frame> = (0..200).map(|k: i32| [k * 1_000_000, -k * 500_000]).collect();
    let a = run_dasp(&input, 44100, 48000);
    let b = run_dasp(&input, 44100, 48000);
    assert_eq!(a.len(), b.len());
    assert!(a.iter().zip(b.iter()).all(|(x, y)| x[0].to_bits() == y[0].to_bits() && x[1].to_bits() == y[1].to_bits()));
}
