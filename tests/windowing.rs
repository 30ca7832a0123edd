use music_man::spectrogram::{Spectrogram, SpectrogramError};
use music_man::windowing::{fft_samples, frame_count, padded_len, FftResult, WindowingParameters};
use rustfft::num_complex::Complex;
use rustfft::FftPlanner;

fn params(window_size: usize, oversample_factor: usize) -> WindowingParameters {
    WindowingParameters { window_size, oversample_factor }
}

fn fft_kernel(size: usize) -> impl Fn(&Vec<f64>) -> Vec<u64> {
    let fft = FftPlanner::<f64>::new().plan_fft_forward(size);
    move |window: &Vec<f64>| {
        let mut buf: Vec<Complex<f64>> = window.iter().map(|x| Complex::new(*x, 0.0)).collect();
        fft.process(&mut buf);
        buf.iter().map(|c| (c.re * c.re + c.im * c.im).sqrt().to_bits()).collect()
    }
}

fn linear_scale(v: u64, m: u64) -> u8 {
    ((f64::from_bits(v) / f64::from_bits(m)) * 255.0) as u8
}

fn run(samples: &Vec<f64>, p: WindowingParameters, rate: u32) -> FftResult {
    fft_samples(samples, p, rate, 0.0, fft_kernel(p.window_size * p.oversample_factor))
}

#[test]
fn two_channel_four_samples_give_two_frames_of_two_bins() {
    let left = vec![1.0, 2.0, 3.0, 4.0];
    let right = vec![0.5, -0.5, 0.25, 0.0];
    for channel in [left, right] {
        let r = run(&channel, params(2, 1), 8000);
        assert_eq!(r.freqs.len(), 2);
        for frame in &r.freqs {
            assert_eq!(frame.len(), 2);
        }
        assert_eq!(r.resolution.sample_rate, 8000);
        assert_eq!(r.resolution.transform_size, 2);
    }
}

#[test]
fn two_point_transform_gives_sum_and_difference() {
    let r = run(&vec![1.0, 2.0, 3.0, 4.0], params(2, 1), 8000);
    assert_eq!(f64::from_bits(r.freqs[0][0]), 3.0);
    assert_eq!(f64::from_bits(r.freqs[0][1]), 1.0);
    assert_eq!(f64::from_bits(r.freqs[1][0]), 7.0);
    assert_eq!(f64::from_bits(r.freqs[1][1]), 1.0);
}

#[test]
fn every_frame_has_window_size_bins() {
    let samples: Vec<f64> = (0..37).map(|i| (i as f64 * 0.3).sin()).collect();
    for (w, o) in [(4, 1), (4, 2), (8, 4), (6, 3), (5, 5)] {
        let r = run(&samples, params(w, o), 44100);
        assert!(!r.freqs.is_empty());
        for frame in &r.freqs {
            assert_eq!(frame.len(), w);
        }
    }
}

#[test]
fn frame_count_follows_padded_length() {
    // 10 samples, window 4, oversample 2: padded to 12, transform 8, hop 2.
    assert_eq!(padded_len(10, 4), 12);
    assert_eq!(padded_len(12, 4), 12);
    assert_eq!(padded_len(0, 4), 0);
    assert_eq!(frame_count(10, params(4, 2)), 3);
    let samples = vec![0.25; 10];
    assert_eq!(run(&samples, params(4, 2), 8000).freqs.len(), 3);
    // 16 samples, window 4, oversample 4: transform 16, hop 1, one window.
    assert_eq!(frame_count(16, params(4, 4)), 1);
    // 17 samples, window 4, oversample 4: padded to 20, five windows.
    assert_eq!(frame_count(17, params(4, 4)), 5);
}

#[test]
fn short_buffer_gives_no_frames() {
    assert_eq!(frame_count(3, params(4, 2)), 0);
    assert_eq!(run(&vec![1.0, 1.0, 1.0], params(4, 2), 8000).freqs.len(), 0);
}

#[test]
fn empty_buffer_gives_empty_sequence_and_no_spectrogram() {
    let r = run(&Vec::new(), params(4, 2), 8000);
    assert!(r.freqs.is_empty());
    let s = Spectrogram::new(&r.freqs, 4, r.resolution, linear_scale);
    assert!(matches!(s, Err(SpectrogramError::EmptySequence)));
}

#[test]
fn windows_start_a_hop_apart_and_are_zero_padded() {
    // A kernel that hands the window back, to see what each call received.
    let echo = |w: &Vec<u64>| w.clone();
    let samples: Vec<u64> = vec![1, 2, 3, 4, 5];
    let r = fft_samples(&samples, params(2, 2), 8000, 0, echo);
    // Padded to 6, transform 4, hop 1: windows at 0, 1, 2.
    assert_eq!(r.freqs, vec![vec![1, 2], vec![2, 3], vec![3, 4]]);
    let r = fft_samples(&samples, params(4, 2), 8000, 0, echo);
    // Padded to 8, transform 8, hop 2: one window.
    assert_eq!(r.freqs, vec![vec![1, 2, 3, 4]]);
    let r = fft_samples(&samples, params(2, 1), 8000, 9, echo);
    assert_eq!(r.freqs, vec![vec![1, 2], vec![3, 4], vec![5, 9]]);
}

#[test]
fn repeated_runs_give_identical_bytes() {
    let samples: Vec<f64> = (0..64).map(|i| ((i * i) as f64 * 0.01).cos()).collect();
    let p = params(8, 2);
    let a = run(&samples, p, 16000);
    let b = run(&samples, p, 16000);
    assert_eq!(a.freqs, b.freqs);
    let sa = Spectrogram::new(&a.freqs, 8, a.resolution, linear_scale).unwrap();
    let sb = Spectrogram::new(&b.freqs, 8, b.resolution, linear_scale).unwrap();
    assert_eq!(sa.rgb_buffer, sb.rgb_buffer);
    assert_eq!((sa.width, sa.height), (sb.width, sb.height));
}
