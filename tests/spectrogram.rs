use music_man::spectrogram::{magnitude_abs, max_magnitude, Spectrogram, SpectrogramError};
use music_man::windowing::BinResolution;

fn linear_scale(v: u64, m: u64) -> u8 {
    ((f64::from_bits(v) / f64::from_bits(m)) * 255.0) as u8
}

fn keys(rows: &[&[f64]]) -> Vec<Vec<u64>> {
    rows.iter().map(|r| r.iter().map(|x| x.to_bits()).collect()).collect()
}

fn res() -> BinResolution {
    BinResolution { sample_rate: 8000, transform_size: 16 }
}

#[test]
fn silent_frames_render_all_black() {
    let frames = keys(&[&[0.0, 0.0, 0.0], &[0.0, 0.0, 0.0]]);
    let s = Spectrogram::new(&frames, 3, res(), linear_scale).unwrap();
    assert_eq!(s.max_magnitude, 0);
    assert_eq!(s.rgb_buffer, vec![0u8; 18]);
    assert_eq!((s.width, s.height), (3, 2));
}

#[test]
fn greatest_bin_is_white_and_others_are_scaled() {
    let frames = keys(&[&[1.0, 2.0], &[4.0, 0.0]]);
    let s = Spectrogram::new(&frames, 2, res(), linear_scale).unwrap();
    assert_eq!(s.max_magnitude, 4.0f64.to_bits());
    assert_eq!(s.rgb_buffer, vec![63, 63, 63, 127, 127, 127, 255, 255, 255, 0, 0, 0]);
    assert!(s.rgb_buffer.iter().all(|b| *b <= 255));
}

#[test]
fn negative_magnitudes_count_by_absolute_value() {
    let frames = keys(&[&[-2.0, 1.0]]);
    let s = Spectrogram::new(&frames, 2, res(), linear_scale).unwrap();
    assert_eq!(s.max_magnitude, 2.0f64.to_bits());
    assert_eq!(s.rgb_buffer, vec![255, 255, 255, 127, 127, 127]);
    assert_eq!(magnitude_abs((-3.5f64).to_bits()), 3.5f64.to_bits());
    assert_eq!(magnitude_abs(3.5f64.to_bits()), 3.5f64.to_bits());
}

#[test]
fn caller_scale_is_applied_below_the_maximum() {
    let frames = keys(&[&[1.0, 8.0, 3.0]]);
    let s = Spectrogram::new(&frames, 3, res(), |_v: u64, _m: u64| 7u8).unwrap();
    assert_eq!(s.rgb_buffer, vec![7, 7, 7, 255, 255, 255, 7, 7, 7]);
}

#[test]
fn rows_follow_frames_and_columns_follow_bins() {
    let frames = keys(&[&[0.0, 0.0, 10.0], &[0.0, 0.0, 0.0], &[5.0, 0.0, 0.0]]);
    let s = Spectrogram::new(&frames, 3, res(), linear_scale).unwrap();
    assert_eq!((s.width, s.height), (3, 3));
    assert_eq!(s.rgb_buffer.len(), 27);
    assert_eq!(&s.rgb_buffer[6..9], &[255, 255, 255]);
    assert_eq!(&s.rgb_buffer[18..21], &[127, 127, 127]);
    assert_eq!(s.rgb_buffer.iter().filter(|b| **b != 0).count(), 6);
}

#[test]
fn empty_sequence_is_refused() {
    let frames: Vec<Vec<u64>> = Vec::new();
    let s = Spectrogram::new(&frames, 3, res(), linear_scale);
    assert!(matches!(s, Err(SpectrogramError::EmptySequence)));
}

#[test]
fn frames_of_differing_width_are_refused() {
    let frames = keys(&[&[1.0, 2.0], &[1.0]]);
    let s = Spectrogram::new(&frames, 2, res(), linear_scale);
    assert!(matches!(s, Err(SpectrogramError::InconsistentFrameWidth)));
    let frames = keys(&[&[1.0, 2.0], &[1.0, 3.0]]);
    let s = Spectrogram::new(&frames, 3, res(), linear_scale);
    assert!(matches!(s, Err(SpectrogramError::InconsistentFrameWidth)));
}

#[test]
fn greatest_magnitude_over_all_frames() {
    assert_eq!(max_magnitude(&keys(&[&[1.0, 9.5], &[3.0]])), 9.5f64.to_bits());
    assert_eq!(max_magnitude(&Vec::new()), 0);
}

#[test]
fn frequency_maps_to_its_column() {
    // 8000 Hz over 16 bins: 500 Hz per bin.
    let frames = keys(&[&[1.0; 8]]);
    let s = Spectrogram::new(&frames, 8, res(), linear_scale).unwrap();
    assert_eq!(s.freq_to_position(0), 0);
    assert_eq!(s.freq_to_position(499_999), 0);
    assert_eq!(s.freq_to_position(500_000), 1);
    assert_eq!(s.freq_to_position(146_830 * 8), 2);
    assert_eq!(s.freq_to_position(2_000_000), 4);
}
