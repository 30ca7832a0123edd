use music_man::trace::{freq_time_trace, nearest_bin, TraceError};
use music_man::windowing::{BinResolution, FftResult};

fn result(rows: &[&[u64]]) -> FftResult {
    FftResult {
        freqs: rows.iter().map(|r| r.to_vec()).collect(),
        resolution: BinResolution { sample_rate: 8000, transform_size: 8 },
    }
}

#[test]
fn trace_takes_one_bin_from_every_frame() {
    // 1000 Hz per bin.
    let r = result(&[&[1, 2, 3, 4], &[5, 6, 7, 8], &[9, 10, 11, 12]]);
    assert_eq!(freq_time_trace(&r, 2_000_000), Ok(vec![3, 7, 11]));
    assert_eq!(freq_time_trace(&r, 0), Ok(vec![1, 5, 9]));
    assert_eq!(freq_time_trace(&r, 2_400_000), Ok(vec![3, 7, 11]));
    assert_eq!(freq_time_trace(&r, 2_500_000), Ok(vec![4, 8, 12]));
}

#[test]
fn frequency_beyond_the_band_is_refused() {
    let r = result(&[&[1, 2, 3, 4], &[5, 6, 7, 8]]);
    // (width - 1) * 1000 Hz is 3000 Hz; 4000 Hz is bin 4.
    assert_eq!(freq_time_trace(&r, 4_000_000), Err(TraceError::FrequencyOutOfRange));
    assert_eq!(freq_time_trace(&r, 3_600_000), Err(TraceError::FrequencyOutOfRange));
    assert_eq!(freq_time_trace(&r, 3_000_000), Ok(vec![4, 8]));
}

#[test]
fn nearest_bin_rounds_halves_up() {
    let res = BinResolution { sample_rate: 8000, transform_size: 8 };
    assert_eq!(nearest_bin(1_499_999, res), 1);
    assert_eq!(nearest_bin(1_500_000, res), 2);
    assert_eq!(nearest_bin(0, res), 0);
    let res = BinResolution { sample_rate: 44100, transform_size: 4096 };
    // 2000 Hz / 10.7666 Hz = 185.76
    assert_eq!(nearest_bin(2_000_000, res), 186);
}

#[test]
fn no_frames_give_an_empty_trace() {
    let r = result(&[]);
    assert_eq!(freq_time_trace(&r, 1_000_000), Ok(vec![]));
}
