use music_man::peak::{bin_millihertz, get_fundamental_frequency, peak_bin};
use music_man::windowing::BinResolution;

fn keys(xs: &[f64]) -> Vec<u64> {
    xs.iter().map(|x| x.to_bits()).collect()
}

#[test]
fn single_spike_gives_its_bin_frequency() {
    // 8000 Hz over 8 bins: 1000 Hz per bin.
    let res = BinResolution { sample_rate: 8000, transform_size: 8 };
    for k in 0..4usize {
        let mut frame = vec![0.0; 4];
        frame[k] = 0.75;
        let frame = keys(&frame);
        assert_eq!(peak_bin(&frame), k);
        assert_eq!(get_fundamental_frequency(&frame, res), (k as u64) * 1_000_000);
    }
}

#[test]
fn ties_go_to_the_lowest_bin() {
    assert_eq!(peak_bin(&keys(&[1.0, 5.0, 5.0, 2.0])), 1);
    assert_eq!(peak_bin(&keys(&[3.0, 3.0])), 0);
}

#[test]
fn silent_or_empty_frame_peaks_at_zero() {
    assert_eq!(peak_bin(&keys(&[0.0, 0.0, 0.0])), 0);
    assert_eq!(peak_bin(&Vec::new()), 0);
}

#[test]
fn bin_frequency_is_rounded_down_to_millihertz() {
    // 44100 Hz over 4096 bins: 10.7666... Hz per bin.
    let res = BinResolution { sample_rate: 44100, transform_size: 4096 };
    assert_eq!(bin_millihertz(1, res), 10_766);
    assert_eq!(bin_millihertz(3, res), 32_299);
    let mut frame = vec![0.0; 512];
    frame[3] = 1.0;
    assert_eq!(get_fundamental_frequency(&keys(&frame), res), 32_299);
}
