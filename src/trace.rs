//! Mapping frequencies onto bins, and the magnitude of one bin over time.
use vstd::prelude::*;
use vstd::arithmetic::div_mod::lemma_fundamental_div_mod_converse;
use crate::windowing::{BinResolution, FftResult};

verus! {

/// Why a trace cannot be taken.
#[derive(Clone, Copy, Debug, PartialEq, Eq, Structural)]
pub enum TraceError {
    FrequencyOutOfRange,
}

/// `freq_millihz / 1000` hertz divided by the bin width, rounded down.
pub open spec fn bin_position_spec(freq_millihz: nat, res: BinResolution) -> nat
    recommends
        res.sample_rate > 0,
{
    (freq_millihz * res.transform_size / (res.sample_rate * 1000)) as nat
}

/// `freq_millihz / 1000` hertz divided by the bin width, rounded to the
/// nearest integer (halves upwards).
pub open spec fn nearest_bin_spec(freq_millihz: nat, res: BinResolution) -> nat
    recommends
        res.sample_rate > 0,
{
    ((2 * freq_millihz * res.transform_size + res.sample_rate * 1000) / (2 * res.sample_rate
        * 1000)) as nat
}

/// The bin whose lower edge is at or below `freq_millihz`: the pixel column
/// that a frequency falls in.
pub fn bin_position(freq_millihz: u64, res: BinResolution) -> (r: u128)
    requires
        res.sample_rate > 0,
    ensures
        r == bin_position_spec(freq_millihz as nat, res),
{
    proof {
        let (f, t) = (freq_millihz as int, res.transform_size as int);
        assert(f * t <= 0xffff_ffff_ffff_ffff * 0xffff_ffff_ffff_ffff) by (nonlinear_arith)
            requires
                0 <= f <= 0xffff_ffff_ffff_ffff,
                0 <= t <= 0xffff_ffff_ffff_ffff,
        ;
    }
    let n: u128 = (freq_millihz as u128) * (res.transform_size as u128);
    let d: u128 = (res.sample_rate as u128) * 1000u128;
    n / d
}

/// The bin nearest to `freq_millihz`, halves rounding upwards.
pub fn nearest_bin(freq_millihz: u64, res: BinResolution) -> (r: u128)
    requires
        res.sample_rate > 0,
    ensures
        r == nearest_bin_spec(freq_millihz as nat, res),
{
    proof {
        let (f, t) = (freq_millihz as int, res.transform_size as int);
        assert(f * t <= 0xffff_ffff_ffff_ffff * 0xffff_ffff_ffff_ffff) by (nonlinear_arith)
            requires
                0 <= f <= 0xffff_ffff_ffff_ffff,
                0 <= t <= 0xffff_ffff_ffff_ffff,
        ;
    }
    let n: u128 = (freq_millihz as u128) * (res.transform_size as u128);
    let d: u128 = (res.sample_rate as u128) * 1000u128;
    let q = n / d;
    let rem = n % d;
    proof {
        let (ni, di, qi, ri) = (n as int, d as int, q as int, rem as int);
        assert(ni == qi * di + ri) by (nonlinear_arith)
            requires
                di > 0,
                qi == ni / di,
                ri == ni % di,
        ;
        assert(qi <= ni) by (nonlinear_arith)
            requires
                ni == qi * di + ri,
                ri >= 0,
                di >= 1,
                qi >= 0,
        ;
        assert(2 * freq_millihz * res.transform_size + res.sample_rate * 1000 == 2 * ni + di)
            by (nonlinear_arith)
            requires
                ni == freq_millihz * res.transform_size,
                di == res.sample_rate * 1000,
        ;
        if 2 * ri >= di {
            assert(2 * ni + di == (qi + 1) * (2 * di) + (2 * ri - di)) by (nonlinear_arith)
                requires
                    ni == qi * di + ri,
            ;
            lemma_fundamental_div_mod_converse(2 * ni + di, 2 * di, qi + 1, 2 * ri - di);
        } else {
            assert(2 * ni + di == qi * (2 * di) + (2 * ri + di)) by (nonlinear_arith)
                requires
                    ni == qi * di + ri,
            ;
            lemma_fundamental_div_mod_converse(2 * ni + di, 2 * di, qi, 2 * ri + di);
        }
    }
    if 2 * rem >= d {
        q + 1
    } else {
        q
    }
}

/// The magnitude of the bin nearest to `freq_millihz` in every frame, in the
/// order of the frames.
pub fn freq_time_trace(fft_result: &FftResult, freq_millihz: u64) -> (r: Result<Vec<u64>, TraceError>)
    requires
        fft_result.resolution.sample_rate > 0,
    ensures
        ({
            let b = nearest_bin_spec(freq_millihz as nat, fft_result.resolution);
            let frames = fft_result.freqs@;
            match r {
                Ok(t) => {
                    &&& forall|i: int| 0 <= i < frames.len() ==> b < #[trigger] frames[i]@.len()
                    &&& t@.len() == frames.len()
                    &&& forall|i: int| 0 <= i < frames.len() ==> #[trigger] t@[i] == frames[i]@[b as int]
                },
                Err(TraceError::FrequencyOutOfRange) => exists|i: int|
                    0 <= i < frames.len() && #[trigger] frames[i]@.len() <= b,
            }
        }),
{
    let b = nearest_bin(freq_millihz, fft_result.resolution);
    let frames = &fft_result.freqs;
    let mut out: Vec<u64> = Vec::with_capacity(frames.len());
    let mut i: usize = 0;
    while i < frames.len()
        invariant
            i <= frames@.len(),
            b == nearest_bin_spec(freq_millihz as nat, fft_result.resolution),
            frames@ == fft_result.freqs@,
            out@.len() == i,
            forall|q: int| 0 <= q < i ==> b < #[trigger] frames@[q]@.len(),
            forall|q: int| 0 <= q < i ==> #[trigger] out@[q] == frames@[q]@[b as int],
        decreases frames@.len() - i,
    {
        let frame = &frames[i];
        if b >= frame.len() as u128 {
            return Err(TraceError::FrequencyOutOfRange);
        }
        out.push(frame[b as usize]);
        i += 1;
    }
    Ok(out)
}

} // verus!
