//! Naive fundamental-frequency estimation: the bin of greatest magnitude.
use vstd::prelude::*;
use crate::windowing::BinResolution;

verus! {

/// `k` is the first index of a greatest value of `s`, or 0 when `s` is empty.
pub open spec fn is_peak(s: Seq<u64>, k: int) -> bool {
    if s.len() == 0 {
        k == 0
    } else {
        &&& 0 <= k < s.len()
        &&& forall|j: int| 0 <= j < s.len() ==> s[j] <= s[k]
        &&& forall|j: int| 0 <= j < k ==> s[j] < s[k]
    }
}

/// Frequency of bin `k` in millihertz, rounded down.
pub open spec fn bin_millihertz_spec(k: nat, res: BinResolution) -> nat
    recommends
        res.transform_size > 0,
{
    (k * res.sample_rate * 1000 / (res.transform_size as int)) as nat
}

/// Index of the first bin of greatest magnitude (0 for an empty frame).
///
/// Magnitudes are keys whose unsigned order is the order of the magnitudes;
/// a bin replaces the current best only when it is strictly greater, so the
/// lowest index wins a tie.
pub fn peak_bin(freqs: &Vec<u64>) -> (r: usize)
    ensures
        is_peak(freqs@, r as int),
{
    let mut best: usize = 0;
    let mut best_val: u64 = 0;
    let mut i: usize = 0;
    while i < freqs.len()
        invariant
            i <= freqs@.len(),
            i == 0 ==> best == 0 && best_val == 0,
            i > 0 ==> best < i && best_val == freqs@[best as int],
            forall|j: int| 0 <= j < i ==> freqs@[j] <= best_val,
            forall|j: int| 0 <= j < best ==> freqs@[j] < best_val,
        decreases freqs@.len() - i,
    {
        if best_val < freqs[i] {
            best = i;
            best_val = freqs[i];
        } else if i == 0 {
            best_val = freqs[0];
        }
        i += 1;
    }
    best
}

/// Frequency of `bin` in millihertz, rounded down.
pub fn bin_millihertz(bin: usize, res: BinResolution) -> (r: u64)
    requires
        res.transform_size > 0,
        bin <= res.transform_size,
    ensures
        r == bin_millihertz_spec(bin as nat, res),
{
    proof {
        let (b, sr) = (bin as int, res.sample_rate as int);
        assert(b * sr <= 0x1_0000_0000_0000_0000 * 0x1_0000_0000) by (nonlinear_arith)
            requires
                0 <= b <= 0x1_0000_0000_0000_0000,
                0 <= sr <= 0x1_0000_0000,
        ;
    }
    let num: u128 = (bin as u128) * (res.sample_rate as u128) * 1000u128;
    proof {
        let (b, t, sr) = (bin as int, res.transform_size as int, res.sample_rate as int);
        assert(b * sr * 1000 <= t * sr * 1000) by (nonlinear_arith)
            requires
                0 <= b <= t,
                sr >= 0,
        ;
        assert((b * sr * 1000) / t <= sr * 1000) by (nonlinear_arith)
            requires
                0 <= b <= t,
                t > 0,
                sr >= 0,
                b * sr * 1000 <= t * sr * 1000,
        ;
    }
    (num / (res.transform_size as u128)) as u64
}

/// Frequency, in millihertz rounded down, of the first bin of greatest
/// magnitude. A frame has at most `transform_size` bins.
pub fn get_fundamental_frequency(freqs: &Vec<u64>, res: BinResolution) -> (r: u64)
    requires
        res.transform_size > 0,
        freqs@.len() <= res.transform_size,
    ensures
        exists|k: int| is_peak(freqs@, k) && r == bin_millihertz_spec(k as nat, res),
{
    let k = peak_bin(freqs);
    bin_millihertz(k, res)
}

/// A frame whose only nonzero bin is `k` peaks at `k`.
pub proof fn lemma_spike_peaks_at_its_bin(s: Seq<u64>, k: int, r: int)
    requires
        0 <= k < s.len(),
        s[k] > 0,
        forall|j: int| 0 <= j < s.len() && j != k ==> s[j] == 0,
        is_peak(s, r),
    ensures
        r == k,
{
    if r < k {
        assert(s[r] < s[k]);
        assert(s[r] == 0);
        assert(s[k] <= s[r]);
    } else if r > k {
        assert(s[k] < s[r]);
    }
}

} // verus!
