//! Slicing one channel into overlapping, zero-padded windows and collecting the
//! low bins of each window's spectrum.
use vstd::prelude::*;
use crate::spectrogram::frames_view;

verus! {

/// Fixed configuration of one analysis run.
///
/// `window_size` samples make one logical window; the transform sees
/// `window_size * oversample_factor` samples, and consecutive windows start
/// `window_size / oversample_factor` samples apart.
#[derive(Clone, Copy, Debug, PartialEq, Eq)]
pub struct WindowingParameters {
    pub window_size: usize,
    pub oversample_factor: usize,
}

impl WindowingParameters {
    /// A positive hop and a transform size that fits in `usize`.
    pub open spec fn valid(self) -> bool {
        &&& 1 <= self.oversample_factor <= self.window_size
        &&& self.window_size * self.oversample_factor <= usize::MAX
    }

    pub open spec fn transform_len(self) -> nat {
        (self.window_size * self.oversample_factor) as nat
    }

    pub open spec fn hop_len(self) -> nat {
        (self.window_size / self.oversample_factor) as nat
    }

    /// Number of samples each transform call sees.
    pub fn transform_size(&self) -> (r: usize)
        requires
            self.valid(),
        ensures
            r == self.transform_len(),
    {
        self.window_size * self.oversample_factor
    }

    /// Stride between the starts of consecutive windows.
    pub fn hop_size(&self) -> (r: usize)
        requires
            self.valid(),
        ensures
            r == self.hop_len(),
            r >= 1,
    {
        proof {
            let (w, o) = (self.window_size as int, self.oversample_factor as int);
            assert(w / o >= 1) by (nonlinear_arith)
                requires
                    1 <= o <= w,
            ;
        }
        self.window_size / self.oversample_factor
    }
}

/// `len` rounded up to a multiple of `w`.
pub open spec fn padded_len_spec(len: nat, w: nat) -> nat
    recommends
        w > 0,
{
    if len % w == 0 {
        len
    } else {
        len + (w - len % w) as nat
    }
}

/// How many windows fit in a buffer of `len` samples once it is padded.
pub open spec fn frame_count_spec(len: nat, p: WindowingParameters) -> nat {
    let padded = padded_len_spec(len, p.window_size as nat);
    if padded >= p.transform_len() {
        ((padded - p.transform_len()) as nat / p.hop_len() + 1) as nat
    } else {
        0
    }
}

/// Sample `k` of the buffer after zero-padding at the end.
pub open spec fn padded_sample<S>(s: Seq<S>, zero: S, k: int) -> S {
    if 0 <= k < s.len() {
        s[k]
    } else {
        zero
    }
}

/// The samples that window `i` hands to the transform.
pub open spec fn window_spec<S>(s: Seq<S>, zero: S, p: WindowingParameters, i: nat) -> Seq<S> {
    Seq::new(p.transform_len(), |j: int| padded_sample(s, zero, i * p.hop_len() + j))
}

/// Rounds `len` up to a multiple of `w`.
pub fn padded_len(len: usize, w: usize) -> (r: usize)
    requires
        w > 0,
        len + w <= usize::MAX,
    ensures
        r == padded_len_spec(len as nat, w as nat),
{
    let rem = len % w;
    if rem == 0 {
        len
    } else {
        len + (w - rem)
    }
}

/// `transform_size` consecutive samples from `start` on, with `zero` past
/// the end of the buffer.
pub fn window_at<S: Copy>(samples: &Vec<S>, zero: S, params: WindowingParameters, start: usize) -> (r: Vec<S>)
    requires
        params.valid(),
        start + params.transform_len() <= usize::MAX,
    ensures
        r@.len() == params.transform_len(),
        forall|j: int| 0 <= j < r@.len() ==> r@[j] == padded_sample(samples@, zero, start + j),
{
    let size = params.transform_size();
    let mut out: Vec<S> = Vec::with_capacity(size);
    let mut j: usize = 0;
    while j < size
        invariant
            j <= size,
            size == params.transform_len(),
            start + size <= usize::MAX,
            out@.len() == j,
            forall|q: int| 0 <= q < j ==> out@[q] == padded_sample(samples@, zero, start + q),
        decreases size - j,
    {
        let k = start + j;
        if k < samples.len() {
            out.push(samples[k]);
        } else {
            out.push(zero);
        }
        j += 1;
    }
    out
}

/// Frequency resolution of a spectrum: bin `i` stands for
/// `i * sample_rate / transform_size` hertz.
#[derive(Clone, Copy, Debug, PartialEq, Eq)]
pub struct BinResolution {
    pub sample_rate: u32,
    pub transform_size: usize,
}

/// The frames of one channel, in the order of their windows, and the
/// resolution of their bins.
pub struct FftResult {
    pub freqs: Vec<Vec<u64>>,
    pub resolution: BinResolution,
}

impl FftResult {
    /// This result is what `fft_samples` owes for these arguments.
    pub open spec fn is_transform_of<S, F: Fn(&Vec<S>) -> Vec<u64>>(
        self,
        samples: Seq<S>,
        params: WindowingParameters,
        sample_rate: u32,
        zero: S,
        kernel: F,
    ) -> bool {
        &&& self.resolution == (BinResolution {
            sample_rate,
            transform_size: params.transform_len() as usize,
        })
        &&& self.freqs@.len() == frame_count_spec(samples.len(), params)
        &&& forall|i: int| 0 <= i < self.freqs@.len() ==> #[trigger] self.freqs@[i]@.len() == params.window_size
        &&& forall|i: int|
            0 <= i < self.freqs@.len() ==> is_low_spectrum(
                kernel,
                window_spec(samples, zero, params, i as nat),
                #[trigger] self.freqs@[i]@,
                params.window_size as nat,
            )
    }
}

/// Equal windows give equal spectra.
pub open spec fn kernel_is_deterministic<S, F: Fn(&Vec<S>) -> Vec<u64>>(kernel: F) -> bool {
    forall|w1: &Vec<S>, w2: &Vec<S>, a: Vec<u64>, b: Vec<u64>|
        w1@ == w2@ && #[trigger] kernel.ensures((w1,), a) && #[trigger] kernel.ensures((w2,), b) ==> a@ == b@
}

/// `frame` is the first `width` values that `kernel` returned for `window`.
pub open spec fn is_low_spectrum<S, F: Fn(&Vec<S>) -> Vec<u64>>(
    kernel: F,
    window: Seq<S>,
    frame: Seq<u64>,
    width: nat,
) -> bool {
    exists|w: Vec<S>, out: Vec<u64>|
        #![trigger kernel.ensures((&w,), out)]
        w@ == window && kernel.ensures((&w,), out) && frame == out@.take(width as int)
}

proof fn lemma_start_fits(i: int, d: int, h: int)
    requires
        h > 0,
        0 <= i <= d / h,
        d >= 0,
    ensures
        i * h <= d,
        0 <= i * h,
{
    assert(i * h <= (d / h) * h) by (nonlinear_arith)
        requires
            h > 0,
            0 <= i <= d / h,
    ;
    assert((d / h) * h <= d) by (nonlinear_arith)
        requires
            h > 0,
            d >= 0,
    ;
    assert(0 <= i * h) by (nonlinear_arith)
        requires
            h > 0,
            0 <= i,
    ;
}

/// Number of windows that a buffer of `len` samples yields.
pub fn frame_count(len: usize, params: WindowingParameters) -> (r: usize)
    requires
        params.valid(),
        len + params.window_size <= usize::MAX,
    ensures
        r == frame_count_spec(len as nat, params),
{
    let padded = padded_len(len, params.window_size);
    let size = params.transform_size();
    let hop = params.hop_size();
    if padded >= size {
        let d = padded - size;
        proof {
            assert(d as int / hop as int <= d as int) by (nonlinear_arith)
                requires
                    hop >= 1,
                    d >= 0,
            ;
        }
        d / hop + 1
    } else {
        0
    }
}

/// Splits `samples` into overlapping windows, runs `kernel` (a forward
/// transform followed by the magnitude of each bin) on each, and keeps the
/// first `window_size` bins of every result.
///
/// The buffer is padded with `zero` up to a multiple of `window_size`; window
/// `i` starts at `i * hop_size` and the last window ends at or before the
/// padded end.
pub fn fft_samples<S: Copy, F: Fn(&Vec<S>) -> Vec<u64>>(
    samples: &Vec<S>,
    params: WindowingParameters,
    sample_rate: u32,
    zero: S,
    kernel: F,
) -> (r: FftResult)
    requires
        params.valid(),
        samples@.len() + params.window_size <= usize::MAX,
        forall|w: &Vec<S>| w@.len() == params.transform_len() ==> kernel.requires((w,)),
        forall|w: &Vec<S>, out: Vec<u64>| kernel.ensures((w,), out) ==> out@.len() == w@.len(),
    ensures
        r.is_transform_of(samples@, params, sample_rate, zero, kernel),
{
    let size = params.transform_size();
    let hop = params.hop_size();
    let count = frame_count(samples.len(), params);
    let ghost padded = padded_len_spec(samples@.len(), params.window_size as nat);
    let mut freqs: Vec<Vec<u64>> = Vec::with_capacity(count);
    let mut i: usize = 0;
    while i < count
        invariant
            i <= count,
            count == frame_count_spec(samples@.len(), params),
            params.valid(),
            size == params.transform_len(),
            hop == params.hop_len(),
            hop >= 1,
            padded == padded_len_spec(samples@.len(), params.window_size as nat),
            padded <= samples@.len() + params.window_size,
            samples@.len() + params.window_size <= usize::MAX,
            forall|w: &Vec<S>| w@.len() == params.transform_len() ==> kernel.requires((w,)),
            forall|w: &Vec<S>, out: Vec<u64>| kernel.ensures((w,), out) ==> out@.len() == w@.len(),
            freqs@.len() == i,
            forall|q: int| 0 <= q < i ==> freqs@[q]@.len() == params.window_size,
            forall|q: int|
                0 <= q < i ==> is_low_spectrum(
                    kernel,
                    window_spec(samples@, zero, params, q as nat),
                    freqs@[q]@,
                    params.window_size as nat,
                ),
        decreases count - i,
    {
        proof {
            assert(padded >= size);
            lemma_start_fits(i as int, padded - size, hop as int);
        }
        let start = i * hop;
        let window = window_at(samples, zero, params, start);
        assert(window@ =~= window_spec(samples@, zero, params, i as nat));
        let mut spectrum = kernel(&window);
        let ghost full = spectrum;
        proof {
            assert(params.window_size <= params.transform_len()) by (nonlinear_arith)
                requires
                    params.oversample_factor >= 1,
                    params.transform_len() == params.window_size * params.oversample_factor,
            ;
        }
        spectrum.truncate(params.window_size);
        assert(spectrum@ =~= full@.take(params.window_size as int));
        assert(is_low_spectrum(
            kernel,
            window_spec(samples@, zero, params, i as nat),
            spectrum@,
            params.window_size as nat,
        ));
        freqs.push(spectrum);
        i += 1;
    }
    FftResult {
        freqs,
        resolution: BinResolution { sample_rate, transform_size: size },
    }
}

/// The padded length is `len` rounded up to a multiple of `w`: a multiple
/// of `w`, at least `len`, and less than `len + w`.
pub proof fn lemma_padded_len_rounds_up(len: nat, w: nat)
    requires
        w > 0,
    ensures
        padded_len_spec(len, w) % w == 0,
        len <= padded_len_spec(len, w) < len + w,
{
    let r = len % w;
    let q = len / w;
    assert(len == q * w + r) by (nonlinear_arith)
        requires
            w > 0,
            q == len / w,
            r == len % w,
    ;
    if r != 0 {
        assert(len + (w - r) == (q + 1) * w) by (nonlinear_arith)
            requires
                len == q * w + r,
        ;
        vstd::arithmetic::div_mod::lemma_mod_multiples_basic((q + 1) as int, w as int);
    }
}

/// Running the transform twice on the same samples and parameters, with a
/// kernel that maps equal windows to equal spectra, gives the same frames
/// and the same resolution.
pub proof fn lemma_transform_is_repeatable<S, F: Fn(&Vec<S>) -> Vec<u64>>(
    r1: FftResult,
    r2: FftResult,
    samples: Seq<S>,
    params: WindowingParameters,
    sample_rate: u32,
    zero: S,
    kernel: F,
)
    requires
        kernel_is_deterministic(kernel),
        r1.is_transform_of(samples, params, sample_rate, zero, kernel),
        r2.is_transform_of(samples, params, sample_rate, zero, kernel),
    ensures
        frames_view(r1.freqs@) == frames_view(r2.freqs@),
        r1.resolution == r2.resolution,
{
    let width = params.window_size as nat;
    assert forall|i: int| 0 <= i < r1.freqs@.len() implies r1.freqs@[i]@ == r2.freqs@[i]@ by {
        let win = window_spec(samples, zero, params, i as nat);
        assert(is_low_spectrum(kernel, win, r1.freqs@[i]@, width));
        assert(is_low_spectrum(kernel, win, r2.freqs@[i]@, width));
        let (w1, a) = choose|w: Vec<S>, out: Vec<u64>|
            w@ == win && kernel.ensures((&w,), out) && r1.freqs@[i]@ == out@.take(width as int);
        let (w2, b) = choose|w: Vec<S>, out: Vec<u64>|
            w@ == win && kernel.ensures((&w,), out) && r2.freqs@[i]@ == out@.take(width as int);
        assert(a@ == b@);
    }
    assert(frames_view(r1.freqs@) =~= frames_view(r2.freqs@));
}

/// A buffer of at least `transform_size` samples yields
/// `(padded_len - transform_size) / hop_size + 1` windows, where `padded_len`
/// is its length rounded up to a multiple of `window_size`.
pub proof fn lemma_frame_count_of_long_buffer(len: nat, params: WindowingParameters)
    requires
        params.valid(),
        len >= params.transform_len(),
    ensures
        frame_count_spec(len, params) == (padded_len_spec(len, params.window_size as nat)
            - params.transform_len()) as nat / params.hop_len() + 1,
{
    lemma_padded_len_rounds_up(len, params.window_size as nat);
}

} // verus!
