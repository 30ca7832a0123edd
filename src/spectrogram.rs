//! Rendering a sequence of spectral frames into a grayscale RGB raster.
use vstd::prelude::*;
use vstd::arithmetic::div_mod::lemma_fundamental_div_mod_converse;
use crate::trace::{bin_position, bin_position_spec};
use crate::windowing::BinResolution;

verus! {

/// Why a frame sequence cannot be rendered.
#[derive(Clone, Copy, Debug, PartialEq, Eq, Structural)]
pub enum SpectrogramError {
    EmptySequence,
    InconsistentFrameWidth,
}

/// The value of each inner vector.
pub open spec fn frames_view(frames: Seq<Vec<u64>>) -> Seq<Seq<u64>> {
    Seq::new(frames.len(), |i: int| frames[i]@)
}

/// A magnitude key with its sign bit cleared: the key of the absolute value.
pub open spec fn abs_key(k: u64) -> u64 {
    (k % 0x8000_0000_0000_0000) as u64
}

/// `m` is the greatest absolute key over all bins of all frames (0 when there
/// is no bin).
pub open spec fn is_max_magnitude(frames: Seq<Seq<u64>>, m: u64) -> bool {
    &&& forall|r: int, c: int|
        0 <= r < frames.len() && 0 <= c < frames[r].len() ==> abs_key(#[trigger] frames[r][c]) <= m
    &&& m == 0 || exists|r: int, c: int|
        0 <= r < frames.len() && 0 <= c < frames[r].len() && abs_key(#[trigger] frames[r][c]) == m
}

/// `px` is the intensity of a bin of absolute key `v` when the greatest key is
/// `m`: 0 for an all-silent input, 255 for the greatest bin, and otherwise
/// what the caller's `scale` gives for `(v, m)`.
pub open spec fn is_intensity<F: Fn(u64, u64) -> u8>(scale: F, v: u64, m: u64, px: u8) -> bool {
    if m == 0 {
        px == 0
    } else if v == m {
        px == 255
    } else {
        scale.ensures((v, m), px)
    }
}

/// A rendered raster: `height` rows of `width` pixels, three equal bytes per
/// pixel; row `r` is frame `r` and column `c` is bin `c`.
pub struct Spectrogram {
    pub rgb_buffer: Vec<u8>,
    pub width: u32,
    pub height: u32,
    pub max_magnitude: u64,
    pub resolution: BinResolution,
}

/// Clears the sign bit of a magnitude key.
pub fn magnitude_abs(k: u64) -> (r: u64)
    ensures
        r == abs_key(k),
{
    let r = k & 0x7fff_ffff_ffff_ffffu64;
    assert(k & 0x7fff_ffff_ffff_ffffu64 == k % 0x8000_0000_0000_0000u64) by (bit_vector);
    r
}

/// Greatest absolute key over all bins of all frames.
pub fn max_magnitude(frames: &Vec<Vec<u64>>) -> (m: u64)
    ensures
        is_max_magnitude(frames_view(frames@), m),
{
    let ghost fv = frames_view(frames@);
    let mut m: u64 = 0;
    let mut r: usize = 0;
    while r < frames.len()
        invariant
            r <= frames@.len(),
            fv == frames_view(frames@),
            forall|a: int, c: int| 0 <= a < r && 0 <= c < fv[a].len() ==> abs_key(#[trigger] fv[a][c]) <= m,
            m == 0 || exists|a: int, c: int|
                0 <= a < r && 0 <= c < fv[a].len() && abs_key(#[trigger] fv[a][c]) == m,
        decreases frames@.len() - r,
    {
        let row = &frames[r];
        assert(row@ == fv[r as int]);
        let mut c: usize = 0;
        while c < row.len()
            invariant
                r < frames@.len(),
                c <= row@.len(),
                row@ == fv[r as int],
                fv == frames_view(frames@),
                forall|a: int, b: int| 0 <= a < r && 0 <= b < fv[a].len() ==> abs_key(#[trigger] fv[a][b]) <= m,
                forall|b: int| 0 <= b < c ==> abs_key(#[trigger] fv[r as int][b]) <= m,
                m == 0 || (exists|a: int, b: int|
                    0 <= a < r && 0 <= b < fv[a].len() && abs_key(#[trigger] fv[a][b]) == m)
                    || (exists|b: int| 0 <= b < c && abs_key(#[trigger] fv[r as int][b]) == m),
            decreases row@.len() - c,
        {
            let v = magnitude_abs(row[c]);
            if v > m {
                m = v;
                assert(abs_key(fv[r as int][c as int]) == m);
            }
            c += 1;
        }
        assert forall|a: int, b: int| 0 <= a < r + 1 && 0 <= b < fv[a].len() implies abs_key(
            #[trigger] fv[a][b],
        ) <= m by {
            if a == r {
                assert(abs_key(fv[r as int][b]) <= m);
            }
        }
        proof {
            if m != 0 {
                if !(exists|a: int, b: int|
                    0 <= a < r && 0 <= b < fv[a].len() && abs_key(#[trigger] fv[a][b]) == m) {
                    let b = choose|b: int| 0 <= b < c && abs_key(#[trigger] fv[r as int][b]) == m;
                    assert(0 <= r < r + 1 && 0 <= b < fv[r as int].len() && abs_key(fv[r as int][b]) == m);
                }
            }
        }
        r += 1;
    }
    m
}

impl Spectrogram {
    /// This raster is the rendering of `frames` under `scale`.
    pub open spec fn renders<F: Fn(u64, u64) -> u8>(self, frames: Seq<Seq<u64>>, scale: F) -> bool {
        let w = self.width as int;
        &&& self.height as int == frames.len()
        &&& forall|r: int| 0 <= r < frames.len() ==> #[trigger] frames[r].len() == w
        &&& is_max_magnitude(frames, self.max_magnitude)
        &&& self.rgb_buffer@.len() == 3 * w * frames.len()
        &&& forall|p: int|
            0 <= p < self.rgb_buffer@.len() ==> is_intensity(
                scale,
                abs_key(frames[p / (3 * w)][(p % (3 * w)) / 3]),
                self.max_magnitude,
                #[trigger] self.rgb_buffer@[p],
            )
    }

    /// Renders `time_slices` (one frame per row, `freq_domain` bins per row).
    ///
    /// Each bin's absolute key `v` becomes one gray pixel: 0 everywhere when
    /// every bin is zero, 255 where `v` is the greatest key `m`, and
    /// `scale(v, m)` elsewhere.
    pub fn new<F: Fn(u64, u64) -> u8>(
        time_slices: &Vec<Vec<u64>>,
        freq_domain: u32,
        resolution: BinResolution,
        scale: F,
    ) -> (r: Result<Spectrogram, SpectrogramError>)
        requires
            time_slices@.len() <= u32::MAX,
            3 * freq_domain * time_slices@.len() <= usize::MAX,
            forall|v: u64, m: u64| v < m ==> scale.requires((v, m)),
        ensures
            match r {
                Ok(s) => {
                    &&& time_slices@.len() > 0
                    &&& s.width == freq_domain
                    &&& s.resolution == resolution
                    &&& s.renders(frames_view(time_slices@), scale)
                },
                Err(SpectrogramError::EmptySequence) => time_slices@.len() == 0,
                Err(SpectrogramError::InconsistentFrameWidth) => {
                    &&& time_slices@.len() > 0
                    &&& exists|i: int|
                        0 <= i < time_slices@.len() && #[trigger] time_slices@[i]@.len() != freq_domain
                },
            },
    {
        let n = time_slices.len();
        if n == 0 {
            return Err(SpectrogramError::EmptySequence);
        }
        let w = freq_domain as usize;
        let mut i: usize = 0;
        while i < n
            invariant
                i <= n,
                n == time_slices@.len(),
                w == freq_domain,
                forall|q: int| 0 <= q < i ==> #[trigger] time_slices@[q]@.len() == w,
            decreases n - i,
        {
            if time_slices[i].len() != w {
                return Err(SpectrogramError::InconsistentFrameWidth);
            }
            i += 1;
        }
        let m = max_magnitude(time_slices);
        let ghost fv = frames_view(time_slices@);
        proof {
            assert(3 * w <= 3 * w * n) by (nonlinear_arith)
                requires
                    n >= 1,
                    w >= 0,
            ;
        }
        let row_len = 3 * w;
        let mut rgb: Vec<u8> = Vec::with_capacity(row_len * n);
        let mut r: usize = 0;
        while r < n
            invariant
                r <= n,
                n == time_slices@.len(),
                row_len == 3 * w,
                row_len * n <= usize::MAX,
                fv == frames_view(time_slices@),
                forall|q: int| 0 <= q < n ==> #[trigger] time_slices@[q]@.len() == w,
                is_max_magnitude(fv, m),
                forall|v: u64, m: u64| v < m ==> scale.requires((v, m)),
                rgb@.len() == row_len * r,
                forall|p: int|
                    0 <= p < rgb@.len() ==> is_intensity(
                        scale,
                        abs_key(fv[p / (row_len as int)][(p % (row_len as int)) / 3]),
                        m,
                        #[trigger] rgb@[p],
                    ),
            decreases n - r,
        {
            let frame = &time_slices[r];
            assert(frame@ == fv[r as int]);
            let mut row: Vec<u8> = Vec::with_capacity(row_len);
            let mut c: usize = 0;
            while c < w
                invariant
                    r < n,
                    c <= w,
                    n == time_slices@.len(),
                    fv == frames_view(time_slices@),
                    frame@ == fv[r as int],
                    frame@.len() == w,
                    row_len == 3 * w,
                    is_max_magnitude(fv, m),
                    forall|v: u64, m: u64| v < m ==> scale.requires((v, m)),
                    row@.len() == 3 * c,
                    forall|q: int|
                        0 <= q < row@.len() ==> is_intensity(
                            scale,
                            abs_key(fv[r as int][q / 3]),
                            m,
                            #[trigger] row@[q],
                        ),
                decreases w - c,
            {
                let v = magnitude_abs(frame[c]);
                assert(v <= m) by {
                    assert(abs_key(fv[r as int][c as int]) <= m);
                }
                let px: u8 = if m == 0 {
                    0
                } else if v == m {
                    255
                } else {
                    scale(v, m)
                };
                row.push(px);
                row.push(px);
                row.push(px);
                c += 1;
            }
            let ghost old_rgb = rgb@;
            let ghost old_row = row@;
            proof {
                assert(row_len * r + row_len == row_len * (r + 1)) by (nonlinear_arith);
                assert(row_len * (r + 1) <= row_len * n) by (nonlinear_arith)
                    requires
                        r < n,
                        row_len >= 0,
                ;
            }
            rgb.append(&mut row);
            assert forall|p: int| 0 <= p < rgb@.len() implies is_intensity(
                scale,
                abs_key(fv[p / (row_len as int)][(p % (row_len as int)) / 3]),
                m,
                #[trigger] rgb@[p],
            ) by {
                if p >= old_rgb.len() {
                    let q = p - row_len * r;
                    assert(row_len > 0);
                    assert(p == r * row_len + q) by (nonlinear_arith)
                        requires
                            q == p - row_len * r,
                    ;
                    lemma_fundamental_div_mod_converse(p, row_len as int, r as int, q);
                    assert(rgb@[p] == old_row[q]);
                } else {
                    assert(rgb@[p] == old_rgb[p]);
                }
            }
            r += 1;
        }
        Ok(Spectrogram {
            rgb_buffer: rgb,
            width: freq_domain,
            height: n as u32,
            max_magnitude: m,
            resolution,
        })
    }

    /// Raster column that `freq_millihz` falls in (frequency over bin width,
    /// rounded down); annotation markers are drawn there.
    pub fn freq_to_position(&self, freq_millihz: u64) -> (r: u128)
        requires
            self.resolution.sample_rate > 0,
        ensures
            r == bin_position_spec(freq_millihz as nat, self.resolution),
    {
        bin_position(freq_millihz, self.resolution)
    }
}

/// Equal arguments give equal intensities.
pub open spec fn scale_is_deterministic<F: Fn(u64, u64) -> u8>(scale: F) -> bool {
    forall|v: u64, m: u64, a: u8, b: u8|
        #[trigger] scale.ensures((v, m), a) && #[trigger] scale.ensures((v, m), b) ==> a == b
}

proof fn lemma_max_is_unique(frames: Seq<Seq<u64>>, m1: u64, m2: u64)
    requires
        is_max_magnitude(frames, m1),
        is_max_magnitude(frames, m2),
    ensures
        m1 == m2,
{
    if m1 < m2 {
        let (r, c) = choose|r: int, c: int|
            0 <= r < frames.len() && 0 <= c < frames[r].len() && abs_key(#[trigger] frames[r][c]) == m2;
        assert(abs_key(frames[r][c]) <= m1);
    } else if m2 < m1 {
        let (r, c) = choose|r: int, c: int|
            0 <= r < frames.len() && 0 <= c < frames[r].len() && abs_key(#[trigger] frames[r][c]) == m1;
        assert(abs_key(frames[r][c]) <= m2);
    }
}

/// Two renderings of the same non-empty frames under a scale that maps equal
/// arguments to equal intensities are the same raster, byte for byte.
pub proof fn lemma_rendering_is_repeatable<F: Fn(u64, u64) -> u8>(
    s1: Spectrogram,
    s2: Spectrogram,
    frames: Seq<Seq<u64>>,
    scale: F,
)
    requires
        frames.len() > 0,
        scale_is_deterministic(scale),
        s1.renders(frames, scale),
        s2.renders(frames, scale),
    ensures
        s1.rgb_buffer@ == s2.rgb_buffer@,
        s1.width == s2.width,
        s1.height == s2.height,
        s1.max_magnitude == s2.max_magnitude,
{
    assert(frames[0].len() == s1.width);
    assert(frames[0].len() == s2.width);
    lemma_max_is_unique(frames, s1.max_magnitude, s2.max_magnitude);
    let w = s1.width as int;
    assert forall|p: int| 0 <= p < s1.rgb_buffer@.len() implies s1.rgb_buffer@[p] == s2.rgb_buffer@[p] by {
        let v = abs_key(frames[p / (3 * w)][(p % (3 * w)) / 3]);
        assert(is_intensity(scale, v, s1.max_magnitude, s1.rgb_buffer@[p]));
        assert(is_intensity(scale, v, s2.max_magnitude, s2.rgb_buffer@[p]));
    }
    assert(s1.rgb_buffer@ =~= s2.rgb_buffer@);
}

/// In a rendering of frames that are not all silent, the three bytes of a
/// bin that holds the greatest magnitude are 255.
pub proof fn lemma_peak_bin_is_full_intensity<F: Fn(u64, u64) -> u8>(
    s: Spectrogram,
    frames: Seq<Seq<u64>>,
    scale: F,
    r: int,
    c: int,
    k: int,
)
    requires
        s.renders(frames, scale),
        0 <= r < frames.len(),
        0 <= c < frames[r].len(),
        0 <= k < 3,
        s.max_magnitude > 0,
        abs_key(frames[r][c]) == s.max_magnitude,
    ensures
        3 * (r * s.width + c) + k < s.rgb_buffer@.len(),
        s.rgb_buffer@[3 * (r * s.width + c) + k] == 255,
{
    let w = s.width as int;
    let h = frames.len() as int;
    assert(frames[r].len() == w);
    let p = 3 * (r * w + c) + k;
    assert(p == r * (3 * w) + (3 * c + k)) by (nonlinear_arith)
        requires
            p == 3 * (r * w + c) + k,
    ;
    assert(p < 3 * w * h) by (nonlinear_arith)
        requires
            p == r * (3 * w) + (3 * c + k),
            0 <= r < h,
            0 <= c < w,
            0 <= k < 3,
    ;
    lemma_fundamental_div_mod_converse(p, 3 * w, r, 3 * c + k);
    assert((3 * c + k) / 3 == c);
    assert(is_intensity(scale, abs_key(frames[r][c]), s.max_magnitude, s.rgb_buffer@[p]));
}

/// Frames whose bins are all zero render as an all-black raster.
pub proof fn lemma_silence_renders_black<F: Fn(u64, u64) -> u8>(
    s: Spectrogram,
    frames: Seq<Seq<u64>>,
    scale: F,
)
    requires
        s.renders(frames, scale),
        forall|r: int, c: int| 0 <= r < frames.len() && 0 <= c < frames[r].len() ==> abs_key(#[trigger] frames[r][c]) == 0,
    ensures
        s.max_magnitude == 0,
        forall|p: int| 0 <= p < s.rgb_buffer@.len() ==> #[trigger] s.rgb_buffer@[p] == 0,
{
    if s.max_magnitude != 0 {
        let (r, c) = choose|r: int, c: int|
            0 <= r < frames.len() && 0 <= c < frames[r].len() && abs_key(#[trigger] frames[r][c]) == s.max_magnitude;
    }
    let w = s.width as int;
    assert forall|p: int| 0 <= p < s.rgb_buffer@.len() implies #[trigger] s.rgb_buffer@[p] == 0 by {
        assert(is_intensity(scale, abs_key(frames[p / (3 * w)][(p % (3 * w)) / 3]), s.max_magnitude, s.rgb_buffer@[p]));
    }
}

} // verus!
