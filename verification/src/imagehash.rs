use vstd::prelude::*;
use vstd::string::StringExecFns;
use crate::image_error::MyImageError;
use image::GenericImageView;

verus! {

/// A file path together with the ingestion flags of the collection it came
/// from: whether it belongs to the "comparison" set of new images being
/// tested against an existing collection, and whether such an image must be
/// marked a duplicate even when it is the better-quality version.
pub struct ImagePath {
    pub fpath: String,
    pub is_compare_dir: bool,
    pub always_mark_dupe_compare: bool,
}

/// The perceptual fingerprint of one image.
///
/// `std_dev` holds the average per-channel standard deviation of the 64
/// colour samples as a fixed-point value in thousandths, so that a value of
/// 3000 stands for a standard deviation of 3.0.
pub struct ImageHashAV {
    /// A common key grouping potential duplicates: the same value means a
    /// possible (not yet confirmed) duplicate. Mutated only by the grouping
    /// strategies; initially equal to `grey_hash`.
    pub dupe_group: u64,
    /// The 64-bit average hash of a greyscale 8x8 resample; immutable.
    pub grey_hash: u64,
    /// The 8x8 RGB resample, 64 triples in raster order: 192 bytes.
    pub low_res: Vec<u8>,
    /// Width of the original image in pixels.
    pub width: u32,
    /// Height of the original image in pixels.
    pub height: u32,
    /// Size of the source file in bytes, used as a tie-break.
    pub file_size: u64,
    /// Total number of pixels of the original image.
    pub num_pixels: u64,
    /// Average per-channel standard deviation of the colour samples, in
    /// thousandths.
    pub std_dev: u64,
    /// The path the image came from, with its ingestion flags.
    pub image_path: ImagePath,
}

/// The thresholds and switches the deduplication core works from. All
/// fields are validated before a configuration reaches the library's
/// algorithms. `std_dev_threshold` is in thousandths, like
/// `ImageHashAV::std_dev`.
pub struct ConfigOptions {
    pub colour_difference_threshold: u64,
    pub std_dev_threshold: u64,
    pub alg_flip_threshold: u64,
    pub alg_colour_diff_only: bool,
    pub only_known_file_extensions: bool,
    pub only_list_duplicates: bool,
    pub only_list_uniques: bool,
    pub list_all: bool,
    pub num_threads: u32,
    pub compare_dir: String,
    pub am_comparing: bool,
    pub always_mark_duplicates: bool,
    pub min_width: u32,
    pub min_height: u32,
}

impl ImageHashAV {
    /// A fingerprint as produced by extraction: 64 colour triples and
    /// positive dimensions.
    pub open spec fn well_formed(self) -> bool {
        &&& self.low_res@.len() == 192
        &&& self.width >= 1
        &&& self.height >= 1
    }
}

/// Whether `b`'s aspect ratio lies within 2 percent of `a`'s, anchored on
/// `a`: b.width/b.height must lie in [0.98 * a.width/a.height,
/// 1.02 * a.width/a.height]. Cleared of denominators (heights are
/// positive), the test is directional: it can hold one way round and not
/// the other near the boundary.
pub open spec fn aspect_similar_spec(a: ImageHashAV, b: ImageHashAV) -> bool {
    &&& 98 * a.width * b.height <= 100 * b.width * a.height
    &&& 100 * b.width * a.height <= 102 * a.width * b.height
}

/// The absolute difference of two sample bytes.
pub open spec fn byte_diff(x: u8, y: u8) -> int {
    if x >= y {
        x - y
    } else {
        y - x
    }
}

/// Sum of the absolute per-channel differences over the first `n` of the
/// 192 sample bytes.
pub open spec fn colour_diff_upto(a: Seq<u8>, b: Seq<u8>, n: int) -> int
    decreases n,
{
    if n <= 0 {
        0
    } else {
        colour_diff_upto(a, b, n - 1) + byte_diff(a[n - 1], b[n - 1])
    }
}

/// The colour distance of two fingerprints: the sum of absolute
/// per-channel differences over all 64 sample triples, 192 terms in all.
pub open spec fn colour_diff_spec(a: Seq<u8>, b: Seq<u8>) -> int {
    colour_diff_upto(a, b, 192)
}

/// The duplicate predicate: both images must show enough colour variation
/// for the colour metric to be reliable, the aspect ratios must be similar
/// (anchored on `a`), and the colour distance must not exceed the
/// configured threshold.
pub open spec fn is_dupe_spec(a: ImageHashAV, b: ImageHashAV, config: ConfigOptions) -> bool {
    &&& a.std_dev > config.std_dev_threshold
    &&& b.std_dev > config.std_dev_threshold
    &&& aspect_similar_spec(a, b)
    &&& colour_diff_spec(a.low_res@, b.low_res@) <= config.colour_difference_threshold
}

/// A denominator-cleared aspect-ratio term stays far below the range of
/// the wide integers the comparison is carried out in.
proof fn lemma_scaled_product_bounded(w: u32, h: u32)
    ensures
        98 * (w as int) * (h as int) < 0x1_0000_0000_0000_0000_0000_0000,
        100 * (w as int) * (h as int) < 0x1_0000_0000_0000_0000_0000_0000,
        102 * (w as int) * (h as int) < 0x1_0000_0000_0000_0000_0000_0000,
{
    assert(98 * (w as int) * (h as int) < 0x1_0000_0000_0000_0000_0000_0000
        && 100 * (w as int) * (h as int) < 0x1_0000_0000_0000_0000_0000_0000
        && 102 * (w as int) * (h as int) < 0x1_0000_0000_0000_0000_0000_0000) by (nonlinear_arith)
        requires
            w < 0x1_0000_0000,
            h < 0x1_0000_0000,
    ;
}

impl ImageHashAV {
    /// Default colour difference threshold under which two images are
    /// declared duplicates.
    pub const DEFAULT_COLOUR_DIFF_THRESHOLD: u64 = 256;

    /// Default colour variation threshold (in thousandths) under which
    /// deduplication is not attempted.
    pub const DEFAULT_STD_DEV_THRESHOLD: u64 = 3000;

    /// Number of files at which the grouping engine flips to the less
    /// accurate but faster algorithm.
    pub const DEFAULT_ALG_FLIP_THRESHOLD: u64 = 20000;

    /// Check whether the two aspect ratios are within 2 percent of each
    /// other, anchored on `self`. The check is directional: near the
    /// tolerance boundary it may accept (self, comp) and reject
    /// (comp, self); that asymmetry is intended.
    pub fn has_similar_aspect_ratio(&self, comp: &ImageHashAV) -> (r: bool)
        requires
            self.height >= 1,
            comp.height >= 1,
        ensures
            r == aspect_similar_spec(*self, *comp),
    {
        proof {
            lemma_scaled_product_bounded(self.width, comp.height);
            lemma_scaled_product_bounded(comp.width, self.height);
        }
        let lhs: u128 = 98u128 * (self.width as u128) * (comp.height as u128);
        let mid: u128 = 100u128 * (comp.width as u128) * (self.height as u128);
        let rhs: u128 = 102u128 * (self.width as u128) * (comp.height as u128);
        lhs <= mid && mid <= rhs
    }

    /// The colour distance between the low-resolution samples of this and
    /// another fingerprint.
    pub fn diff_colour(&self, comp: &ImageHashAV) -> (r: u64)
        requires
            self.low_res@.len() == 192,
            comp.low_res@.len() == 192,
        ensures
            r == colour_diff_spec(self.low_res@, comp.low_res@),
    {
        let mut diff: u64 = 0;
        let mut k: usize = 0;
        while k < 192
            invariant
                k <= 192,
                self.low_res@.len() == 192,
                comp.low_res@.len() == 192,
                diff == colour_diff_upto(self.low_res@, comp.low_res@, k as int),
                diff <= 255 * k,
            decreases 192 - k,
        {
            let x = self.low_res[k];
            let y = comp.low_res[k];
            let d: u64 = if x >= y {
                (x - y) as u64
            } else {
                (y - x) as u64
            };
            diff = diff + d;
            k = k + 1;
        }
        diff
    }

    /// Test whether two images are duplicates of each other under the
    /// configured thresholds.
    pub fn is_dupe(&self, other: &ImageHashAV, config: &ConfigOptions) -> (r: bool)
        requires
            self.well_formed(),
            other.well_formed(),
        ensures
            r == is_dupe_spec(*self, *other, *config),
    {
        if self.std_dev > config.std_dev_threshold && other.std_dev > config.std_dev_threshold {
            if self.has_similar_aspect_ratio(other) {
                if self.diff_colour(other) <= config.colour_difference_threshold {
                    return true;
                }
            }
        }
        false
    }
}

/// The std-dev gate: a fingerprint whose colour variation does not exceed
/// the configured threshold is never part of a duplicate pair, whichever
/// side of the comparison it stands on and however similar the images
/// otherwise are.
pub proof fn lemma_std_dev_gate(a: ImageHashAV, b: ImageHashAV, config: ConfigOptions)
    requires
        a.std_dev <= config.std_dev_threshold,
    ensures
        !is_dupe_spec(a, b, config),
        !is_dupe_spec(b, a, config),
{
}

/// At the colour threshold itself the predicate still accepts: with both
/// variation gates passed and the aspect ratios similar, a colour distance
/// exactly equal to the threshold is a duplicate.
pub proof fn lemma_colour_boundary_inclusive(
    a: ImageHashAV,
    b: ImageHashAV,
    config: ConfigOptions,
)
    requires
        a.std_dev > config.std_dev_threshold,
        b.std_dev > config.std_dev_threshold,
        aspect_similar_spec(a, b),
        colour_diff_spec(a.low_res@, b.low_res@) == config.colour_difference_threshold,
    ensures
        is_dupe_spec(a, b, config),
{
}

/// One past the colour threshold the predicate rejects, whatever the other
/// checks say.
pub proof fn lemma_colour_boundary_exclusive(
    a: ImageHashAV,
    b: ImageHashAV,
    config: ConfigOptions,
)
    requires
        colour_diff_spec(a.low_res@, b.low_res@) == config.colour_difference_threshold + 1,
    ensures
        !is_dupe_spec(a, b, config),
{
}

/// Sum of the first `n` greyscale samples.
pub open spec fn grey_total(g: Seq<u8>, n: int) -> int
    decreases n,
{
    if n <= 0 {
        0
    } else {
        grey_total(g, n - 1) + g[n - 1]
    }
}

/// The average hash restricted to its first `n` bits: bit `i` is set when
/// sample `i` is at least the mean of all 64 samples, that is when
/// 64 * g[i] >= t with `t` the total of the samples.
pub open spec fn hash_upto(g: Seq<u8>, t: int, n: int) -> u64
    decreases n,
{
    if n <= 0 {
        0u64
    } else if 64 * g[n - 1] >= t {
        hash_upto(g, t, n - 1) | (1u64 << ((n - 1) as u64))
    } else {
        hash_upto(g, t, n - 1)
    }
}

/// The 64-bit average hash of 64 greyscale samples.
pub open spec fn hash_spec(g: Seq<u8>) -> u64 {
    hash_upto(g, grey_total(g, 64), 64)
}

/// Sum of the first `n` samples of colour channel `c` (0, 1 or 2) in a
/// 192-byte sample block.
pub open spec fn chan_sum(lr: Seq<u8>, c: int, n: int) -> int
    decreases n,
{
    if n <= 0 {
        0
    } else {
        chan_sum(lr, c, n - 1) + lr[3 * (n - 1) + c]
    }
}

/// Sum over the first `n` samples of channel `c` of the squared deviation
/// from the channel mean, scaled by 64 to stay in integers: the terms are
/// (64 * x - s)^2 where `s` is the channel total. Over all 64 samples the
/// sum equals 262144 times the channel's variance, so its square root is
/// 512 times the channel's standard deviation.
pub open spec fn chan_dev_sq(lr: Seq<u8>, c: int, s: int, n: int) -> int
    decreases n,
{
    if n <= 0 {
        0
    } else {
        chan_dev_sq(lr, c, s, n - 1) + (64 * lr[3 * (n - 1) + c] - s) * (64 * lr[3 * (n - 1) + c]
            - s)
    }
}

/// 262144 times the variance of colour channel `c`; its square root is
/// 512 times the channel's standard deviation.
pub open spec fn chan_scaled_var(lr: Seq<u8>, c: int) -> int {
    chan_dev_sq(lr, c, chan_sum(lr, c, 64), 64)
}

/// `r` is the integer square root of `n` rounded down.
pub open spec fn is_floor_sqrt(n: int, r: int) -> bool {
    0 <= r && r * r <= n && n < (r + 1) * (r + 1)
}

/// The integer square root of `n`, rounded down.
pub open spec fn floor_sqrt(n: int) -> int {
    choose|r: int| is_floor_sqrt(n, r)
}

/// Every non-negative integer has a floor square root.
pub proof fn lemma_floor_sqrt_exists(n: int)
    requires
        n >= 0,
    ensures
        is_floor_sqrt(n, floor_sqrt(n)),
    decreases n,
{
    if n == 0 {
        assert(is_floor_sqrt(0, 0));
    } else {
        lemma_floor_sqrt_exists(n - 1);
        let r0 = floor_sqrt(n - 1);
        if (r0 + 1) * (r0 + 1) <= n {
            assert(is_floor_sqrt(n, r0 + 1)) by (nonlinear_arith)
                requires
                    is_floor_sqrt(n - 1, r0),
                    (r0 + 1) * (r0 + 1) <= n,
            ;
        } else {
            assert(is_floor_sqrt(n, r0));
        }
    }
}

/// The floor square root is unique.
pub proof fn lemma_floor_sqrt_unique(n: int, r: int)
    requires
        is_floor_sqrt(n, r),
    ensures
        r == floor_sqrt(n),
{
    lemma_floor_sqrt_exists(n);
    let r2 = floor_sqrt(n);
    assert(r == r2) by (nonlinear_arith)
        requires
            is_floor_sqrt(n, r),
            is_floor_sqrt(n, r2),
    ;
}

/// The average per-channel standard deviation of a 192-byte sample block,
/// in thousandths, rounded down channel by channel. Each channel
/// contributes floor(sqrt(chan_scaled_var * 1000000)), which is the
/// channel's standard deviation scaled by 512000; dividing the sum of the
/// three by 1536 = 3 * 512 averages the channels and leaves thousandths.
pub open spec fn std_dev_milli_spec(lr: Seq<u8>) -> int {
    (floor_sqrt(chan_scaled_var(lr, 0) * 1000000) + floor_sqrt(chan_scaled_var(lr, 1) * 1000000)
        + floor_sqrt(chan_scaled_var(lr, 2) * 1000000)) / 1536
}

/// The integer square root, rounded down, by bisection.
fn isqrt(n: u64) -> (r: u64)
    requires
        n < 0x40_0000_0000_0000,
    ensures
        is_floor_sqrt(n as int, r as int),
        r == floor_sqrt(n as int),
        r < 0x800_0000,
{
    let mut lo: u64 = 0;
    let mut hi: u64 = 0x800_0000;
    assert((0x800_0000int) * (0x800_0000int) == 0x40_0000_0000_0000) by (nonlinear_arith);
    while hi - lo > 1
        invariant
            lo < hi <= 0x800_0000,
            (lo as int) * (lo as int) <= n,
            (hi as int) * (hi as int) > n,
        decreases hi - lo,
    {
        let mid: u64 = lo + (hi - lo) / 2;
        proof {
            assert((mid as int) * (mid as int) <= 0x800_0000 * 0x800_0000) by (nonlinear_arith)
                requires
                    0 <= mid <= 0x800_0000,
            ;
        }
        if mid * mid <= n {
            lo = mid;
        } else {
            hi = mid;
        }
    }
    proof {
        lemma_floor_sqrt_unique(n as int, lo as int);
    }
    lo
}

/// The square of an absolute value is the square of the value itself.
proof fn lemma_abs_square(a: int, d: int)
    requires
        d == if a >= 0 {
            a
        } else {
            -a
        },
    ensures
        d * d == a * a,
{
    assert(d * d == a * a) by (nonlinear_arith)
        requires
            d == a || d == -a,
    ;
}

impl ImageHashAV {
    /// For each colour channel, compute the standard deviation of the 64
    /// sample values, then store the average of the three channels in
    /// `std_dev`, in thousandths.
    pub fn calc_std_dev_colour_hash(&mut self)
        requires
            old(self).low_res@.len() == 192,
        ensures
            final(self).std_dev == std_dev_milli_spec(old(self).low_res@),
            final(self).dupe_group == old(self).dupe_group,
            final(self).grey_hash == old(self).grey_hash,
            final(self).low_res == old(self).low_res,
            final(self).width == old(self).width,
            final(self).height == old(self).height,
            final(self).file_size == old(self).file_size,
            final(self).num_pixels == old(self).num_pixels,
            final(self).image_path == old(self).image_path,
    {
        let mut r_sum: u64 = 0;
        let mut g_sum: u64 = 0;
        let mut b_sum: u64 = 0;
        let mut i: usize = 0;
        while i < 64
            invariant
                i <= 64,
                self.low_res@.len() == 192,
                r_sum == chan_sum(self.low_res@, 0, i as int),
                g_sum == chan_sum(self.low_res@, 1, i as int),
                b_sum == chan_sum(self.low_res@, 2, i as int),
                r_sum <= 255 * i,
                g_sum <= 255 * i,
                b_sum <= 255 * i,
            decreases 64 - i,
        {
            r_sum = r_sum + (self.low_res[3 * i] as u64);
            g_sum = g_sum + (self.low_res[3 * i + 1] as u64);
            b_sum = b_sum + (self.low_res[3 * i + 2] as u64);
            i = i + 1;
        }
        let r_var = self.chan_scaled_var_exec(0, r_sum);
        let g_var = self.chan_scaled_var_exec(1, g_sum);
        let b_var = self.chan_scaled_var_exec(2, b_sum);
        let r_sqrt = isqrt(r_var * 1000000);
        let g_sqrt = isqrt(g_var * 1000000);
        let b_sqrt = isqrt(b_var * 1000000);
        self.std_dev = (r_sqrt + g_sqrt + b_sqrt) / 1536;
    }

    /// 262144 times the variance of one colour channel, given the
    /// channel's sample total.
    fn chan_scaled_var_exec(&self, c: usize, s: u64) -> (r: u64)
        requires
            self.low_res@.len() == 192,
            c < 3,
            s == chan_sum(self.low_res@, c as int, 64),
            s <= 255 * 64,
        ensures
            r == chan_scaled_var(self.low_res@, c as int),
            r <= 64 * 16320 * 16320,
    {
        let mut acc: u64 = 0;
        let mut i: usize = 0;
        while i < 64
            invariant
                i <= 64,
                self.low_res@.len() == 192,
                c < 3,
                s == chan_sum(self.low_res@, c as int, 64),
                s <= 16320,
                acc == chan_dev_sq(self.low_res@, c as int, s as int, i as int),
                acc <= i * 16320 * 16320,
            decreases 64 - i,
        {
            let x: u64 = 64 * (self.low_res[3 * i + c] as u64);
            let d: u64 = if x >= s {
                x - s
            } else {
                s - x
            };
            proof {
                lemma_abs_square(64 * self.low_res@[3 * (i as int) + (c as int)] - s, d as int);
                assert(d * d <= 16320 * 16320) by (nonlinear_arith)
                    requires
                        0 <= d <= 16320,
                ;
                assert(acc + d * d <= (i + 1) * 16320 * 16320) by (nonlinear_arith)
                    requires
                        acc <= i * 16320 * 16320,
                        d * d <= 16320 * 16320,
                ;
            }
            acc = acc + d * d;
            i = i + 1;
        }
        acc
    }

    /// The 64-bit average hash of 64 greyscale samples: bit `i` is set
    /// when sample `i` is at least the mean of the samples.
    pub fn compute_grey_hash(luma: &Vec<u8>) -> (r: u64)
        requires
            luma@.len() == 64,
        ensures
            r == hash_spec(luma@),
    {
        let mut total: u64 = 0;
        let mut i: usize = 0;
        while i < 64
            invariant
                i <= 64,
                luma@.len() == 64,
                total == grey_total(luma@, i as int),
                total <= 255 * i,
            decreases 64 - i,
        {
            total = total + (luma[i] as u64);
            i = i + 1;
        }
        let mut hash: u64 = 0;
        let mut bit: usize = 0;
        while bit < 64
            invariant
                bit <= 64,
                luma@.len() == 64,
                total == grey_total(luma@, 64),
                hash == hash_upto(luma@, total as int, bit as int),
            decreases 64 - bit,
        {
            if 64 * (luma[bit] as u64) >= total {
                hash = hash | (1u64 << (bit as u64));
            }
            bit = bit + 1;
        }
        hash
    }
}

/// What decoding and resampling an image file comes to: `None` when the
/// bytes cannot be decoded as an image, otherwise the original width and
/// height, the 8x8 RGB resample (192 bytes in raster order) and the 8x8
/// greyscale resample (64 bytes). Decoding is a function of the file bytes
/// alone.
pub uninterp spec fn resample_of(bytes: Seq<u8>) -> Option<(u32, u32, Seq<u8>, Seq<u8>)>;

/// Relies on the image crate: `ImageReader::with_guessed_format` guesses
/// the encoding from content, `decode` decodes it,
/// `DynamicImage::resize_exact` resamples to exactly 8x8 with the Gaussian
/// filter, `grayscale` converts to luma, and `GenericImageView::pixels`
/// reads the samples out in raster order. All of it depends on the bytes
/// alone; the result is named `resample_of`.
#[verifier::external_body]
fn decode_and_resample(bytes: &[u8]) -> (r: Option<(u32, u32, Vec<u8>, Vec<u8>)>)
    ensures
        match r {
            Some(t) => resample_of(bytes@) matches Some(m) && t.0 == m.0 && t.1 == m.1 && t.2@
                == m.2 && t.3@ == m.3,
            None => resample_of(bytes@) is None,
        },
{
    let reader = image::ImageReader::new(std::io::Cursor::new(bytes)).with_guessed_format().ok()?;
    let img = reader.decode().ok()?;
    let (w, h) = img.dimensions();
    let scaled = img.resize_exact(8, 8, image::imageops::FilterType::Gaussian);
    let grey = scaled.grayscale();
    let rgb: Vec<u8> = scaled.pixels().flat_map(|p| [p.2[0], p.2[1], p.2[2]]).collect();
    let luma: Vec<u8> = grey.pixels().map(|p| p.2[0]).collect();
    Some((w, h, rgb, luma))
}

/// The bytes are not decodable as an image.
pub open spec fn decode_failed(bytes: Seq<u8>) -> bool {
    resample_of(bytes) is None
}

/// The image decoded, but one of its dimensions is below the absolute
/// floor of 16 pixels or below the caller-supplied minimum.
pub open spec fn image_too_small(bytes: Seq<u8>, min_width: u32, min_height: u32) -> bool {
    resample_of(bytes) matches Some(m) && (m.0 < 16 || m.1 < 16 || m.0 < min_width || m.1
        < min_height)
}

/// The image decoded and is large enough, but the resampler did not hand
/// back exactly 8x8 samples; treated as a decode failure.
pub open spec fn resample_bad(bytes: Seq<u8>, min_width: u32, min_height: u32) -> bool {
    &&& resample_of(bytes) matches Some(m)
    &&& !image_too_small(bytes, min_width, min_height)
    &&& (m.2.len() != 192 || m.3.len() != 64)
}

/// Extraction succeeds on these bytes under these minimum dimensions.
pub open spec fn extraction_ok(bytes: Seq<u8>, min_width: u32, min_height: u32) -> bool {
    &&& resample_of(bytes) is Some
    &&& !image_too_small(bytes, min_width, min_height)
    &&& !resample_bad(bytes, min_width, min_height)
}

/// The fingerprint `h` is exactly what extraction yields from these bytes,
/// this file size and this source path: every field is a function of them.
pub open spec fn matches_extraction(
    h: ImageHashAV,
    bytes: Seq<u8>,
    file_size: u64,
    path: ImagePath,
) -> bool {
    resample_of(bytes) matches Some(m) && {
        &&& h.width == m.0
        &&& h.height == m.1
        &&& h.num_pixels == (m.0 as int) * (m.1 as int)
        &&& h.file_size == file_size
        &&& h.low_res@ == m.2
        &&& h.grey_hash == hash_spec(m.3)
        &&& h.dupe_group == hash_spec(m.3)
        &&& h.std_dev == std_dev_milli_spec(m.2)
        &&& h.image_path.fpath@ == path.fpath@
        &&& h.image_path.is_compare_dir == path.is_compare_dir
        &&& h.image_path.always_mark_dupe_compare == path.always_mark_dupe_compare
    }
}

/// Determinism of extraction: two fingerprints taken from the same file
/// bytes carry the same perceptual hash, the same colour samples and the
/// same derived statistics, whatever paths or runs they came from.
pub proof fn lemma_extraction_deterministic(
    h1: ImageHashAV,
    h2: ImageHashAV,
    bytes: Seq<u8>,
    file_size: u64,
    p1: ImagePath,
    p2: ImagePath,
)
    requires
        matches_extraction(h1, bytes, file_size, p1),
        matches_extraction(h2, bytes, file_size, p2),
    ensures
        h1.grey_hash == h2.grey_hash,
        h1.dupe_group == h2.dupe_group,
        h1.low_res@ == h2.low_res@,
        h1.std_dev == h2.std_dev,
        h1.width == h2.width,
        h1.height == h2.height,
        h1.num_pixels == h2.num_pixels,
{
}

/// A diagnostic message made of a fixed prefix and the offending path.
fn error_message(prefix: &str, path: &String) -> (r: String)
    ensures
        r@ == prefix@ + path@,
{
    let mut m = prefix.to_owned();
    m.append(path.as_str());
    m
}

impl ImageHashAV {
    /// Fill this fingerprint in from the bytes of one image file.
    ///
    /// Decode failure yields `DecodeFail`; a decodable image below 16
    /// pixels a side, or below the caller's minimum, yields
    /// `ImageTooSmall`; a resample that is not exactly 8x8 yields
    /// `DecodeFail` (a defensive check on the resampler's contract). On
    /// success every field is a function of the bytes, the given file size
    /// and the given path, and `None` is returned.
    pub fn calc_image_hash(
        &mut self,
        image_path: &ImagePath,
        file_bytes: &[u8],
        file_size: u64,
        min_width: u32,
        min_height: u32,
    ) -> (r: Option<MyImageError>)
        ensures
            r is None <==> extraction_ok(file_bytes@, min_width, min_height),
            r is None ==> matches_extraction(
                *final(self),
                file_bytes@,
                file_size,
                *image_path,
            ) && final(self).well_formed(),
            r matches Some(e) ==> {
                &&& (e is DecodeFail <==> decode_failed(file_bytes@) || resample_bad(
                    file_bytes@,
                    min_width,
                    min_height,
                ))
                &&& (e is ImageTooSmall <==> image_too_small(file_bytes@, min_width, min_height))
                &&& !(e is FileError)
            },
    {
        match decode_and_resample(file_bytes) {
            None => Some(
                MyImageError::DecodeFail(
                    error_message("Error: Failed to correctly decode image: ", &image_path.fpath),
                ),
            ),
            Some((width, height, rgb, luma)) => {
                if width < 16 || height < 16 || width < min_width || height < min_height {
                    return Some(
                        MyImageError::ImageTooSmall(
                            error_message(
                                "Warning: Image too small to deduplicate: ",
                                &image_path.fpath,
                            ),
                        ),
                    );
                }
                if rgb.len() != 192 || luma.len() != 64 {
                    return Some(
                        MyImageError::DecodeFail(
                            error_message(
                                "Error: Failed to resize image correctly: ",
                                &image_path.fpath,
                            ),
                        ),
                    );
                }
                self.width = width;
                self.height = height;
                proof {
                    assert((width as int) * (height as int) < 0x1_0000_0000_0000_0000)
                        by (nonlinear_arith)
                        requires
                            width < 0x1_0000_0000,
                            height < 0x1_0000_0000,
                    ;
                }
                self.num_pixels = (width as u64) * (height as u64);
                self.file_size = file_size;
                self.image_path = ImagePath {
                    fpath: image_path.fpath.clone(),
                    is_compare_dir: image_path.is_compare_dir,
                    always_mark_dupe_compare: image_path.always_mark_dupe_compare,
                };
                let hash = Self::compute_grey_hash(&luma);
                self.grey_hash = hash;
                self.dupe_group = hash;
                self.low_res = rgb;
                self.calc_std_dev_colour_hash();
                None
            },
        }
    }

    /// Extract the fingerprint of one image file, given its path and
    /// flags, its bytes and its size on disk. Succeeds exactly when the
    /// bytes decode as an image of at least 16 pixels a side that also
    /// meets the caller's minimum dimensions, and the resample comes back
    /// exactly 8x8.
    pub fn new(
        image_path: &ImagePath,
        file_bytes: &[u8],
        file_size: u64,
        min_width: u32,
        min_height: u32,
    ) -> (r: Result<ImageHashAV, MyImageError>)
        ensures
            r is Ok <==> extraction_ok(file_bytes@, min_width, min_height),
            r matches Ok(h) ==> matches_extraction(h, file_bytes@, file_size, *image_path)
                && h.well_formed(),
            r matches Err(e) ==> {
                &&& (e is DecodeFail <==> decode_failed(file_bytes@) || resample_bad(
                    file_bytes@,
                    min_width,
                    min_height,
                ))
                &&& (e is ImageTooSmall <==> image_too_small(file_bytes@, min_width, min_height))
                &&& !(e is FileError)
            },
    {
        let mut object = ImageHashAV {
            dupe_group: 0,
            grey_hash: 0,
            low_res: Vec::new(),
            width: 0,
            height: 0,
            file_size: 0,
            num_pixels: 0,
            std_dev: 0,
            image_path: ImagePath {
                fpath: String::new(),
                is_compare_dir: false,
                always_mark_dupe_compare: false,
            },
        };
        match object.calc_image_hash(image_path, file_bytes, file_size, min_width, min_height) {
            Some(e) => Err(e),
            None => Ok(object),
        }
    }
}

} // verus!
