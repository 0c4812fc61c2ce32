//! The wallpaper analyzer: a colorfulness statistic that picks the
//! palette variant, and a resampled-luminance test that picks the
//! mode. Pixels are 8-bit RGB triples, interleaved.
//!
//! Colorfulness is sqrt(s_rg^2 + s_yb^2) + 0.3 * sqrt(m_rg^2 + m_yb^2)
//! over the opponent channels rg = |R-G| and yb = |(R+G)/2 - B|, where
//! m is the mean and s the population standard deviation. The
//! comparisons against the thresholds 10 and 20 are decided exactly in
//! integers: with doubled channels (a = 2|R-G|, b = |R+G-2B|), sums
//! Sa, Sb and square sums Qa, Qb over n pixels,
//! colorfulness < t  iff  10*sqrt(NA) + 3*sqrt(NB) < 20*n*t
//! for NA = n*(Qa+Qb) - Sa^2 - Sb^2 and NB = Sa^2 + Sb^2, and that
//! inequality of square roots is decided by repeated squaring.

use vstd::prelude::*;
use crate::model::Mode;
use crate::model::Variant;

verus! {

/// Whether one pixel is gray: equal red, green and blue bytes.
pub open spec fn gray_pixel(d: Seq<u8>, i: int) -> bool {
    d[3 * i] == d[3 * i + 1] && d[3 * i + 1] == d[3 * i + 2]
}

pub open spec fn abs_diff(x: int, y: int) -> int {
    if x >= y {
        x - y
    } else {
        y - x
    }
}

/// Twice the red-green opponent value of one pixel.
pub open spec fn rg2(d: Seq<u8>, i: int) -> int {
    2 * abs_diff(d[3 * i] as int, d[3 * i + 1] as int)
}

/// Twice the yellow-blue opponent value of one pixel.
pub open spec fn yb2(d: Seq<u8>, i: int) -> int {
    abs_diff(d[3 * i] as int + d[3 * i + 1] as int, 2 * (d[3 * i + 2] as int))
}

pub open spec fn sum_rg2(d: Seq<u8>, n: int) -> int
    decreases n,
{
    if n <= 0 {
        0
    } else {
        sum_rg2(d, n - 1) + rg2(d, n - 1)
    }
}

pub open spec fn sum_yb2(d: Seq<u8>, n: int) -> int
    decreases n,
{
    if n <= 0 {
        0
    } else {
        sum_yb2(d, n - 1) + yb2(d, n - 1)
    }
}

pub open spec fn sumsq_rg2(d: Seq<u8>, n: int) -> int
    decreases n,
{
    if n <= 0 {
        0
    } else {
        sumsq_rg2(d, n - 1) + rg2(d, n - 1) * rg2(d, n - 1)
    }
}

pub open spec fn sumsq_yb2(d: Seq<u8>, n: int) -> int
    decreases n,
{
    if n <= 0 {
        0
    } else {
        sumsq_yb2(d, n - 1) + yb2(d, n - 1) * yb2(d, n - 1)
    }
}

/// 4*n^2 times the summed variance of the opponent channels.
pub open spec fn spec_na(d: Seq<u8>, n: int) -> int {
    n * (sumsq_rg2(d, n) + sumsq_yb2(d, n)) - sum_rg2(d, n) * sum_rg2(d, n) - sum_yb2(d, n)
        * sum_yb2(d, n)
}

/// 4*n^2 times the summed squared mean of the opponent channels.
pub open spec fn spec_nb(d: Seq<u8>, n: int) -> int {
    sum_rg2(d, n) * sum_rg2(d, n) + sum_yb2(d, n) * sum_yb2(d, n)
}

/// Whether 10*sqrt(na) + 3*sqrt(nb) < 20*n*t, decided by squaring.
pub open spec fn cf_lt_nums(na: int, nb: int, n: int, t: int) -> bool {
    let u = 100 * na;
    let v = 9 * nb;
    let tt = 20 * n * t;
    &&& tt > 0
    &&& u + v < tt * tt
    &&& 4 * u * v < (tt * tt - u - v) * (tt * tt - u - v)
}

/// Whether the image's colorfulness is below the threshold `t`.
pub open spec fn cf_lt(d: Seq<u8>, n: int, t: int) -> bool {
    cf_lt_nums(spec_na(d, n), spec_nb(d, n), n, t)
}

/// The variant the analyzer picks: neutral below 10, content below
/// 20, tonalspot from 20 up.
pub open spec fn spec_variant_of(d: Seq<u8>, n: int) -> Variant {
    if cf_lt(d, n, 10) {
        Variant::Neutral
    } else if cf_lt(d, n, 20) {
        Variant::Content
    } else {
        Variant::Tonalspot
    }
}

/// The luminance test: Y = 0.2126 R + 0.7152 G + 0.0722 B > 155,
/// scaled by 10000 to stay in integers.
pub open spec fn is_light(r: u8, g: u8, b: u8) -> bool {
    2126 * (r as int) + 7152 * (g as int) + 722 * (b as int) > 1550000
}

/// The mode a resampled pixel denotes.
pub open spec fn spec_mode_of_pixel(p: (u8, u8, u8)) -> Mode {
    if is_light(p.0, p.1, p.2) {
        Mode::Light
    } else {
        Mode::Dark
    }
}

/// What the Lanczos downscale of an image to a single pixel returns:
/// a pure function of the dimensions and the pixel bytes.
pub uninterp spec fn resampled_pixel(width: int, height: int, data: Seq<u8>) -> (u8, u8, u8);

/// Relies on image::imageops::resize with FilterType::Lanczos3 to
/// shrink the image to one pixel; the result depends on the
/// dimensions and pixel bytes alone. The kernel goes through the
/// platform's floating-point routines, so the value is fixed for a
/// given build; no contract here compares results across builds.
#[verifier::external_body]
fn resample_to_point(width: u32, height: u32, data: &Vec<u8>) -> (r: (u8, u8, u8))
    requires
        width >= 1,
        height >= 1,
        data@.len() == 3 * (width as int) * (height as int),
    ensures
        r == resampled_pixel(width as int, height as int, data@),
{
    let img: image::RgbImage = image::ImageBuffer::from_raw(width, height, data.clone()).unwrap();
    let small = image::imageops::resize(&img, 1, 1, image::imageops::FilterType::Lanczos3);
    let p = small.get_pixel(0, 0);
    (p[0], p[1], p[2])
}

/// Picks the mode from a resampled pixel's luminance.
pub fn mode_for_luminance(r: u8, g: u8, b: u8) -> (m: Mode)
    ensures
        m == Mode::Light <==> is_light(r, g, b),
        m == Mode::Light || m == Mode::Dark,
{
    let y: u32 = 2126 * (r as u32) + 7152 * (g as u32) + 722 * (b as u32);
    if y > 1550000 {
        Mode::Light
    } else {
        Mode::Dark
    }
}

proof fn lemma_pixel_bounds(d: Seq<u8>, i: int)
    requires
        0 <= i,
        3 * i + 3 <= d.len(),
    ensures
        0 <= rg2(d, i) <= 510,
        0 <= yb2(d, i) <= 510,
        rg2(d, i) * rg2(d, i) <= 260100,
        yb2(d, i) * yb2(d, i) <= 260100,
{
    let a = rg2(d, i);
    let b = yb2(d, i);
    assert(a * a <= 260100) by (nonlinear_arith)
        requires
            0 <= a <= 510,
    ;
    assert(b * b <= 260100) by (nonlinear_arith)
        requires
            0 <= b <= 510,
    ;
}

proof fn lemma_sum_bounds(d: Seq<u8>, n: int)
    requires
        0 <= n,
        3 * n <= d.len(),
    ensures
        0 <= sum_rg2(d, n) <= 510 * n,
        0 <= sum_yb2(d, n) <= 510 * n,
        0 <= sumsq_rg2(d, n) <= 260100 * n,
        0 <= sumsq_yb2(d, n) <= 260100 * n,
    decreases n,
{
    if n > 0 {
        lemma_sum_bounds(d, n - 1);
        lemma_pixel_bounds(d, n - 1);
    }
}

/// Computes the opponent-channel sums of an image.
fn channel_sums(n: usize, data: &Vec<u8>) -> (r: (u64, u64, u64, u64))
    requires
        n <= 262144,
        data@.len() == 3 * n,
    ensures
        r.0 as int == sum_rg2(data@, n as int),
        r.1 as int == sum_yb2(data@, n as int),
        r.2 as int == sumsq_rg2(data@, n as int),
        r.3 as int == sumsq_yb2(data@, n as int),
{
    let mut sa: u64 = 0;
    let mut sb: u64 = 0;
    let mut qa: u64 = 0;
    let mut qb: u64 = 0;
    let mut i: usize = 0;
    while i < n
        invariant
            n <= 262144,
            data@.len() == 3 * n,
            i <= n,
            sa as int == sum_rg2(data@, i as int),
            sb as int == sum_yb2(data@, i as int),
            qa as int == sumsq_rg2(data@, i as int),
            qb as int == sumsq_yb2(data@, i as int),
            sa <= 510 * i,
            sb <= 510 * i,
            qa <= 260100 * i,
            qb <= 260100 * i,
        decreases n - i,
    {
        let r = data[3 * i];
        let g = data[3 * i + 1];
        let b = data[3 * i + 2];
        let a: u64 = if r >= g {
            2 * ((r - g) as u64)
        } else {
            2 * ((g - r) as u64)
        };
        let s: u64 = r as u64 + g as u64;
        let bb: u64 = 2 * (b as u64);
        let y: u64 = if s >= bb {
            s - bb
        } else {
            bb - s
        };
        proof {
            assert(a as int == rg2(data@, i as int));
            assert(y as int == yb2(data@, i as int));
            lemma_pixel_bounds(data@, i as int);
        }
        sa = sa + a;
        sb = sb + y;
        qa = qa + a * a;
        qb = qb + y * y;
        i = i + 1;
    }
    (sa, sb, qa, qb)
}

/// Decides whether 10*sqrt(na) + 3*sqrt(nb) < 20*n*t by squaring.
fn cf_decide(na: i128, nb: i128, n: u64, t: u64) -> (r: bool)
    requires
        -40000000000000000 <= na <= 40000000000000000,
        0 <= nb <= 40000000000000000,
        1 <= n <= 262144,
        1 <= t <= 20,
    ensures
        r == cf_lt_nums(na as int, nb as int, n as int, t as int),
{
    let u: i128 = 100 * na;
    let v: i128 = 9 * nb;
    let n20: i128 = 20 * (n as i128);
    proof {
        assert(n20 * (t as i128) <= 104857600 && n20 * (t as i128) >= 1) by (nonlinear_arith)
            requires
                20 <= n20 <= 5242880,
                1 <= t as i128 <= 20,
        ;
    }
    let tn: i128 = n20 * (t as i128);
    proof {
        assert(tn * tn <= 10995116277760000 && tn * tn >= 0) by (nonlinear_arith)
            requires
                1 <= tn <= 104857600,
        ;
    }
    let tt: i128 = tn * tn;
    if !(tn > 0) {
        return false;
    }
    if !(u + v < tt) {
        return false;
    }
    let e: i128 = tt - u - v;
    proof {
        assert(e <= 4370995116277760000 && -4370995116277760000 <= e);
        assert(e * e <= 4370995116277760000 * 4370995116277760000) by (nonlinear_arith)
            requires
                -4370995116277760000 <= e <= 4370995116277760000,
        ;
        assert(4 * u * v <= 5760000000000000000000000000000000000 && -5760000000000000000000000000000000000
            <= 4 * u * v) by (nonlinear_arith)
            requires
                -4000000000000000000 <= u <= 4000000000000000000,
                0 <= v <= 360000000000000000,
        ;
    }
    let lhs: i128 = 4 * u * v;
    let rhs: i128 = e * e;
    lhs < rhs
}

/// Picks the palette variant from the image's colorfulness.
pub fn variant_for_image(width: u32, height: u32, data: &Vec<u8>) -> (r: Variant)
    requires
        1 <= width,
        1 <= height,
        (width as int) * (height as int) <= 262144,
        data@.len() == 3 * (width as int) * (height as int),
    ensures
        r == spec_variant_of(data@, (width as int) * (height as int)),
{
    proof {
        assert((width as int) * (height as int) >= 1) by (nonlinear_arith)
            requires
                1 <= width as int,
                1 <= height as int,
        ;
    }
    proof {
        assert(((width as usize) as int) * ((height as usize) as int) == (width as int) * (
        height as int));
    }
    let n: usize = (width as usize) * (height as usize);
    proof {
        assert(((width as usize) as int) * ((height as usize) as int) == (width as int) * (
        height as int));
        assert(n as int == (width as int) * (height as int));
        assert(3 * (width as int) * (height as int) == 3 * ((width as int) * (height as int)))
            by (nonlinear_arith);
        assert(data@.len() == 3 * (n as int));
    }
    let (sa, sb, qa, qb) = channel_sums(n, data);
    let ghost d = data@;
    let ghost ni = n as int;
    proof {
        lemma_sum_bounds(d, ni);
    }
    let sa1: i128 = sa as i128;
    let sb1: i128 = sb as i128;
    let qa1: i128 = qa as i128;
    let qb1: i128 = qb as i128;
    let n1: i128 = n as i128;
    proof {
        assert(sa1 * sa1 <= 17873935899033600) by (nonlinear_arith)
            requires
                0 <= sa1 <= 133693440,
        ;
        assert(sb1 * sb1 <= 17873935899033600) by (nonlinear_arith)
            requires
                0 <= sb1 <= 133693440,
        ;
        assert(n1 * (qa1 + qb1) <= 35747871798067200 && 0 <= n1 * (qa1 + qb1)) by (nonlinear_arith)
            requires
                1 <= n1 <= 262144,
                0 <= qa1 + qb1 <= 136367308800,
        ;
    }
    let nb: i128 = sa1 * sa1 + sb1 * sb1;
    let na: i128 = n1 * (qa1 + qb1) - nb;
    if cf_decide(na, nb, n as u64, 10) {
        Variant::Neutral
    } else if cf_decide(na, nb, n as u64, 20) {
        Variant::Content
    } else {
        Variant::Tonalspot
    }
}

/// Analyzes an image: the variant from its colorfulness, the mode
/// from the luminance of its one-pixel Lanczos downscale.
pub fn analyze_image(width: u32, height: u32, data: &Vec<u8>) -> (r: (Mode, Variant))
    requires
        1 <= width,
        1 <= height,
        (width as int) * (height as int) <= 262144,
        data@.len() == 3 * (width as int) * (height as int),
    ensures
        r.0 == spec_mode_of_pixel(resampled_pixel(width as int, height as int, data@)),
        r.1 == spec_variant_of(data@, (width as int) * (height as int)),
{
    let variant = variant_for_image(width, height, data);
    let (pr, pg, pb) = resample_to_point(width, height, data);
    let mode = mode_for_luminance(pr, pg, pb);
    (mode, variant)
}

/// A uniform gray image (every pixel has R = G = B) has colorfulness
/// zero, so the analyzer picks the neutral variant.
pub proof fn lemma_uniform_gray_is_neutral(d: Seq<u8>, n: int)
    requires
        1 <= n,
        3 * n <= d.len(),
        forall|i: int| 0 <= i < n ==> #[trigger] gray_pixel(d, i),
    ensures
        spec_variant_of(d, n) == Variant::Neutral,
{
    lemma_gray_sums(d, n);
    let s1 = sum_rg2(d, n);
    let s2 = sum_yb2(d, n);
    let q1 = sumsq_rg2(d, n);
    let q2 = sumsq_yb2(d, n);
    assert(n * (q1 + q2) - s1 * s1 - s2 * s2 == 0 && s1 * s1 + s2 * s2 == 0) by (nonlinear_arith)
        requires
            s1 == 0,
            s2 == 0,
            q1 == 0,
            q2 == 0,
    ;
    assert(spec_na(d, n) == 0);
    assert(spec_nb(d, n) == 0);
    let tt = 20 * n * 10;
    assert(tt > 0) by (nonlinear_arith)
        requires
            n >= 1,
            tt == 20 * n * 10,
    ;
    assert(tt * tt > 0) by (nonlinear_arith)
        requires
            tt > 0,
    ;
    assert((tt * tt - 0 - 0) * (tt * tt - 0 - 0) > 0) by (nonlinear_arith)
        requires
            tt * tt > 0,
    ;
    assert(cf_lt_nums(0, 0, n, 10));
}

proof fn lemma_gray_sums(d: Seq<u8>, n: int)
    requires
        0 <= n,
        3 * n <= d.len(),
        forall|i: int| 0 <= i < n ==> #[trigger] gray_pixel(d, i),
    ensures
        sum_rg2(d, n) == 0,
        sum_yb2(d, n) == 0,
        sumsq_rg2(d, n) == 0,
        sumsq_yb2(d, n) == 0,
    decreases n,
{
    if n > 0 {
        lemma_gray_sums(d, n - 1);
        assert(gray_pixel(d, n - 1));
        assert(rg2(d, n - 1) == 0);
        assert(yb2(d, n - 1) == 0);
    }
}

} // verus!
