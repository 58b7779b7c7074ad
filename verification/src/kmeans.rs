//! Candidate-color sampling: k-means over a rectangular window of the
//! image, seeded k-means++ style (each further seed drawn with
//! probability proportional to its squared distance from the chosen
//! seeds).
use vstd::prelude::*;

use crate::image::Image;
use crate::isl::Color;
use crate::rng::{gen_range_u64, gen_range_usize};

verus! {

/// Whether `c` is one of the pixels of the window at `(sx, sy)` of
/// extent `w`×`h`.
pub open spec fn is_window_pixel(
    img: Seq<Seq<Color>>,
    sx: int,
    sy: int,
    w: int,
    h: int,
    c: Color,
) -> bool {
    exists|dx: int, dy: int|
        0 <= dx < w && 0 <= dy < h && #[trigger] img[sy + dy][sx + dx] == c
}

/// Squared RGBA distance between two displayable colors.
fn sq_color_dist(a: Color, b: Color) -> (r: u64)
    requires
        a.is_valid(),
        b.is_valid(),
    ensures
        r <= 262144,
{
    let dr = (a.r - b.r) as i64;
    let dg = (a.g - b.g) as i64;
    let db = (a.b - b.b) as i64;
    let da = (a.a - b.a) as i64;
    proof {
        crate::similarity::lemma_sq_dist_bounds(a, b);
    }
    (dr * dr + dg * dg + db * db + da * da) as u64
}

/// Up to `n_colors` representative colors of the window at `(sx, sy)`
/// of extent `w`×`h`, by `n_iter` rounds of k-means.  At least one
/// color is always returned, and every returned color is displayable.
pub fn k_means_color_sampling(
    image: &Image,
    n_colors: usize,
    n_iter: usize,
    sx: usize,
    sy: usize,
    w: usize,
    h: usize,
    rng: &mut rand::rngs::ThreadRng,
) -> (r: Vec<Color>)
    requires
        image.wf(),
        1 <= w,
        1 <= h,
        sx + w <= image@[0].len(),
        sy + h <= image@.len(),
        n_iter <= 1000,
    ensures
        1 <= r@.len(),
        r@.len() <= if n_colors >= 1 {
            n_colors as int
        } else {
            1
        },
        forall|i: int| 0 <= i < r@.len() ==> (#[trigger] r@[i]).is_valid(),
        n_iter == 0 ==> forall|i: int|
            0 <= i < r@.len() ==> is_window_pixel(
                image@,
                sx as int,
                sy as int,
                w as int,
                h as int,
                #[trigger] r@[i],
            ),
{
    let mut samples: Vec<Color> = Vec::new();
    let rx = gen_range_usize(rng, sx, sx + w);
    let ry = gen_range_usize(rng, sy, sy + h);
    samples.push(image.pixel(rx, ry));
    proof {
        assert(image@[(ry - sx + sx) as int][rx as int] == image@[ry as int][rx as int]);
        assert(is_window_pixel(
            image@,
            sx as int,
            sy as int,
            w as int,
            h as int,
            samples@[0],
        )) by {
            assert(image@[sy + (ry - sy)][sx + (rx - sx)] == samples@[0]);
        }
    }
    // k-means++ seeding: up to 100 attempts to reach n_colors seeds
    let mut attempt: usize = 0;
    while attempt < 100
        invariant
            image.wf(),
            1 <= w,
            1 <= h,
            sx + w <= image@[0].len(),
            sy + h <= image@.len(),
            1 <= samples@.len(),
            samples@.len() <= if n_colors >= 1 {
                n_colors as int
            } else {
                1
            },
            forall|i: int| 0 <= i < samples@.len() ==> (#[trigger] samples@[i]).is_valid(),
            forall|i: int|
                0 <= i < samples@.len() ==> is_window_pixel(
                    image@,
                    sx as int,
                    sy as int,
                    w as int,
                    h as int,
                    #[trigger] samples@[i],
                ),
        decreases 100 - attempt,
    {
        if samples.len() >= n_colors {
            break ;
        }
        // squared distance from each window pixel to its nearest seed
        let mut nsd: Vec<u64> = Vec::new();
        let mut dy: usize = 0;
        while dy < h
            invariant
                dy <= h,
                image.wf(),
                sx + w <= image@[0].len(),
                sy + h <= image@.len(),
                1 <= samples@.len(),
                forall|i: int| 0 <= i < samples@.len() ==> (#[trigger] samples@[i]).is_valid(),
                nsd@.len() == dy * w,
                forall|i: int| 0 <= i < nsd@.len() ==> (#[trigger] nsd@[i]) <= 262144,
            decreases h - dy,
        {
            let mut dx: usize = 0;
            while dx < w
                invariant
                    dx <= w,
                    dy < h,
                    image.wf(),
                    sx + w <= image@[0].len(),
                    sy + h <= image@.len(),
                    1 <= samples@.len(),
                    forall|i: int| 0 <= i < samples@.len() ==> (#[trigger] samples@[i]).is_valid(),
                    nsd@.len() == dy * w + dx,
                    forall|i: int| 0 <= i < nsd@.len() ==> (#[trigger] nsd@[i]) <= 262144,
                decreases w - dx,
            {
                let pixel = image.pixel(sx + dx, sy + dy);
                let mut min_diff: u64 = 262144;
                let mut k: usize = 0;
                while k < samples.len()
                    invariant
                        k <= samples@.len(),
                        min_diff <= 262144,
                        image.wf(),
                        pixel.is_valid(),
                        forall|i: int| 0 <= i < samples@.len() ==> (
                        #[trigger] samples@[i]).is_valid(),
                    decreases samples@.len() - k,
                {
                    let d = sq_color_dist(samples[k], pixel);
                    if d < min_diff {
                        min_diff = d;
                    }
                    k = k + 1;
                }
                nsd.push(min_diff);
                dx = dx + 1;
            }
            proof {
                assert((dy + 1) * w == dy * w + w) by (nonlinear_arith);
            }
            dy = dy + 1;
        }
        // draw a pixel with probability proportional to its distance
        let mut d_sum: u64 = 0;
        let mut t: usize = 0;
        proof {
            assert(h * w <= crate::image::MAX_IMAGE_AREA) by (nonlinear_arith)
                requires
                    1 <= w <= image@[0].len(),
                    1 <= h <= image@.len(),
                    image@.len() * image@[0].len() <= crate::image::MAX_IMAGE_AREA,
            ;
        }
        while t < nsd.len()
            invariant
                t <= nsd@.len(),
                nsd@.len() <= crate::image::MAX_IMAGE_AREA,
                forall|i: int| 0 <= i < nsd@.len() ==> (#[trigger] nsd@[i]) <= 262144,
                d_sum <= t * 262144,
            decreases nsd@.len() - t,
        {
            proof {
                assert((t + 1) * 262144 == t * 262144 + 262144) by (nonlinear_arith);
                assert(t * 262144 <= crate::image::MAX_IMAGE_AREA * 262144int) by (nonlinear_arith)
                    requires
                        0 <= t <= crate::image::MAX_IMAGE_AREA,
                ;
            }
            d_sum = d_sum + nsd[t];
            t = t + 1;
        }
        if d_sum == 0 {
            break ;
        }
        let threshold = gen_range_u64(rng, 0, d_sum);
        let mut cum: u64 = 0;
        let mut picked: usize = 0;
        let mut found = false;
        let mut t: usize = 0;
        while t < nsd.len()
            invariant
                t <= nsd@.len(),
                nsd@.len() <= crate::image::MAX_IMAGE_AREA,
                forall|i: int| 0 <= i < nsd@.len() ==> (#[trigger] nsd@[i]) <= 262144,
                cum <= t * 262144,
                found ==> picked < nsd@.len(),
            decreases nsd@.len() - t,
        {
            proof {
                assert((t + 1) * 262144 == t * 262144 + 262144) by (nonlinear_arith);
                assert(t * 262144 <= crate::image::MAX_IMAGE_AREA * 262144int) by (nonlinear_arith)
                    requires
                        0 <= t <= crate::image::MAX_IMAGE_AREA,
                ;
            }
            cum = cum + nsd[t];
            if !found && threshold < cum {
                picked = t;
                found = true;
            }
            t = t + 1;
        }
        if found && nsd.len() == h * w {
            let py = picked / w;
            let px = picked % w;
            proof {
                vstd::arithmetic::div_mod::lemma_fundamental_div_mod(picked as int, w as int);
                vstd::arithmetic::div_mod::lemma_mod_bound(picked as int, w as int);
                assert(picked < h * w);
                assert(picked as int / (w as int) < h as int) by (nonlinear_arith)
                    requires
                        picked as int == (w as int) * (picked as int / (w as int)) + (picked as int
                            % (w as int)),
                        0 <= picked as int % (w as int) < w as int,
                        picked < h * w,
                        1 <= w,
                        1 <= h,
                ;
            }
            samples.push(image.pixel(sx + px, sy + py));
            proof {
                assert(is_window_pixel(
                    image@,
                    sx as int,
                    sy as int,
                    w as int,
                    h as int,
                    samples@[samples@.len() - 1],
                )) by {
                    assert(image@[sy + py as int][sx + px as int] == samples@[samples@.len() - 1]);
                }
            }
        }
        attempt = attempt + 1;
    }
    // Lloyd iteration: assign pixels to nearest centers, re-center
    let mut it: usize = 0;
    while it < n_iter
        invariant
            image.wf(),
            1 <= w,
            1 <= h,
            sx + w <= image@[0].len(),
            sy + h <= image@.len(),
            1 <= samples@.len(),
            samples@.len() <= if n_colors >= 1 {
                n_colors as int
            } else {
                1
            },
            forall|i: int| 0 <= i < samples@.len() ==> (#[trigger] samples@[i]).is_valid(),
            n_iter == 0 ==> forall|i: int|
                0 <= i < samples@.len() ==> is_window_pixel(
                    image@,
                    sx as int,
                    sy as int,
                    w as int,
                    h as int,
                    #[trigger] samples@[i],
                ),
        decreases n_iter - it,
    {
        let n = samples.len();
        let mut sum_r: Vec<u64> = Vec::new();
        let mut sum_g: Vec<u64> = Vec::new();
        let mut sum_b: Vec<u64> = Vec::new();
        let mut sum_a: Vec<u64> = Vec::new();
        let mut count: Vec<u64> = Vec::new();
        let mut k: usize = 0;
        while k < n
            invariant
                k <= n,
                sum_r@.len() == k,
                sum_g@.len() == k,
                sum_b@.len() == k,
                sum_a@.len() == k,
                count@.len() == k,
                forall|i: int| 0 <= i < k ==> (#[trigger] sum_r@[i]) == 0,
                forall|i: int| 0 <= i < k ==> (#[trigger] sum_g@[i]) == 0,
                forall|i: int| 0 <= i < k ==> (#[trigger] sum_b@[i]) == 0,
                forall|i: int| 0 <= i < k ==> (#[trigger] sum_a@[i]) == 0,
                forall|i: int| 0 <= i < k ==> (#[trigger] count@[i]) == 0,
            decreases n - k,
        {
            sum_r.push(0);
            sum_g.push(0);
            sum_b.push(0);
            sum_a.push(0);
            count.push(0);
            k = k + 1;
        }
        let mut dy: usize = 0;
        while dy < h
            invariant
                dy <= h,
                image.wf(),
                1 <= w,
                1 <= h,
                sx + w <= image@[0].len(),
                sy + h <= image@.len(),
                n == samples@.len(),
                1 <= n,
                forall|i: int| 0 <= i < samples@.len() ==> (#[trigger] samples@[i]).is_valid(),
                sum_r@.len() == n,
                sum_g@.len() == n,
                sum_b@.len() == n,
                sum_a@.len() == n,
                count@.len() == n,
                forall|i: int| 0 <= i < n ==> (#[trigger] count@[i]) <= dy * w,
                forall|i: int| 0 <= i < n ==> (#[trigger] sum_r@[i]) <= 255 * (count@[i] as int),
                forall|i: int| 0 <= i < n ==> (#[trigger] sum_g@[i]) <= 255 * (count@[i] as int),
                forall|i: int| 0 <= i < n ==> (#[trigger] sum_b@[i]) <= 255 * (count@[i] as int),
                forall|i: int| 0 <= i < n ==> (#[trigger] sum_a@[i]) <= 255 * (count@[i] as int),
                dy * w <= crate::image::MAX_IMAGE_AREA,
            decreases h - dy,
        {
            proof {
                assert((dy + 1) * w <= h * w) by (nonlinear_arith)
                    requires
                        dy + 1 <= h,
                        1 <= w,
                ;
                assert(h * w <= crate::image::MAX_IMAGE_AREA) by (nonlinear_arith)
                    requires
                        1 <= w <= image@[0].len(),
                        1 <= h <= image@.len(),
                        image@.len() * image@[0].len() <= crate::image::MAX_IMAGE_AREA,
                ;
                assert((dy + 1) * w == dy * w + w) by (nonlinear_arith);
            }
            let mut dx: usize = 0;
            while dx < w
                invariant
                    dx <= w,
                    dy < h,
                    image.wf(),
                    1 <= w,
                    1 <= h,
                    sx + w <= image@[0].len(),
                    sy + h <= image@.len(),
                    n == samples@.len(),
                    1 <= n,
                    forall|i: int| 0 <= i < samples@.len() ==> (#[trigger] samples@[i]).is_valid(),
                    sum_r@.len() == n,
                    sum_g@.len() == n,
                    sum_b@.len() == n,
                    sum_a@.len() == n,
                    count@.len() == n,
                    forall|i: int| 0 <= i < n ==> (#[trigger] count@[i]) <= dy * w + dx,
                    forall|i: int| 0 <= i < n ==> (#[trigger] sum_r@[i]) <= 255 * (count@[i] as int),
                    forall|i: int| 0 <= i < n ==> (#[trigger] sum_g@[i]) <= 255 * (count@[i] as int),
                    forall|i: int| 0 <= i < n ==> (#[trigger] sum_b@[i]) <= 255 * (count@[i] as int),
                    forall|i: int| 0 <= i < n ==> (#[trigger] sum_a@[i]) <= 255 * (count@[i] as int),
                    dy * w + dx <= crate::image::MAX_IMAGE_AREA,
                    dy * w + w <= crate::image::MAX_IMAGE_AREA,
                decreases w - dx,
            {
                let pixel = image.pixel(sx + dx, sy + dy);
                let mut best: usize = 0;
                let mut min_diff: u64 = 262145;
                let mut k: usize = 0;
                while k < n
                    invariant
                        k <= n,
                        n == samples@.len(),
                        1 <= n,
                        best < n,
                        pixel.is_valid(),
                        image.wf(),
                        forall|i: int| 0 <= i < samples@.len() ==> (
                        #[trigger] samples@[i]).is_valid(),
                    decreases n - k,
                {
                    let d = sq_color_dist(samples[k], pixel);
                    if d < min_diff {
                        min_diff = d;
                        best = k;
                    }
                    k = k + 1;
                }
                proof {
                    assert(count@[best as int] <= crate::image::MAX_IMAGE_AREA);
                    assert(255 * (count@[best as int] as int) <= 255
                        * crate::image::MAX_IMAGE_AREA as int) by (nonlinear_arith)
                        requires
                            0 <= count@[best as int] <= crate::image::MAX_IMAGE_AREA,
                    ;
                    assert(255 * ((count@[best as int] + 1) as int) == 255 * (count@[
                        best as int] as int) + 255) by (nonlinear_arith);
                }
                let c0 = count[best];
                count.set(best, c0 + 1);
                let v = sum_r[best];
                sum_r.set(best, v + pixel.r as u64);
                let v = sum_g[best];
                sum_g.set(best, v + pixel.g as u64);
                let v = sum_b[best];
                sum_b.set(best, v + pixel.b as u64);
                let v = sum_a[best];
                sum_a.set(best, v + pixel.a as u64);
                dx = dx + 1;
            }
            proof {
                assert((dy + 1) * w == dy * w + w) by (nonlinear_arith);
                assert((dy + 1) * w <= h * w) by (nonlinear_arith)
                    requires
                        dy + 1 <= h,
                        1 <= w,
                ;
                assert(h * w <= crate::image::MAX_IMAGE_AREA) by (nonlinear_arith)
                    requires
                        1 <= w <= image@[0].len(),
                        1 <= h <= image@.len(),
                        image@.len() * image@[0].len() <= crate::image::MAX_IMAGE_AREA,
                ;
            }
            dy = dy + 1;
        }
        // replace each center with the rounded mean of its cluster
        let mut k: usize = 0;
        let mut next: Vec<Color> = Vec::new();
        while k < n
            invariant
                k <= n,
                n == samples@.len(),
                next@.len() == k,
                sum_r@.len() == n,
                sum_g@.len() == n,
                sum_b@.len() == n,
                sum_a@.len() == n,
                count@.len() == n,
                forall|i: int| 0 <= i < n ==> (#[trigger] count@[i]) <= crate::image::MAX_IMAGE_AREA,
                forall|i: int| 0 <= i < n ==> (#[trigger] sum_r@[i]) <= 255 * (count@[i] as int),
                forall|i: int| 0 <= i < n ==> (#[trigger] sum_g@[i]) <= 255 * (count@[i] as int),
                forall|i: int| 0 <= i < n ==> (#[trigger] sum_b@[i]) <= 255 * (count@[i] as int),
                forall|i: int| 0 <= i < n ==> (#[trigger] sum_a@[i]) <= 255 * (count@[i] as int),
                forall|i: int| 0 <= i < samples@.len() ==> (#[trigger] samples@[i]).is_valid(),
                forall|i: int| 0 <= i < k ==> (#[trigger] next@[i]).is_valid(),
            decreases n - k,
        {
            if count[k] == 0 {
                next.push(samples[k]);
            } else {
                let c = count[k];
                let cr = mean_channel(sum_r[k], c);
                let cg = mean_channel(sum_g[k], c);
                let cb = mean_channel(sum_b[k], c);
                let ca = mean_channel(sum_a[k], c);
                next.push(Color { r: cr, g: cg, b: cb, a: ca });
            }
            k = k + 1;
        }
        samples = next;
        it = it + 1;
    }
    samples
}

/// `sum / n` rounded to the nearest integer; a mean of channel values
/// in `0..=255` stays in that range.
fn mean_channel(sum: u64, n: u64) -> (r: i32)
    requires
        1 <= n <= crate::image::MAX_IMAGE_AREA,
        sum <= 255 * n,
    ensures
        0 <= r <= 255,
{
    let r = (2 * sum + n) / (2 * n);
    proof {
        assert((2 * sum + n) as int <= (511 * n) as int);
        vstd::arithmetic::div_mod::lemma_div_is_ordered(
            (2 * sum + n) as int,
            (511 * n) as int,
            (2 * n) as int,
        );
        assert(511 * n == 255 * (2 * n) + n);
        vstd::arithmetic::div_mod::lemma_div_multiples_vanish_fancy(
            255,
            n as int,
            (2 * n) as int,
        );
    }
    r as i32
}

} // verus!
