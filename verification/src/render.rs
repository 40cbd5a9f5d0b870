//! The serial part of a render: the order in which pixels are scanned and the
//! seed that every pixel and every sample is given before any colour is
//! evaluated.
//!
//! All seeds are fixed by two strictly serial passes. Evaluating a sample then
//! needs nothing but its own seed, so samples may be evaluated in any order and
//! on any number of workers without changing what is drawn.

use vstd::prelude::*;
use crate::util::{draw_byte, rng_by_seed, seeded_byte, upcoming_byte};

verus! {

/// A pixel position together with the seed from which its samples are seeded.
#[derive(Clone, Copy, Debug, PartialEq, Eq, Structural)]
pub struct PixelSeed {
    /// Column, counted from the left edge.
    pub i: u32,
    /// Row, counted from the bottom edge.
    pub j: u32,
    /// Seed of the generator that hands out this pixel's sample seeds.
    pub seed: u8,
}

/// Column of the `k`-th pixel of the scan: rows are walked left to right.
pub open spec fn scan_column(width: u32, k: int) -> int {
    k % (width as int)
}

/// Row of the `k`-th pixel of the scan: the top row comes first.
pub open spec fn scan_row(width: u32, height: u32, k: int) -> int {
    height - 1 - k / (width as int)
}

/// Place in the scan of the pixel in column `i` of row `j`.
pub open spec fn scan_index(width: u32, height: u32, i: int, j: int) -> int {
    (height - 1 - j) * width + i
}

/// The `k`-th entry of the seeding pass over a `width` by `height` image.
pub open spec fn pixel_seed_at(random_seed: u8, width: u32, height: u32, k: int) -> PixelSeed {
    PixelSeed {
        i: scan_column(width, k) as u32,
        j: scan_row(width, height, k) as u32,
        seed: seeded_byte(random_seed, k as nat),
    }
}

/// The whole seeding pass: one entry per pixel, in scan order.
pub open spec fn pixel_plan(random_seed: u8, width: u32, height: u32) -> Seq<PixelSeed> {
    Seq::new((width * height) as nat, |k: int| pixel_seed_at(random_seed, width, height, k))
}

/// The seeds of the first `n_samples` samples of a pixel seeded with `seed`.
pub open spec fn sample_plan(seed: u8, n_samples: u32) -> Seq<u8> {
    Seq::new(n_samples as nat, |s: int| seeded_byte(seed, s as nat))
}

/// The seed of sample `s` of the `k`-th pixel of a render seeded with `random_seed`.
pub open spec fn unit_seed(random_seed: u8, k: nat, s: nat) -> u8 {
    seeded_byte(seeded_byte(random_seed, k), s)
}

proof fn lemma_scan_step(width: u32, height: u32, row: int, i: int)
    requires
        0 <= row < height,
        0 <= i < width,
    ensures
        scan_column(width, row * width + i) == i,
        scan_row(width, height, row * width + i) == height - 1 - row,
        0 <= row * width + i < width * height,
{
    let w = width as int;
    vstd::arithmetic::div_mod::lemma_fundamental_div_mod_converse(row * w + i, w, row, i);
    assert(row * w + i < width * height) by (nonlinear_arith)
        requires
            0 <= row < height,
            0 <= i < w,
            w == width,
    {
        assert((row + 1) * w <= height * w);
    }
    assert(0 <= row * w) by (nonlinear_arith)
        requires
            0 <= row,
            0 <= w,
    ;
}

/// Fixes one seed per pixel by a single serial pass in scan order: rows from
/// the top (`j == height - 1`) down to the bottom, each row from left to right.
pub fn pixel_seeds(random_seed: u8, width: u32, height: u32) -> (plan: Vec<PixelSeed>)
    ensures
        plan@ == pixel_plan(random_seed, width, height),
{
    let mut rng = rng_by_seed(random_seed);
    let mut plan: Vec<PixelSeed> = Vec::new();
    let mut row: u32 = 0;
    while row < height
        invariant
            row <= height,
            plan@.len() == row * width,
            forall|k: int| 0 <= k < plan@.len() ==> plan@[k] == pixel_seed_at(random_seed, width, height, k),
            forall|k: nat| #[trigger] upcoming_byte(rng, k) == seeded_byte(random_seed, plan@.len() + k),
        decreases height - row,
    {
        let j: u32 = height - 1 - row;
        let mut i: u32 = 0;
        while i < width
            invariant
                row < height,
                j == height - 1 - row,
                i <= width,
                plan@.len() == row * width + i,
                forall|k: int| 0 <= k < plan@.len() ==> plan@[k] == pixel_seed_at(random_seed, width, height, k),
                forall|k: nat| #[trigger] upcoming_byte(rng, k) == seeded_byte(random_seed, plan@.len() + k),
            decreases width - i,
        {
            proof {
                lemma_scan_step(width, height, row as int, i as int);
            }
            let ghost before = rng;
            let seed = draw_byte(&mut rng);
            assert forall|k: nat| #[trigger] upcoming_byte(rng, k) == seeded_byte(random_seed, plan@.len() + 1 + k) by {
                assert(upcoming_byte(rng, k) == upcoming_byte(before, k + 1));
            }
            plan.push(PixelSeed { i, j, seed });
            i += 1;
        }
        assert((row + 1) * width == row * width + width) by (nonlinear_arith);
        row += 1;
    }
    assert(height * width == width * height) by (nonlinear_arith);
    assert(plan@ =~= pixel_plan(random_seed, width, height));
    plan
}

/// Fixes one seed per sample of a pixel by a serial pass over a generator made
/// from the pixel's own seed.
pub fn sample_seeds(seed: u8, n_samples: u32) -> (seeds: Vec<u8>)
    ensures
        seeds@ == sample_plan(seed, n_samples),
{
    let mut rng = rng_by_seed(seed);
    let mut seeds: Vec<u8> = Vec::new();
    let mut s: u32 = 0;
    while s < n_samples
        invariant
            s <= n_samples,
            seeds@.len() == s,
            forall|k: int| 0 <= k < s ==> seeds@[k] == seeded_byte(seed, k as nat),
            forall|k: nat| #[trigger] upcoming_byte(rng, k) == seeded_byte(seed, s as nat + k),
        decreases n_samples - s,
    {
        let ghost before = rng;
        let next = draw_byte(&mut rng);
        assert forall|k: nat| #[trigger] upcoming_byte(rng, k) == seeded_byte(seed, s as nat + 1 + k) by {
            assert(upcoming_byte(rng, k) == upcoming_byte(before, k + 1));
        }
        seeds.push(next);
        s += 1;
    }
    assert(seeds@ =~= sample_plan(seed, n_samples));
    seeds
}

proof fn lemma_scan_place(width: u32, height: u32, m: int)
    requires
        0 <= m < width * height,
    ensures
        0 <= scan_column(width, m) < width,
        0 <= scan_row(width, height, m) < height,
        scan_index(width, height, scan_column(width, m), scan_row(width, height, m)) == m,
{
    let w = width as int;
    assert(w > 0) by (nonlinear_arith)
        requires
            0 <= m < w * height,
            w >= 0,
    ;
    vstd::arithmetic::div_mod::lemma_fundamental_div_mod(m, w);
    vstd::arithmetic::div_mod::lemma_mod_bound(m, w);
    let q = m / w;
    assert(0 <= q < height) by (nonlinear_arith)
        requires
            m == w * q + m % w,
            0 <= m % w < w,
            0 <= m < w * height,
    ;
    assert(q * w == w * q) by (nonlinear_arith);
}

/// The scan meets every pixel exactly once: the pixel in column `i` of row `j`
/// stands at place `scan_index(width, height, i, j)` of the seeding pass, and
/// at no other place.
pub proof fn lemma_scan_visits_each_pixel_once(
    random_seed: u8,
    width: u32,
    height: u32,
    i: u32,
    j: u32,
)
    requires
        i < width,
        j < height,
    ensures
        0 <= scan_index(width, height, i as int, j as int) < pixel_plan(
            random_seed,
            width,
            height,
        ).len(),
        pixel_plan(random_seed, width, height)[scan_index(width, height, i as int, j as int)].i
            == i,
        pixel_plan(random_seed, width, height)[scan_index(width, height, i as int, j as int)].j
            == j,
        forall|m: int|
            0 <= m < pixel_plan(random_seed, width, height).len() && (#[trigger] pixel_plan(
                random_seed,
                width,
                height,
            )[m]).i == i && pixel_plan(random_seed, width, height)[m].j == j ==> m == scan_index(
                width,
                height,
                i as int,
                j as int,
            ),
{
    let plan = pixel_plan(random_seed, width, height);
    lemma_scan_step(width, height, height - 1 - j, i as int);
    assert forall|m: int| 0 <= m < plan.len() && (#[trigger] plan[m]).i == i && plan[m].j
        == j implies m == scan_index(width, height, i as int, j as int) by {
        lemma_scan_place(width, height, m);
    }
}

/// The seed of a sample depends on nothing but the seed of the render, the
/// place of its pixel in the scan and its own number: it is what the two
/// serial passes hand to it, whatever the size of the image and however many
/// samples are taken.
pub proof fn lemma_unit_seed(
    random_seed: u8,
    width: u32,
    height: u32,
    n_samples: u32,
    k: int,
    s: int,
)
    requires
        0 <= k < width * height,
        0 <= s < n_samples,
    ensures
        sample_plan(pixel_plan(random_seed, width, height)[k].seed, n_samples)[s] == unit_seed(
            random_seed,
            k as nat,
            s as nat,
        ),
{
}

} // verus!
