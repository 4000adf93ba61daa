//! Death-card detection: which pixels read as the card's button gold.
//!
//! The card's Spectate / Return-to-Camp row is bright, strongly
//! red-dominant over blue, and never green-dominant — that last clause keeps
//! the game's teal/blue UI out of the count.
use vstd::prelude::*;

verus! {

/// Whether one RGB pixel reads as the death card's button gold.
pub open spec fn is_button_gold(r: u8, g: u8, b: u8) -> bool {
    r > 120 && r - b > 60 && g - b > 30 && r >= g
}

/// How many of the first `n` whole RGB24 pixels of `rgb` are button gold.
pub open spec fn gold_hits(rgb: Seq<u8>, n: int) -> nat
    decreases n,
{
    if n <= 0 {
        0
    } else {
        gold_hits(rgb, n - 1) + if is_button_gold(
            rgb[3 * (n - 1)],
            rgb[3 * (n - 1) + 1],
            rgb[3 * (n - 1) + 2],
        ) {
            1nat
        } else {
            0nat
        }
    }
}

/// Whether one pixel is button gold.
pub fn pixel_is_gold(r: u8, g: u8, b: u8) -> (gold: bool)
    ensures
        gold == is_button_gold(r, g, b),
{
    let (r, g, b) = (r as i16, g as i16, b as i16);
    r > 120 && r - b > 60 && g - b > 30 && r >= g
}

/// Counts over the whole RGB24 pixels of `rgb` (a trailing partial pixel is
/// ignored): `(gold pixels, pixels)`. The gold fraction is their ratio.
pub fn gold_pixel_counts(rgb: &[u8]) -> (counts: (usize, usize))
    ensures
        counts.1 == rgb@.len() / 3,
        counts.0 == gold_hits(rgb@, counts.1 as int),
        counts.0 <= counts.1,
{
    let px = rgb.len() / 3;
    let mut hits: usize = 0;
    let mut p: usize = 0;
    while p < px
        invariant
            px == rgb@.len() / 3,
            0 <= p <= px,
            hits == gold_hits(rgb@, p as int),
            hits <= p,
        decreases px - p,
    {
        assert(3 * p + 2 < rgb@.len()) by (nonlinear_arith)
            requires
                p < px,
                px == rgb@.len() / 3,
        ;
        assert(rgb@.len() == rgb.len());
        let off = 3 * p;
        if pixel_is_gold(rgb[off], rgb[off + 1], rgb[off + 2]) {
            hits = hits + 1;
        }
        p = p + 1;
    }
    (hits, px)
}

} // verus!
