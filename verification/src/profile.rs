//! Per-game detection profile rules: staleness against the game build, which
//! source resolutions a region applies to, and keeping a region inside the
//! frame.
use crate::text::str_eq;
use vstd::prelude::*;
use vstd::string::StrSliceExecFns;

verus! {

/// A profile is stale when both builds are known and they differ.
pub open spec fn profile_stale_spec(calibrated_against: Seq<char>, current_build: Seq<char>) -> bool {
    calibrated_against.len() > 0 && current_build.len() > 0 && calibrated_against != current_build
}

/// True if a profile was calibrated against a different game build.
pub fn profile_is_stale(calibrated_against: &str, current_build: &str) -> (r: bool)
    ensures
        r == profile_stale_spec(calibrated_against@, current_build@),
{
    calibrated_against.unicode_len() != 0 && current_build.unicode_len() != 0 && !str_eq(
        calibrated_against,
        current_build,
    )
}

/// A region restricted to one source height applies only at that height;
/// an unrestricted one applies everywhere.
pub fn region_applies_to(only_at: Option<u32>, height: u32) -> (b: bool)
    ensures
        b == match only_at {
            Some(h) => h == height,
            None => true,
        },
{
    match only_at {
        Some(h) => h == height,
        None => true,
    }
}

/// A profile is never stale against the build it was calibrated on, nor when
/// either build is unknown.
pub proof fn law_profile_staleness(calibrated_against: Seq<char>, current_build: Seq<char>)
    ensures
        !profile_stale_spec(calibrated_against, calibrated_against),
        current_build.len() == 0 ==> !profile_stale_spec(calibrated_against, current_build),
        calibrated_against.len() == 0 ==> !profile_stale_spec(calibrated_against, current_build),
{
}

/// A region's pixel size clamped to a `width` x `height` frame: its width
/// and height are cut so that it ends inside the frame.
pub fn clamp_to_frame(x: u32, y: u32, w: u32, h: u32, width: u32, height: u32) -> (r: (
    u32,
    u32,
    u32,
    u32,
))
    ensures
        r.0 == x,
        r.1 == y,
        r.2 == (if w < width - (if x < width { x } else { width }) {
            w as int
        } else {
            width - (if x < width { x } else { width })
        }),
        r.3 == (if h < height - (if y < height { y } else { height }) {
            h as int
        } else {
            height - (if y < height { y } else { height })
        }),
{
    let xs = if x < width {
        x
    } else {
        width
    };
    let ys = if y < height {
        y
    } else {
        height
    };
    let wr = if w < width - xs {
        w
    } else {
        width - xs
    };
    let hr = if h < height - ys {
        h
    } else {
        height - ys
    };
    (x, y, wr, hr)
}

/// A clamped region whose corner lies inside the frame never reaches past
/// it.
pub proof fn law_clamped_region_stays_in_frame(x: u32, y: u32, w: u32, h: u32, width: u32, height: u32)
    requires
        x <= width,
        y <= height,
    ensures
        ({
            let cw = if w < width - x { w as int } else { width - x };
            let ch = if h < height - y { h as int } else { height - y };
            x + cw <= width && y + ch <= height
        }),
{
}

} // verus!
