//! What a video is, read from the report ffmpeg prints for
//! `ffmpeg -hide_banner -i <input>`.
//!
//! Its size comes from the stream line, e.g.
//! `Stream #0:0: Video: h264 ..., yuv420p(tv), 1920x1080 [SAR 1:1 ...]`: on
//! every line that mentions `Video:`, each maximal run of digits and `x` is a
//! candidate `WxH` (split at its first `x`); the first one that parses and is
//! at least 256x144 wins. The size floor keeps things like `0x1` in stream
//! ids from matching.
//!
//! Its length comes from the `Duration:` field, e.g.
//! `Duration: 00:00:30.03, start: 0.000000, ...`: the text after the first
//! `Duration:` up to the next comma, trimmed.
use crate::text::{chars_of, parse_u32_in, parse_u32_spec, trim, trim_spec};
use vstd::prelude::*;
use vstd::string::{StrSliceExecFns, StringExecFns};

verus! {

pub open spec fn is_dim_char(c: char) -> bool {
    ('0' <= c && c <= '9') || c == 'x'
}

/// `s[lo..hi]` is the whole line of `s` holding position `p`: no newline
/// inside, bounded by newlines or by the ends of the text.
pub open spec fn line_around(s: Seq<char>, p: int, lo: int, hi: int) -> bool {
    &&& 0 <= lo <= p <= hi <= s.len()
    &&& forall|k: int| lo <= k < hi ==> s[k] != '\n'
    &&& (lo == 0 || s[lo - 1] == '\n')
    &&& (hi == s.len() || s[hi] == '\n')
}

/// `needle` occurs somewhere in `hay`.
pub open spec fn has_infix(hay: Seq<char>, needle: Seq<char>) -> bool {
    exists|i: int|
        0 <= i && i + needle.len() <= hay.len() && #[trigger] hay.subrange(i, i + needle.len())
            == needle
}

/// Position `p` lies on a line that mentions `Video:`.
pub open spec fn on_video_line(s: Seq<char>, p: int) -> bool {
    exists|lo: int, hi: int|
        #[trigger] line_around(s, p, lo, hi) && has_infix(s.subrange(lo, hi), "Video:"@)
}

/// `s[p..e]` is a maximal run of digits and `x`.
pub open spec fn token_at(s: Seq<char>, p: int, e: int) -> bool {
    &&& 0 <= p < e <= s.len()
    &&& (p == 0 || !is_dim_char(s[p - 1]))
    &&& forall|k: int| p <= k < e ==> #[trigger] is_dim_char(s[k])
    &&& (e == s.len() || !is_dim_char(s[e]))
}

/// `i` is the first `x` of `t`.
pub open spec fn first_x(t: Seq<char>, i: int) -> bool {
    &&& 0 <= i < t.len()
    &&& t[i] == 'x'
    &&& forall|k: int| 0 <= k < i ==> t[k] != 'x'
}

/// A token read as `WxH`: split at its first `x`, both sides parsed as
/// `u32` the way `str::parse` does.
pub open spec fn token_dims(t: Seq<char>) -> Option<(u32, u32)> {
    if exists|i: int| first_x(t, i) {
        let i = choose|i: int| first_x(t, i);
        match (parse_u32_spec(t.subrange(0, i)), parse_u32_spec(t.subrange(i + 1, t.len() as int))) {
            (Some(w), Some(h)) => Some((w, h)),
            _ => None,
        }
    } else {
        None
    }
}

/// Large enough to be a picture size rather than a stream id.
pub open spec fn plausible_size(w: u32, h: u32) -> bool {
    w >= 256 && h >= 144
}

/// A token at `p..e` on a `Video:` line that reads as a plausible `w`x`h`.
pub open spec fn size_candidate(s: Seq<char>, p: int, e: int, w: u32, h: u32) -> bool {
    &&& token_at(s, p, e)
    &&& on_video_line(s, p)
    &&& token_dims(s.subrange(p, e)) == Some((w, h))
    &&& plausible_size(w, h)
}

/// No candidate starts before position `q`.
pub open spec fn no_candidate_before(s: Seq<char>, q: int) -> bool {
    forall|p: int, e: int, w: u32, h: u32| p < q ==> !#[trigger] size_candidate(s, p, e, w, h)
}

proof fn lemma_line_unique(s: Seq<char>, p: int, lo: int, hi: int, lo2: int, hi2: int)
    requires
        line_around(s, p, lo, hi),
        line_around(s, p, lo2, hi2),
    ensures
        lo == lo2,
        hi == hi2,
{
    if lo < lo2 {
        assert(s[lo2 - 1] != '\n');
    }
    if lo2 < lo {
        assert(s[lo - 1] != '\n');
    }
    if hi < hi2 {
        assert(s[hi] != '\n');
    }
    if hi2 < hi {
        assert(s[hi2] != '\n');
    }
}

proof fn lemma_token_unique(s: Seq<char>, p: int, e: int, e2: int)
    requires
        token_at(s, p, e),
        token_at(s, p, e2),
    ensures
        e == e2,
{
    if e < e2 {
        assert(is_dim_char(s[e]));
    }
    if e2 < e {
        assert(is_dim_char(s[e2]));
    }
}

/// The end of the line starting at `lo`: the first newline at or after it,
/// or the end of the text.
fn line_end(cs: &Vec<char>, lo: usize) -> (hi: usize)
    requires
        lo <= cs.len(),
    ensures
        lo <= hi <= cs.len(),
        forall|k: int| lo <= k < hi ==> cs@[k] != '\n',
        hi == cs.len() || cs@[hi as int] == '\n',
{
    let mut hi = lo;
    while hi < cs.len() && cs[hi] != '\n'
        invariant
            lo <= hi <= cs.len(),
            forall|k: int| lo <= k < hi ==> cs@[k] != '\n',
        decreases cs.len() - hi,
    {
        hi = hi + 1;
    }
    hi
}

/// Whether `needle` occurs in `cs[lo..hi]`.
fn infix_in(cs: &Vec<char>, lo: usize, hi: usize, needle: &Vec<char>) -> (r: bool)
    requires
        lo <= hi <= cs.len(),
    ensures
        r == has_infix(cs@.subrange(lo as int, hi as int), needle@),
{
    let ghost hay = cs@.subrange(lo as int, hi as int);
    let m = needle.len();
    if m > hi - lo {
        proof {
            assert forall|i: int|
                0 <= i && i + m <= hay.len() implies #[trigger] hay.subrange(i, i + m)
                != needle@ by {}
        }
        return false;
    }
    let mut i: usize = 0;
    while i <= (hi - lo) - m
        invariant
            lo <= hi <= cs.len(),
            m == needle@.len(),
            hay == cs@.subrange(lo as int, hi as int),
            i <= hi - lo,
            m <= hi - lo,
            forall|j: int| 0 <= j < i ==> #[trigger] hay.subrange(j, j + m) != needle@,
        decreases hi - lo - i,
    {
        let mut k: usize = 0;
        while k < m && cs[lo + i + k] == needle[k]
            invariant
                lo <= hi <= cs.len(),
                i + m <= hi - lo,
                m == needle@.len(),
                0 <= k <= m,
                forall|t: int| 0 <= t < k ==> cs@[lo + i + t] == needle@[t],
            decreases m - k,
        {
            k = k + 1;
        }
        if k == m {
            assert(hay.subrange(i as int, i + m) =~= needle@);
            return true;
        }
        assert(hay.subrange(i as int, i + m)[k as int] != needle@[k as int]);
        i = i + 1;
    }
    proof {
        assert forall|j: int|
            0 <= j && j + m <= hay.len() implies #[trigger] hay.subrange(j, j + m)
            != needle@ by {
            assert(j < i);
        }
    }
    false
}

/// The token `cs[p..e]` read as `WxH`.
fn token_dims_in(cs: &Vec<char>, p: usize, e: usize) -> (r: Option<(u32, u32)>)
    requires
        p <= e <= cs.len(),
    ensures
        r == token_dims(cs@.subrange(p as int, e as int)),
{
    let ghost t = cs@.subrange(p as int, e as int);
    let mut x = p;
    while x < e && cs[x] != 'x'
        invariant
            p <= x <= e <= cs.len(),
            t == cs@.subrange(p as int, e as int),
            forall|k: int| 0 <= k < x - p ==> t[k] != 'x',
        decreases e - x,
    {
        x = x + 1;
    }
    if x == e {
        assert(!exists|i: int| first_x(t, i));
        return None;
    }
    let ghost i = x - p;
    proof {
        assert(first_x(t, i));
        assert forall|j: int| first_x(t, j) implies j == i by {
            if j < i {
                assert(t[j] != 'x');
            }
            if j > i {
                assert(t[i] != 'x');
            }
        }
        assert(t.subrange(0, i) =~= cs@.subrange(p as int, x as int));
        assert(t.subrange(i + 1, t.len() as int) =~= cs@.subrange(x + 1, e as int));
    }
    match (parse_u32_in(cs, p, x), parse_u32_in(cs, x + 1, e)) {
        (Some(w), Some(h)) => Some((w, h)),
        _ => None,
    }
}

/// The first plausible `WxH` on a `Video:` line of ffmpeg's stream report,
/// or `None` when there is none.
pub fn parse_dimensions(report: &str) -> (r: Option<(u32, u32)>)
    ensures
        match r {
            Some((w, h)) => exists|p: int, e: int|
                size_candidate(report@, p, e, w, h) && no_candidate_before(report@, p),
            None => no_candidate_before(report@, report@.len() as int),
        },
{
    let cs = chars_of(report);
    let ghost s = report@;
    let needle = chars_of("Video:");
    let n = cs.len();
    let mut lo: usize = 0;
    loop
        invariant
            s == report@,
            cs@ == s,
            needle@ == "Video:"@,
            n == s.len(),
            0 <= lo <= n,
            lo == 0 || s[lo - 1] == '\n',
            no_candidate_before(s, lo as int),
        decreases n - lo,
    {
        let hi = line_end(&cs, lo);
        assert forall|q: int| lo <= q <= hi implies line_around(s, q, lo as int, hi as int) by {}
        let video = infix_in(&cs, lo, hi, &needle);
        proof {
            assert forall|q: int| lo <= q <= hi implies on_video_line(s, q) == video by {
                if on_video_line(s, q) {
                    let (lo2, hi2) = choose|lo2: int, hi2: int|
                        #[trigger] line_around(s, q, lo2, hi2) && has_infix(
                            s.subrange(lo2, hi2),
                            "Video:"@,
                        );
                    lemma_line_unique(s, q, lo as int, hi as int, lo2, hi2);
                }
                if video {
                    assert(line_around(s, q, lo as int, hi as int));
                }
            }
        }
        if video {
            let mut p = lo;
            while p < hi
                invariant
                    s == report@,
                    cs@ == s,
                    n == s.len(),
                    0 <= lo <= p <= hi <= n,
                    lo == 0 || s[lo - 1] == '\n',
                    hi == n || s[hi as int] == '\n',
                    p == lo || p == hi || !is_dim_char(s[p - 1]),
                    forall|q: int| lo <= q <= hi ==> on_video_line(s, q),
                    forall|k: int| lo <= k < hi ==> s[k] != '\n',
                    no_candidate_before(s, p as int),
                decreases hi - p,
            {
                let c = cs[p];
                if ('0' <= c && c <= '9') || c == 'x' {
                    let mut e = p;
                    while e < hi && (('0' <= cs[e] && cs[e] <= '9') || cs[e] == 'x')
                        invariant
                            cs@ == s,
                            n == s.len(),
                            p <= e <= hi <= n,
                            forall|k: int| p <= k < e ==> #[trigger] is_dim_char(s[k]),
                        decreases hi - e,
                    {
                        e = e + 1;
                    }
                    assert(e > p);
                    assert(token_at(s, p as int, e as int));
                    let dims = token_dims_in(&cs, p, e);
                    if let Some((w, h)) = dims {
                        if w >= 256 && h >= 144 {
                            assert(size_candidate(s, p as int, e as int, w, h));
                            assert(no_candidate_before(s, p as int));
                            return Some((w, h));
                        }
                    }
                    let next = if e < hi {
                        e + 1
                    } else {
                        e
                    };
                    assert forall|q: int, e2: int, w: u32, h: u32|
                        q < next implies !#[trigger] size_candidate(s, q, e2, w, h) by {
                        if q >= p && size_candidate(s, q, e2, w, h) {
                            if q == p {
                                lemma_token_unique(s, p as int, e as int, e2);
                            } else {
                                assert(is_dim_char(s[q - 1]) || q - 1 == e);
                            }
                        }
                    }
                    p = next;
                } else {
                    assert forall|q: int, e2: int, w: u32, h: u32|
                        q < p + 1 implies !#[trigger] size_candidate(s, q, e2, w, h) by {
                        if q == p && size_candidate(s, q, e2, w, h) {
                            assert(is_dim_char(s[q]));
                        }
                    }
                    p = p + 1;
                }
            }
        }
        assert forall|q: int, e2: int, w: u32, h: u32|
            q < hi + 1 implies !#[trigger] size_candidate(s, q, e2, w, h) by {
            if q >= lo && size_candidate(s, q, e2, w, h) {
                if q == hi {
                    assert(is_dim_char(s[q]));
                }
            }
        }
        if hi == n {
            return None;
        }
        lo = hi + 1;
    }
}

/// `i` is where `needle` first occurs in `s`.
pub open spec fn first_occurrence(s: Seq<char>, needle: Seq<char>, i: int) -> bool {
    &&& 0 <= i
    &&& i + needle.len() <= s.len()
    &&& s.subrange(i, i + needle.len()) == needle
    &&& forall|k: int| 0 <= k < i ==> #[trigger] s.subrange(k, k + needle.len()) != needle
}

/// Index of the first `c` in `s` at or after `i`, or the length.
pub open spec fn index_of_char_from(s: Seq<char>, c: char, i: int) -> int
    decreases s.len() - i,
{
    if i < 0 || i >= s.len() {
        s.len() as int
    } else if s[i] == c {
        i
    } else {
        index_of_char_from(s, c, i + 1)
    }
}

/// The `Duration:` field of a report: the text after the first `Duration:`
/// up to the next comma (or the end), trimmed; `None` when there is none.
pub open spec fn duration_field_spec(s: Seq<char>) -> Option<Seq<char>> {
    if exists|i: int| first_occurrence(s, "Duration:"@, i) {
        let i = choose|i: int| first_occurrence(s, "Duration:"@, i);
        let after = s.subrange(i + "Duration:"@.len(), s.len() as int);
        Some(trim_spec(after.subrange(0, index_of_char_from(after, ',', 0))))
    } else {
        None
    }
}

/// The text of the report's `Duration:` field (e.g. `00:00:30.03`).
pub fn duration_field(report: &str) -> (r: Option<String>)
    ensures
        match duration_field_spec(report@) {
            Some(t) => r matches Some(x) && x@ == t,
            None => r is None,
        },
{
    let cs = chars_of(report);
    let needle = chars_of("Duration:");
    let ghost s = report@;
    let n = cs.len();
    let m = needle.len();
    if m > n {
        assert forall|i: int| !first_occurrence(s, "Duration:"@, i) by {}
        return None;
    }
    let mut i: usize = 0;
    while i <= n - m
        invariant
            s == report@,
            cs@ == s,
            needle@ == "Duration:"@,
            n == s.len(),
            m == needle@.len(),
            m <= n,
            i <= n - m + 1,
            forall|k: int| 0 <= k < i ==> #[trigger] s.subrange(k, k + m) != needle@,
        decreases n - m + 1 - i,
    {
        let mut k: usize = 0;
        while k < m && cs[i + k] == needle[k]
            invariant
                cs@ == s,
                n == s.len(),
                m == needle@.len(),
                i + m <= n,
                0 <= k <= m,
                forall|t: int| 0 <= t < k ==> s[i + t] == needle@[t],
            decreases m - k,
        {
            k = k + 1;
        }
        if k == m {
            assert(s.subrange(i as int, i + m) =~= needle@);
            proof {
                assert(first_occurrence(s, "Duration:"@, i as int));
                assert forall|j: int| first_occurrence(s, "Duration:"@, j) implies j == i by {
                    if j > i {
                        assert(s.subrange(i as int, i + m) == needle@);
                    }
                }
            }
            let start = i + m;
            let mut e = start;
            let ghost after = s.subrange(start as int, n as int);
            assert(after.skip(0) =~= after);
            while e < n && cs[e] != ','
                invariant
                    s == report@,
                    cs@ == s,
                    n == s.len(),
                    start <= e <= n,
                    after == s.subrange(start as int, n as int),
                    index_of_char_from(after, ',', 0) == index_of_char_from(
                        after,
                        ',',
                        e - start,
                    ),
                decreases n - e,
            {
                assert(after[e - start] == s[e as int]);
                e = e + 1;
            }
            if e < n {
                assert(after[e - start] == s[e as int]);
            }
            assert(index_of_char_from(after, ',', 0) == e - start);
            let field = report.substring_char(start, e);
            assert(field@ =~= after.subrange(0, e - start));
            let t = trim(field);
            return Some(t.to_string());
        }
        assert(s.subrange(i as int, i + m)[k as int] != needle@[k as int]);
        i = i + 1;
    }
    proof {
        assert forall|j: int| !first_occurrence(s, "Duration:"@, j) by {
            if first_occurrence(s, "Duration:"@, j) {
                assert(j < i);
            }
        }
    }
    None
}

} // verus!
