//! The order in which a clip's encoded samples go into its container.
//!
//! Video and audio timestamps share one 100-ns clock. Every stream is rebased
//! to the clip's first video frame (a keyframe), audio from before that frame
//! is dropped, and all samples are written in one global timestamp order —
//! stably, so samples with equal timestamps keep their stream order. That
//! keeps audio and video in sync and the container writer's buffering small.
use crate::ringbuffer::{EncodedFrame, FrameView};
use vstd::prelude::*;

verus! {

/// One sample to write: its rebased timestamp, its stream (0 is the video,
/// `t + 1` the audio track `t`), and its index within that stream.
#[derive(Debug, Clone, Copy, PartialEq, Eq, Structural)]
pub struct MuxItem {
    pub pts: i64,
    pub stream: usize,
    pub frame: usize,
}

pub open spec fn frames_view(v: Seq<EncodedFrame>) -> Seq<FrameView> {
    v.map_values(|f: EncodedFrame| f@)
}

pub open spec fn tracks_view(a: Seq<Vec<EncodedFrame>>) -> Seq<Seq<FrameView>> {
    a.map_values(|t: Vec<EncodedFrame>| frames_view(t@))
}

/// There is a first video frame, and every timestamp rebased to it fits in
/// an `i64`.
pub open spec fn rebasable(video: Seq<FrameView>, audio: Seq<Seq<FrameView>>) -> bool {
    &&& video.len() > 0
    &&& forall|i: int|
        0 <= i < video.len() ==> i64::MIN <= #[trigger] video[i].pts - video[0].pts <= i64::MAX
    &&& forall|t: int, i: int|
        0 <= t < audio.len() && 0 <= i < audio[t].len() ==> i64::MIN <= #[trigger] audio[t][i].pts
            - video[0].pts <= i64::MAX
}

/// Every video frame, rebased, in order.
pub open spec fn video_items(video: Seq<FrameView>, origin: int) -> Seq<MuxItem> {
    Seq::new(
        video.len(),
        |i: int| MuxItem { pts: (video[i].pts - origin) as i64, stream: 0, frame: i as usize },
    )
}

/// The frames of one audio track at or after the origin, rebased, in order.
pub open spec fn track_items(track: Seq<FrameView>, origin: int, stream: usize) -> Seq<MuxItem>
    decreases track.len(),
{
    if track.len() == 0 {
        Seq::empty()
    } else {
        let rest = track_items(track.drop_last(), origin, stream);
        let i = track.len() - 1;
        if track[i].pts - origin >= 0 {
            rest.push(MuxItem { pts: (track[i].pts - origin) as i64, stream, frame: i as usize })
        } else {
            rest
        }
    }
}

/// The kept frames of every audio track, track after track.
pub open spec fn audio_items(audio: Seq<Seq<FrameView>>, origin: int) -> Seq<MuxItem>
    decreases audio.len(),
{
    if audio.len() == 0 {
        Seq::empty()
    } else {
        audio_items(audio.drop_last(), origin) + track_items(
            audio.last(),
            origin,
            audio.len() as usize,
        )
    }
}

/// Where a sample with timestamp `p` goes in a run sorted by timestamp:
/// after the last sample whose timestamp is at most `p`.
pub open spec fn insert_point(s: Seq<MuxItem>, p: i64) -> int
    decreases s.len(),
{
    if s.len() == 0 {
        0
    } else if s.last().pts <= p {
        s.len() as int
    } else {
        insert_point(s.drop_last(), p)
    }
}

/// `s` stably sorted by timestamp: each sample placed after every earlier
/// one whose timestamp is not larger.
pub open spec fn stable_sort_by_pts(s: Seq<MuxItem>) -> Seq<MuxItem>
    decreases s.len(),
{
    if s.len() == 0 {
        Seq::empty()
    } else {
        let r = stable_sort_by_pts(s.drop_last());
        r.insert(insert_point(r, s.last().pts), s.last())
    }
}

pub open spec fn sorted_by_pts(s: Seq<MuxItem>) -> bool {
    forall|i: int, j: int| 0 <= i <= j < s.len() ==> (#[trigger] s[i]).pts <= (#[trigger] s[j]).pts
}

/// The write order of a clip's samples.
pub open spec fn mux_plan_spec(video: Seq<FrameView>, audio: Seq<Seq<FrameView>>) -> Seq<MuxItem> {
    let origin = video[0].pts as int;
    stable_sort_by_pts(video_items(video, origin) + audio_items(audio, origin))
}

/// The position at which a sample with timestamp `p` is inserted into
/// `sorted`.
fn find_insert_point(sorted: &Vec<MuxItem>, p: i64) -> (j: usize)
    ensures
        j == insert_point(sorted@, p),
{
    let mut j = sorted.len();
    assert(sorted@.subrange(0, j as int) =~= sorted@);
    while j > 0 && sorted[j - 1].pts > p
        invariant
            0 <= j <= sorted.len(),
            insert_point(sorted@, p) == insert_point(sorted@.subrange(0, j as int), p),
        decreases j,
    {
        assert(sorted@.subrange(0, j as int).drop_last() =~= sorted@.subrange(0, j - 1));
        j = j - 1;
    }
    j
}

/// The order in which to write a clip's samples: every video frame and every
/// audio frame not before the first video frame, timestamps rebased to that
/// frame, stably sorted by timestamp.
pub fn mux_plan(video: &Vec<EncodedFrame>, audio: &Vec<Vec<EncodedFrame>>) -> (plan: Vec<MuxItem>)
    requires
        rebasable(frames_view(video@), tracks_view(audio@)),
    ensures
        plan@ == mux_plan_spec(frames_view(video@), tracks_view(audio@)),
{
    let ghost vv = frames_view(video@);
    let ghost av = tracks_view(audio@);
    let origin = video[0].pts_100ns;
    assert(origin == vv[0].pts);
    let mut items: Vec<MuxItem> = Vec::new();
    let mut i: usize = 0;
    while i < video.len()
        invariant
            vv == frames_view(video@),
            rebasable(vv, av),
            origin == vv[0].pts,
            0 <= i <= video.len(),
            items@ == video_items(vv.subrange(0, i as int), origin as int),
        decreases video.len() - i,
    {
        assert(vv[i as int].pts == video@[i as int].pts_100ns);
        let pts = video[i].pts_100ns - origin;
        items.push(MuxItem { pts, stream: 0, frame: i });
        assert(items@ =~= video_items(vv.subrange(0, i + 1), origin as int));
        i = i + 1;
    }
    assert(vv.subrange(0, video.len() as int) =~= vv);
    let ghost head = items@;
    let mut t: usize = 0;
    while t < audio.len()
        invariant
            vv == frames_view(video@),
            av == tracks_view(audio@),
            rebasable(vv, av),
            origin == vv[0].pts,
            0 <= t <= audio.len(),
            head == video_items(vv, origin as int),
            items@ == head + audio_items(av.subrange(0, t as int), origin as int),
        decreases audio.len() - t,
    {
        let track = &audio[t];
        let ghost tv = av[t as int];
        assert(tv == frames_view(track@));
        let ghost base = items@;
        let mut k: usize = 0;
        while k < track.len()
            invariant
                vv == frames_view(video@),
                av == tracks_view(audio@),
                rebasable(vv, av),
                origin == vv[0].pts,
                0 <= t < audio.len(),
                track == audio@[t as int],
                tv == av[t as int],
                tv == frames_view(track@),
                0 <= k <= track.len(),
                items@ == base + track_items(tv.subrange(0, k as int), origin as int, (t + 1) as usize),
            decreases track.len() - k,
        {
            let ghost sub = tv.subrange(0, k + 1);
            assert(sub.drop_last() =~= tv.subrange(0, k as int));
            assert(sub[k as int].pts == track@[k as int].pts_100ns);
            assert(i64::MIN <= av[t as int][k as int].pts - vv[0].pts <= i64::MAX);
            let pts = track[k].pts_100ns - origin;
            if pts >= 0 {
                items.push(MuxItem { pts, stream: t + 1, frame: k });
            }
            assert(items@ =~= base + track_items(sub, origin as int, (t + 1) as usize));
            k = k + 1;
        }
        assert(tv.subrange(0, track.len() as int) =~= tv);
        assert(av.subrange(0, t + 1).drop_last() =~= av.subrange(0, t as int));
        assert(items@ =~= head + audio_items(av.subrange(0, t + 1), origin as int));
        t = t + 1;
    }
    assert(av.subrange(0, audio.len() as int) =~= av);
    let mut sorted: Vec<MuxItem> = Vec::new();
    let mut n: usize = 0;
    while n < items.len()
        invariant
            0 <= n <= items.len(),
            sorted@ == stable_sort_by_pts(items@.subrange(0, n as int)),
        decreases items.len() - n,
    {
        let x = items[n];
        assert(items@.subrange(0, n + 1).drop_last() =~= items@.subrange(0, n as int));
        let j = find_insert_point(&sorted, x.pts);
        proof {
            lemma_insert_point_bound(sorted@, x.pts);
        }
        sorted.insert(j, x);
        n = n + 1;
    }
    assert(items@.subrange(0, items.len() as int) =~= items@);
    sorted
}

proof fn lemma_insert_point_bound(s: Seq<MuxItem>, p: i64)
    ensures
        0 <= insert_point(s, p) <= s.len(),
    decreases s.len(),
{
    if s.len() > 0 {
        lemma_insert_point_bound(s.drop_last(), p);
    }
}

/// In a run sorted by timestamp, everything before the insert point is not
/// later than `p` and everything from it on is later.
proof fn lemma_insert_point_splits(s: Seq<MuxItem>, p: i64)
    requires
        sorted_by_pts(s),
    ensures
        0 <= insert_point(s, p) <= s.len(),
        forall|k: int| 0 <= k < insert_point(s, p) ==> (#[trigger] s[k]).pts <= p,
        forall|k: int| insert_point(s, p) <= k < s.len() ==> (#[trigger] s[k]).pts > p,
    decreases s.len(),
{
    lemma_insert_point_bound(s, p);
    if s.len() > 0 {
        let r = s.drop_last();
        assert(sorted_by_pts(r));
        lemma_insert_point_splits(r, p);
        if s.last().pts <= p {
            assert forall|k: int| 0 <= k < s.len() implies (#[trigger] s[k]).pts <= p by {
                assert(s[k].pts <= s[s.len() - 1].pts);
            }
        } else {
            assert forall|k: int| 0 <= k < insert_point(s, p) implies (#[trigger] s[k]).pts <= p by {
                assert(s[k] == r[k]);
            }
            assert forall|k: int| insert_point(s, p) <= k < s.len() implies (#[trigger] s[k]).pts
                > p by {
                if k < s.len() - 1 {
                    assert(s[k] == r[k]);
                }
            }
        }
    }
}

/// A stably sorted run is sorted by timestamp.
pub proof fn law_mux_order_is_sorted(s: Seq<MuxItem>)
    ensures
        sorted_by_pts(stable_sort_by_pts(s)),
    decreases s.len(),
{
    if s.len() > 0 {
        let r = stable_sort_by_pts(s.drop_last());
        law_mux_order_is_sorted(s.drop_last());
        let x = s.last();
        let j = insert_point(r, x.pts);
        lemma_insert_point_splits(r, x.pts);
        let w = r.insert(j, x);
        assert forall|a: int, b: int| 0 <= a <= b < w.len() implies (#[trigger] w[a]).pts <= (
        #[trigger] w[b]).pts by {
            if a < j && b < j {
                assert(w[a] == r[a] && w[b] == r[b]);
            } else if a < j && b == j {
                assert(w[a] == r[a]);
            } else if a < j {
                assert(w[a] == r[a] && w[b] == r[b - 1]);
            } else if a == j && b == j {
            } else if a == j {
                assert(w[b] == r[b - 1]);
            } else {
                assert(w[a] == r[a - 1] && w[b] == r[b - 1]);
            }
        }
    }
}

/// Sorting drops nothing and adds nothing: the write order holds exactly the
/// samples it was given.
pub proof fn law_mux_order_is_a_permutation(s: Seq<MuxItem>)
    ensures
        stable_sort_by_pts(s).to_multiset() == s.to_multiset(),
    decreases s.len(),
{
    broadcast use vstd::seq_lib::group_to_multiset_ensures;

    if s.len() > 0 {
        let r = stable_sort_by_pts(s.drop_last());
        law_mux_order_is_a_permutation(s.drop_last());
        lemma_insert_point_bound(r, s.last().pts);
        assert(s.drop_last().push(s.last()) =~= s);
    }
}

} // verus!
