//! In-RAM ring buffer of *encoded* frames.
//!
//! The GPU encoder hands over small compressed samples and only the last N
//! seconds of them are kept, bounded by both a time window and a hard RAM cap.
//! On a "save last N seconds" request the buffer walks back N seconds, then a
//! little further to the nearest keyframe at or before that point, so the
//! extracted clip is independently decodable.
use std::collections::VecDeque;
use vstd::prelude::*;

verus! {

/// 100-ns ticks per second (Media Foundation's clock unit).
pub const HNS_PER_SEC: i64 = 10_000_000;

/// One encoded video (or audio) frame sitting in the buffer.
pub struct EncodedFrame {
    /// Compressed bytes (one NAL access unit for video, one packet for audio).
    pub data: Vec<u8>,
    /// Presentation timestamp in 100-ns units.
    pub pts_100ns: i64,
    /// Frame duration in 100-ns units.
    pub dur_100ns: i64,
    /// True if this is an IDR/keyframe (a valid clip start point).
    pub keyframe: bool,
}

/// The mathematical content of a frame.
pub ghost struct FrameView {
    pub data: Seq<u8>,
    pub pts: i64,
    pub dur: i64,
    pub keyframe: bool,
}

impl View for EncodedFrame {
    type V = FrameView;

    open spec fn view(&self) -> FrameView {
        FrameView {
            data: self.data@,
            pts: self.pts_100ns,
            dur: self.dur_100ns,
            keyframe: self.keyframe,
        }
    }
}

impl EncodedFrame {
    pub fn len_bytes(&self) -> (n: usize)
        ensures
            n == self.data@.len(),
    {
        self.data.len()
    }

    /// A copy of this frame, byte for byte.
    pub fn duplicate(&self) -> (copy: EncodedFrame)
        ensures
            copy@ == self@,
    {
        let data = self.data.clone();
        assert(data@ =~= self.data@);
        EncodedFrame {
            data,
            pts_100ns: self.pts_100ns,
            dur_100ns: self.dur_100ns,
            keyframe: self.keyframe,
        }
    }
}

/// Total payload bytes of a run of frames.
pub open spec fn frames_bytes(s: Seq<FrameView>) -> nat
    decreases s.len(),
{
    if s.len() == 0 {
        0
    } else {
        s[0].data.len() + frames_bytes(s.drop_first())
    }
}

/// Time-based eviction: drop leading frames older than `cutoff`.
pub open spec fn drop_expired(s: Seq<FrameView>, cutoff: int) -> Seq<FrameView>
    decreases s.len(),
{
    if s.len() > 0 && s[0].pts < cutoff {
        drop_expired(s.drop_first(), cutoff)
    } else {
        s
    }
}

/// RAM-based eviction: drop leading frames while over `max_bytes`, but never
/// the last one.
pub open spec fn drop_over_budget(s: Seq<FrameView>, max_bytes: int) -> Seq<FrameView>
    decreases s.len(),
{
    if s.len() > 1 && frames_bytes(s) > max_bytes {
        drop_over_budget(s.drop_first(), max_bytes)
    } else {
        s
    }
}

/// What the buffer holds after `f` is pushed onto `s`.
pub open spec fn after_push(s: Seq<FrameView>, f: FrameView, window: int, max_bytes: int) -> Seq<
    FrameView,
> {
    drop_over_budget(drop_expired(s.push(f), f.pts - window), max_bytes)
}

/// The index at which the backward scan of `extract_last` stops: the first
/// frame at or after `i` whose timestamp is past `cutoff` (or the length).
pub open spec fn scan_end(s: Seq<FrameView>, cutoff: int, i: int) -> int
    decreases s.len() - i,
{
    if i < 0 || i >= s.len() {
        s.len() as int
    } else if s[i].pts > cutoff {
        i
    } else {
        scan_end(s, cutoff, i + 1)
    }
}

/// The last keyframe strictly before index `end`.
pub open spec fn last_keyframe_before(s: Seq<FrameView>, end: int) -> Option<int>
    decreases end,
{
    if end <= 0 {
        None
    } else if s[end - 1].keyframe {
        Some(end - 1)
    } else {
        last_keyframe_before(s, end - 1)
    }
}

/// The first keyframe at or after index `i`.
pub open spec fn first_keyframe_from(s: Seq<FrameView>, i: int) -> Option<int>
    decreases s.len() - i,
{
    if i < 0 || i >= s.len() {
        None
    } else if s[i].keyframe {
        Some(i)
    } else {
        first_keyframe_from(s, i + 1)
    }
}

/// The point `seconds` before the newest frame.
pub open spec fn clip_cutoff(s: Seq<FrameView>, seconds: int) -> int {
    s.last().pts - seconds * HNS_PER_SEC
}

/// Index of the frame a clip of the last `seconds` starts at: the newest
/// keyframe at or before the cutoff, else the earliest keyframe held.
pub open spec fn clip_start(s: Seq<FrameView>, seconds: int) -> Option<int> {
    let cutoff = clip_cutoff(s, seconds);
    match last_keyframe_before(s, scan_end(s, cutoff, 0)) {
        Some(i) => Some(i),
        None => first_keyframe_from(s, 0),
    }
}

/// The frames `extract_last(seconds)` returns for a buffer holding `s`.
pub open spec fn extract_spec(s: Seq<FrameView>, seconds: int) -> Seq<FrameView> {
    if s.len() == 0 {
        Seq::empty()
    } else {
        match clip_start(s, seconds) {
            Some(i) => s.subrange(i, s.len() as int),
            None => Seq::empty(),
        }
    }
}

/// An optional spec index as an executable one.
pub open spec fn index_opt(o: Option<int>) -> Option<usize> {
    match o {
        Some(k) => Some(k as usize),
        None => None,
    }
}

/// A time- and memory-bounded ring of encoded frames.
pub struct RingBuffer {
    frames: VecDeque<EncodedFrame>,
    /// Retention window in 100-ns units.
    window_100ns: i64,
    /// Hard RAM ceiling in bytes.
    max_bytes: u64,
    /// Running total of `data` bytes currently held.
    bytes: usize,
}

impl View for RingBuffer {
    type V = Seq<FrameView>;

    closed spec fn view(&self) -> Seq<FrameView> {
        self.frames@.map_values(|f: EncodedFrame| f@)
    }
}

impl RingBuffer {
    /// Retention window in 100-ns units.
    pub closed spec fn window(&self) -> int {
        self.window_100ns as int
    }

    /// RAM ceiling in bytes.
    pub closed spec fn max_bytes(&self) -> int {
        self.max_bytes as int
    }

    /// The running byte count matches the frames held, and the limits are sane.
    pub closed spec fn wf(&self) -> bool {
        &&& self.bytes == frames_bytes(self@)
        &&& 0 <= self.window_100ns <= u32::MAX * HNS_PER_SEC
        &&& self.max_bytes <= u32::MAX * 1024 * 1024
    }

    pub fn new(max_seconds: u32, max_ram_mb: u32) -> (rb: Self)
        ensures
            rb.wf(),
            rb@ == Seq::<FrameView>::empty(),
            rb.window() == max_seconds * HNS_PER_SEC,
            rb.max_bytes() == max_ram_mb * 1024 * 1024,
    {
        let rb = RingBuffer {
            frames: VecDeque::new(),
            window_100ns: max_seconds as i64 * HNS_PER_SEC,
            max_bytes: max_ram_mb as u64 * 1024 * 1024,
            bytes: 0,
        };
        assert(rb@ =~= Seq::<FrameView>::empty());
        rb
    }

    /// Push a freshly-encoded frame and evict anything older than the window
    /// or over the RAM cap.
    pub fn push(&mut self, frame: EncodedFrame)
        requires
            old(self).wf(),
            frames_bytes(old(self)@) + frame.data@.len() <= usize::MAX,
            frame.pts_100ns - old(self).window() >= i64::MIN,
        ensures
            final(self).wf(),
            final(self)@ == after_push(old(self)@, frame@, old(self).window(), old(self).max_bytes()),
            final(self).window() == old(self).window(),
            final(self).max_bytes() == old(self).max_bytes(),
    {
        let newest_pts = frame.pts_100ns;
        let ghost f = frame@;
        proof {
            lemma_frames_bytes_push(self@, f);
        }
        self.bytes = self.bytes + frame.len_bytes();
        self.frames.push_back(frame);
        assert(self@ =~= old(self)@.push(f));
        self.evict(newest_pts);
    }

    fn evict(&mut self, newest_pts: i64)
        requires
            old(self).wf(),
            newest_pts - old(self).window() >= i64::MIN,
        ensures
            final(self).wf(),
            final(self)@ == drop_over_budget(
                drop_expired(old(self)@, newest_pts - old(self).window()),
                old(self).max_bytes(),
            ),
            final(self).window() == old(self).window(),
            final(self).max_bytes() == old(self).max_bytes(),
    {
        let cutoff = newest_pts - self.window_100ns;
        let ghost start = self@;
        while self.frames.len() > 0 && self.frames[0].pts_100ns < cutoff
            invariant
                self.wf(),
                self.window_100ns == old(self).window_100ns,
                self.max_bytes == old(self).max_bytes,
                cutoff == newest_pts - old(self).window(),
                drop_expired(self@, cutoff as int) == drop_expired(start, cutoff as int),
            decreases self.frames@.len(),
        {
            let ghost before = self@;
            let popped = self.frames.pop_front();
            match popped {
                Some(f) => {
                    assert(self@ =~= before.drop_first());
                    self.bytes = self.bytes - f.len_bytes();
                },
                None => {},
            }
        }
        assert(drop_expired(self@, cutoff as int) == self@);
        let ghost mid = self@;
        while self.bytes as u64 > self.max_bytes && self.frames.len() > 1
            invariant
                self.wf(),
                self.window_100ns == old(self).window_100ns,
                self.max_bytes == old(self).max_bytes,
                drop_over_budget(self@, self.max_bytes as int) == drop_over_budget(
                    mid,
                    self.max_bytes as int,
                ),
            decreases self.frames@.len(),
        {
            let ghost before = self@;
            let popped = self.frames.pop_front();
            match popped {
                Some(f) => {
                    assert(self@ =~= before.drop_first());
                    self.bytes = self.bytes - f.len_bytes();
                },
                None => {},
            }
        }
    }

    /// Current RAM footprint of buffered encoded data, in bytes.
    pub fn bytes_used(&self) -> (n: usize)
        requires
            self.wf(),
        ensures
            n == frames_bytes(self@),
    {
        self.bytes
    }

    pub fn is_empty(&self) -> (b: bool)
        ensures
            b == (self@.len() == 0),
    {
        self.frames.len() == 0
    }

    /// Extract the last `seconds` of frames for saving, snapped back to the
    /// nearest keyframe at or before the cutoff so the result is decodable.
    ///
    /// Returns frames in presentation order. Empty if the buffer is empty.
    pub fn extract_last(&self, seconds: u32) -> (out: Vec<EncodedFrame>)
        requires
            self@.len() > 0 ==> self@.last().pts - seconds * HNS_PER_SEC >= i64::MIN,
        ensures
            out@.map_values(|f: EncodedFrame| f@) == extract_spec(self@, seconds as int),
    {
        let ghost s = self@;
        let len = self.frames.len();
        if len == 0 {
            let out: Vec<EncodedFrame> = Vec::new();
            assert(out@.map_values(|f: EncodedFrame| f@) =~= Seq::<FrameView>::empty());
            return out;
        }
        let last_pts = self.frames[len - 1].pts_100ns;
        let raw_cutoff = last_pts - seconds as i64 * HNS_PER_SEC;
        let ghost cutoff = raw_cutoff as int;
        assert(cutoff == clip_cutoff(s, seconds as int));

        // The newest keyframe whose pts <= raw_cutoff, scanning until the
        // first frame past the cutoff.
        let mut start_idx: Option<usize> = None;
        let mut i: usize = 0;
        while i < len && self.frames[i].pts_100ns <= raw_cutoff
            invariant
                s == self@,
                len == s.len(),
                0 <= i <= len,
                cutoff == raw_cutoff as int,
                scan_end(s, cutoff, 0) == scan_end(s, cutoff, i as int),
                start_idx == index_opt(last_keyframe_before(s, i as int)),
            decreases len - i,
        {
            assert(s[i as int] == self.frames@[i as int]@);
            if self.frames[i].keyframe {
                start_idx = Some(i);
            }
            i = i + 1;
        }
        proof {
            if i < len {
                assert(s[i as int] == self.frames@[i as int]@);
            }
        }
        assert(scan_end(s, cutoff, 0) == i as int);
        assert(start_idx == index_opt(last_keyframe_before(s, scan_end(s, cutoff, 0))));

        if start_idx.is_none() {
            // No keyframe before the cutoff: use the earliest keyframe held.
            let mut j: usize = 0;
            while j < len && !self.frames[j].keyframe
                invariant
                    s == self@,
                    len == s.len(),
                    0 <= j <= len,
                    first_keyframe_from(s, 0) == first_keyframe_from(s, j as int),
                decreases len - j,
            {
                assert(s[j as int] == self.frames@[j as int]@);
                j = j + 1;
            }
            if j < len {
                assert(s[j as int] == self.frames@[j as int]@);
                start_idx = Some(j);
            }
            assert(start_idx == index_opt(first_keyframe_from(s, 0)));
        }
        assert(start_idx == index_opt(clip_start(s, seconds as int)));

        match start_idx {
            Some(st) => {
                proof {
                    lemma_clip_start_in_bounds(s, seconds as int);
                }
                let mut out: Vec<EncodedFrame> = Vec::new();
                let mut k: usize = st;
                while k < len
                    invariant
                        s == self@,
                        len == s.len(),
                        st <= k <= len,
                        out@.map_values(|f: EncodedFrame| f@) =~= s.subrange(st as int, k as int),
                    decreases len - k,
                {
                    assert(s[k as int] == self.frames@[k as int]@);
                    let copy = self.frames[k].duplicate();
                    let ghost before = out@;
                    out.push(copy);
                    assert(out@.map_values(|f: EncodedFrame| f@) =~= before.map_values(
                        |f: EncodedFrame| f@,
                    ).push(copy@));
                    k = k + 1;
                }
                out
            },
            None => {
                let out: Vec<EncodedFrame> = Vec::new();
                assert(out@.map_values(|f: EncodedFrame| f@) =~= Seq::<FrameView>::empty());
                out
            },
        }
    }
}

/// Appending a frame adds its length to the byte total.
pub proof fn lemma_frames_bytes_push(s: Seq<FrameView>, f: FrameView)
    ensures
        frames_bytes(s.push(f)) == frames_bytes(s) + f.data.len(),
    decreases s.len(),
{
    if s.len() == 0 {
        assert(s.push(f).drop_first() =~= Seq::<FrameView>::empty());
        assert(frames_bytes(Seq::<FrameView>::empty()) == 0);
    } else {
        lemma_frames_bytes_push(s.drop_first(), f);
        assert(s.push(f).drop_first() =~= s.drop_first().push(f));
        assert(s.push(f)[0] == s[0]);
    }
}

proof fn lemma_first_keyframe_bounds(s: Seq<FrameView>, i: int)
    ensures
        first_keyframe_from(s, i) matches Some(k) ==> i <= k < s.len() && s[k].keyframe,
    decreases s.len() - i,
{
    if 0 <= i < s.len() && !s[i].keyframe {
        lemma_first_keyframe_bounds(s, i + 1);
    }
}

proof fn lemma_last_keyframe_bounds(s: Seq<FrameView>, end: int)
    requires
        end <= s.len(),
    ensures
        last_keyframe_before(s, end) matches Some(k) ==> 0 <= k < end && s[k].keyframe,
    decreases end,
{
    if end > 0 && !s[end - 1].keyframe {
        lemma_last_keyframe_bounds(s, end - 1);
    }
}

proof fn lemma_scan_end_bounds(s: Seq<FrameView>, cutoff: int, i: int)
    requires
        0 <= i,
    ensures
        i <= scan_end(s, cutoff, i) <= s.len() || (i > s.len() && scan_end(s, cutoff, i)
            == s.len()),
    decreases s.len() - i,
{
    if i < s.len() && s[i].pts <= cutoff {
        lemma_scan_end_bounds(s, cutoff, i + 1);
    }
}

proof fn lemma_clip_start_in_bounds(s: Seq<FrameView>, seconds: int)
    requires
        s.len() > 0,
    ensures
        clip_start(s, seconds) matches Some(k) ==> 0 <= k < s.len() && s[k].keyframe,
{
    let cutoff = clip_cutoff(s, seconds);
    lemma_scan_end_bounds(s, cutoff, 0);
    lemma_last_keyframe_bounds(s, scan_end(s, cutoff, 0));
    lemma_first_keyframe_bounds(s, 0);
}

/// `a` is a (possibly empty) tail of `b`.
pub open spec fn is_suffix_of(a: Seq<FrameView>, b: Seq<FrameView>) -> bool {
    a.len() <= b.len() && a =~= b.subrange(b.len() - a.len(), b.len() as int)
}

/// Frames are in presentation order.
pub open spec fn pts_sorted(s: Seq<FrameView>) -> bool {
    forall|i: int, j: int| 0 <= i <= j < s.len() ==> s[i].pts <= s[j].pts
}

proof fn lemma_drop_expired_suffix(t: Seq<FrameView>, c: int)
    ensures
        is_suffix_of(drop_expired(t, c), t),
        drop_expired(t, c).len() > 0 ==> drop_expired(t, c)[0].pts >= c,
        t.len() > 0 && t.last().pts >= c ==> drop_expired(t, c).len() > 0,
    decreases t.len(),
{
    if t.len() > 0 && t[0].pts < c {
        lemma_drop_expired_suffix(t.drop_first(), c);
        let r = drop_expired(t.drop_first(), c);
        assert(t.drop_first().subrange(t.len() - 1 - r.len(), t.len() - 1) =~= t.subrange(
            t.len() - r.len(),
            t.len() as int,
        ));
        if t.len() > 1 {
            assert(t.drop_first().last() == t.last());
        }
    } else {
        assert(t.subrange(0, t.len() as int) =~= t);
    }
}

proof fn lemma_drop_over_budget_props(t: Seq<FrameView>, m: int)
    ensures
        is_suffix_of(drop_over_budget(t, m), t),
        t.len() > 0 ==> drop_over_budget(t, m).len() > 0,
        frames_bytes(drop_over_budget(t, m)) <= m || drop_over_budget(t, m).len() <= 1,
    decreases t.len(),
{
    if t.len() > 1 && frames_bytes(t) > m {
        lemma_drop_over_budget_props(t.drop_first(), m);
        let r = drop_over_budget(t.drop_first(), m);
        assert(t.drop_first().subrange(t.len() - 1 - r.len(), t.len() - 1) =~= t.subrange(
            t.len() - r.len(),
            t.len() as int,
        ));
    } else {
        assert(t.subrange(0, t.len() as int) =~= t);
    }
}

/// After a push the buffer never holds more than the RAM cap, unless it is
/// down to a single frame.
pub proof fn law_push_respects_ram_cap(s: Seq<FrameView>, f: FrameView, window: int, max_bytes: int)
    ensures
        frames_bytes(after_push(s, f, window, max_bytes)) <= max_bytes || after_push(
            s,
            f,
            window,
            max_bytes,
        ).len() <= 1,
{
    lemma_drop_over_budget_props(drop_expired(s.push(f), f.pts - window), max_bytes);
}

/// A push only ever removes frames from the old end: what remains is a tail
/// of the old contents followed by the new frame, which is always kept.
pub proof fn law_push_keeps_newest(s: Seq<FrameView>, f: FrameView, window: int, max_bytes: int)
    requires
        window >= 0,
    ensures
        is_suffix_of(after_push(s, f, window, max_bytes), s.push(f)),
        after_push(s, f, window, max_bytes).len() > 0,
        after_push(s, f, window, max_bytes).last() == f,
{
    let t = s.push(f);
    let c = f.pts - window;
    lemma_drop_expired_suffix(t, c);
    let e = drop_expired(t, c);
    lemma_drop_over_budget_props(e, max_bytes);
    let r = drop_over_budget(e, max_bytes);
    assert(r.last() == e.last());
    assert(e.last() == t.last());
    assert(r =~= t.subrange(t.len() - r.len(), t.len() as int));
}

/// With frames pushed in presentation order, nothing older than the
/// retention window survives a push.
pub proof fn law_push_respects_window(s: Seq<FrameView>, f: FrameView, window: int, max_bytes: int)
    requires
        pts_sorted(s.push(f)),
    ensures
        forall|i: int|
            0 <= i < after_push(s, f, window, max_bytes).len() ==> #[trigger] after_push(
                s,
                f,
                window,
                max_bytes,
            )[i].pts >= f.pts - window,
{
    let t = s.push(f);
    let c = f.pts - window;
    lemma_drop_expired_suffix(t, c);
    let e = drop_expired(t, c);
    lemma_drop_over_budget_props(e, max_bytes);
    let r = drop_over_budget(e, max_bytes);
    assert forall|i: int| 0 <= i < r.len() implies #[trigger] r[i].pts >= c by {
        let off = e.len() - r.len();
        assert(r[i] == e[off + i]);
        let toff = t.len() - e.len();
        assert(e[0] == t[toff]);
        assert(e[off + i] == t[toff + off + i]);
    }
}

/// A saved clip is a tail of the buffer that starts on a keyframe and ends
/// with the newest frame; whenever a keyframe precedes the requested cutoff it
/// starts at or before that cutoff (so it covers every frame after it); and it
/// is empty only when the buffer holds no keyframe at all.
pub proof fn law_extract_is_decodable_tail(s: Seq<FrameView>, seconds: int)
    requires
        s.len() > 0,
    ensures
        is_suffix_of(extract_spec(s, seconds), s),
        extract_spec(s, seconds).len() > 0 ==> extract_spec(s, seconds)[0].keyframe,
        extract_spec(s, seconds).len() > 0 ==> extract_spec(s, seconds).last() == s.last(),
        extract_spec(s, seconds).len() == 0 <==> first_keyframe_from(s, 0) is None,
        last_keyframe_before(s, scan_end(s, clip_cutoff(s, seconds), 0)) is Some ==> {
            &&& extract_spec(s, seconds)[0].pts <= clip_cutoff(s, seconds)
            &&& extract_spec(s, seconds).len() > s.len() - scan_end(s, clip_cutoff(s, seconds), 0)
        },
{
    let cutoff = clip_cutoff(s, seconds);
    let e = scan_end(s, cutoff, 0);
    lemma_scan_end_bounds(s, cutoff, 0);
    lemma_scan_end_prefix(s, cutoff, 0);
    lemma_last_keyframe_bounds(s, e);
    lemma_first_keyframe_bounds(s, 0);
    lemma_clip_start_in_bounds(s, seconds);
    lemma_first_keyframe_none(s, 0);
    match last_keyframe_before(s, e) {
        Some(k) => {
            lemma_first_keyframe_exists(s, 0, k);
        },
        None => {},
    }
    let out = extract_spec(s, seconds);
    assert(out =~= s.subrange(s.len() - out.len(), s.len() as int));
}

proof fn lemma_scan_end_prefix(s: Seq<FrameView>, cutoff: int, i: int)
    requires
        0 <= i <= s.len(),
        forall|k: int| 0 <= k < i ==> s[k].pts <= cutoff,
    ensures
        forall|k: int| 0 <= k < scan_end(s, cutoff, i) ==> s[k].pts <= cutoff,
    decreases s.len() - i,
{
    if i < s.len() && s[i].pts <= cutoff {
        lemma_scan_end_prefix(s, cutoff, i + 1);
    }
}

proof fn lemma_first_keyframe_none(s: Seq<FrameView>, i: int)
    requires
        0 <= i,
    ensures
        first_keyframe_from(s, i) is None ==> forall|k: int| i <= k < s.len() ==> !s[k].keyframe,
    decreases s.len() - i,
{
    if i < s.len() && !s[i].keyframe {
        lemma_first_keyframe_none(s, i + 1);
    }
}

proof fn lemma_first_keyframe_exists(s: Seq<FrameView>, i: int, k: int)
    requires
        0 <= i <= k < s.len(),
        s[k].keyframe,
    ensures
        first_keyframe_from(s, i) is Some,
    decreases s.len() - i,
{
    if !s[i].keyframe {
        lemma_first_keyframe_exists(s, i + 1, k);
    }
}


/// What a buffer holds after the frames `pushes` were pushed, in order, into
/// an empty one.
pub open spec fn pushed_history(pushes: Seq<FrameView>, window: int, max_bytes: int) -> Seq<
    FrameView,
>
    decreases pushes.len(),
{
    if pushes.len() == 0 {
        Seq::empty()
    } else {
        after_push(pushed_history(pushes.drop_last(), window, max_bytes), pushes.last(), window, max_bytes)
    }
}

proof fn lemma_suffix_trans(a: Seq<FrameView>, b: Seq<FrameView>, c: Seq<FrameView>)
    requires
        is_suffix_of(a, b),
        is_suffix_of(b, c),
    ensures
        is_suffix_of(a, c),
{
    assert forall|i: int| 0 <= i < a.len() implies a[i] == c[c.len() - a.len() + i] by {
        assert(a[i] == b[b.len() - a.len() + i]);
        assert(b[b.len() - a.len() + i] == c[c.len() - b.len() + (b.len() - a.len() + i)]);
    }
    assert(a =~= c.subrange(c.len() - a.len(), c.len() as int));
}

/// Whatever was pushed, the buffer holds a contiguous tail of everything
/// pushed so far, in push order, ending with the newest frame.
pub proof fn law_push_history_is_a_suffix(pushes: Seq<FrameView>, window: int, max_bytes: int)
    requires
        window >= 0,
    ensures
        is_suffix_of(pushed_history(pushes, window, max_bytes), pushes),
        pushes.len() > 0 ==> pushed_history(pushes, window, max_bytes).len() > 0
            && pushed_history(pushes, window, max_bytes).last() == pushes.last(),
    decreases pushes.len(),
{
    if pushes.len() == 0 {
        assert(pushes.subrange(0, 0) =~= Seq::<FrameView>::empty());
    } else {
        let p = pushes.drop_last();
        let x = pushes.last();
        let h = pushed_history(p, window, max_bytes);
        law_push_history_is_a_suffix(p, window, max_bytes);
        law_push_keeps_newest(h, x, window, max_bytes);
        assert(p.push(x) =~= pushes);
        assert(h.push(x) =~= pushes.subrange(pushes.len() - (h.len() + 1), pushes.len() as int))
            by {
            assert forall|i: int| 0 <= i < h.len() implies h[i] == p[p.len() - h.len() + i] by {
                assert(h[i] == p.subrange(p.len() - h.len(), p.len() as int)[i]);
            }
        }
        lemma_suffix_trans(after_push(h, x, window, max_bytes), h.push(x), pushes);
    }
}

/// Among the first `end` frames, the newest keyframe at or before `cutoff`.
pub open spec fn newest_keyframe_by(s: Seq<FrameView>, cutoff: int, end: int) -> Option<int>
    decreases end,
{
    if end <= 0 {
        None
    } else if s[end - 1].keyframe && s[end - 1].pts <= cutoff {
        Some(end - 1)
    } else {
        newest_keyframe_by(s, cutoff, end - 1)
    }
}

proof fn lemma_newest_keyframe_by_props(s: Seq<FrameView>, cutoff: int, end: int)
    requires
        end <= s.len(),
    ensures
        newest_keyframe_by(s, cutoff, end) matches Some(k) ==> {
            &&& 0 <= k < end
            &&& s[k].keyframe
            &&& s[k].pts <= cutoff
            &&& forall|j: int| k < j < end ==> !(#[trigger] s[j].keyframe && s[j].pts <= cutoff)
        },
        newest_keyframe_by(s, cutoff, end) is None ==> forall|j: int|
            0 <= j < end ==> !(#[trigger] s[j].keyframe && s[j].pts <= cutoff),
    decreases end,
{
    if end > 0 {
        lemma_newest_keyframe_by_props(s, cutoff, end - 1);
    }
}

/// Past the scan's end nothing is at or before the cutoff, so the newest
/// keyframe at or before it lies before the scan's end.
proof fn lemma_newest_keyframe_before_scan_end(s: Seq<FrameView>, cutoff: int, end: int)
    requires
        scan_end(s, cutoff, 0) <= end <= s.len(),
        forall|j: int| scan_end(s, cutoff, 0) <= j < s.len() ==> #[trigger] s[j].pts > cutoff,
    ensures
        newest_keyframe_by(s, cutoff, end) == newest_keyframe_by(s, cutoff, scan_end(s, cutoff, 0)),
    decreases end,
{
    if end > scan_end(s, cutoff, 0) {
        assert(s[end - 1].pts > cutoff);
        lemma_newest_keyframe_before_scan_end(s, cutoff, end - 1);
    }
}

/// Before the scan's end everything is at or before the cutoff, so the
/// newest keyframe at or before it is just the newest keyframe.
proof fn lemma_newest_keyframe_is_last_keyframe(s: Seq<FrameView>, cutoff: int, end: int)
    requires
        0 <= end <= s.len(),
        forall|j: int| 0 <= j < end ==> #[trigger] s[j].pts <= cutoff,
    ensures
        newest_keyframe_by(s, cutoff, end) == last_keyframe_before(s, end),
    decreases end,
{
    if end > 0 {
        lemma_newest_keyframe_is_last_keyframe(s, cutoff, end - 1);
    }
}

proof fn lemma_scan_end_stops_past_cutoff(s: Seq<FrameView>, cutoff: int, i: int)
    requires
        0 <= i <= s.len(),
    ensures
        scan_end(s, cutoff, i) < s.len() ==> s[scan_end(s, cutoff, i)].pts > cutoff,
    decreases s.len() - i,
{
    if i < s.len() && s[i].pts <= cutoff {
        lemma_scan_end_stops_past_cutoff(s, cutoff, i + 1);
    }
}

/// With frames in presentation order, a saved clip starts at the newest
/// keyframe at or before the cutoff (`seconds` before the newest frame); when
/// no keyframe is that old, at the oldest keyframe held; and it is empty
/// only when the buffer holds no keyframe.
pub proof fn law_clip_starts_at_newest_keyframe_by_cutoff(s: Seq<FrameView>, seconds: int)
    requires
        s.len() > 0,
        pts_sorted(s),
    ensures
        ({
            let c = clip_cutoff(s, seconds);
            let n = s.len() as int;
            &&& extract_spec(s, seconds) == match newest_keyframe_by(s, c, n) {
                Some(k) => s.subrange(k, n),
                None => match first_keyframe_from(s, 0) {
                    Some(k) => s.subrange(k, n),
                    None => Seq::<FrameView>::empty(),
                },
            }
            &&& newest_keyframe_by(s, c, n) matches Some(k) ==> {
                &&& s[k].keyframe
                &&& s[k].pts <= c
                &&& forall|j: int| k < j < n && #[trigger] s[j].keyframe ==> s[j].pts > c
            }
            &&& newest_keyframe_by(s, c, n) is None ==> forall|j: int|
                0 <= j < n && #[trigger] s[j].keyframe ==> s[j].pts > c
            &&& first_keyframe_from(s, 0) matches Some(k) ==> s[k].keyframe && forall|j: int|
                0 <= j < k ==> !(#[trigger] s[j].keyframe)
        }),
{
    let c = clip_cutoff(s, seconds);
    let n = s.len() as int;
    let e = scan_end(s, c, 0);
    lemma_scan_end_bounds(s, c, 0);
    lemma_scan_end_prefix(s, c, 0);
    lemma_scan_end_stops_past_cutoff(s, c, 0);
    assert forall|j: int| e <= j < n implies #[trigger] s[j].pts > c by {
        assert(s[e].pts <= s[j].pts);
    }
    lemma_newest_keyframe_before_scan_end(s, c, n);
    lemma_newest_keyframe_is_last_keyframe(s, c, e);
    lemma_newest_keyframe_by_props(s, c, n);
    lemma_first_keyframe_bounds(s, 0);
    lemma_first_keyframe_before(s, 0);
}

proof fn lemma_first_keyframe_before(s: Seq<FrameView>, i: int)
    requires
        0 <= i,
    ensures
        first_keyframe_from(s, i) matches Some(k) ==> forall|j: int|
            i <= j < k ==> !(#[trigger] s[j].keyframe),
    decreases s.len() - i,
{
    if i < s.len() && !s[i].keyframe {
        lemma_first_keyframe_before(s, i + 1);
    }
}


/// Payload bytes of the frames of `s` from index `j` on.
pub open spec fn bytes_from(s: Seq<FrameView>, j: int) -> nat {
    frames_bytes(s.subrange(j, s.len() as int))
}

/// The frames of `s` from index `j` on could all be held after a push
/// with cutoff `cutoff` and cap `max_bytes`: none is older than the cutoff
/// and together they fit the cap.
pub open spec fn admissible_from(s: Seq<FrameView>, j: int, cutoff: int, max_bytes: int) -> bool {
    &&& 0 <= j < s.len()
    &&& forall|i: int| j <= i < s.len() ==> #[trigger] s[i].pts >= cutoff
    &&& bytes_from(s, j) <= max_bytes
}

/// Keeping the frames from `k` on keeps the longest admissible tail of `s`,
/// or, when even the newest frame alone is over the cap, just that frame.
pub open spec fn keeps_longest_admissible(s: Seq<FrameView>, k: int, cutoff: int, max_bytes: int) -> bool {
    ||| admissible_from(s, k, cutoff, max_bytes) && forall|j: int|
        0 <= j < k ==> !#[trigger] admissible_from(s, j, cutoff, max_bytes)
    ||| k == s.len() - 1 && !admissible_from(s, k, cutoff, max_bytes)
}

proof fn lemma_bytes_from_step(s: Seq<FrameView>, j: int)
    requires
        0 <= j < s.len(),
    ensures
        bytes_from(s, j) == s[j].data.len() + bytes_from(s, j + 1),
{
    assert(s.subrange(j, s.len() as int).drop_first() =~= s.subrange(j + 1, s.len() as int));
}

/// Fewer frames never weigh more.
proof fn lemma_bytes_from_monotone(s: Seq<FrameView>, j: int, k: int)
    requires
        0 <= j <= k <= s.len(),
    ensures
        bytes_from(s, j) >= bytes_from(s, k),
    decreases k - j,
{
    if j < k {
        lemma_bytes_from_step(s, j);
        lemma_bytes_from_monotone(s, j + 1, k);
    }
}

/// The same frames weigh the same.
proof fn lemma_bytes_from_shift(s: Seq<FrameView>, t: Seq<FrameView>, off: int, j: int)
    requires
        0 <= off <= s.len(),
        t == s.subrange(off, s.len() as int),
        0 <= j <= t.len(),
    ensures
        bytes_from(t, j) == bytes_from(s, off + j),
{
    assert(t.subrange(j, t.len() as int) =~= s.subrange(off + j, s.len() as int));
}

/// Time eviction on frames in presentation order drops exactly the frames
/// older than the cutoff.
proof fn lemma_drop_expired_exact(t: Seq<FrameView>, c: int)
    requires
        pts_sorted(t),
    ensures
        ({
            let e = t.len() - drop_expired(t, c).len();
            &&& 0 <= e <= t.len()
            &&& drop_expired(t, c) == t.subrange(e, t.len() as int)
            &&& forall|i: int| 0 <= i < e ==> #[trigger] t[i].pts < c
            &&& forall|i: int| e <= i < t.len() ==> #[trigger] t[i].pts >= c
        }),
    decreases t.len(),
{
    lemma_drop_expired_suffix(t, c);
    if t.len() > 0 && t[0].pts < c {
        let r = t.drop_first();
        assert(pts_sorted(r)) by {
            assert forall|i: int, j: int| 0 <= i <= j < r.len() implies r[i].pts <= r[j].pts by {
                assert(r[i] == t[i + 1] && r[j] == t[j + 1]);
            }
        }
        lemma_drop_expired_exact(r, c);
        let e = t.len() - drop_expired(t, c).len();
        assert forall|i: int| 0 <= i < e implies #[trigger] t[i].pts < c by {
            if i > 0 {
                assert(t[i] == r[i - 1]);
            }
        }
        assert forall|i: int| e <= i < t.len() implies #[trigger] t[i].pts >= c by {
            assert(t[i] == r[i - 1]);
        }
    } else if t.len() > 0 {
        assert forall|i: int| 0 <= i < t.len() implies #[trigger] t[i].pts >= c by {
            assert(t[0].pts <= t[i].pts);
        }
    }
}

/// RAM eviction drops frames from the front exactly while the rest is over
/// the cap, keeping at least one.
proof fn lemma_drop_over_budget_exact(t: Seq<FrameView>, m: int)
    requires
        t.len() > 0,
    ensures
        ({
            let o = t.len() - drop_over_budget(t, m).len();
            &&& 0 <= o < t.len()
            &&& drop_over_budget(t, m) == t.subrange(o, t.len() as int)
            &&& forall|i: int| 0 <= i < o ==> #[trigger] bytes_from(t, i) > m
            &&& bytes_from(t, o) <= m || o == t.len() - 1
        }),
    decreases t.len(),
{
    lemma_drop_over_budget_props(t, m);
    assert(t.subrange(0, t.len() as int) =~= t);
    if t.len() > 1 && frames_bytes(t) > m {
        let r = t.drop_first();
        lemma_drop_over_budget_exact(r, m);
        let o = t.len() - drop_over_budget(t, m).len();
        assert forall|i: int| 0 <= i < o implies #[trigger] bytes_from(t, i) > m by {
            if i > 0 {
                lemma_bytes_from_shift(t, r, 1, i - 1);
            }
        }
        lemma_bytes_from_shift(t, r, 1, o - 1);
    }
}

/// One push on frames in presentation order keeps the longest admissible
/// tail of the buffer plus the new frame.
proof fn lemma_one_push_keeps_longest(t: Seq<FrameView>, c: int, m: int)
    requires
        t.len() > 0,
        pts_sorted(t),
        t.last().pts >= c,
    ensures
        ({
            let r = drop_over_budget(drop_expired(t, c), m);
            let k = t.len() - r.len();
            &&& 0 <= k < t.len()
            &&& r == t.subrange(k, t.len() as int)
            &&& keeps_longest_admissible(t, k, c, m)
        }),
{
    lemma_drop_expired_exact(t, c);
    let ex = drop_expired(t, c);
    let e = t.len() - ex.len();
    assert(e < t.len()) by {
        if e == t.len() {
            assert(t[t.len() - 1].pts < c);
        }
    }
    lemma_drop_over_budget_exact(ex, m);
    let r = drop_over_budget(ex, m);
    let o = ex.len() - r.len();
    let k = e + o;
    assert(r =~= t.subrange(k, t.len() as int));
    lemma_bytes_from_shift(t, ex, e, o);
    assert forall|j: int| 0 <= j < k implies !#[trigger] admissible_from(t, j, c, m) by {
        if j < e {
            assert(t[j].pts < c);
        } else {
            lemma_bytes_from_shift(t, ex, e, j - e);
            assert(bytes_from(ex, j - e) > m);
        }
    }
}

proof fn lemma_sorted_prefix(s: Seq<FrameView>, n: int)
    requires
        pts_sorted(s),
        0 <= n <= s.len(),
    ensures
        pts_sorted(s.subrange(0, n)),
{
    assert forall|i: int, j: int| 0 <= i <= j < n implies s.subrange(0, n)[i].pts <= s.subrange(
        0,
        n,
    )[j].pts by {
        assert(s[i].pts <= s[j].pts);
    }
}

/// With frames pushed in presentation order, the buffer holds the longest
/// tail of everything pushed that is within the retention window of the
/// newest frame and fits the RAM cap, or just the newest frame when that
/// alone is over the cap: nothing both limits allow keeping is ever evicted.
pub proof fn law_push_keeps_the_longest_admissible_tail(
    pushes: Seq<FrameView>,
    window: int,
    max_bytes: int,
)
    requires
        pushes.len() > 0,
        pts_sorted(pushes),
        window >= 0,
    ensures
        ({
            let h = pushed_history(pushes, window, max_bytes);
            let k = pushes.len() - h.len();
            &&& 0 <= k < pushes.len()
            &&& h == pushes.subrange(k, pushes.len() as int)
            &&& keeps_longest_admissible(pushes, k, pushes.last().pts - window, max_bytes)
        }),
    decreases pushes.len(),
{
    let n = pushes.len() as int;
    let p = pushes.drop_last();
    let x = pushes.last();
    let c = x.pts - window;
    let h0 = pushed_history(p, window, max_bytes);
    law_push_history_is_a_suffix(p, window, max_bytes);
    let k0 = p.len() - h0.len();
    let t = h0.push(x);
    assert(t =~= pushes.subrange(k0, n)) by {
        assert forall|i: int| 0 <= i < h0.len() implies h0[i] == p[k0 + i] by {
            assert(h0[i] == p.subrange(k0, p.len() as int)[i]);
        }
    }
    assert(pts_sorted(t)) by {
        assert forall|i: int, j: int| 0 <= i <= j < t.len() implies t[i].pts <= t[j].pts by {
            assert(t[i] == pushes[k0 + i] && t[j] == pushes[k0 + j]);
        }
    }
    lemma_one_push_keeps_longest(t, c, max_bytes);
    let h = pushed_history(pushes, window, max_bytes);
    assert(h == drop_over_budget(drop_expired(t, c), max_bytes));
    let r = t.len() - h.len();
    let k = k0 + r;
    assert(h =~= pushes.subrange(k, n));
    // Admissibility from `k0 + j` in the whole history is admissibility from
    // `j` in `t`.
    assert forall|j: int| 0 <= j < t.len() implies admissible_from(pushes, k0 + j, c, max_bytes)
        == admissible_from(t, j, c, max_bytes) by {
        lemma_bytes_from_shift(pushes, t, k0, j);
        if admissible_from(t, j, c, max_bytes) {
            assert forall|i: int| k0 + j <= i < n implies #[trigger] pushes[i].pts >= c by {
                assert(pushes[i] == t[i - k0]);
            }
        }
        if admissible_from(pushes, k0 + j, c, max_bytes) {
            assert forall|i: int| j <= i < t.len() implies #[trigger] t[i].pts >= c by {
                assert(pushes[k0 + i] == t[i]);
            }
        }
    }
    // Nothing before `k0` is admissible: it was already evicted for good.
    if k0 > 0 {
        assert(p.len() > 0);
        lemma_sorted_prefix(pushes, n - 1);
        assert(p =~= pushes.subrange(0, n - 1));
        law_push_keeps_the_longest_admissible_tail(p, window, max_bytes);
        let c0 = p.last().pts - window;
        assert(c0 <= c) by {
            assert(pushes[n - 2].pts <= pushes[n - 1].pts);
        }
        assert forall|j: int| 0 <= j < k0 implies !#[trigger] admissible_from(
            pushes,
            j,
            c,
            max_bytes,
        ) by {
            if admissible_from(pushes, j, c, max_bytes) {
                // Drop the newest frame: still admissible for the earlier push.
                lemma_frames_bytes_push(p.subrange(j, n - 1), x);
                assert(pushes.subrange(j, n) =~= p.subrange(j, n - 1).push(x));
                assert(bytes_from(p, j) <= bytes_from(pushes, j));
                assert forall|i: int| j <= i < p.len() implies #[trigger] p[i].pts >= c0 by {
                    assert(p[i] == pushes[i]);
                }
                assert(admissible_from(p, j, c0, max_bytes));
                if k0 == p.len() - 1 && !admissible_from(p, k0, c0, max_bytes) {
                    assert forall|i: int| k0 <= i < p.len() implies #[trigger] p[i].pts >= c0 by {
                        assert(p[i] == pushes[i]);
                    }
                    lemma_bytes_from_monotone(p, j, k0);
                }
            }
        }
    }
    assert(forall|j: int| 0 <= j < k0 ==> !#[trigger] admissible_from(pushes, j, c, max_bytes));
    assert(admissible_from(pushes, k, c, max_bytes) == admissible_from(t, r, c, max_bytes));
    if admissible_from(t, r, c, max_bytes) && forall|j: int|
        0 <= j < r ==> !#[trigger] admissible_from(t, j, c, max_bytes) {
        assert forall|j: int| 0 <= j < k implies !#[trigger] admissible_from(
            pushes,
            j,
            c,
            max_bytes,
        ) by {
            if j >= k0 {
                assert(admissible_from(pushes, k0 + (j - k0), c, max_bytes) == admissible_from(
                    t,
                    j - k0,
                    c,
                    max_bytes,
                ));
            }
        }
    } else {
        assert(r == t.len() - 1);
        assert(k == n - 1);
    }
}

} // verus!
