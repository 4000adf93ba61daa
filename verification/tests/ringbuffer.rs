use lowresourcecapture::ringbuffer::{EncodedFrame, RingBuffer, HNS_PER_SEC};

fn frame(pts_sec: f64, dur_sec: f64, key: bool, size: usize) -> EncodedFrame {
    EncodedFrame {
        data: vec![0u8; size],
        pts_100ns: (pts_sec * HNS_PER_SEC as f64) as i64,
        dur_100ns: (dur_sec * HNS_PER_SEC as f64) as i64,
        keyframe: key,
    }
}

/// Build a buffer of `n` seconds at 60fps with a keyframe every 2s.
fn fill(rb: &mut RingBuffer, n_secs: u32) {
    let fps = 60u32;
    let total = n_secs * fps;
    for i in 0..total {
        let t = i as f64 / fps as f64;
        let key = i % (2 * fps) == 0;
        rb.push(frame(t, 1.0 / fps as f64, key, 1000));
    }
}

#[test]
fn evicts_beyond_time_window() {
    let mut rb = RingBuffer::new(10, 4096);
    fill(&mut rb, 30);
    let frames = rb.extract_last(60);
    let earliest = frames.first().unwrap().pts_100ns as f64 / HNS_PER_SEC as f64;
    assert!(earliest >= 18.0, "earliest was {earliest}");
}

#[test]
fn extract_snaps_to_keyframe() {
    let mut rb = RingBuffer::new(60, 4096);
    fill(&mut rb, 30);
    let frames = rb.extract_last(5);
    assert!(frames.first().unwrap().keyframe, "clip must start on a keyframe");
    let span = (frames.last().unwrap().pts_100ns - frames.first().unwrap().pts_100ns) as f64
        / HNS_PER_SEC as f64;
    assert!(span >= 5.0 && span <= 7.0, "span was {span}");
}

#[test]
fn respects_ram_cap() {
    let mut rb = RingBuffer::new(3600, 1);
    fill(&mut rb, 60);
    assert!(rb.bytes_used() <= 1024 * 1024, "used {}", rb.bytes_used());
}

#[test]
fn empty_buffer_extract_is_empty() {
    let rb = RingBuffer::new(60, 1024);
    assert!(rb.extract_last(10).is_empty());
}

// ---- further cases ----

fn raw(pts: i64, key: bool, size: usize) -> EncodedFrame {
    EncodedFrame { data: vec![7u8; size], pts_100ns: pts, dur_100ns: 1, keyframe: key }
}

#[test]
fn push_keeps_newest_frame_and_counts_bytes() {
    let mut rb = RingBuffer::new(1, 1);
    assert!(rb.is_empty());
    rb.push(raw(0, true, 10));
    rb.push(raw(5, false, 20));
    assert!(!rb.is_empty());
    assert_eq!(rb.bytes_used(), 30);
    let all = rb.extract_last(100);
    assert_eq!(all.len(), 2);
    assert_eq!(all[1].pts_100ns, 5);
    assert_eq!(all[1].data, vec![7u8; 20]);
}

#[test]
fn time_window_drops_exactly_the_old_frames() {
    // 1 s window: a frame at 0 and one at exactly 1 s are both kept; a push
    // at 1 s + 1 tick drops the frame at 0.
    let mut rb = RingBuffer::new(1, 1024);
    rb.push(raw(0, true, 1));
    rb.push(raw(HNS_PER_SEC, true, 1));
    assert_eq!(rb.bytes_used(), 2);
    rb.push(raw(HNS_PER_SEC + 1, false, 1));
    assert_eq!(rb.bytes_used(), 2);
    assert_eq!(rb.extract_last(100)[0].pts_100ns, HNS_PER_SEC);
}

#[test]
fn ram_cap_keeps_a_single_oversized_frame() {
    let mut rb = RingBuffer::new(60, 1);
    rb.push(raw(0, true, 10));
    rb.push(raw(1, true, 2 * 1024 * 1024));
    assert_eq!(rb.bytes_used(), 2 * 1024 * 1024, "the newest frame is never dropped");
    let all = rb.extract_last(1);
    assert_eq!(all.len(), 1);
    assert_eq!(all[0].pts_100ns, 1);
}

#[test]
fn extract_without_keyframe_before_cutoff_uses_earliest_keyframe() {
    let mut rb = RingBuffer::new(600, 1024);
    rb.push(raw(0, false, 1));
    rb.push(raw(10 * HNS_PER_SEC, true, 1));
    rb.push(raw(20 * HNS_PER_SEC, false, 1));
    // cutoff = 20 s - 15 s = 5 s; no keyframe at or before 5 s.
    let clip = rb.extract_last(15);
    assert_eq!(clip.len(), 2);
    assert_eq!(clip[0].pts_100ns, 10 * HNS_PER_SEC);
}

#[test]
fn extract_with_no_keyframe_at_all_is_empty() {
    let mut rb = RingBuffer::new(600, 1024);
    rb.push(raw(0, false, 1));
    rb.push(raw(1, false, 1));
    assert!(rb.extract_last(1).is_empty());
}

#[test]
fn extract_picks_newest_keyframe_before_cutoff() {
    let mut rb = RingBuffer::new(600, 1024);
    for s in 0..10i64 {
        rb.push(raw(s * HNS_PER_SEC, s % 3 == 0, 1));
    }
    // newest 9 s, cutoff 9 - 4 = 5 s; keyframes at 0, 3, 6, 9: 3 s is the
    // newest at or before the cutoff.
    let clip = rb.extract_last(4);
    assert_eq!(clip[0].pts_100ns, 3 * HNS_PER_SEC);
    assert_eq!(clip.len(), 7);
}
