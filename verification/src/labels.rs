//! The label store — what you told the analyzer, kept next to what it guessed.
//!
//! The rule that shapes it: re-running detection must never discard a ruling
//! already made. A detection that re-finds an existing detected label (same
//! kind, nearest within a tolerance) refreshes that label's score (and, while
//! nobody has looked at it, its time) and leaves the verdict alone; a hand
//! mark it re-finds is left exactly as it is; a detection matching nothing is
//! added unreviewed. The set is kept in time order.
//!
//! Times are whole microseconds into the video; scores travel in the
//! caller's numeric type `T` and are never inspected here.
use crate::event::{Event, Kind};
use vstd::prelude::*;

verus! {

#[derive(Debug, Clone, Copy, PartialEq, Eq, Structural)]
pub enum Origin {
    /// The detector proposed it.
    Detected,
    /// Marked by hand — the detector missed it entirely.
    Manual,
}

/// One label: a detection or a hand mark, with your ruling on it.
#[derive(Debug, Clone, Copy)]
pub struct Label<T> {
    pub kind: Kind,
    /// Microseconds into the source video.
    pub at: i64,
    pub origin: Origin,
    /// `None` = not yet reviewed. `Some(false)` is a real datum (a confirmed
    /// false positive), not an absence.
    pub confirmed: Option<bool>,
    pub score: T,
}

impl<T> Label<T> {
    pub open spec fn is_reviewed(self) -> bool {
        self.confirmed is Some
    }

    /// True once ruled on either way.
    pub fn reviewed(&self) -> (r: bool)
        ensures
            r == self.is_reviewed(),
    {
        self.confirmed.is_some()
    }
}

/// The labels of one source video.
pub struct LabelSet<T> {
    /// Source video this describes, for provenance when files move around.
    pub video: String,
    /// Game build that produced the detections.
    pub game_build: String,
    pub labels: Vec<Label<T>>,
}

/// An existing label re-found by a detection. A hand mark is left exactly as
/// it is: the detector finding it again adds nothing. A detected label's
/// score refreshes, its time moves only while it is unreviewed, and its kind,
/// origin and ruling stay.
pub open spec fn refound<T>(l: Label<T>, at: i64, score: T) -> Label<T> {
    if l.origin == Origin::Manual {
        l
    } else {
        Label {
            kind: l.kind,
            at: if !l.is_reviewed() {
                at
            } else {
                l.at
            },
            origin: l.origin,
            confirmed: l.confirmed,
            score,
        }
    }
}

/// A detection that matched nothing: appended, unreviewed.
pub open spec fn fresh_detection<T>(kind: Kind, at: i64, score: T) -> Label<T> {
    Label { kind, at, origin: Origin::Detected, confirmed: None, score }
}

/// A hand mark: confirmed by construction.
pub open spec fn hand_mark<T>(kind: Kind, at: i64, score: T) -> Label<T> {
    Label { kind, at, origin: Origin::Manual, confirmed: Some(true), score }
}

/// `hit` names a label of the detection's own kind, or nothing.
pub open spec fn hit_is_valid<T>(labels: Seq<Label<T>>, kind: Kind, hit: Option<usize>) -> bool {
    hit matches Some(i) ==> i < labels.len() && labels[i as int].kind == kind
}

/// The labels after folding in one detection that re-found `hit`.
pub open spec fn fold_spec<T>(
    labels: Seq<Label<T>>,
    kind: Kind,
    at: i64,
    score: T,
    hit: Option<usize>,
) -> Seq<Label<T>> {
    match hit {
        Some(i) => labels.update(i as int, refound(labels[i as int], at, score)),
        None => labels.push(fresh_detection(kind, at, score)),
    }
}

/// The rulings of a label sequence, in order.
pub open spec fn rulings_of<T>(labels: Seq<Label<T>>) -> Seq<Option<bool>> {
    labels.map_values(|l: Label<T>| l.confirmed)
}

/// The counts after one more ruling.
pub open spec fn tally_step(t: (nat, nat, nat), r: Option<bool>) -> (nat, nat, nat) {
    match r {
        Some(true) => (t.0 + 1, t.1, t.2),
        Some(false) => (t.0, t.1 + 1, t.2),
        None => (t.0, t.1, t.2 + 1),
    }
}

/// Counts of (confirmed, rejected, pending) rulings.
pub open spec fn tally_spec(rulings: Seq<Option<bool>>) -> (nat, nat, nat)
    decreases rulings.len(),
{
    if rulings.len() == 0 {
        (0, 0, 0)
    } else {
        tally_step(tally_spec(rulings.drop_last()), rulings.last())
    }
}

/// A confirmed label as an event.
pub open spec fn as_confirmed_event<T>(l: Label<T>) -> Event<T> {
    Event { kind: l.kind, at: l.at, score: l.score, confirmed: Some(true) }
}

/// The confirmed labels, in order, as events.
pub open spec fn confirmed_spec<T>(labels: Seq<Label<T>>) -> Seq<Event<T>>
    decreases labels.len(),
{
    if labels.len() == 0 {
        Seq::empty()
    } else {
        let rest = confirmed_spec(labels.drop_last());
        if labels.last().confirmed == Some(true) {
            rest.push(as_confirmed_event(labels.last()))
        } else {
            rest
        }
    }
}

/// The unreviewed labels, in order.
pub open spec fn pending_spec<T>(labels: Seq<Label<T>>) -> Seq<Label<T>>
    decreases labels.len(),
{
    if labels.len() == 0 {
        Seq::empty()
    } else {
        let rest = pending_spec(labels.drop_last());
        if !labels.last().is_reviewed() {
            rest.push(labels.last())
        } else {
            rest
        }
    }
}

/// Where a label at time `t` goes in a run in time order: after the last
/// label not later than `t`.
pub open spec fn time_insert_point<T>(s: Seq<Label<T>>, t: i64) -> int
    decreases s.len(),
{
    if s.len() == 0 {
        0
    } else if s.last().at <= t {
        s.len() as int
    } else {
        time_insert_point(s.drop_last(), t)
    }
}

/// `s` stably sorted by time: each label placed after every earlier one not
/// later than it.
pub open spec fn sort_by_time_spec<T>(s: Seq<Label<T>>) -> Seq<Label<T>>
    decreases s.len(),
{
    if s.len() == 0 {
        Seq::empty()
    } else {
        let r = sort_by_time_spec(s.drop_last());
        r.insert(time_insert_point(r, s.last().at), s.last())
    }
}

pub open spec fn sorted_by_time<T>(s: Seq<Label<T>>) -> bool {
    forall|i: int, j: int| 0 <= i <= j < s.len() ==> (#[trigger] s[i]).at <= (#[trigger] s[j]).at
}

/// How far apart two times are.
pub open spec fn distance(a: i64, b: i64) -> int {
    if a >= b {
        a - b
    } else {
        b - a
    }
}

/// Whether `l` is a label a detection of `kind` at `at` can re-find.
pub open spec fn within_reach<T>(l: Label<T>, kind: Kind, at: i64, tol: u64) -> bool {
    l.kind == kind && distance(l.at, at) <= tol
}

/// Among the first `n` labels, the one a detection of `kind` at `at`
/// re-finds: the nearest within `tol`, the first of equally near ones.
pub open spec fn nearest_hit<T>(labels: Seq<Label<T>>, kind: Kind, at: i64, tol: u64, n: int) -> Option<
    usize,
>
    decreases n,
{
    if n <= 0 {
        None
    } else {
        let best = nearest_hit(labels, kind, at, tol, n - 1);
        if within_reach(labels[n - 1], kind, at, tol) && match best {
            None => true,
            Some(b) => distance(labels[n - 1].at, at) < distance(labels[b as int].at, at),
        } {
            Some((n - 1) as usize)
        } else {
            best
        }
    }
}

/// The labels after folding in a detection run in order, each detection
/// re-finding its nearest label (before the set is put in time order).
pub open spec fn merge_run<T>(labels: Seq<Label<T>>, dets: Seq<Event<T>>, tol: u64) -> Seq<
    Label<T>,
>
    decreases dets.len(),
{
    if dets.len() == 0 {
        labels
    } else {
        let before = merge_run(labels, dets.drop_last(), tol);
        let d = dets.last();
        fold_spec(
            before,
            d.kind,
            d.at,
            d.score,
            nearest_hit(before, d.kind, d.at, tol, before.len() as int),
        )
    }
}

/// How many detections of a run re-found nothing.
pub open spec fn new_in_merge<T>(labels: Seq<Label<T>>, dets: Seq<Event<T>>, tol: u64) -> nat
    decreases dets.len(),
{
    if dets.len() == 0 {
        0
    } else {
        let before = merge_run(labels, dets.drop_last(), tol);
        let d = dets.last();
        new_in_merge(labels, dets.drop_last(), tol) + if nearest_hit(
            before,
            d.kind,
            d.at,
            tol,
            before.len() as int,
        ) is None {
            1nat
        } else {
            0nat
        }
    }
}

proof fn lemma_time_insert_point_bound<T>(s: Seq<Label<T>>, t: i64)
    ensures
        0 <= time_insert_point(s, t) <= s.len(),
    decreases s.len(),
{
    if s.len() > 0 {
        lemma_time_insert_point_bound(s.drop_last(), t);
    }
}

/// The re-found label is one of the first `n`, of the detection's kind, and
/// within reach.
proof fn lemma_nearest_hit_is_valid<T>(labels: Seq<Label<T>>, kind: Kind, at: i64, tol: u64, n: int)
    requires
        n <= labels.len() <= usize::MAX,
    ensures
        hit_is_valid(labels, kind, nearest_hit(labels, kind, at, tol, n)),
        nearest_hit(labels, kind, at, tol, n) matches Some(i) ==> i < n && within_reach(
            labels[i as int],
            kind,
            at,
            tol,
        ),
    decreases n,
{
    if n > 0 {
        lemma_nearest_hit_is_valid(labels, kind, at, tol, n - 1);
    }
}

impl<T: Copy> LabelSet<T> {
    /// An empty label set for `video`, detected against `game_build`.
    pub fn new(video: &str, game_build: &str) -> (s: LabelSet<T>)
        ensures
            s.video@ == video@,
            s.game_build@ == game_build@,
            s.labels@.len() == 0,
    {
        LabelSet { video: video.to_string(), game_build: game_build.to_string(), labels: Vec::new() }
    }

    /// Folds one detection into the set, in place. `hit` is the existing
    /// label of the same kind that the detection re-finds, or `None` when it
    /// re-finds nothing.
    ///
    /// A re-found hand mark is left as it is. A re-found detected label keeps
    /// its kind, origin and ruling; its score refreshes, and its time follows
    /// the detection only while it is unreviewed. Otherwise the detection is
    /// appended unreviewed. Returns whether a label was added.
    pub fn fold_detection(&mut self, kind: Kind, at: i64, score: T, hit: Option<usize>) -> (added:
        bool)
        requires
            hit_is_valid(old(self).labels@, kind, hit),
        ensures
            final(self).labels@ == fold_spec(old(self).labels@, kind, at, score, hit),
            added == (hit is None),
            final(self).video == old(self).video,
            final(self).game_build == old(self).game_build,
    {
        match hit {
            Some(i) => {
                let l = self.labels[i];
                if l.origin == Origin::Manual {
                    return false;
                }
                let new_at = if !l.reviewed() {
                    at
                } else {
                    l.at
                };
                self.labels.set(
                    i,
                    Label {
                        kind: l.kind,
                        at: new_at,
                        origin: l.origin,
                        confirmed: l.confirmed,
                        score,
                    },
                );
                false
            },
            None => {
                self.labels.push(
                    Label { kind, at, origin: Origin::Detected, confirmed: None, score },
                );
                true
            },
        }
    }

    /// Puts the labels in time order; labels at the same time keep their
    /// order (a stable sort).
    pub fn sort_by_time(&mut self)
        ensures
            final(self).labels@ == sort_by_time_spec(old(self).labels@),
            final(self).video == old(self).video,
            final(self).game_build == old(self).game_build,
    {
        let mut sorted: Vec<Label<T>> = Vec::new();
        let mut n: usize = 0;
        while n < self.labels.len()
            invariant
                0 <= n <= self.labels.len(),
                self.labels@ == old(self).labels@,
                self.video == old(self).video,
                self.game_build == old(self).game_build,
                sorted@ == sort_by_time_spec(self.labels@.subrange(0, n as int)),
            decreases self.labels.len() - n,
        {
            let x = self.labels[n];
            assert(self.labels@.subrange(0, n + 1).drop_last() =~= self.labels@.subrange(
                0,
                n as int,
            ));
            let mut j = sorted.len();
            assert(sorted@.subrange(0, j as int) =~= sorted@);
            while j > 0 && sorted[j - 1].at > x.at
                invariant
                    0 <= j <= sorted.len(),
                    time_insert_point(sorted@, x.at) == time_insert_point(
                        sorted@.subrange(0, j as int),
                        x.at,
                    ),
                decreases j,
            {
                assert(sorted@.subrange(0, j as int).drop_last() =~= sorted@.subrange(0, j - 1));
                j = j - 1;
            }
            proof {
                lemma_time_insert_point_bound(sorted@, x.at);
            }
            sorted.insert(j, x);
            n = n + 1;
        }
        assert(self.labels@.subrange(0, self.labels.len() as int) =~= self.labels@);
        self.labels = sorted;
    }

    /// Records a hand-marked event the detector missed: a manual label,
    /// confirmed, carrying `score` (full confidence), with the set then put
    /// in time order. On a set already in time order this places the mark
    /// after every label not later than it (`law_mark_lands_in_time_order`).
    pub fn mark(&mut self, kind: Kind, at: i64, score: T)
        ensures
            final(self).labels@ == sort_by_time_spec(
                old(self).labels@.push(hand_mark(kind, at, score)),
            ),
            final(self).video == old(self).video,
            final(self).game_build == old(self).game_build,
    {
        self.labels.push(Label { kind, at, origin: Origin::Manual, confirmed: Some(true), score });
        self.sort_by_time();
    }

    /// The label a detection re-finds: of its kind, within `tol`
    /// microseconds, the nearest (the first of equally near ones).
    pub fn find_hit(&self, kind: Kind, at: i64, tol: u64) -> (hit: Option<usize>)
        ensures
            hit == nearest_hit(self.labels@, kind, at, tol, self.labels@.len() as int),
    {
        let mut best: Option<usize> = None;
        let mut best_d: i128 = 0;
        let mut i: usize = 0;
        while i < self.labels.len()
            invariant
                0 <= i <= self.labels.len(),
                best == nearest_hit(self.labels@, kind, at, tol, i as int),
                best matches Some(b) ==> b < i && best_d == distance(
                    self.labels@[b as int].at,
                    at,
                ),
            decreases self.labels.len() - i,
        {
            let l = self.labels[i];
            let d: i128 = if l.at >= at {
                l.at as i128 - at as i128
            } else {
                at as i128 - l.at as i128
            };
            if l.kind == kind && d <= tol as i128 && (best.is_none() || d < best_d) {
                best = Some(i);
                best_d = d;
            }
            i = i + 1;
        }
        best
    }

    /// Folds a fresh detection run into the set, preserving every existing
    /// ruling: each detection, in order, re-finds the nearest label of its
    /// kind within `tol` microseconds (see `fold_detection`) or is added
    /// unreviewed; then the set is put in time order. Hand marks are never
    /// touched. Returns how many detections were genuinely new. The set may
    /// grow by one label per detection, so the two lengths together must fit
    /// in memory.
    ///
    /// With `m` the labels before the time sort: every earlier label's place
    /// in `m` keeps its kind, origin and ruling (and its time once reviewed
    /// or hand-marked; a hand mark exactly) and is in the result; every other
    /// label of `m` is a pending detection made from the run; the result is
    /// in time order and holds exactly the labels of `m`.
    pub fn merge_detections(&mut self, detections: &Vec<Event<T>>, tol: u64) -> (added: usize)
        requires
            old(self).labels@.len() + detections@.len() <= usize::MAX,
        ensures
            final(self).labels@ == sort_by_time_spec(
                merge_run(old(self).labels@, detections@, tol),
            ),
            added == new_in_merge(old(self).labels@, detections@, tol),
            sorted_by_time(final(self).labels@),
            final(self).labels@.len() == old(self).labels@.len() + added,
            forall|k: int|
                0 <= k < old(self).labels@.len() ==> keeps_ruling(
                    old(self).labels@[k],
                    #[trigger] merge_run(old(self).labels@, detections@, tol)[k],
                ) && final(self).labels@.contains(merge_run(old(self).labels@, detections@, tol)[k]),
            forall|k: int|
                old(self).labels@.len() <= k < final(self).labels@.len() ==> is_fresh_from(
                    #[trigger] merge_run(old(self).labels@, detections@, tol)[k],
                    detections@,
                ),
            forall|j: int|
                0 <= j < final(self).labels@.len() ==> merge_run(
                    old(self).labels@,
                    detections@,
                    tol,
                ).contains(#[trigger] final(self).labels@[j]),
            tally_spec(rulings_of(final(self).labels@)).0 == tally_spec(
                rulings_of(old(self).labels@),
            ).0,
            tally_spec(rulings_of(final(self).labels@)).1 == tally_spec(
                rulings_of(old(self).labels@),
            ).1,
            tally_spec(rulings_of(final(self).labels@)).2 == tally_spec(
                rulings_of(old(self).labels@),
            ).2 + added,
            final(self).video == old(self).video,
            final(self).game_build == old(self).game_build,
    {
        let mut added: usize = 0;
        let mut i: usize = 0;
        while i < detections.len()
            invariant
                0 <= i <= detections.len(),
                self.labels@ == merge_run(old(self).labels@, detections@.subrange(0, i as int), tol),
                added == new_in_merge(old(self).labels@, detections@.subrange(0, i as int), tol),
                added <= i,
                self.video == old(self).video,
                self.game_build == old(self).game_build,
            decreases detections.len() - i,
        {
            let d = detections[i];
            assert(detections@.subrange(0, i + 1).drop_last() =~= detections@.subrange(
                0,
                i as int,
            ));
            assert(detections@.subrange(0, i + 1).last() == d);
            let hit = self.find_hit(d.kind, d.at, tol);
            let count = self.labels.len();
            proof {
                assert(self.labels@.len() == count);
                lemma_nearest_hit_is_valid(self.labels@, d.kind, d.at, tol, self.labels@.len() as int);
            }
            if self.fold_detection(d.kind, d.at, d.score, hit) {
                added = added + 1;
            }
            i = i + 1;
        }
        assert(detections@.subrange(0, detections.len() as int) =~= detections@);
        self.sort_by_time();
        proof {
            law_merge_keeps_every_ruling(old(self).labels@, detections@, tol);
        }
        added
    }

    /// Everything confirmed as real, in the set's order, as events.
    pub fn confirmed(&self) -> (evs: Vec<Event<T>>)
        ensures
            evs@ == confirmed_spec(self.labels@),
    {
        let mut out: Vec<Event<T>> = Vec::new();
        let mut i: usize = 0;
        while i < self.labels.len()
            invariant
                0 <= i <= self.labels.len(),
                out@ == confirmed_spec(self.labels@.subrange(0, i as int)),
            decreases self.labels.len() - i,
        {
            assert(self.labels@.subrange(0, i + 1).drop_last() =~= self.labels@.subrange(
                0,
                i as int,
            ));
            let l = self.labels[i];
            if l.confirmed == Some(true) {
                out.push(Event { kind: l.kind, at: l.at, score: l.score, confirmed: Some(true) });
            }
            i = i + 1;
        }
        assert(self.labels@.subrange(0, self.labels.len() as int) =~= self.labels@);
        out
    }

    /// The labels still awaiting a verdict — the review queue, in order.
    pub fn pending(&self) -> (ls: Vec<Label<T>>)
        ensures
            ls@ == pending_spec(self.labels@),
    {
        let mut out: Vec<Label<T>> = Vec::new();
        let mut i: usize = 0;
        while i < self.labels.len()
            invariant
                0 <= i <= self.labels.len(),
                out@ == pending_spec(self.labels@.subrange(0, i as int)),
            decreases self.labels.len() - i,
        {
            assert(self.labels@.subrange(0, i + 1).drop_last() =~= self.labels@.subrange(
                0,
                i as int,
            ));
            let l = self.labels[i];
            if !l.reviewed() {
                out.push(l);
            }
            i = i + 1;
        }
        assert(self.labels@.subrange(0, self.labels.len() as int) =~= self.labels@);
        out
    }

    /// Counts as (confirmed, rejected, pending) — enough to say whether
    /// there is yet a dataset worth training on.
    pub fn tally(&self) -> (t: (usize, usize, usize))
        ensures
            t.0 == tally_spec(rulings_of(self.labels@)).0,
            t.1 == tally_spec(rulings_of(self.labels@)).1,
            t.2 == tally_spec(rulings_of(self.labels@)).2,
    {
        let mut t: (usize, usize, usize) = (0, 0, 0);
        let mut i: usize = 0;
        while i < self.labels.len()
            invariant
                0 <= i <= self.labels.len(),
                t.0 == tally_spec(rulings_of(self.labels@.subrange(0, i as int))).0,
                t.1 == tally_spec(rulings_of(self.labels@.subrange(0, i as int))).1,
                t.2 == tally_spec(rulings_of(self.labels@.subrange(0, i as int))).2,
                t.0 + t.1 + t.2 == i,
            decreases self.labels.len() - i,
        {
            assert(rulings_of(self.labels@.subrange(0, i + 1)).drop_last() =~= rulings_of(
                self.labels@.subrange(0, i as int),
            ));
            match self.labels[i].confirmed {
                Some(true) => t.0 = t.0 + 1,
                Some(false) => t.1 = t.1 + 1,
                None => t.2 = t.2 + 1,
            }
            i = i + 1;
        }
        assert(self.labels@.subrange(0, self.labels.len() as int) =~= self.labels@);
        t
    }
}

/// Every ruling is counted exactly once.
pub proof fn law_tally_counts_every_label(rulings: Seq<Option<bool>>)
    ensures
        tally_spec(rulings).0 + tally_spec(rulings).1 + tally_spec(rulings).2 == rulings.len(),
    decreases rulings.len(),
{
    if rulings.len() > 0 {
        law_tally_counts_every_label(rulings.drop_last());
    }
}

/// Re-running detection never discards a ruling: every label that was there
/// before a fold is still there at the same place, with the same kind, origin
/// and verdict; a reviewed label or a hand mark keeps its time too. At most
/// one label is added, and it is unreviewed.
pub proof fn law_folding_keeps_every_ruling<T>(
    labels: Seq<Label<T>>,
    kind: Kind,
    at: i64,
    score: T,
    hit: Option<usize>,
)
    requires
        hit_is_valid(labels, kind, hit),
    ensures
        ({
            let after = fold_spec(labels, kind, at, score, hit);
            &&& after.len() == labels.len() + (if hit is None {
                1int
            } else {
                0int
            })
            &&& forall|k: int|
                0 <= k < labels.len() ==> {
                    &&& #[trigger] after[k].kind == labels[k].kind
                    &&& after[k].origin == labels[k].origin
                    &&& after[k].confirmed == labels[k].confirmed
                    &&& (labels[k].is_reviewed() || labels[k].origin == Origin::Manual)
                        ==> after[k].at == labels[k].at
                }
            &&& hit is None ==> !after[labels.len() as int].is_reviewed()
        }),
{
}

/// Folding a detection leaves the confirmed and rejected counts unchanged,
/// and adds one pending exactly when the detection was new.
pub proof fn law_folding_keeps_the_tally<T>(
    labels: Seq<Label<T>>,
    kind: Kind,
    at: i64,
    score: T,
    hit: Option<usize>,
)
    requires
        hit_is_valid(labels, kind, hit),
    ensures
        ({
            let before = tally_spec(rulings_of(labels));
            let after = tally_spec(rulings_of(fold_spec(labels, kind, at, score, hit)));
            &&& after.0 == before.0
            &&& after.1 == before.1
            &&& after.2 == before.2 + (if hit is None {
                1int
            } else {
                0int
            })
        }),
{
    let after = fold_spec(labels, kind, at, score, hit);
    match hit {
        Some(i) => {
            assert(rulings_of(after) =~= rulings_of(labels));
        },
        None => {
            assert(rulings_of(after).drop_last() =~= rulings_of(labels));
        },
    }
}

/// Adding a label anywhere counts the same as adding it at the end.
proof fn lemma_tally_insert<T>(s: Seq<Label<T>>, j: int, x: Label<T>)
    requires
        0 <= j <= s.len(),
    ensures
        tally_spec(rulings_of(s.insert(j, x))) == tally_spec(rulings_of(s.push(x))),
    decreases s.len(),
{
    if j < s.len() {
        let r = s.drop_last();
        lemma_tally_insert(r, j, x);
        let a = rulings_of(s.insert(j, x));
        let b = rulings_of(s.push(x));
        assert(a.drop_last() =~= rulings_of(r.insert(j, x)));
        assert(a.last() == s.last().confirmed);
        assert(b.drop_last() =~= rulings_of(s));
        assert(b.last() == x.confirmed);
        assert(rulings_of(s).drop_last() =~= rulings_of(r));
        assert(rulings_of(s).last() == s.last().confirmed);
        assert(rulings_of(r.push(x)).drop_last() =~= rulings_of(r));
        assert(rulings_of(r.push(x)).last() == x.confirmed);
        let t = tally_spec(rulings_of(r));
        assert(tally_spec(a) == tally_step(tally_step(t, x.confirmed), s.last().confirmed));
        assert(tally_spec(rulings_of(s)) == tally_step(t, s.last().confirmed));
        assert(tally_spec(b) == tally_step(tally_spec(rulings_of(s)), x.confirmed));
        assert(tally_spec(b) == tally_step(tally_step(t, s.last().confirmed), x.confirmed));
    } else {
        assert(s.insert(j, x) =~= s.push(x));
    }
}

/// Putting labels in time order changes no count.
proof fn lemma_tally_sort<T>(s: Seq<Label<T>>)
    ensures
        tally_spec(rulings_of(sort_by_time_spec(s))) == tally_spec(rulings_of(s)),
    decreases s.len(),
{
    if s.len() > 0 {
        let r = sort_by_time_spec(s.drop_last());
        lemma_tally_sort(s.drop_last());
        lemma_time_insert_point_bound(r, s.last().at);
        lemma_tally_insert(r, time_insert_point(r, s.last().at), s.last());
        assert(rulings_of(r.push(s.last())).drop_last() =~= rulings_of(r));
        assert(rulings_of(s).drop_last() =~= rulings_of(s.drop_last()));
    }
}

/// A hand mark is confirmed: it adds one to the confirmed count and nothing
/// else.
pub proof fn law_mark_is_confirmed<T>(labels: Seq<Label<T>>, kind: Kind, at: i64, score: T)
    ensures
        ({
            let before = tally_spec(rulings_of(labels));
            let after = tally_spec(
                rulings_of(sort_by_time_spec(labels.push(hand_mark(kind, at, score)))),
            );
            &&& after.0 == before.0 + 1
            &&& after.1 == before.1
            &&& after.2 == before.2
        }),
{
    lemma_tally_sort(labels.push(hand_mark(kind, at, score)));
    assert(rulings_of(labels.push(hand_mark(kind, at, score))).drop_last() =~= rulings_of(labels));
}

/// In a run in time order, everything before the insert point is not later
/// than `t` and everything from it on is later.
proof fn lemma_time_insert_point_splits<T>(s: Seq<Label<T>>, t: i64)
    requires
        sorted_by_time(s),
    ensures
        0 <= time_insert_point(s, t) <= s.len(),
        forall|k: int| 0 <= k < time_insert_point(s, t) ==> (#[trigger] s[k]).at <= t,
        forall|k: int| time_insert_point(s, t) <= k < s.len() ==> (#[trigger] s[k]).at > t,
    decreases s.len(),
{
    lemma_time_insert_point_bound(s, t);
    if s.len() > 0 {
        let r = s.drop_last();
        assert(sorted_by_time(r));
        lemma_time_insert_point_splits(r, t);
        if s.last().at <= t {
            assert forall|k: int| 0 <= k < s.len() implies (#[trigger] s[k]).at <= t by {
                assert(s[k].at <= s[s.len() - 1].at);
            }
        } else {
            assert forall|k: int| 0 <= k < time_insert_point(s, t) implies (#[trigger] s[k]).at
                <= t by {
                assert(s[k] == r[k]);
            }
            assert forall|k: int| time_insert_point(s, t) <= k < s.len() implies (
            #[trigger] s[k]).at > t by {
                if k < s.len() - 1 {
                    assert(s[k] == r[k]);
                }
            }
        }
    }
}

/// The label set after `sort_by_time` is in time order.
pub proof fn law_time_order_is_sorted<T>(s: Seq<Label<T>>)
    ensures
        sorted_by_time(sort_by_time_spec(s)),
    decreases s.len(),
{
    if s.len() > 0 {
        let r = sort_by_time_spec(s.drop_last());
        law_time_order_is_sorted(s.drop_last());
        let x = s.last();
        let j = time_insert_point(r, x.at);
        lemma_time_insert_point_splits(r, x.at);
        let w = r.insert(j, x);
        assert forall|a: int, b: int| 0 <= a <= b < w.len() implies (#[trigger] w[a]).at <= (
        #[trigger] w[b]).at by {
            if a < j && b < j {
                assert(w[a] == r[a] && w[b] == r[b]);
            } else if a < j && b == j {
                assert(w[a] == r[a]);
            } else if a < j {
                assert(w[a] == r[a] && w[b] == r[b - 1]);
            } else if a == j && b == j {
            } else if a == j {
                assert(w[b] == r[b - 1]);
            } else {
                assert(w[a] == r[a - 1] && w[b] == r[b - 1]);
            }
        }
    }
}

/// Putting the set in time order drops no label and adds none.
pub proof fn law_time_order_keeps_every_label<T>(s: Seq<Label<T>>)
    ensures
        sort_by_time_spec(s).to_multiset() == s.to_multiset(),
    decreases s.len(),
{
    broadcast use vstd::seq_lib::group_to_multiset_ensures;

    if s.len() > 0 {
        let r = sort_by_time_spec(s.drop_last());
        law_time_order_keeps_every_label(s.drop_last());
        lemma_time_insert_point_bound(r, s.last().at);
        assert(s.drop_last().push(s.last()) =~= s);
    }
}

/// A set already in time order is left exactly as it is.
pub proof fn law_sorted_labels_stay_put<T>(s: Seq<Label<T>>)
    requires
        sorted_by_time(s),
    ensures
        sort_by_time_spec(s) == s,
    decreases s.len(),
{
    if s.len() > 0 {
        let r = s.drop_last();
        assert(sorted_by_time(r));
        law_sorted_labels_stay_put(r);
        assert forall|k: int| 0 <= k < r.len() implies (#[trigger] r[k]).at <= s.last().at by {
            assert(r[k] == s[k]);
        }
        assert(time_insert_point(r, s.last().at) == r.len());
        assert(r.insert(r.len() as int, s.last()) =~= s);
    }
}

/// On a set in time order, a hand mark is inserted after every label not
/// later than it, the others keeping their order, and the set stays in time
/// order.
pub proof fn law_mark_lands_in_time_order<T>(labels: Seq<Label<T>>, kind: Kind, at: i64, score: T)
    requires
        sorted_by_time(labels),
    ensures
        ({
            let after = sort_by_time_spec(labels.push(hand_mark(kind, at, score)));
            let j = time_insert_point(labels, at);
            &&& 0 <= j <= labels.len()
            &&& after == labels.insert(j, hand_mark(kind, at, score))
            &&& forall|k: int| 0 <= k < j ==> (#[trigger] labels[k]).at <= at
            &&& forall|k: int| j <= k < labels.len() ==> (#[trigger] labels[k]).at > at
            &&& sorted_by_time(after)
        }),
{
    let m = hand_mark(kind, at, score);
    law_sorted_labels_stay_put(labels);
    assert(labels.push(m).drop_last() =~= labels);
    lemma_time_insert_point_splits(labels, at);
    law_time_order_is_sorted(labels.push(m));
}

/// A folded detection never touches a hand mark.
pub proof fn law_folding_never_touches_a_hand_mark<T>(
    labels: Seq<Label<T>>,
    kind: Kind,
    at: i64,
    score: T,
    hit: Option<usize>,
    k: int,
)
    requires
        hit_is_valid(labels, kind, hit),
        0 <= k < labels.len(),
        labels[k].origin == Origin::Manual,
    ensures
        fold_spec(labels, kind, at, score, hit)[k] == labels[k],
{
}

/// The labels of a merge, before the time sort, keep every earlier label's
/// place, and a hand mark exactly.
proof fn lemma_merge_run_keeps_hand_marks<T>(
    labels: Seq<Label<T>>,
    dets: Seq<Event<T>>,
    tol: u64,
    k: int,
)
    requires
        0 <= k < labels.len(),
        labels[k].origin == Origin::Manual,
        labels.len() + dets.len() <= usize::MAX,
    ensures
        merge_run(labels, dets, tol).len() <= labels.len() + dets.len(),
        k < merge_run(labels, dets, tol).len(),
        merge_run(labels, dets, tol)[k] == labels[k],
    decreases dets.len(),
{
    if dets.len() > 0 {
        lemma_merge_run_keeps_hand_marks(labels, dets.drop_last(), tol, k);
        let before = merge_run(labels, dets.drop_last(), tol);
        let d = dets.last();
        lemma_nearest_hit_is_valid(before, d.kind, d.at, tol, before.len() as int);
        law_folding_never_touches_a_hand_mark(
            before,
            d.kind,
            d.at,
            d.score,
            nearest_hit(before, d.kind, d.at, tol, before.len() as int),
            k,
        );
    }
}

/// Re-scanning never touches a hand mark: after merging any detection run,
/// every hand mark is still in the set exactly as it was.
pub proof fn law_merge_never_touches_a_hand_mark<T>(
    labels: Seq<Label<T>>,
    dets: Seq<Event<T>>,
    tol: u64,
    k: int,
)
    requires
        0 <= k < labels.len(),
        labels[k].origin == Origin::Manual,
        labels.len() + dets.len() <= usize::MAX,
    ensures
        sort_by_time_spec(merge_run(labels, dets, tol)).contains(labels[k]),
{
    broadcast use vstd::seq_lib::group_to_multiset_ensures;

    let m = merge_run(labels, dets, tol);
    lemma_merge_run_keeps_hand_marks(labels, dets, tol, k);
    assert(m.contains(labels[k]));
    law_time_order_keeps_every_label(m);
    assert(m.to_multiset().count(labels[k]) > 0);
    assert(sort_by_time_spec(m).to_multiset().count(labels[k]) > 0);
}

/// One detection of a run: its kind, time, score, and the label it re-finds.
pub struct Detection<T> {
    pub kind: Kind,
    pub at: i64,
    pub score: T,
    pub hit: Option<usize>,
}

/// The labels after folding in a whole run of detections, in order.
pub open spec fn fold_run<T>(labels: Seq<Label<T>>, run: Seq<Detection<T>>) -> Seq<Label<T>>
    decreases run.len(),
{
    if run.len() == 0 {
        labels
    } else {
        let before = fold_run(labels, run.drop_last());
        let d = run.last();
        fold_spec(before, d.kind, d.at, d.score, d.hit)
    }
}

/// Every detection of the run names a label of its own kind (or none) in
/// the set as it stands when that detection is folded in.
pub open spec fn run_is_valid<T>(labels: Seq<Label<T>>, run: Seq<Detection<T>>) -> bool
    decreases run.len(),
{
    if run.len() == 0 {
        true
    } else {
        let d = run.last();
        run_is_valid(labels, run.drop_last()) && hit_is_valid(
            fold_run(labels, run.drop_last()),
            d.kind,
            d.hit,
        )
    }
}

/// How many detections of a run matched nothing.
pub open spec fn new_in_run<T>(run: Seq<Detection<T>>) -> nat
    decreases run.len(),
{
    if run.len() == 0 {
        0
    } else {
        new_in_run(run.drop_last()) + if run.last().hit is None {
            1nat
        } else {
            0nat
        }
    }
}

/// Re-running detection — folding in a whole run — never discards a ruling:
/// every earlier label keeps its place, kind, origin and verdict (and its
/// time, once reviewed or hand-marked); the confirmed and rejected counts
/// are unchanged, and only the detections that matched nothing are added,
/// all pending.
pub proof fn law_a_detection_run_keeps_every_ruling<T>(
    labels: Seq<Label<T>>,
    run: Seq<Detection<T>>,
)
    requires
        run_is_valid(labels, run),
    ensures
        ({
            let after = fold_run(labels, run);
            &&& after.len() == labels.len() + new_in_run(run)
            &&& forall|k: int|
                0 <= k < labels.len() ==> {
                    &&& #[trigger] after[k].kind == labels[k].kind
                    &&& after[k].origin == labels[k].origin
                    &&& after[k].confirmed == labels[k].confirmed
                    &&& (labels[k].is_reviewed() || labels[k].origin == Origin::Manual)
                        ==> after[k].at == labels[k].at
                }
            &&& tally_spec(rulings_of(after)).0 == tally_spec(rulings_of(labels)).0
            &&& tally_spec(rulings_of(after)).1 == tally_spec(rulings_of(labels)).1
            &&& tally_spec(rulings_of(after)).2 == tally_spec(rulings_of(labels)).2 + new_in_run(
                run,
            )
        }),
    decreases run.len(),
{
    if run.len() > 0 {
        let prev = run.drop_last();
        law_a_detection_run_keeps_every_ruling(labels, prev);
        let mid = fold_run(labels, prev);
        let d = run.last();
        law_folding_keeps_every_ruling(mid, d.kind, d.at, d.score, d.hit);
        law_folding_keeps_the_tally(mid, d.kind, d.at, d.score, d.hit);
        let after = fold_run(labels, run);
        assert forall|k: int| 0 <= k < labels.len() implies {
            &&& #[trigger] after[k].kind == labels[k].kind
            &&& after[k].origin == labels[k].origin
            &&& after[k].confirmed == labels[k].confirmed
            &&& (labels[k].is_reviewed() || labels[k].origin == Origin::Manual) ==> after[k].at
                == labels[k].at
        } by {
            assert(mid[k].kind == labels[k].kind);
            assert(after[k].kind == mid[k].kind);
        }
    }
}


/// What a re-scan may do to a label: keep its kind, origin and ruling; keep
/// its time once reviewed or hand-marked; leave a hand mark as it is.
pub open spec fn keeps_ruling<T>(before: Label<T>, after: Label<T>) -> bool {
    &&& after.kind == before.kind
    &&& after.origin == before.origin
    &&& after.confirmed == before.confirmed
    &&& (before.is_reviewed() || before.origin == Origin::Manual) ==> after.at == before.at
    &&& before.origin == Origin::Manual ==> after == before
}

/// `l` is an unreviewed detection made from one of `dets`.
pub open spec fn is_fresh_from<T>(l: Label<T>, dets: Seq<Event<T>>) -> bool {
    exists|i: int|
        0 <= i < dets.len() && l == fresh_detection(
            (#[trigger] dets[i]).kind,
            dets[i].at,
            dets[i].score,
        )
}

/// Folding in a detection run, before the time sort: every earlier label
/// keeps its place and its ruling, every label after them is a pending
/// detection made from the run, and the counts move only by the new ones.
pub proof fn law_merge_run_keeps_every_ruling<T>(
    labels: Seq<Label<T>>,
    dets: Seq<Event<T>>,
    tol: u64,
)
    requires
        labels.len() + dets.len() <= usize::MAX,
    ensures
        ({
            let m = merge_run(labels, dets, tol);
            &&& new_in_merge(labels, dets, tol) <= dets.len()
            &&& m.len() == labels.len() + new_in_merge(labels, dets, tol)
            &&& forall|k: int| 0 <= k < labels.len() ==> keeps_ruling(labels[k], #[trigger] m[k])
            &&& forall|k: int| labels.len() <= k < m.len() ==> is_fresh_from(#[trigger] m[k], dets)
            &&& tally_spec(rulings_of(m)).0 == tally_spec(rulings_of(labels)).0
            &&& tally_spec(rulings_of(m)).1 == tally_spec(rulings_of(labels)).1
            &&& tally_spec(rulings_of(m)).2 == tally_spec(rulings_of(labels)).2 + new_in_merge(
                labels,
                dets,
                tol,
            )
        }),
    decreases dets.len(),
{
    if dets.len() == 0 {
        assert forall|k: int| 0 <= k < labels.len() implies keeps_ruling(
            labels[k],
            #[trigger] merge_run(labels, dets, tol)[k],
        ) by {}
    } else {
        let p = dets.drop_last();
        let d = dets.last();
        law_merge_run_keeps_every_ruling(labels, p, tol);
        let before = merge_run(labels, p, tol);
        let hit = nearest_hit(before, d.kind, d.at, tol, before.len() as int);
        lemma_nearest_hit_is_valid(before, d.kind, d.at, tol, before.len() as int);
        law_folding_keeps_every_ruling(before, d.kind, d.at, d.score, hit);
        law_folding_keeps_the_tally(before, d.kind, d.at, d.score, hit);
        let m = merge_run(labels, dets, tol);
        assert(m == fold_spec(before, d.kind, d.at, d.score, hit));
        let last = (dets.len() - 1) as int;
        assert(dets[last] == d);
        assert forall|k: int| 0 <= k < labels.len() implies keeps_ruling(
            labels[k],
            #[trigger] m[k],
        ) by {
            assert(keeps_ruling(labels[k], before[k]));
        }
        assert forall|k: int| labels.len() <= k < m.len() implies is_fresh_from(
            #[trigger] m[k],
            dets,
        ) by {
            if k < before.len() {
                assert(is_fresh_from(before[k], p));
                let i = choose|i: int|
                    0 <= i < p.len() && before[k] == fresh_detection(
                        (#[trigger] p[i]).kind,
                        p[i].at,
                        p[i].score,
                    );
                assert(p[i] == dets[i]);
                if hit == Some(k as usize) {
                    assert(m[k] == fresh_detection(dets[last].kind, dets[last].at, dets[last].score));
                } else {
                    assert(m[k] == before[k]);
                    assert(m[k] == fresh_detection(dets[i].kind, dets[i].at, dets[i].score));
                }
            } else {
                assert(m[k] == fresh_detection(dets[last].kind, dets[last].at, dets[last].score));
            }
        }
    }
}

/// The time sort holds the same labels, as many as before.
proof fn lemma_sorted_holds_the_same<T>(m: Seq<Label<T>>)
    ensures
        sort_by_time_spec(m).len() == m.len(),
        forall|x: Label<T>| sort_by_time_spec(m).contains(x) <==> m.contains(x),
{
    broadcast use vstd::seq_lib::group_to_multiset_ensures;

    law_time_order_keeps_every_label(m);
    let after = sort_by_time_spec(m);
    assert(after.to_multiset().len() == m.to_multiset().len());
    assert forall|x: Label<T>| after.contains(x) <==> m.contains(x) by {
        assert(after.to_multiset().count(x) == m.to_multiset().count(x));
    }
}

/// Re-scanning never discards a ruling. After merging a detection run, with
/// `m` the labels before the time sort: the set is in time order and holds
/// exactly the labels of `m`, one more than before per detection that
/// re-found nothing; the label of `m` in each earlier label's place keeps
/// that label's kind, origin and ruling (and its time, once reviewed or
/// hand-marked; a hand mark exactly) and is in the set; every other label of
/// `m` is a pending detection made from the run; and only the pending count
/// grows.
pub proof fn law_merge_keeps_every_ruling<T>(labels: Seq<Label<T>>, dets: Seq<Event<T>>, tol: u64)
    requires
        labels.len() + dets.len() <= usize::MAX,
    ensures
        ({
            let m = merge_run(labels, dets, tol);
            let after = sort_by_time_spec(m);
            let added = new_in_merge(labels, dets, tol);
            &&& sorted_by_time(after)
            &&& after.len() == labels.len() + added
            &&& m.len() == after.len()
            &&& forall|k: int|
                0 <= k < labels.len() ==> keeps_ruling(labels[k], #[trigger] m[k]) && after.contains(
                    m[k],
                )
            &&& forall|k: int| labels.len() <= k < m.len() ==> is_fresh_from(#[trigger] m[k], dets)
            &&& forall|j: int| 0 <= j < after.len() ==> m.contains(#[trigger] after[j])
            &&& tally_spec(rulings_of(after)).0 == tally_spec(rulings_of(labels)).0
            &&& tally_spec(rulings_of(after)).1 == tally_spec(rulings_of(labels)).1
            &&& tally_spec(rulings_of(after)).2 == tally_spec(rulings_of(labels)).2 + added
        }),
{
    let m = merge_run(labels, dets, tol);
    let after = sort_by_time_spec(m);
    law_merge_run_keeps_every_ruling(labels, dets, tol);
    law_time_order_is_sorted(m);
    lemma_tally_sort(m);
    lemma_sorted_holds_the_same(m);
    assert forall|k: int| 0 <= k < m.len() implies after.contains(#[trigger] m[k]) by {
        assert(m.contains(m[k]));
    }
    assert forall|j: int| 0 <= j < after.len() implies m.contains(#[trigger] after[j]) by {
        assert(after.contains(after[j]));
    }
}


/// Among the first `n` labels: the hit is a label of the detection's kind
/// within reach, none of that kind is nearer, and an equally near one before
/// it is impossible; there is no hit exactly when no label of the kind is
/// within reach. Labels of other kinds play no part.
proof fn lemma_nearest_hit_is_nearest_of_kind<T>(
    labels: Seq<Label<T>>,
    kind: Kind,
    at: i64,
    tol: u64,
    n: int,
)
    requires
        0 <= n <= labels.len() <= usize::MAX,
    ensures
        nearest_hit(labels, kind, at, tol, n) is None <==> forall|j: int|
            0 <= j < n ==> !(#[trigger] labels[j].kind == kind && distance(labels[j].at, at) <= tol),
        nearest_hit(labels, kind, at, tol, n) matches Some(i) ==> {
            &&& 0 <= i < n
            &&& labels[i as int].kind == kind
            &&& distance(labels[i as int].at, at) <= tol
            &&& forall|j: int|
                0 <= j < n && #[trigger] labels[j].kind == kind ==> distance(labels[j].at, at)
                    >= distance(labels[i as int].at, at)
            &&& forall|j: int|
                0 <= j < i && #[trigger] labels[j].kind == kind ==> distance(labels[j].at, at)
                    > distance(labels[i as int].at, at)
        },
    decreases n,
{
    if n > 0 {
        lemma_nearest_hit_is_nearest_of_kind(labels, kind, at, tol, n - 1);
    }
}

/// A detection re-finds the nearest label of its own kind within the
/// tolerance, the first of equally near ones, and nothing when no label of
/// its kind is within reach; labels of other kinds never matter.
pub proof fn law_detection_refinds_the_nearest_of_its_kind<T>(
    labels: Seq<Label<T>>,
    kind: Kind,
    at: i64,
    tol: u64,
)
    requires
        labels.len() <= usize::MAX,
    ensures
        ({
            let hit = nearest_hit(labels, kind, at, tol, labels.len() as int);
            &&& hit is None <==> forall|j: int|
                0 <= j < labels.len() ==> !(#[trigger] labels[j].kind == kind && distance(
                    labels[j].at,
                    at,
                ) <= tol)
            &&& hit matches Some(i) ==> {
                &&& i < labels.len()
                &&& labels[i as int].kind == kind
                &&& distance(labels[i as int].at, at) <= tol
                &&& forall|j: int|
                    0 <= j < labels.len() && #[trigger] labels[j].kind == kind ==> distance(
                        labels[j].at,
                        at,
                    ) >= distance(labels[i as int].at, at)
                &&& forall|j: int|
                    0 <= j < i && #[trigger] labels[j].kind == kind ==> distance(labels[j].at, at)
                        > distance(labels[i as int].at, at)
            }
        }),
{
    lemma_nearest_hit_is_nearest_of_kind(labels, kind, at, tol, labels.len() as int);
}

/// Every confirmed label is exported, once and in order: the confirmed
/// events are as many as the confirmed labels, each confirmed label gives
/// its event, and each event comes from a confirmed label.
pub proof fn law_every_confirmed_label_is_exported<T>(labels: Seq<Label<T>>)
    ensures
        confirmed_spec(labels).len() == tally_spec(rulings_of(labels)).0,
        forall|k: int|
            0 <= k < labels.len() && #[trigger] labels[k].confirmed == Some(true)
                ==> confirmed_spec(labels).contains(as_confirmed_event(labels[k])),
        forall|j: int|
            0 <= j < confirmed_spec(labels).len() ==> exists|k: int|
                0 <= k < labels.len() && labels[k].confirmed == Some(true) && #[trigger] confirmed_spec(
                    labels,
                )[j] == as_confirmed_event(labels[k]),
    decreases labels.len(),
{
    if labels.len() > 0 {
        let r = labels.drop_last();
        law_every_confirmed_label_is_exported(r);
        let cr = confirmed_spec(r);
        let c = confirmed_spec(labels);
        let n = labels.len() - 1;
        assert(labels.last() == labels[n]);
        assert(rulings_of(labels).drop_last() =~= rulings_of(r));
        assert(rulings_of(labels).last() == labels[n].confirmed);
        assert forall|k: int|
            0 <= k < labels.len() && #[trigger] labels[k].confirmed == Some(true) implies c.contains(
            as_confirmed_event(labels[k]),
        ) by {
            if k < n {
                assert(labels[k] == r[k]);
                assert(cr.contains(as_confirmed_event(r[k])));
                let j = choose|j: int| 0 <= j < cr.len() && cr[j] == as_confirmed_event(r[k]);
                if labels[n].confirmed == Some(true) {
                    assert(c[j] == cr[j]);
                } else {
                    assert(c == cr);
                }
            } else {
                assert(c[c.len() - 1] == as_confirmed_event(labels[n]));
            }
        }
        assert forall|j: int| 0 <= j < c.len() implies exists|k: int|
            0 <= k < labels.len() && labels[k].confirmed == Some(true) && #[trigger] c[j]
                == as_confirmed_event(labels[k]) by {
            if j < cr.len() {
                let k = choose|k: int|
                    0 <= k < r.len() && r[k].confirmed == Some(true) && #[trigger] cr[j]
                        == as_confirmed_event(r[k]);
                assert(r[k] == labels[k]);
                assert(c[j] == cr[j]);
            } else {
                assert(c[j] == as_confirmed_event(labels[n]));
            }
        }
    }
}

} // verus!
