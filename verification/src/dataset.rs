//! Training-dataset export: how a marked event kind becomes a model label,
//! what a manifest of exported frames says about itself (examples per class,
//! the game builds and recordings represented), and how a fresh export of a
//! recording is folded into it — replacing, never duplicating.
use crate::event::Kind;
use crate::text::{
    lemma_str_lt_irreflexive, lemma_str_lt_total,
    lemma_str_lt_transitive, str_eq, str_lt, str_lt_spec,
};
use vstd::prelude::*;
use vstd::string::StrSliceExecFns;

verus! {

/// Export resolution width; 16:9 keeps HUD geometry undistorted.
pub const FRAME_W: u32 = 384;

/// Export resolution height.
pub const FRAME_H: u32 = 216;

/// Class label for the model, per marked kind.
pub open spec fn class_of_spec(kind: Kind) -> Seq<char> {
    match kind {
        Kind::PlayerKill => "player"@,
        Kind::MonsterKill => "monster"@,
        Kind::Death => "own_death"@,
    }
}

/// The class of frames where nothing died.
pub open spec fn class_none_spec() -> Seq<char> {
    "none"@
}

/// Class label for the model. Free-form strings rather than an enum so a new
/// class can be added without breaking previously-exported manifests.
pub fn class_of(kind: Kind) -> (c: &'static str)
    ensures
        c@ == class_of_spec(kind),
{
    match kind {
        Kind::PlayerKill => "player",
        Kind::MonsterKill => "monster",
        Kind::Death => "own_death",
    }
}

/// The label of frames where nothing died.
pub const CLASS_NONE: &'static str = "none";

/// Each kind gets its own class, and none of them is the "nothing happened"
/// class.
pub proof fn law_classes_are_distinct(a: Kind, b: Kind)
    ensures
        a != b ==> class_of_spec(a) != class_of_spec(b),
        class_of_spec(a) != class_none_spec(),
{
    reveal_strlit("player");
    reveal_strlit("monster");
    reveal_strlit("own_death");
    reveal_strlit("none");
    assert(class_of_spec(Kind::PlayerKill)[0] != class_of_spec(Kind::MonsterKill)[0]);
    assert(class_of_spec(Kind::PlayerKill)[0] != class_of_spec(Kind::Death)[0]);
    assert(class_of_spec(Kind::MonsterKill)[0] != class_of_spec(Kind::Death)[0]);
    assert(class_of_spec(Kind::PlayerKill)[0] != class_none_spec()[0]);
    assert(class_of_spec(Kind::MonsterKill).len() != class_none_spec().len());
    assert(class_of_spec(Kind::Death)[0] != class_none_spec()[0]);
}

/// One exported training image. The event time and the frame's offset from
/// it travel in the caller's numeric type.
pub struct Example<T> {
    /// Path relative to the dataset root.
    pub file: String,
    pub class: String,
    /// Source video, for provenance and for grouping a train/test split.
    pub source: String,
    /// Game build this footage came from.
    pub game_build: String,
    /// Timestamp of the event this frame belongs to.
    pub at: T,
    /// Offset of this frame from `at`.
    pub offset: T,
}

/// The exported frames, with the resolution they were written at.
pub struct Manifest<T> {
    pub frame_width: u32,
    pub frame_height: u32,
    pub examples: Vec<Example<T>>,
}

/// Every entry sorts strictly before the next: sorted, with no repeats.
pub open spec fn strictly_sorted(s: Seq<Seq<char>>) -> bool {
    forall|i: int, j: int| 0 <= i < j < s.len() ==> str_lt_spec(#[trigger] s[i], #[trigger] s[j])
}

/// The classes of the examples, in order.
pub open spec fn classes_of<T>(examples: Seq<Example<T>>) -> Seq<Seq<char>> {
    examples.map_values(|e: Example<T>| e.class@)
}

/// The game builds of the examples, in order.
pub open spec fn builds_of<T>(examples: Seq<Example<T>>) -> Seq<Seq<char>> {
    examples.map_values(|e: Example<T>| e.game_build@)
}

/// The source recordings of the examples, in order.
pub open spec fn sources_of<T>(examples: Seq<Example<T>>) -> Seq<Seq<char>> {
    examples.map_values(|e: Example<T>| e.source@)
}

/// How many examples carry class `c`.
pub open spec fn class_count<T>(examples: Seq<Example<T>>, c: Seq<char>) -> nat
    decreases examples.len(),
{
    if examples.len() == 0 {
        0
    } else {
        class_count(examples.drop_last(), c) + if examples.last().class@ == c {
            1nat
        } else {
            0nat
        }
    }
}

/// The keys of a list of (key, count) pairs.
pub open spec fn keys_of(pairs: Seq<(String, usize)>) -> Seq<Seq<char>> {
    pairs.map_values(|p: (String, usize)| p.0@)
}

/// Inserting an entry where it sorts keeps a list strictly sorted.
pub(crate) proof fn lemma_insert_keeps_sorted(v: Seq<Seq<char>>, j: int, s: Seq<char>)
    requires
        strictly_sorted(v),
        0 <= j <= v.len(),
        forall|i: int| 0 <= i < j ==> str_lt_spec(#[trigger] v[i], s),
        j < v.len() ==> str_lt_spec(s, v[j]),
    ensures
        strictly_sorted(v.insert(j, s)),
{
    let w = v.insert(j, s);
    assert forall|a: int, b: int| 0 <= a < b < w.len() implies str_lt_spec(
        #[trigger] w[a],
        #[trigger] w[b],
    ) by {
        if b < j {
            assert(w[a] == v[a] && w[b] == v[b]);
        } else if b == j {
            assert(w[a] == v[a]);
        } else if a == j {
            assert(w[b] == v[b - 1]);
            if b - 1 > j {
                assert(str_lt_spec(v[j], v[b - 1]));
                lemma_str_lt_transitive(s, v[j], v[b - 1]);
            }
        } else if a < j {
            assert(w[a] == v[a] && w[b] == v[b - 1]);
        } else {
            assert(w[a] == v[a - 1] && w[b] == v[b - 1]);
        }
    }
}

pub(crate) proof fn lemma_push_contains(v: Seq<Seq<char>>, x: Seq<char>)
    ensures
        forall|s: Seq<char>| #[trigger] v.push(x).contains(s) <==> (v.contains(s) || s == x),
{
    assert forall|s: Seq<char>| #[trigger] v.push(x).contains(s) <==> (v.contains(s) || s == x) by {
        if v.contains(s) {
            let k = choose|k: int| 0 <= k < v.len() && v[k] == s;
            assert(v.push(x)[k] == s);
        }
        if s == x {
            assert(v.push(x)[v.len() as int] == s);
        }
        if v.push(x).contains(s) && s != x {
            let k = choose|k: int| 0 <= k < v.push(x).len() && v.push(x)[k] == s;
            assert(v[k] == s);
        }
    }
}

pub(crate) proof fn lemma_insert_contains(v: Seq<Seq<char>>, j: int, x: Seq<char>)
    requires
        0 <= j <= v.len(),
    ensures
        forall|s: Seq<char>| #[trigger] v.insert(j, x).contains(s) <==> (v.contains(s) || s == x),
{
    let w = v.insert(j, x);
    assert forall|s: Seq<char>| #[trigger] w.contains(s) <==> (v.contains(s) || s == x) by {
        if v.contains(s) {
            let k = choose|k: int| 0 <= k < v.len() && v[k] == s;
            if k < j {
                assert(w[k] == s);
            } else {
                assert(w[k + 1] == s);
            }
        }
        if s == x {
            assert(w[j] == s);
        }
        if w.contains(s) && s != x {
            let k = choose|k: int| 0 <= k < w.len() && w[k] == s;
            if k < j {
                assert(v[k] == s);
            } else {
                assert(v[k - 1] == s);
            }
        }
    }
}

/// Entries of a strictly sorted list are distinct.
pub(crate) proof fn lemma_sorted_distinct(v: Seq<Seq<char>>, a: int, b: int)
    requires
        strictly_sorted(v),
        0 <= a < v.len(),
        0 <= b < v.len(),
        a != b,
    ensures
        v[a] != v[b],
{
    lemma_str_lt_irreflexive(v[a]);
    if a < b {
        assert(str_lt_spec(v[a], v[b]));
    } else {
        assert(str_lt_spec(v[b], v[a]));
    }
}

/// A class that no example carries has count zero.
proof fn lemma_count_absent<T>(examples: Seq<Example<T>>, c: Seq<char>)
    requires
        !classes_of(examples).contains(c),
    ensures
        class_count(examples, c) == 0,
    decreases examples.len(),
{
    if examples.len() > 0 {
        let rest = examples.drop_last();
        assert(classes_of(examples)[examples.len() - 1] == examples.last().class@);
        assert forall|k: int| 0 <= k < rest.len() implies classes_of(rest)[k] != c by {
            assert(classes_of(examples)[k] == classes_of(rest)[k]);
        }
        lemma_count_absent(rest, c);
    }
}

/// Where `s` belongs in a strictly sorted list: the first position whose
/// entry does not sort before it, and whether that entry is `s` itself.
pub(crate) fn sorted_position(v: &Vec<String>, s: &str) -> (r: (usize, bool))
    requires
        strictly_sorted(v.deep_view()),
    ensures
        r.0 <= v.len(),
        forall|i: int| 0 <= i < r.0 ==> str_lt_spec(#[trigger] v.deep_view()[i], s@),
        r.1 == (r.0 < v.len() && v.deep_view()[r.0 as int] == s@),
        r.0 < v.len() && !r.1 ==> str_lt_spec(s@, v.deep_view()[r.0 as int]),
        r.1 ==> !v.deep_view().subrange(0, r.0 as int).contains(s@),
        !r.1 ==> !v.deep_view().contains(s@),
{
    let ghost dv = v.deep_view();
    let mut j: usize = 0;
    while j < v.len()
        invariant
            dv == v.deep_view(),
            strictly_sorted(dv),
            0 <= j <= v.len(),
            forall|i: int| 0 <= i < j ==> str_lt_spec(#[trigger] dv[i], s@),
        ensures
            0 <= j <= v.len(),
            forall|i: int| 0 <= i < j ==> str_lt_spec(#[trigger] dv[i], s@),
            j < v.len() ==> !str_lt_spec(dv[j as int], s@),
        decreases v.len() - j,
    {
        if !str_lt(v[j].as_str(), s) {
            break;
        }
        j = j + 1;
    }
    let found = j < v.len() && str_eq(v[j].as_str(), s);
    proof {
        if j < v.len() && !found {
            lemma_str_lt_total(dv[j as int], s@);
        }
        if found {
            assert forall|i: int| 0 <= i < j implies dv.subrange(0, j as int)[i] != s@ by {
                lemma_str_lt_irreflexive(s@);
            }
        }
        if !found {
            assert forall|i: int| 0 <= i < dv.len() implies dv[i] != s@ by {
                if i < j {
                    lemma_str_lt_irreflexive(s@);
                } else {
                    lemma_str_lt_irreflexive(s@);
                    if i > j {
                        lemma_str_lt_transitive(s@, dv[j as int], dv[i]);
                    }
                }
            }
        }
    }
    (j, found)
}

/// Adds `s` to a strictly sorted list unless it is already there.
fn insert_distinct(v: &mut Vec<String>, s: &String)
    requires
        strictly_sorted(old(v).deep_view()),
    ensures
        strictly_sorted(final(v).deep_view()),
        forall|x: Seq<char>|
            #[trigger] final(v).deep_view().contains(x) <==> (old(v).deep_view().contains(x) || x
                == s@),
{
    let ghost before = v.deep_view();
    let (j, found) = sorted_position(v, s.as_str());
    if !found {
        v.insert(j, s.clone());
        proof {
            lemma_insert_keeps_sorted(before, j as int, s@);
            assert(v.deep_view() =~= before.insert(j as int, s@));
            lemma_insert_contains(before, j as int, s@);
        }
    } else {
        assert(v.deep_view()[j as int] == s@);
    }
}

impl<T> Manifest<T> {
    /// An empty manifest at the export resolution.
    pub fn new() -> (m: Manifest<T>)
        ensures
            m.frame_width == FRAME_W,
            m.frame_height == FRAME_H,
            m.examples@.len() == 0,
    {
        Manifest { frame_width: FRAME_W, frame_height: FRAME_H, examples: Vec::new() }
    }

    /// Examples per class, one entry per distinct class in sorted order (the
    /// order a `BTreeMap` keyed by class walks in): the first thing to check
    /// before training, since a wildly imbalanced set trains to a useless
    /// majority-class predictor.
    pub fn class_counts(&self) -> (counts: Vec<(String, usize)>)
        ensures
            strictly_sorted(keys_of(counts@)),
            forall|s: Seq<char>|
                keys_of(counts@).contains(s) <==> classes_of(self.examples@).contains(s),
            forall|k: int|
                0 <= k < counts@.len() ==> #[trigger] counts@[k].1 == class_count(
                    self.examples@,
                    counts@[k].0@,
                ),
    {
        let mut keys: Vec<String> = Vec::new();
        let mut ns: Vec<usize> = Vec::new();
        let mut i: usize = 0;
        while i < self.examples.len()
            invariant
                0 <= i <= self.examples.len(),
                keys.len() == ns.len(),
                strictly_sorted(keys.deep_view()),
                forall|s: Seq<char>|
                    keys.deep_view().contains(s) <==> classes_of(
                        self.examples@.subrange(0, i as int),
                    ).contains(s),
                forall|k: int|
                    0 <= k < ns.len() ==> #[trigger] ns@[k] == class_count(
                        self.examples@.subrange(0, i as int),
                        keys.deep_view()[k],
                    ),
                forall|k: int| 0 <= k < ns.len() ==> #[trigger] ns@[k] <= i,
            decreases self.examples.len() - i,
        {
            let ghost before = keys.deep_view();
            let ghost nbefore = ns@;
            let ghost pre = self.examples@.subrange(0, i as int);
            let ghost post = self.examples@.subrange(0, i + 1);
            let c = &self.examples[i].class;
            proof {
                assert(post.drop_last() =~= pre);
                assert(post.last() == self.examples@[i as int]);
                assert(classes_of(post) =~= classes_of(pre).push(c@));
                lemma_push_contains(classes_of(pre), c@);
            }
            let (j, found) = sorted_position(&keys, c.as_str());
            if found {
                let n = ns[j];
                ns.set(j, n + 1);
                proof {
                    assert forall|k: int| 0 <= k < ns.len() implies #[trigger] ns@[k]
                        == class_count(post, keys.deep_view()[k]) by {
                        if k != j {
                            lemma_sorted_distinct(before, k, j as int);
                        }
                    }
                }
            } else {
                proof {
                    lemma_count_absent(pre, c@);
                }
                keys.insert(j, c.clone());
                ns.insert(j, 1);
                proof {
                    lemma_insert_keeps_sorted(before, j as int, c@);
                    assert(keys.deep_view() =~= before.insert(j as int, c@));
                    lemma_insert_contains(before, j as int, c@);
                    assert forall|k: int| 0 <= k < ns.len() implies #[trigger] ns@[k]
                        == class_count(post, keys.deep_view()[k]) by {
                        if k < j {
                            assert(keys.deep_view()[k] == before[k]);
                            assert(before[k] != c@) by {
                                assert(before.contains(before[k]));
                            }
                        } else if k > j {
                            assert(keys.deep_view()[k] == before[k - 1]);
                            assert(before[k - 1] != c@) by {
                                assert(before.contains(before[k - 1]));
                            }
                        }
                    }
                }
            }
            assert forall|s: Seq<char>| keys.deep_view().contains(s) <==> classes_of(
                post,
            ).contains(s) by {
                assert(before.contains(s) <==> classes_of(pre).contains(s));
            }
            assert forall|k: int| 0 <= k < ns.len() implies #[trigger] ns@[k] <= i + 1 by {
                if !found && k > j {
                    assert(ns@[k] == nbefore[k - 1]);
                }
            }
            i = i + 1;
        }
        assert(self.examples@.subrange(0, self.examples.len() as int) =~= self.examples@);
        let mut counts: Vec<(String, usize)> = Vec::new();
        let mut k: usize = 0;
        while k < keys.len()
            invariant
                keys.len() == ns.len(),
                0 <= k <= keys.len(),
                counts@.len() == k,
                forall|m: int|
                    0 <= m < k ==> #[trigger] counts@[m].0@ == keys.deep_view()[m]
                        && counts@[m].1 == ns@[m],
            decreases keys.len() - k,
        {
            counts.push((keys[k].clone(), ns[k]));
            k = k + 1;
        }
        assert(keys_of(counts@) =~= keys.deep_view());
        counts
    }

    /// Distinct source recordings represented, sorted. A train/test split
    /// holds whole recordings out, so this is what says whether evaluation
    /// is possible at all.
    pub fn sources(&self) -> (v: Vec<String>)
        ensures
            strictly_sorted(v.deep_view()),
            forall|s: Seq<char>|
                v.deep_view().contains(s) <==> sources_of(self.examples@).contains(s),
    {
        let mut v: Vec<String> = Vec::new();
        let mut i: usize = 0;
        while i < self.examples.len()
            invariant
                0 <= i <= self.examples.len(),
                strictly_sorted(v.deep_view()),
                forall|s: Seq<char>|
                    v.deep_view().contains(s) <==> sources_of(
                        self.examples@.subrange(0, i as int),
                    ).contains(s),
            decreases self.examples.len() - i,
        {
            let ghost before = v.deep_view();
            let ghost prev = sources_of(self.examples@.subrange(0, i as int));
            let ghost next = sources_of(self.examples@.subrange(0, i + 1));
            assert(next =~= prev.push(self.examples@[i as int].source@));
            proof {
                lemma_push_contains(prev, self.examples@[i as int].source@);
            }
            insert_distinct(&mut v, &self.examples[i].source);
            assert forall|s: Seq<char>| v.deep_view().contains(s) <==> next.contains(s) by {
                assert(before.contains(s) <==> prev.contains(s));
            }
            i = i + 1;
        }
        assert(self.examples@.subrange(0, self.examples.len() as int) =~= self.examples@);
        v
    }

    /// Distinct non-empty game builds represented, sorted: exactly what a
    /// model card records as trained against. An unknown (empty) build is
    /// not a build.
    pub fn game_builds(&self) -> (v: Vec<String>)
        ensures
            strictly_sorted(v.deep_view()),
            forall|s: Seq<char>|
                v.deep_view().contains(s) <==> (s.len() > 0 && builds_of(
                    self.examples@,
                ).contains(s)),
    {
        let mut v: Vec<String> = Vec::new();
        let mut i: usize = 0;
        while i < self.examples.len()
            invariant
                0 <= i <= self.examples.len(),
                strictly_sorted(v.deep_view()),
                forall|s: Seq<char>|
                    v.deep_view().contains(s) <==> (s.len() > 0 && builds_of(
                        self.examples@.subrange(0, i as int),
                    ).contains(s)),
            decreases self.examples.len() - i,
        {
            let ghost before = v.deep_view();
            let ghost prev = builds_of(self.examples@.subrange(0, i as int));
            let ghost next = builds_of(self.examples@.subrange(0, i + 1));
            assert(next =~= prev.push(self.examples@[i as int].game_build@));
            proof {
                lemma_push_contains(prev, self.examples@[i as int].game_build@);
            }
            let b = &self.examples[i].game_build;
            if b.unicode_len() > 0 {
                insert_distinct(&mut v, b);
            }
            assert forall|s: Seq<char>| v.deep_view().contains(s) <==> (s.len() > 0
                && next.contains(s)) by {
                assert(before.contains(s) <==> (s.len() > 0 && prev.contains(s)));
            }
            i = i + 1;
        }
        assert(self.examples@.subrange(0, self.examples.len() as int) =~= self.examples@);
        v
    }
}

/// What an example says, by value.
pub struct ExampleView<T> {
    pub file: Seq<char>,
    pub class: Seq<char>,
    pub source: Seq<char>,
    pub game_build: Seq<char>,
    pub at: T,
    pub offset: T,
}

pub open spec fn example_view<T>(e: Example<T>) -> ExampleView<T> {
    ExampleView {
        file: e.file@,
        class: e.class@,
        source: e.source@,
        game_build: e.game_build@,
        at: e.at,
        offset: e.offset,
    }
}

pub open spec fn examples_view<T>(s: Seq<Example<T>>) -> Seq<ExampleView<T>> {
    s.map_values(|e: Example<T>| example_view(e))
}

/// The examples not taken from `source`, in order.
pub open spec fn without_source<T>(s: Seq<ExampleView<T>>, source: Seq<char>) -> Seq<
    ExampleView<T>,
>
    decreases s.len(),
{
    if s.len() == 0 {
        Seq::empty()
    } else {
        let rest = without_source(s.drop_last(), source);
        if s.last().source == source {
            rest
        } else {
            rest.push(s.last())
        }
    }
}

/// A manifest's examples after folding in a fresh export: every earlier
/// example of the export's source is replaced by the export's own; an empty
/// export changes nothing.
pub open spec fn merged_spec<T>(old: Seq<ExampleView<T>>, fresh: Seq<ExampleView<T>>) -> Seq<
    ExampleView<T>,
> {
    if fresh.len() == 0 {
        old
    } else {
        without_source(old, fresh[0].source) + fresh
    }
}

fn clone_example<T: Copy>(e: &Example<T>) -> (c: Example<T>)
    ensures
        example_view(c) == example_view(*e),
{
    Example {
        file: e.file.clone(),
        class: e.class.clone(),
        source: e.source.clone(),
        game_build: e.game_build.clone(),
        at: e.at,
        offset: e.offset,
    }
}

impl<T: Copy> Manifest<T> {
    /// Folds a fresh export of one recording into this manifest, replacing
    /// any earlier entries for the same source video, so a re-export
    /// corrects rather than duplicates; the frame size is the export size.
    pub fn merge_export(&mut self, fresh: &Manifest<T>)
        ensures
            examples_view(final(self).examples@) == merged_spec(
                examples_view(old(self).examples@),
                examples_view(fresh.examples@),
            ),
            final(self).frame_width == FRAME_W,
            final(self).frame_height == FRAME_H,
    {
        let ghost before = examples_view(self.examples@);
        let ghost fv = examples_view(fresh.examples@);
        self.frame_width = FRAME_W;
        self.frame_height = FRAME_H;
        if fresh.examples.len() == 0 {
            assert(examples_view(self.examples@) =~= before);
            return;
        }
        let src = &fresh.examples[0].source;
        let mut kept: Vec<Example<T>> = Vec::new();
        let mut i: usize = 0;
        while i < self.examples.len()
            invariant
                0 <= i <= self.examples.len(),
                before == examples_view(self.examples@),
                fv.len() > 0,
                src@ == fv[0].source,
                examples_view(kept@) == without_source(
                    examples_view(self.examples@.subrange(0, i as int)),
                    src@,
                ),
            decreases self.examples.len() - i,
        {
            let ghost prev = examples_view(kept@);
            assert(examples_view(self.examples@.subrange(0, i + 1)).drop_last() =~= examples_view(
                self.examples@.subrange(0, i as int),
            ));
            if !str_eq(self.examples[i].source.as_str(), src.as_str()) {
                let c = clone_example(&self.examples[i]);
                kept.push(c);
                assert(examples_view(kept@) =~= prev.push(example_view(self.examples@[i as int])));
            } else {
                assert(examples_view(kept@) =~= prev);
            }
            i = i + 1;
        }
        assert(self.examples@.subrange(0, self.examples.len() as int) =~= self.examples@);
        let ghost head = examples_view(kept@);
        let mut k: usize = 0;
        while k < fresh.examples.len()
            invariant
                0 <= k <= fresh.examples.len(),
                fv == examples_view(fresh.examples@),
                examples_view(kept@) == head + fv.subrange(0, k as int),
            decreases fresh.examples.len() - k,
        {
            let ghost prev = examples_view(kept@);
            let c = clone_example(&fresh.examples[k]);
            kept.push(c);
            assert(examples_view(kept@) =~= prev.push(fv[k as int]));
            assert(examples_view(kept@) =~= head + fv.subrange(0, k + 1));
            k = k + 1;
        }
        assert(fv.subrange(0, fresh.examples.len() as int) =~= fv);
        self.examples = kept;
    }
}

proof fn lemma_without_source_append<T>(
    a: Seq<ExampleView<T>>,
    b: Seq<ExampleView<T>>,
    src: Seq<char>,
)
    ensures
        without_source(a + b, src) == without_source(a, src) + without_source(b, src),
    decreases b.len(),
{
    if b.len() == 0 {
        assert(a + b =~= a);
        assert(without_source(a, src) + without_source(b, src) =~= without_source(a, src));
    } else {
        assert((a + b).drop_last() =~= a + b.drop_last());
        lemma_without_source_append(a, b.drop_last(), src);
        if b.last().source != src {
            assert(without_source(a, src) + without_source(b, src) =~= (without_source(a, src)
                + without_source(b.drop_last(), src)).push(b.last()));
        }
    }
}

proof fn lemma_without_source_of_one_source<T>(b: Seq<ExampleView<T>>, src: Seq<char>)
    requires
        forall|i: int| 0 <= i < b.len() ==> #[trigger] b[i].source == src,
    ensures
        without_source(b, src) == Seq::<ExampleView<T>>::empty(),
    decreases b.len(),
{
    if b.len() > 0 {
        lemma_without_source_of_one_source(b.drop_last(), src);
    }
}

proof fn lemma_without_source_twice<T>(a: Seq<ExampleView<T>>, src: Seq<char>)
    ensures
        without_source(without_source(a, src), src) == without_source(a, src),
    decreases a.len(),
{
    if a.len() > 0 {
        lemma_without_source_twice(a.drop_last(), src);
        let rest = without_source(a.drop_last(), src);
        if a.last().source != src {
            assert(rest.push(a.last()).drop_last() =~= rest);
        }
    }
}

/// Exporting the same recording again replaces its entries instead of
/// duplicating them: folding an export in twice is folding it in once.
pub proof fn law_reexport_replaces_rather_than_duplicates<T>(
    old: Seq<ExampleView<T>>,
    fresh: Seq<ExampleView<T>>,
)
    requires
        forall|i: int| 0 <= i < fresh.len() ==> #[trigger] fresh[i].source == fresh[0].source,
    ensures
        merged_spec(merged_spec(old, fresh), fresh) == merged_spec(old, fresh),
{
    if fresh.len() > 0 {
        let src = fresh[0].source;
        let once = without_source(old, src);
        lemma_without_source_append(once, fresh, src);
        lemma_without_source_of_one_source(fresh, src);
        lemma_without_source_twice(old, src);
        assert(without_source(once + fresh, src) =~= once);
    }
}

/// Examples from other recordings survive a merge untouched, in order.
pub proof fn law_merge_keeps_other_recordings<T>(
    old: Seq<ExampleView<T>>,
    fresh: Seq<ExampleView<T>>,
)
    requires
        fresh.len() > 0,
    ensures
        without_source(merged_spec(old, fresh), fresh[0].source) == without_source(
            without_source(old, fresh[0].source),
            fresh[0].source,
        ) + without_source(fresh, fresh[0].source),
{
    lemma_without_source_append(without_source(old, fresh[0].source), fresh, fresh[0].source);
}

} // verus!
