//! The integer side of the classifier: checking the training input,
//! counting examples per class, the deterministic shuffle that makes two
//! training runs on the same data comparable, and the held-out counts that
//! accuracy and per-class recall are computed from. The arithmetic on
//! features is floating point and stays with the caller.
use crate::dataset::{
    lemma_insert_contains, lemma_insert_keeps_sorted, lemma_push_contains, lemma_sorted_distinct,
    sorted_position, strictly_sorted,
};
use vstd::prelude::*;
use vstd::string::StrSliceExecFns;

verus! {

/// Multiplier of the 64-bit linear congruential generator.
pub const LCG_MUL: u64 = 6364136223846793005;

/// Increment of the 64-bit linear congruential generator.
pub const LCG_INC: u64 = 1442695040888963407;

/// One generator step: `state * LCG_MUL + LCG_INC` modulo 2^64.
pub open spec fn lcg_step(state: u64) -> u64 {
    ((state as nat * LCG_MUL as nat + LCG_INC as nat) % 0x1_0000_0000_0000_0000nat) as u64
}

/// A 64-bit linear congruential generator.
pub struct Lcg(pub u64);

impl Lcg {
    /// Advance the generator and draw an index below `n` (below 1 when `n`
    /// is 0) from the state's top 31 bits.
    pub fn next_usize(&mut self, n: usize) -> (r: usize)
        ensures
            final(self).0 == lcg_step(old(self).0),
            r == (final(self).0 as nat / 0x2_0000_0000nat) % (if n == 0 {
                1
            } else {
                n as nat
            }),
    {
        let old_state = self.0;
        let m = old_state.wrapping_mul(LCG_MUL);
        let s = m.wrapping_add(LCG_INC);
        proof {
            let big = 0x1_0000_0000_0000_0000nat;
            assert(m == (old_state as nat * LCG_MUL as nat) % big);
            vstd::arithmetic::div_mod::lemma_add_mod_noop(
                (old_state as nat * LCG_MUL as nat) as int,
                LCG_INC as int,
                big as int,
            );
            assert((LCG_INC as int) % (big as int) == LCG_INC as int);
            assert(s == lcg_step(old_state));
        }
        self.0 = s;
        let top: u64 = s >> 33u64;
        assert(top == s / 0x2_0000_0000u64) by (bit_vector)
            requires
                top == s >> 33u64,
        ;
        let bound = if n == 0 {
            1
        } else {
            n
        };
        (top as usize) % bound
    }
}

/// The index drawn below `n` (1 when `n` is 0) by the step from `state`.
pub open spec fn drawn_below(state: u64, n: nat) -> nat {
    (lcg_step(state) as nat / 0x2_0000_0000nat) % (if n == 0 {
        1
    } else {
        n
    })
}

/// Fisher–Yates from position `i` down to 1: swap each position with an
/// index drawn below it (inclusive). Returns the order and the generator's
/// state after.
pub open spec fn shuffle_spec(order: Seq<usize>, state: u64, i: int) -> (Seq<usize>, u64)
    decreases i,
{
    if i < 1 || i >= order.len() {
        (order, state)
    } else {
        let j = drawn_below(state, (i + 1) as nat) as int;
        let swapped = order.update(i, order[j]).update(j, order[i]);
        shuffle_spec(swapped, lcg_step(state), i - 1)
    }
}

/// Shuffles `order` in place (Fisher–Yates, last position first) with the
/// deterministic generator.
pub fn shuffle(order: &mut Vec<usize>, rng: &mut Lcg)
    ensures
        (final(order)@, final(rng).0) == shuffle_spec(
            old(order)@,
            old(rng).0,
            old(order)@.len() - 1,
        ),
        final(order)@.to_multiset() == old(order)@.to_multiset(),
{
    broadcast use vstd::seq_lib::group_to_multiset_ensures;
    broadcast use vstd::multiset::group_multiset_axioms;

    let n = order.len();
    if n < 2 {
        return;
    }
    let mut i = n - 1;
    while i >= 1
        invariant
            order@.len() == n,
            0 <= i < n,
            shuffle_spec(old(order)@, old(rng).0, n - 1) == shuffle_spec(order@, rng.0, i as int),
            order@.to_multiset() == old(order)@.to_multiset(),
        decreases i,
    {
        let ghost before = order@;
        let ghost state = rng.0;
        let j = rng.next_usize(i + 1);
        let a = order[i];
        let b = order[j];
        order.set(i, b);
        order.set(j, a);
        proof {
            assert(j == drawn_below(state, (i + 1) as nat));
            let mid = before.update(i as int, b);
            assert(order@ == mid.update(j as int, a));
            assert(mid[j as int] == b);
            vstd::seq_lib::to_multiset_update(before, i as int, b);
            vstd::seq_lib::to_multiset_update(mid, j as int, a);
            vstd::seq_lib::to_multiset_contains(before, a);
            assert(before.contains(a)) by {
                assert(before[i as int] == a);
            }
            assert(order@.to_multiset() =~= before.to_multiset());
        }
        i = i - 1;
    }
}

/// Why a training set was refused, checked in this order.
#[derive(Debug, Clone, Copy, PartialEq, Eq, Structural)]
pub enum TrainInputError {
    NoExamples,
    LengthMismatch,
    NoClasses,
    EmptyFeatures,
    RaggedFeatures,
    LabelOutOfRange,
}

/// The first thing wrong with a training set of feature vectors of lengths
/// `feature_lens`, labelled `labels`, over `n_classes` classes — or, when it
/// is sound, the feature length.
pub open spec fn training_input_spec(
    feature_lens: Seq<usize>,
    labels: Seq<usize>,
    n_classes: usize,
) -> Result<usize, TrainInputError> {
    if feature_lens.len() == 0 {
        Err(TrainInputError::NoExamples)
    } else if feature_lens.len() != labels.len() {
        Err(TrainInputError::LengthMismatch)
    } else if n_classes == 0 {
        Err(TrainInputError::NoClasses)
    } else if feature_lens[0] == 0 {
        Err(TrainInputError::EmptyFeatures)
    } else if exists|i: int|
        0 <= i < feature_lens.len() && #[trigger] feature_lens[i] != feature_lens[0] {
        Err(TrainInputError::RaggedFeatures)
    } else if exists|i: int| 0 <= i < labels.len() && #[trigger] labels[i] >= n_classes {
        Err(TrainInputError::LabelOutOfRange)
    } else {
        Ok(feature_lens[0])
    }
}

/// Checks a training set before any arithmetic runs on it, so malformed
/// input is refused rather than producing a bad model.
pub fn check_training_input(feature_lens: &Vec<usize>, labels: &Vec<usize>, n_classes: usize) -> (r:
    Result<usize, TrainInputError>)
    ensures
        r == training_input_spec(feature_lens@, labels@, n_classes),
{
    if feature_lens.len() == 0 {
        return Err(TrainInputError::NoExamples);
    }
    if feature_lens.len() != labels.len() {
        return Err(TrainInputError::LengthMismatch);
    }
    if n_classes == 0 {
        return Err(TrainInputError::NoClasses);
    }
    let n_features = feature_lens[0];
    if n_features == 0 {
        return Err(TrainInputError::EmptyFeatures);
    }
    let mut i: usize = 0;
    while i < feature_lens.len()
        invariant
            0 <= i <= feature_lens.len(),
            feature_lens@.len() == labels@.len(),
            n_classes > 0,
            n_features > 0,
            n_features == feature_lens@[0],
            forall|k: int| 0 <= k < i ==> feature_lens@[k] == n_features,
        decreases feature_lens.len() - i,
    {
        if feature_lens[i] != n_features {
            assert(feature_lens@[i as int] != feature_lens@[0]);
            return Err(TrainInputError::RaggedFeatures);
        }
        i = i + 1;
    }
    let mut k: usize = 0;
    while k < labels.len()
        invariant
            0 <= k <= labels.len(),
            n_features == feature_lens@[0],
            feature_lens@.len() == labels@.len(),
            n_classes > 0,
            n_features > 0,
            forall|m: int| 0 <= m < feature_lens@.len() ==> feature_lens@[m] == n_features,
            forall|m: int| 0 <= m < k ==> labels@[m] < n_classes,
        decreases labels.len() - k,
    {
        if labels[k] >= n_classes {
            assert(labels@[k as int] >= n_classes);
            return Err(TrainInputError::LabelOutOfRange);
        }
        k = k + 1;
    }
    Ok(n_features)
}

/// How many of `labels` are `c`.
pub open spec fn label_count(labels: Seq<usize>, c: int) -> nat
    decreases labels.len(),
{
    if labels.len() == 0 {
        0
    } else {
        label_count(labels.drop_last(), c) + if labels.last() == c {
            1nat
        } else {
            0nat
        }
    }
}

/// Examples per class, for the inverse-frequency class weights.
pub fn label_counts(labels: &Vec<usize>, n_classes: usize) -> (counts: Vec<usize>)
    requires
        forall|i: int| 0 <= i < labels.len() ==> labels[i] < n_classes,
    ensures
        counts@.len() == n_classes,
        forall|c: int| 0 <= c < n_classes ==> #[trigger] counts@[c] == label_count(labels@, c),
{
    let mut counts: Vec<usize> = Vec::new();
    let mut c: usize = 0;
    while c < n_classes
        invariant
            0 <= c <= n_classes,
            counts@.len() == c,
            forall|m: int| 0 <= m < c ==> #[trigger] counts@[m] == 0,
        decreases n_classes - c,
    {
        counts.push(0);
        c = c + 1;
    }
    let mut i: usize = 0;
    while i < labels.len()
        invariant
            0 <= i <= labels.len(),
            counts@.len() == n_classes,
            forall|k: int| 0 <= k < labels.len() ==> labels[k] < n_classes,
            forall|m: int|
                0 <= m < n_classes ==> #[trigger] counts@[m] == label_count(
                    labels@.subrange(0, i as int),
                    m,
                ),
            forall|m: int| 0 <= m < n_classes ==> #[trigger] counts@[m] <= i,
        decreases labels.len() - i,
    {
        assert(labels@.subrange(0, i + 1).drop_last() =~= labels@.subrange(0, i as int));
        let l = labels[i];
        let n = counts[l];
        counts.set(l, n + 1);
        i = i + 1;
    }
    assert(labels@.subrange(0, labels.len() as int) =~= labels@);
    counts
}

/// How many of the first `n` predictions name the true class.
pub open spec fn right_count(predicted: Seq<usize>, labels: Seq<usize>, n: int) -> nat
    decreases n,
{
    if n <= 0 {
        0
    } else {
        right_count(predicted, labels, n - 1) + if predicted[n - 1] == labels[n - 1] {
            1nat
        } else {
            0nat
        }
    }
}

/// How many of the first `n` examples belong to a class named `name`.
pub open spec fn support_count(labels: Seq<usize>, names: Seq<Seq<char>>, n: int, name: Seq<char>) -> nat
    decreases n,
{
    if n <= 0 {
        0
    } else {
        support_count(labels, names, n - 1, name) + if names[labels[n - 1] as int] == name {
            1nat
        } else {
            0nat
        }
    }
}

/// How many of the first `n` examples of a class named `name` were predicted
/// right.
pub open spec fn recalled_count(
    predicted: Seq<usize>,
    labels: Seq<usize>,
    names: Seq<Seq<char>>,
    n: int,
    name: Seq<char>,
) -> nat
    decreases n,
{
    if n <= 0 {
        0
    } else {
        recalled_count(predicted, labels, names, n - 1, name) + if names[labels[n - 1] as int]
            == name && predicted[n - 1] == labels[n - 1] {
            1nat
        } else {
            0nat
        }
    }
}

/// The class names of the first `n` examples, in order.
pub open spec fn label_names(labels: Seq<usize>, names: Seq<Seq<char>>, n: int) -> Seq<Seq<char>> {
    Seq::new(n as nat, |i: int| names[labels[i] as int])
}

/// Held-out counts: predictions that named the true class, and per class
/// name (distinct, sorted) the examples predicted right and the examples
/// there were (its support). Accuracy and recall are their ratios.
pub struct EvalCounts {
    pub correct: usize,
    pub per_class: Vec<(String, usize, usize)>,
}

pub open spec fn eval_keys(per_class: Seq<(String, usize, usize)>) -> Seq<Seq<char>> {
    per_class.map_values(|e: (String, usize, usize)| e.0@)
}

/// Counts a held-out evaluation: `predicted[i]` against `labels[i]`, each an
/// index into `classes`.
pub fn evaluation_counts(predicted: &Vec<usize>, labels: &Vec<usize>, classes: &Vec<String>) -> (c:
    EvalCounts)
    requires
        predicted.len() == labels.len(),
        forall|i: int| 0 <= i < labels.len() ==> #[trigger] labels[i] < classes.len(),
    ensures
        c.correct == right_count(predicted@, labels@, labels.len() as int),
        strictly_sorted(eval_keys(c.per_class@)),
        forall|s: Seq<char>|
            eval_keys(c.per_class@).contains(s) <==> label_names(
                labels@,
                classes.deep_view(),
                labels.len() as int,
            ).contains(s),
        forall|k: int|
            0 <= k < c.per_class@.len() ==> {
                &&& #[trigger] c.per_class@[k].1 == recalled_count(
                    predicted@,
                    labels@,
                    classes.deep_view(),
                    labels.len() as int,
                    c.per_class@[k].0@,
                )
                &&& c.per_class@[k].2 == support_count(
                    labels@,
                    classes.deep_view(),
                    labels.len() as int,
                    c.per_class@[k].0@,
                )
            },
{
    let ghost names = classes.deep_view();
    let mut correct: usize = 0;
    let mut keys: Vec<String> = Vec::new();
    let mut rights: Vec<usize> = Vec::new();
    let mut supports: Vec<usize> = Vec::new();
    let mut i: usize = 0;
    while i < labels.len()
        invariant
            names == classes.deep_view(),
            predicted.len() == labels.len(),
            forall|j: int| 0 <= j < labels.len() ==> #[trigger] labels[j] < classes.len(),
            0 <= i <= labels.len(),
            correct == right_count(predicted@, labels@, i as int),
            correct <= i,
            keys.len() == rights.len(),
            keys.len() == supports.len(),
            strictly_sorted(keys.deep_view()),
            forall|s: Seq<char>|
                keys.deep_view().contains(s) <==> label_names(labels@, names, i as int).contains(
                    s,
                ),
            forall|k: int|
                0 <= k < keys.len() ==> {
                    &&& #[trigger] rights@[k] == recalled_count(
                        predicted@,
                        labels@,
                        names,
                        i as int,
                        keys.deep_view()[k],
                    )
                    &&& supports@[k] == support_count(labels@, names, i as int, keys.deep_view()[k])
                    &&& rights@[k] <= i
                    &&& supports@[k] <= i
                },
        decreases labels.len() - i,
    {
        let ghost before = keys.deep_view();
        let ghost rbefore = rights@;
        let ghost sbefore = supports@;
        let y = labels[i];
        let hit = predicted[i] == y;
        let name = &classes[y];
        assert(name@ == names[y as int]);
        proof {
            assert(label_names(labels@, names, i + 1) =~= label_names(labels@, names, i as int).push(
                name@,
            ));
            lemma_push_contains(label_names(labels@, names, i as int), name@);
        }
        if hit {
            correct = correct + 1;
        }
        let (j, found) = sorted_position(&keys, name.as_str());
        if found {
            let r = rights[j];
            let sp = supports[j];
            rights.set(
                j,
                if hit {
                    r + 1
                } else {
                    r
                },
            );
            supports.set(j, sp + 1);
            proof {
                assert forall|k: int| 0 <= k < keys.len() implies {
                    &&& #[trigger] rights@[k] == recalled_count(
                        predicted@,
                        labels@,
                        names,
                        i + 1,
                        keys.deep_view()[k],
                    )
                    &&& supports@[k] == support_count(labels@, names, i + 1, keys.deep_view()[k])
                    &&& rights@[k] <= i + 1
                    &&& supports@[k] <= i + 1
                } by {
                    assert(keys.deep_view() == before);
                    if k != j {
                        lemma_sorted_distinct(before, k, j as int);
                        assert(rights@[k] == rbefore[k]);
                        assert(supports@[k] == sbefore[k]);
                    } else {
                        assert(before[k] == name@);
                        assert(predicted@[i as int] == labels@[i as int] <==> hit);
                        assert(names[labels@[i as int] as int] == name@);
                    }
                }
            }
        } else {
            proof {
                lemma_name_absent(predicted@, labels@, names, i as int, name@);
            }
            keys.insert(j, name.clone());
            rights.insert(
                j,
                if hit {
                    1
                } else {
                    0
                },
            );
            supports.insert(j, 1);
            proof {
                lemma_insert_keeps_sorted(before, j as int, name@);
                assert(keys.deep_view() =~= before.insert(j as int, name@));
                lemma_insert_contains(before, j as int, name@);
                assert forall|k: int| 0 <= k < keys.len() implies {
                    &&& #[trigger] rights@[k] == recalled_count(
                        predicted@,
                        labels@,
                        names,
                        i + 1,
                        keys.deep_view()[k],
                    )
                    &&& supports@[k] == support_count(labels@, names, i + 1, keys.deep_view()[k])
                    &&& rights@[k] <= i + 1
                    &&& supports@[k] <= i + 1
                } by {
                    if k < j {
                        assert(keys.deep_view()[k] == before[k]);
                        assert(rights@[k] == rbefore[k] && supports@[k] == sbefore[k]);
                        assert(before[k] != name@) by {
                            assert(before.contains(before[k]));
                        }
                    } else if k > j {
                        assert(keys.deep_view()[k] == before[k - 1]);
                        assert(rights@[k] == rbefore[k - 1] && supports@[k] == sbefore[k - 1]);
                        assert(before[k - 1] != name@) by {
                            assert(before.contains(before[k - 1]));
                        }
                    }
                }
            }
        }
        assert forall|s: Seq<char>| keys.deep_view().contains(s) <==> label_names(
            labels@,
            names,
            i + 1,
        ).contains(s) by {
            assert(before.contains(s) <==> label_names(labels@, names, i as int).contains(s));
        }
        i = i + 1;
    }
    let mut per_class: Vec<(String, usize, usize)> = Vec::new();
    let mut k: usize = 0;
    while k < keys.len()
        invariant
            keys.len() == rights.len(),
            keys.len() == supports.len(),
            0 <= k <= keys.len(),
            per_class@.len() == k,
            forall|m: int|
                0 <= m < k ==> #[trigger] per_class@[m].0@ == keys.deep_view()[m]
                    && per_class@[m].1 == rights@[m] && per_class@[m].2 == supports@[m],
        decreases keys.len() - k,
    {
        per_class.push((keys[k].clone(), rights[k], supports[k]));
        k = k + 1;
    }
    assert(eval_keys(per_class@) =~= keys.deep_view());
    EvalCounts { correct, per_class }
}

/// A class name that no example so far carries has no support and no
/// recalled examples.
proof fn lemma_name_absent(
    predicted: Seq<usize>,
    labels: Seq<usize>,
    names: Seq<Seq<char>>,
    n: int,
    name: Seq<char>,
)
    requires
        0 <= n,
        !label_names(labels, names, n).contains(name),
    ensures
        support_count(labels, names, n, name) == 0,
        recalled_count(predicted, labels, names, n, name) == 0,
    decreases n,
{
    if n > 0 {
        assert(label_names(labels, names, n)[n - 1] == names[labels[n - 1] as int]);
        assert forall|k: int| 0 <= k < n - 1 implies #[trigger] label_names(labels, names, n - 1)[k]
            != name by {
            assert(label_names(labels, names, n)[k] == label_names(labels, names, n - 1)[k]);
        }
        lemma_name_absent(predicted, labels, names, n - 1, name);
    }
}

} // verus!
