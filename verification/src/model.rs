//! When a trained model is stale, and which of its classes are undertrained.
//!
//! A model records every game build its training data came from. A patched
//! game invalidates it — but missing information (an unknown current build)
//! is never taken as evidence of staleness.
use crate::text::str_eq;
use vstd::string::StrSliceExecFns;
use vstd::prelude::*;

verus! {

/// A model is stale when the current build is known, the model records its
/// builds, and the current build is not among them.
pub open spec fn model_stale_spec(game_builds: Seq<Seq<char>>, current_build: Seq<char>) -> bool {
    current_build.len() > 0 && game_builds.len() > 0 && !game_builds.contains(current_build)
}

/// True if `current_build` isn't among the builds a model was trained on.
pub fn model_is_stale(game_builds: &Vec<String>, current_build: &str) -> (r: bool)
    ensures
        r == model_stale_spec(game_builds.deep_view(), current_build@),
{
    if current_build.unicode_len() == 0 || game_builds.len() == 0 {
        return false;
    }
    let mut i: usize = 0;
    while i < game_builds.len()
        invariant
            0 <= i <= game_builds.len(),
            forall|k: int| 0 <= k < i ==> game_builds.deep_view()[k] != current_build@,
        decreases game_builds.len() - i,
    {
        if str_eq(game_builds[i].as_str(), current_build) {
            assert(game_builds.deep_view()[i as int] == current_build@);
            return false;
        }
        i = i + 1;
    }
    true
}

/// An unknown current build is never stale, and a model accepts every build
/// it was trained on.
pub proof fn law_model_staleness(game_builds: Seq<Seq<char>>, current_build: Seq<char>)
    ensures
        current_build.len() == 0 ==> !model_stale_spec(game_builds, current_build),
        game_builds.contains(current_build) ==> !model_stale_spec(game_builds, current_build),
        game_builds.len() == 0 ==> !model_stale_spec(game_builds, current_build),
{
}

/// The example count recorded for class `c`: the first entry keyed `c`, or
/// zero when the class has none.
pub open spec fn count_for(pairs: Seq<(String, usize)>, c: Seq<char>) -> nat
    decreases pairs.len(),
{
    if pairs.len() == 0 {
        0
    } else if pairs[0].0@ == c {
        pairs[0].1 as nat
    } else {
        count_for(pairs.drop_first(), c)
    }
}

/// The classes, in order, whose recorded count is under `min_examples`.
pub open spec fn undertrained_spec(
    classes: Seq<Seq<char>>,
    pairs: Seq<(String, usize)>,
    min_examples: usize,
) -> Seq<Seq<char>>
    decreases classes.len(),
{
    if classes.len() == 0 {
        Seq::empty()
    } else {
        let rest = undertrained_spec(classes.drop_last(), pairs, min_examples);
        if count_for(pairs, classes.last()) < min_examples {
            rest.push(classes.last())
        } else {
            rest
        }
    }
}

/// The count recorded for `c` in `examples_per_class`.
fn examples_for(examples_per_class: &Vec<(String, usize)>, c: &str) -> (n: usize)
    ensures
        n == count_for(examples_per_class@, c@),
{
    let mut k: usize = 0;
    assert(examples_per_class@.skip(0) =~= examples_per_class@);
    while k < examples_per_class.len()
        invariant
            0 <= k <= examples_per_class.len(),
            count_for(examples_per_class@, c@) == count_for(
                examples_per_class@.skip(k as int),
                c@,
            ),
        decreases examples_per_class.len() - k,
    {
        assert(examples_per_class@.skip(k as int)[0] == examples_per_class@[k as int]);
        if str_eq(examples_per_class[k].0.as_str(), c) {
            return examples_per_class[k].1;
        }
        assert(examples_per_class@.skip(k as int).drop_first() =~= examples_per_class@.skip(
            k + 1,
        ));
        k = k + 1;
    }
    0
}

/// Classes with too few examples to trust, whatever the headline accuracy
/// says: each class of the model, in output order, whose recorded example
/// count (zero when unrecorded) is under `min_examples`.
pub fn undertrained_classes(
    classes: &Vec<String>,
    examples_per_class: &Vec<(String, usize)>,
    min_examples: usize,
) -> (v: Vec<String>)
    ensures
        v.deep_view() == undertrained_spec(classes.deep_view(), examples_per_class@, min_examples),
{
    let mut v: Vec<String> = Vec::new();
    let mut i: usize = 0;
    while i < classes.len()
        invariant
            0 <= i <= classes.len(),
            v.deep_view() == undertrained_spec(
                classes.deep_view().subrange(0, i as int),
                examples_per_class@,
                min_examples,
            ),
        decreases classes.len() - i,
    {
        let ghost before = v.deep_view();
        assert(classes.deep_view().subrange(0, i + 1).drop_last() =~= classes.deep_view().subrange(
            0,
            i as int,
        ));
        if examples_for(examples_per_class, classes[i].as_str()) < min_examples {
            v.push(classes[i].clone());
            assert(v.deep_view() =~= before.push(classes@[i as int]@));
        }
        i = i + 1;
    }
    assert(classes.deep_view().subrange(0, classes.len() as int) =~= classes.deep_view());
    v
}

} // verus!
