//! The order in which the clip library lists clips: newest first.
use vstd::prelude::*;

verus! {

/// Where a clip modified at `t` goes in a list already ordered newest first:
/// after the last clip that is not older.
pub open spec fn newer_insert_point(s: Seq<(u64, usize)>, t: u64) -> int
    decreases s.len(),
{
    if s.len() == 0 {
        0
    } else if s.last().0 >= t {
        s.len() as int
    } else {
        newer_insert_point(s.drop_last(), t)
    }
}

/// `s` stably ordered newest first by its first field: each clip placed after
/// every earlier one that is not older.
pub open spec fn newest_first_spec(s: Seq<(u64, usize)>) -> Seq<(u64, usize)>
    decreases s.len(),
{
    if s.len() == 0 {
        Seq::empty()
    } else {
        let r = newest_first_spec(s.drop_last());
        r.insert(newer_insert_point(r, s.last().0), s.last())
    }
}

pub open spec fn is_newest_first(s: Seq<(u64, usize)>) -> bool {
    forall|i: int, j: int| 0 <= i <= j < s.len() ==> (#[trigger] s[i]).0 >= (#[trigger] s[j]).0
}

/// Each modification time paired with the position it came from.
pub open spec fn stamped(modified: Seq<u64>) -> Seq<(u64, usize)> {
    Seq::new(modified.len(), |i: int| (modified[i], i as usize))
}

fn find_newer_insert_point(sorted: &Vec<(u64, usize)>, t: u64) -> (j: usize)
    ensures
        j == newer_insert_point(sorted@, t),
{
    let mut j = sorted.len();
    assert(sorted@.subrange(0, j as int) =~= sorted@);
    while j > 0 && sorted[j - 1].0 < t
        invariant
            0 <= j <= sorted.len(),
            newer_insert_point(sorted@, t) == newer_insert_point(sorted@.subrange(0, j as int), t),
        decreases j,
    {
        assert(sorted@.subrange(0, j as int).drop_last() =~= sorted@.subrange(0, j - 1));
        j = j - 1;
    }
    j
}

/// The order in which the library lists clips: the positions of
/// `modified` (each clip's modification time, in seconds), newest first,
/// clips of the same time in the order they were found.
pub fn newest_first(modified: &Vec<u64>) -> (order: Vec<usize>)
    ensures
        order@ == newest_first_spec(stamped(modified@)).map_values(|x: (u64, usize)| x.1),
{
    let ghost items = stamped(modified@);
    let mut sorted: Vec<(u64, usize)> = Vec::new();
    let mut n: usize = 0;
    while n < modified.len()
        invariant
            0 <= n <= modified.len(),
            items == stamped(modified@),
            sorted@ == newest_first_spec(items.subrange(0, n as int)),
        decreases modified.len() - n,
    {
        let x = (modified[n], n);
        assert(items.subrange(0, n + 1).drop_last() =~= items.subrange(0, n as int));
        assert(items.subrange(0, n + 1).last() == x);
        let j = find_newer_insert_point(&sorted, x.0);
        proof {
            lemma_newer_insert_point_bound(sorted@, x.0);
        }
        sorted.insert(j, x);
        n = n + 1;
    }
    assert(items.subrange(0, modified.len() as int) =~= items);
    let mut order: Vec<usize> = Vec::new();
    let mut k: usize = 0;
    while k < sorted.len()
        invariant
            0 <= k <= sorted.len(),
            order@ == sorted@.subrange(0, k as int).map_values(|x: (u64, usize)| x.1),
        decreases sorted.len() - k,
    {
        order.push(sorted[k].1);
        assert(sorted@.subrange(0, k + 1).map_values(|x: (u64, usize)| x.1) =~= sorted@.subrange(
            0,
            k as int,
        ).map_values(|x: (u64, usize)| x.1).push(sorted@[k as int].1));
        k = k + 1;
    }
    assert(sorted@.subrange(0, sorted.len() as int) =~= sorted@);
    order
}

proof fn lemma_newer_insert_point_bound(s: Seq<(u64, usize)>, t: u64)
    ensures
        0 <= newer_insert_point(s, t) <= s.len(),
    decreases s.len(),
{
    if s.len() > 0 {
        lemma_newer_insert_point_bound(s.drop_last(), t);
    }
}

/// In a list ordered newest first, everything before the insert point is not
/// older than `t` and everything from it on is older.
proof fn lemma_newer_insert_point_splits(s: Seq<(u64, usize)>, t: u64)
    requires
        is_newest_first(s),
    ensures
        0 <= newer_insert_point(s, t) <= s.len(),
        forall|k: int| 0 <= k < newer_insert_point(s, t) ==> (#[trigger] s[k]).0 >= t,
        forall|k: int| newer_insert_point(s, t) <= k < s.len() ==> (#[trigger] s[k]).0 < t,
    decreases s.len(),
{
    lemma_newer_insert_point_bound(s, t);
    if s.len() > 0 {
        let r = s.drop_last();
        assert(is_newest_first(r));
        lemma_newer_insert_point_splits(r, t);
        if s.last().0 >= t {
            assert forall|k: int| 0 <= k < s.len() implies (#[trigger] s[k]).0 >= t by {
                assert(s[k].0 >= s[s.len() - 1].0);
            }
        } else {
            assert forall|k: int| 0 <= k < newer_insert_point(s, t) implies (#[trigger] s[k]).0
                >= t by {
                assert(s[k] == r[k]);
            }
            assert forall|k: int| newer_insert_point(s, t) <= k < s.len() implies (
            #[trigger] s[k]).0 < t by {
                if k < s.len() - 1 {
                    assert(s[k] == r[k]);
                }
            }
        }
    }
}

/// The library lists clips newest first.
pub proof fn law_clips_are_listed_newest_first(s: Seq<(u64, usize)>)
    ensures
        is_newest_first(newest_first_spec(s)),
    decreases s.len(),
{
    if s.len() > 0 {
        let r = newest_first_spec(s.drop_last());
        law_clips_are_listed_newest_first(s.drop_last());
        let x = s.last();
        let j = newer_insert_point(r, x.0);
        lemma_newer_insert_point_splits(r, x.0);
        let w = r.insert(j, x);
        assert forall|a: int, b: int| 0 <= a <= b < w.len() implies (#[trigger] w[a]).0 >= (
        #[trigger] w[b]).0 by {
            if a < j && b < j {
                assert(w[a] == r[a] && w[b] == r[b]);
            } else if a < j && b == j {
                assert(w[a] == r[a]);
            } else if a < j {
                assert(w[a] == r[a] && w[b] == r[b - 1]);
            } else if a == j && b == j {
            } else if a == j {
                assert(w[b] == r[b - 1]);
            } else {
                assert(w[a] == r[a - 1] && w[b] == r[b - 1]);
            }
        }
    }
}

/// Ordering the library drops no clip and repeats none.
pub proof fn law_listing_keeps_every_clip(s: Seq<(u64, usize)>)
    ensures
        newest_first_spec(s).to_multiset() == s.to_multiset(),
    decreases s.len(),
{
    broadcast use vstd::seq_lib::group_to_multiset_ensures;

    if s.len() > 0 {
        let r = newest_first_spec(s.drop_last());
        law_listing_keeps_every_clip(s.drop_last());
        lemma_newer_insert_point_bound(r, s.last().0);
        assert(s.drop_last().push(s.last()) =~= s);
    }
}

} // verus!
