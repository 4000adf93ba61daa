//! Detected event kinds and their wire names.
//!
//! The review page sends kinds as strings and the label file stores them the
//! same way, so the mapping must round-trip exactly and refuse anything else:
//! a mark silently stored as the wrong kind is worse than one refused.
use crate::text::str_eq;
use vstd::prelude::*;

verus! {

#[derive(Debug, Clone, Copy, PartialEq, Eq, Structural)]
pub enum Kind {
    /// The local player died. Detected from the full-screen death card.
    Death,
    /// A player died on screen — the thing ultimately to detect.
    PlayerKill,
    /// A monster died on screen: an explicit negative example.
    MonsterKill,
}

/// One detection, `at` microseconds into the source video. The score travels
/// in the caller's own numeric type: nothing here compares or computes on it.
#[derive(Debug, Clone, Copy)]
pub struct Event<T> {
    pub kind: Kind,
    pub at: i64,
    /// Detector confidence. Every event is a suggestion, never ground truth.
    pub score: T,
    /// Set once ruled on; `None` means unreviewed.
    pub confirmed: Option<bool>,
}

impl<T> Event<T> {
    /// A fresh, unreviewed detection.
    pub fn new(kind: Kind, at: i64, score: T) -> (e: Event<T>)
        ensures
            e.kind == kind,
            e.at == at,
            e.score == score,
            e.confirmed is None,
    {
        Event { kind, at, score, confirmed: None }
    }
}

/// The wire name of each kind (serde's lowercase form of the variant).
pub open spec fn wire_name_spec(k: Kind) -> Seq<char> {
    match k {
        Kind::Death => "death"@,
        Kind::PlayerKill => "playerkill"@,
        Kind::MonsterKill => "monsterkill"@,
    }
}

/// The kind a wire name denotes; anything else is refused.
pub open spec fn from_wire_spec(s: Seq<char>) -> Option<Kind> {
    if s == wire_name_spec(Kind::Death) {
        Some(Kind::Death)
    } else if s == wire_name_spec(Kind::PlayerKill) {
        Some(Kind::PlayerKill)
    } else if s == wire_name_spec(Kind::MonsterKill) {
        Some(Kind::MonsterKill)
    } else {
        None
    }
}

impl Kind {
    /// Every variant, so callers that map to/from strings can be checked
    /// against the full set instead of quietly handling a subset.
    pub fn all() -> (ks: [Kind; 3])
        ensures
            ks@ == seq![Kind::Death, Kind::PlayerKill, Kind::MonsterKill],
    {
        let ks = [Kind::Death, Kind::PlayerKill, Kind::MonsterKill];
        assert(ks@ =~= seq![Kind::Death, Kind::PlayerKill, Kind::MonsterKill]);
        ks
    }

    /// The wire name used by the review UI and the label file.
    pub fn wire_name(self) -> (s: &'static str)
        ensures
            s@ == wire_name_spec(self),
    {
        match self {
            Kind::Death => "death",
            Kind::PlayerKill => "playerkill",
            Kind::MonsterKill => "monsterkill",
        }
    }

    /// Parse a wire name. `None` for anything unrecognized — deliberately
    /// not defaulting.
    pub fn from_wire(s: &str) -> (k: Option<Kind>)
        ensures
            k == from_wire_spec(s@),
    {
        if str_eq(s, Kind::Death.wire_name()) {
            Some(Kind::Death)
        } else if str_eq(s, Kind::PlayerKill.wire_name()) {
            Some(Kind::PlayerKill)
        } else if str_eq(s, Kind::MonsterKill.wire_name()) {
            Some(Kind::MonsterKill)
        } else {
            None
        }
    }
}

proof fn lemma_wire_names_differ()
    ensures
        wire_name_spec(Kind::Death) != wire_name_spec(Kind::PlayerKill),
        wire_name_spec(Kind::Death) != wire_name_spec(Kind::MonsterKill),
        wire_name_spec(Kind::PlayerKill) != wire_name_spec(Kind::MonsterKill),
{
    reveal_strlit("death");
    reveal_strlit("playerkill");
    reveal_strlit("monsterkill");
    assert(wire_name_spec(Kind::Death).len() != wire_name_spec(Kind::PlayerKill).len());
    assert(wire_name_spec(Kind::Death).len() != wire_name_spec(Kind::MonsterKill).len());
    assert(wire_name_spec(Kind::PlayerKill)[0] != wire_name_spec(Kind::MonsterKill)[0]);
}

/// Every kind round-trips through its wire name.
pub proof fn law_wire_name_round_trips(k: Kind)
    ensures
        from_wire_spec(wire_name_spec(k)) == Some(k),
{
    lemma_wire_names_differ();
}

/// No two kinds share a wire name.
pub proof fn law_wire_names_are_distinct(a: Kind, b: Kind)
    requires
        a != b,
    ensures
        wire_name_spec(a) != wire_name_spec(b),
{
    lemma_wire_names_differ();
}

/// A string is accepted only if it is exactly some kind's wire name; it is
/// never defaulted to a kind.
pub proof fn law_from_wire_only_accepts_wire_names(s: Seq<char>)
    ensures
        from_wire_spec(s) matches Some(k) ==> wire_name_spec(k) == s,
        (forall|k: Kind| wire_name_spec(k) != s) ==> from_wire_spec(s) is None,
{
    assert((forall|k: Kind| wire_name_spec(k) != s) ==> (wire_name_spec(Kind::Death) != s
        && wire_name_spec(Kind::PlayerKill) != s && wire_name_spec(Kind::MonsterKill) != s));
}

} // verus!
