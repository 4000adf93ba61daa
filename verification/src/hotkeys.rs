//! Global hotkey registration and routing.
//!
//! Each clip preset registers a system-wide hotkey; when one fires, its id is
//! resolved to how many seconds that preset saves. Parsing a hotkey string
//! and registering it with the OS are the `global-hotkey` crate's work.
use crate::config::{ClipPreset, ClipPresetView, Config};
use global_hotkey::hotkey::HotKey;
use global_hotkey::GlobalHotKeyManager;
use std::collections::HashMap;
use std::str::FromStr;
use vstd::prelude::*;

verus! {

broadcast use vstd::std_specs::hash::group_hash_axioms;

/// `global_hotkey::hotkey::HotKey`, carried through unopened.
#[verifier::external_type_specification]
#[verifier::external_body]
pub struct ExHotKey(HotKey);

/// `global_hotkey::GlobalHotKeyManager`, held by the router so its
/// registrations live as long as it does.
#[verifier::external_type_specification]
#[verifier::external_body]
pub struct ExGlobalHotKeyManager(GlobalHotKeyManager);

/// `global_hotkey::Error`, handed back to the caller unopened.
#[verifier::external_type_specification]
#[verifier::external_body]
pub struct ExGlobalHotkeyError(global_hotkey::Error);

/// The id `global-hotkey` assigns to the hotkey a string denotes, or `None`
/// when the string is not a hotkey.
pub uninterp spec fn parsed_hotkey_id(s: Seq<char>) -> Option<u32>;

/// `HotKey::from_str`, paired with the parsed hotkey's id; `None` exactly
/// when parsing fails.
#[verifier::external_body]
fn parse_hotkey(s: &str) -> (r: Option<(HotKey, u32)>)
    ensures
        match r {
            Some((_, id)) => parsed_hotkey_id(s@) == Some(id),
            None => parsed_hotkey_id(s@) is None,
        },
{
    match HotKey::from_str(s) {
        Ok(h) => Some((h, h.id())),
        Err(_) => None,
    }
}

/// `GlobalHotKeyManager::new`; whether the OS grants a manager is not
/// stated.
#[verifier::external_body]
fn new_manager() -> (r: Result<GlobalHotKeyManager, global_hotkey::Error>) {
    GlobalHotKeyManager::new()
}

/// `GlobalHotKeyManager::register`; `true` when the OS accepted the hotkey.
/// Whether it does (the combination may already be taken) is not stated.
#[verifier::external_body]
fn register_with_os(manager: &GlobalHotKeyManager, hotkey: HotKey) -> (accepted: bool) {
    manager.register(hotkey).is_ok()
}

/// Why no hotkey router could be built.
pub enum RouterError {
    /// The OS hotkey manager could not be created.
    Manager(global_hotkey::Error),
    /// No preset's hotkey could be registered.
    NoHotkeys,
}

pub struct HotkeyRouter {
    manager: GlobalHotKeyManager,
    /// Map from the OS hotkey id to the save length in seconds.
    id_to_seconds: HashMap<u32, u32>,
    /// Map from the OS hotkey id to the preset label.
    id_to_name: HashMap<u32, String>,
    /// The answer each preset got when it was registered, in order.
    answers: Ghost<Seq<Option<u32>>>,
}

/// Every routed id belongs to a preset whose hotkey parses to that id, and
/// routes to that preset's length and name.
pub open spec fn routes_to_presets(
    seconds: Map<u32, u32>,
    names: Map<u32, Seq<char>>,
    presets: Seq<ClipPresetView>,
) -> bool {
    &&& seconds.dom() == names.dom()
    &&& forall|id: u32|
        #[trigger] seconds.contains_key(id) ==> exists|i: int|
            0 <= i < presets.len() && parsed_hotkey_id(#[trigger] presets[i].hotkey) == Some(id)
                && seconds[id] == presets[i].seconds && names[id] == presets[i].name
}

/// One answer per preset, in order: `Some(id)` for a preset whose hotkey
/// parsed to `id` and was accepted by the OS, `None` for one that was
/// skipped. Only a parsed hotkey can have been accepted.
pub open spec fn answers_fit(presets: Seq<ClipPresetView>, answers: Seq<Option<u32>>) -> bool {
    &&& answers.len() == presets.len()
    &&& forall|i: int|
        0 <= i < answers.len() ==> (#[trigger] answers[i] matches Some(id) ==> parsed_hotkey_id(
            presets[i].hotkey,
        ) == Some(id))
}

/// Save length per hotkey id after registering `presets` in order with the
/// given answers: each accepted preset routes its id to its length, a later
/// preset replacing an earlier one with the same id.
pub open spec fn routed_seconds(presets: Seq<ClipPresetView>, answers: Seq<Option<u32>>) -> Map<
    u32,
    u32,
>
    decreases presets.len(),
{
    if presets.len() == 0 {
        Map::empty()
    } else {
        let rest = routed_seconds(presets.drop_last(), answers.drop_last());
        match answers.last() {
            Some(id) => rest.insert(id, presets.last().seconds),
            None => rest,
        }
    }
}

/// Preset label per hotkey id, built as `routed_seconds` is.
pub open spec fn routed_names(presets: Seq<ClipPresetView>, answers: Seq<Option<u32>>) -> Map<
    u32,
    Seq<char>,
>
    decreases presets.len(),
{
    if presets.len() == 0 {
        Map::empty()
    } else {
        let rest = routed_names(presets.drop_last(), answers.drop_last());
        match answers.last() {
            Some(id) => rest.insert(id, presets.last().name),
            None => rest,
        }
    }
}

proof fn lemma_routed_prefix(presets: Seq<ClipPresetView>, answers: Seq<Option<u32>>, k: int)
    requires
        0 <= k < presets.len(),
        answers.len() == presets.len(),
    ensures
        routed_seconds(presets.subrange(0, k + 1), answers.subrange(0, k + 1)) == match answers[k] {
            Some(id) => routed_seconds(presets.subrange(0, k), answers.subrange(0, k)).insert(
                id,
                presets[k].seconds,
            ),
            None => routed_seconds(presets.subrange(0, k), answers.subrange(0, k)),
        },
        routed_names(presets.subrange(0, k + 1), answers.subrange(0, k + 1)) == match answers[k] {
            Some(id) => routed_names(presets.subrange(0, k), answers.subrange(0, k)).insert(
                id,
                presets[k].name,
            ),
            None => routed_names(presets.subrange(0, k), answers.subrange(0, k)),
        },
{
    assert(presets.subrange(0, k + 1).drop_last() =~= presets.subrange(0, k));
    assert(answers.subrange(0, k + 1).drop_last() =~= answers.subrange(0, k));
}

/// The routing is finite, names and lengths cover the same ids, and every
/// routed id comes from an accepted preset whose hotkey parses to it.
proof fn lemma_routed_from_presets(presets: Seq<ClipPresetView>, answers: Seq<Option<u32>>)
    requires
        answers_fit(presets, answers),
    ensures
        routed_seconds(presets, answers).dom().finite(),
        routes_to_presets(routed_seconds(presets, answers), routed_names(presets, answers), presets),
    decreases presets.len(),
{
    if presets.len() > 0 {
        let p = presets.drop_last();
        let a = answers.drop_last();
        assert forall|i: int| 0 <= i < a.len() implies (#[trigger] a[i] matches Some(id)
            ==> parsed_hotkey_id(p[i].hotkey) == Some(id)) by {
            assert(a[i] == answers[i] && p[i] == presets[i]);
        }
        lemma_routed_from_presets(p, a);
        let secs = routed_seconds(presets, answers);
        let names = routed_names(presets, answers);
        let n = presets.len() - 1;
        assert(answers.last() == answers[n]);
        assert forall|id: u32| #[trigger] secs.contains_key(id) implies exists|i: int|
            0 <= i < presets.len() && parsed_hotkey_id(#[trigger] presets[i].hotkey) == Some(id)
                && secs[id] == presets[i].seconds && names[id] == presets[i].name by {
            if answers.last() == Some(id) {
                assert(parsed_hotkey_id(presets[n].hotkey) == Some(id));
            } else {
                let j = choose|j: int|
                    0 <= j < p.len() && parsed_hotkey_id(#[trigger] p[j].hotkey) == Some(id)
                        && routed_seconds(p, a)[id] == p[j].seconds && routed_names(p, a)[id]
                        == p[j].name;
                assert(p[j] == presets[j]);
            }
        }
        assert(secs.dom() =~= names.dom());
    }
}

/// With no preset's hotkey parsing, nothing is routed.
proof fn lemma_nothing_parsed_routes_nothing(
    presets: Seq<ClipPresetView>,
    answers: Seq<Option<u32>>,
)
    requires
        answers_fit(presets, answers),
        forall|i: int| 0 <= i < presets.len() ==> #[trigger] parsed_hotkey_id(presets[i].hotkey) is None,
    ensures
        routed_seconds(presets, answers).dom().len() == 0,
    decreases presets.len(),
{
    if presets.len() > 0 {
        let p = presets.drop_last();
        let a = answers.drop_last();
        assert forall|i: int| 0 <= i < a.len() implies (#[trigger] a[i] matches Some(id)
            ==> parsed_hotkey_id(p[i].hotkey) == Some(id)) by {
            assert(a[i] == answers[i] && p[i] == presets[i]);
        }
        assert forall|i: int| 0 <= i < p.len() implies #[trigger] parsed_hotkey_id(p[i].hotkey)
            is None by {
            assert(p[i] == presets[i]);
        }
        lemma_nothing_parsed_routes_nothing(p, a);
        let n = presets.len() - 1;
        assert(answers.last() == answers[n]);
        assert(parsed_hotkey_id(presets[n].hotkey) is None);
        assert(answers.last() is None);
        lemma_routed_from_presets(p, a);
        assert(routed_seconds(p, a).dom() =~= Set::<u32>::empty());
        assert(routed_seconds(presets, answers).dom() =~= Set::<u32>::empty());
    }
}

/// The routing tables for `presets` given the OS's answer for each, in
/// order (`Some(id)` where the preset's hotkey was accepted under `id`):
/// `None` when no preset was accepted, since then there is nothing to route.
pub fn route_answers(presets: &Vec<ClipPreset>, answers: &Vec<Option<u32>>) -> (r: Option<
    (HashMap<u32, u32>, HashMap<u32, String>),
>)
    requires
        answers@.len() == presets@.len(),
    ensures
        match r {
            Some((secs, names)) => {
                let pv = presets@.map_values(|p: ClipPreset| p@);
                &&& secs@ == routed_seconds(pv, answers@)
                &&& names@.map_values(|s: String| s@) == routed_names(pv, answers@)
                &&& secs@.dom().len() > 0
            },
            None => routed_seconds(presets@.map_values(|p: ClipPreset| p@), answers@).dom().len()
                == 0,
        },
{
    let ghost pv = presets@.map_values(|p: ClipPreset| p@);
    let mut secs: HashMap<u32, u32> = HashMap::new();
    let mut names: HashMap<u32, String> = HashMap::new();
    assert(pv.subrange(0, 0) =~= Seq::<ClipPresetView>::empty());
    assert(names@.map_values(|s: String| s@) =~= Map::<u32, Seq<char>>::empty());
    let mut i: usize = 0;
    while i < presets.len()
        invariant
            0 <= i <= presets.len(),
            answers@.len() == presets@.len(),
            pv == presets@.map_values(|p: ClipPreset| p@),
            secs@ == routed_seconds(pv.subrange(0, i as int), answers@.subrange(0, i as int)),
            names@.map_values(|s: String| s@) == routed_names(
                pv.subrange(0, i as int),
                answers@.subrange(0, i as int),
            ),
        decreases presets.len() - i,
    {
        proof {
            lemma_routed_prefix(pv, answers@, i as int);
        }
        let preset = &presets[i];
        assert(pv[i as int] == preset@);
        match answers[i] {
            Some(id) => {
                let ghost old_names = names@.map_values(|s: String| s@);
                secs.insert(id, preset.seconds);
                names.insert(id, preset.name.clone());
                assert(names@.map_values(|s: String| s@) =~= old_names.insert(id, preset.name@));
            },
            None => {},
        }
        i = i + 1;
    }
    assert(pv.subrange(0, presets.len() as int) =~= pv);
    assert(answers@.subrange(0, presets.len() as int) =~= answers@);
    if secs.len() == 0 {
        assert(secs@.dom().len() == 0);
        None
    } else {
        Some((secs, names))
    }
}

impl HotkeyRouter {
    /// Saved length per routed hotkey id.
    pub closed spec fn seconds_map(&self) -> Map<u32, u32> {
        self.id_to_seconds@
    }

    /// Preset label per routed hotkey id.
    pub closed spec fn name_map(&self) -> Map<u32, Seq<char>> {
        self.id_to_name@.map_values(|s: String| s@)
    }

    /// The answer each preset got when it was registered, in order:
    /// `Some(id)` where the OS accepted its hotkey under `id`.
    pub closed spec fn answers(&self) -> Seq<Option<u32>> {
        self.answers@
    }

    /// Register every preset's hotkey, in order. Unparseable or already-taken
    /// combos are skipped rather than aborting startup, and a later preset
    /// with the same hotkey replaces an earlier one; it is an error only when
    /// none could be registered — in particular when no preset's hotkey
    /// parses. Whether the OS grants the manager and accepts each hotkey is
    /// its decision: a router routes exactly the presets it accepted.
    pub fn register(config: &Config) -> (r: Result<HotkeyRouter, RouterError>)
        ensures
            r matches Ok(router) ==> {
                &&& answers_fit(config@.presets, router.answers())
                &&& router.seconds_map() == routed_seconds(config@.presets, router.answers())
                &&& router.name_map() == routed_names(config@.presets, router.answers())
                &&& router.seconds_map().dom().len() > 0
                &&& router.seconds_map().dom().finite()
                &&& routes_to_presets(router.seconds_map(), router.name_map(), config@.presets)
            },
            (forall|i: int|
                0 <= i < config@.presets.len() ==> #[trigger] parsed_hotkey_id(
                    config@.presets[i].hotkey,
                ) is None) ==> r is Err,
    {
        let manager = match new_manager() {
            Ok(m) => m,
            Err(e) => {
                return Err(RouterError::Manager(e));
            },
        };
        let ghost presets = config@.presets;
        let mut answers: Vec<Option<u32>> = Vec::new();
        let mut i: usize = 0;
        while i < config.presets.len()
            invariant
                0 <= i <= config.presets.len(),
                presets == config@.presets,
                answers@.len() == i,
                forall|k: int|
                    0 <= k < i ==> (#[trigger] answers@[k] matches Some(id) ==> parsed_hotkey_id(
                        presets[k].hotkey,
                    ) == Some(id)),
            decreases config.presets.len() - i,
        {
            let preset = &config.presets[i];
            assert(presets[i as int] == preset@);
            let answer = match parse_hotkey(preset.hotkey.as_str()) {
                Some((hotkey, id)) => {
                    if register_with_os(&manager, hotkey) {
                        Some(id)
                    } else {
                        None
                    }
                },
                None => None,
            };
            answers.push(answer);
            i = i + 1;
        }
        proof {
            assert(answers_fit(presets, answers@));
            lemma_routed_from_presets(presets, answers@);
            if forall|i: int|
                0 <= i < presets.len() ==> #[trigger] parsed_hotkey_id(presets[i].hotkey) is None {
                lemma_nothing_parsed_routes_nothing(presets, answers@);
            }
        }
        match route_answers(&config.presets, &answers) {
            None => Err(RouterError::NoHotkeys),
            Some((id_to_seconds, id_to_name)) => {
                Ok(HotkeyRouter { manager, id_to_seconds, id_to_name, answers: Ghost(answers@) })
            },
        }
    }

    /// Resolve a fired hotkey id to (seconds, preset name), if this router
    /// owns it.
    pub fn resolve(&self, hotkey_id: u32) -> (r: Option<(u32, &str)>)
        ensures
            match r {
                Some((secs, name)) => {
                    &&& self.seconds_map().contains_key(hotkey_id)
                    &&& secs == self.seconds_map()[hotkey_id]
                    &&& name@ == if self.name_map().contains_key(hotkey_id) {
                        self.name_map()[hotkey_id]
                    } else {
                        Seq::<char>::empty()
                    }
                },
                None => !self.seconds_map().contains_key(hotkey_id),
            },
    {
        let secs = match self.id_to_seconds.get(&hotkey_id) {
            Some(s) => *s,
            None => {
                return None;
            },
        };
        let name: &str = match self.id_to_name.get(&hotkey_id) {
            Some(n) => n.as_str(),
            None => "",
        };
        proof {
            reveal_strlit("");
        }
        Some((secs, name))
    }
}

} // verus!
