use lowresourcecapture::config::{ClipPreset, Config};
use lowresourcecapture::hotkeys::{route_answers, HotkeyRouter, RouterError};
use std::str::FromStr;

#[test]
fn presets_route_by_hotkey_id() {
    let mut cfg = Config::with_output_dir("clips".to_string());
    cfg.presets[2].hotkey = "not a key!!".into();
    match HotkeyRouter::register(&cfg) {
        Ok(router) => {
            let f9 = global_hotkey::hotkey::HotKey::from_str("F9").unwrap().id();
            let f11 = global_hotkey::hotkey::HotKey::from_str("F11").unwrap().id();
            if let Some((secs, name)) = router.resolve(f9) {
                assert_eq!((secs, name), (15, "Short"));
            }
            assert_eq!(router.resolve(f11), None, "an unparseable hotkey is skipped");
            assert_eq!(router.resolve(0xFFFF_FFFF), None);
        }
        // No window system to register with: nothing to route.
        Err(RouterError::Manager(_)) | Err(RouterError::NoHotkeys) => {}
    }
}

#[test]
fn no_parseable_hotkey_is_an_error() {
    let mut cfg = Config::with_output_dir("clips".to_string());
    for p in cfg.presets.iter_mut() {
        p.hotkey = "not a key!!".into();
    }
    assert!(HotkeyRouter::register(&cfg).is_err());
    cfg.presets.clear();
    assert!(matches!(HotkeyRouter::register(&cfg), Err(_)));
}

fn preset(name: &str, seconds: u32, hotkey: &str) -> ClipPreset {
    ClipPreset { name: name.to_string(), seconds, hotkey: hotkey.to_string() }
}

#[test]
fn accepted_presets_are_routed_and_a_later_one_replaces_an_earlier() {
    let presets = vec![preset("Short", 15, "F9"), preset("Mid", 30, "F10"), preset("Again", 45, "F9")];
    // F9 accepted twice under id 7, F10 refused.
    let (secs, names) = route_answers(&presets, &vec![Some(7), None, Some(7)]).unwrap();
    assert_eq!(secs.len(), 1);
    assert_eq!(secs.get(&7), Some(&45));
    assert_eq!(names.get(&7).map(String::as_str), Some("Again"));

    let (secs, names) = route_answers(&presets, &vec![Some(7), Some(8), None]).unwrap();
    assert_eq!((secs.get(&7), secs.get(&8)), (Some(&15), Some(&30)));
    assert_eq!(names.get(&8).map(String::as_str), Some("Mid"));
}

#[test]
fn nothing_accepted_routes_nothing() {
    let presets = vec![preset("Short", 15, "F9")];
    assert!(route_answers(&presets, &vec![None]).is_none());
    assert!(route_answers(&Vec::new(), &Vec::new()).is_none());
}
