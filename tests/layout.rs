use kbdgen::{
    parse_modifiers, DesktopKeyMap, IsoKey, KeyMap, KeyValue, Keyboard, MapElement, MobileKeyMap, Mode,
    Modes, Platform, RawIsoKey,
};

fn entry(iso: &str, to: &str) -> MapElement {
    MapElement {
        iso: iso.to_string(),
        to: to.to_string(),
        transform: None,
        long_press: None,
    }
}

fn key_map(modifiers: Option<&str>, keys: Vec<MapElement>) -> KeyMap {
    KeyMap {
        keys,
        modifiers: modifiers.map(|m| m.to_string()),
    }
}

fn keyboard(locale: &str, key_maps: Vec<KeyMap>) -> Keyboard {
    Keyboard {
        locale: locale.to_string(),
        key_maps,
        ..Keyboard::default()
    }
}

fn cell(layer: &DesktopKeyMap, key: IsoKey) -> Option<String> {
    layer.0[key.index()].0.clone()
}

#[test]
fn windows_keyboard_end_to_end() {
    let kb = keyboard("fi-t-k0-windows", vec![key_map(None, vec![entry("E01", "1")])]);
    assert!(!kb.is_mobile());
    assert_eq!(kb.mode_name(), "win");
    let modes = match kb.to_mode() {
        Mode::Desktop(d) => d,
        Mode::Mobile(_) => panic!("expected desktop modes"),
    };
    assert_eq!(modes.0.len(), 1);
    let layer = modes.0.get("default").expect("base mode");
    assert_eq!(layer.0.len(), 49);
    let e01 = cell(layer, IsoKey::E01).expect("E01 is set");
    assert_eq!(kbdgen::deserialize(&e01), Some("1".to_string()));
    let unset = layer.0.iter().filter(|v| v.0.is_none()).count();
    assert_eq!(unset, 48);
}

#[test]
fn cldr_only_positions_are_dropped() {
    let keys = vec![
        entry("A01", "x"),
        entry("A05", "y"),
        entry("D13", "z"),
        entry("B11", "/"),
        entry("Q99", "q"),
        entry("C01", "a"),
    ];
    let kb = keyboard("se-t-k0-osx", vec![key_map(Some("shift"), keys)]);
    let modes = kb.to_desktop_modes();
    let layer = modes.0.get("shift").expect("shift mode");
    assert_eq!(layer.0.len(), 49);
    assert_eq!(cell(layer, IsoKey::C01), Some("a".to_string()));
    assert_eq!(layer.get(IsoKey::C01), &KeyValue(Some("a".to_string())));
    assert_eq!(layer.get(IsoKey::C02), &KeyValue(None));
    assert_eq!(cell(layer, IsoKey::B11), Some("/".to_string()));
    let set = layer.0.iter().filter(|v| v.0.is_some()).count();
    assert_eq!(set, 2);
}

#[test]
fn desktop_cells_are_written_in_text_form() {
    let kb = keyboard("x-windows", vec![key_map(None, vec![entry("E02", "\u{301}"), entry("E03", r"\u{62}")])]);
    let modes = kb.to_desktop_modes();
    let layer = modes.0.get("default").unwrap();
    assert_eq!(cell(layer, IsoKey::E02), Some(r"\u{301}".to_string()));
    assert_eq!(cell(layer, IsoKey::E03), Some("b".to_string()));
}

#[test]
fn later_key_map_with_same_mode_wins() {
    let kb = keyboard(
        "de-t-k0-windows",
        vec![
            key_map(Some("shift"), vec![entry("E01", "!")]),
            key_map(None, vec![entry("E01", "1")]),
            key_map(Some("shift"), vec![entry("E02", "\"")]),
        ],
    );
    let modes = kb.to_desktop_modes();
    assert_eq!(modes.0.len(), 2);
    let names: Vec<&String> = modes.0.keys().collect();
    assert_eq!(names, vec!["shift", "default"]);
    let shift = modes.0.get("shift").unwrap();
    assert_eq!(cell(shift, IsoKey::E01), None);
    assert_eq!(cell(shift, IsoKey::E02), Some("\"".to_string()));
}

#[test]
fn later_entry_for_same_position_wins() {
    let kb = keyboard("x", vec![key_map(None, vec![entry("E01", "1"), entry("E01", "2")])]);
    let modes = kb.to_desktop_modes();
    let layer = modes.0.get("default").unwrap();
    assert_eq!(cell(layer, IsoKey::E01), Some("2".to_string()));
}

#[test]
fn modifier_order_does_not_matter() {
    let a = parse_modifiers(Some(&"shift+cmd".to_string()));
    let b = parse_modifiers(Some(&"cmd+shift".to_string()));
    let c = parse_modifiers(Some(&" Shift  cmd + shift".to_string()));
    assert_eq!(a, "cmd+shift");
    assert_eq!(a, b);
    assert_eq!(a, c);
}

#[test]
fn modifier_canonical_forms() {
    assert_eq!(parse_modifiers(None), "default");
    assert_eq!(parse_modifiers(Some(&String::new())), "default");
    assert_eq!(parse_modifiers(Some(&" + ".to_string())), "default");
    assert_eq!(parse_modifiers(Some(&"SHIFT".to_string())), "shift");
    assert_eq!(parse_modifiers(Some(&"shift+caps+alt+ctrl+cmd".to_string())), "cmd+ctrl+alt+caps+shift");
    assert_eq!(parse_modifiers(Some(&"shift+optR+altL".to_string())), "shift+altl+optr");
}

#[test]
fn android_keyboard_gives_mobile_rows() {
    let kb = keyboard(
        "se-t-k0-android",
        vec![key_map(
            None,
            vec![
                entry("D01", "q"),
                entry("D02", "w"),
                entry("A01", "?123"),
                entry("C01", "a"),
                entry("Z01", "nope"),
                entry("D03", "e"),
            ],
        )],
    );
    assert!(kb.is_mobile());
    assert_eq!(kb.mode_name(), "mobile");
    assert_eq!(kb.platform(), Platform::Mobile);
    let modes = match kb.to_mode() {
        Mode::Mobile(m) => m,
        Mode::Desktop(_) => panic!("expected mobile modes"),
    };
    let layer = modes.0.get("default").unwrap();
    let rows: Vec<Vec<Option<String>>> =
        layer.0.iter().map(|r| r.iter().map(|k| k.0.clone()).collect()).collect();
    let s = |x: &str| Some(x.to_string());
    assert_eq!(rows, vec![vec![s("q"), s("w"), s("e")], vec![s("a")], vec![s("?123")]]);
}

#[test]
fn explicit_platform_overrides_locale() {
    let kb = keyboard("se-t-k0-android", vec![key_map(None, vec![entry("E01", "1")])]);
    match kb.to_mode_for(Platform::Desktop) {
        Mode::Desktop(d) => assert_eq!(d.0.len(), 1),
        Mode::Mobile(_) => panic!("expected desktop modes"),
    }
}

#[test]
fn mode_names_by_locale() {
    assert_eq!(keyboard("en-t-k0-osx", vec![]).mode_name(), "mac");
    assert_eq!(keyboard("en-t-k0-chrome", vec![]).mode_name(), "chrome");
    assert_eq!(keyboard("en-t-k0-ios", vec![]).mode_name(), "unknown");
    assert_eq!(keyboard("en-t-k0-ios", vec![]).platform(), Platform::Desktop);
}

#[test]
fn mobile_text_block() {
    let layer = MobileKeyMap::from_text("q w e\n  a s \\u{301}\n\n\\u{0} z\n");
    let rows: Vec<Vec<Option<String>>> =
        layer.0.iter().map(|r| r.iter().map(|k| k.0.clone()).collect()).collect();
    let s = |x: &str| Some(x.to_string());
    assert_eq!(
        rows,
        vec![vec![s("q"), s("w"), s("e")], vec![s("a"), s("s"), s("\u{301}")], vec![], vec![None, s("z")]]
    );
}

#[test]
fn position_names_and_glyphs() {
    assert_eq!(IsoKey::parse("E01"), Some(IsoKey::E01));
    assert_eq!(IsoKey::parse("D13"), None);
    assert_eq!(IsoKey::parse("A01"), None);
    assert_eq!(IsoKey::parse("e01"), None);
    assert_eq!(RawIsoKey::parse("D13"), Some(RawIsoKey::D13));
    assert_eq!(RawIsoKey::parse("A05"), Some(RawIsoKey::A05));
    assert_eq!(RawIsoKey::parse("A06"), None);
    assert_eq!(RawIsoKey::D13.to_iso(), None);
    assert_eq!(RawIsoKey::A03.to_iso(), None);
    assert_eq!(RawIsoKey::C12.to_iso(), Some(IsoKey::C12));
    assert_eq!(IsoKey::B10.name(), "B10");
    assert_eq!(RawIsoKey::A02.name(), "A02");
    assert_eq!(IsoKey::E00.index(), 0);
    assert_eq!(IsoKey::B11.index(), 48);
    assert_eq!(IsoKey::from_index(13), IsoKey::D01);
    assert_eq!(IsoKey::E00.to_character(), '`');
    assert_eq!(IsoKey::E01.to_character_code(), b'1');
    assert_eq!(IsoKey::D01.to_character(), 'q');
    assert_eq!(IsoKey::C12.to_character(), '\\');
    assert_eq!(IsoKey::B10.to_character(), '/');
}

#[test]
fn available_modes_in_fixed_order() {
    let empty = Modes::default();
    assert!(empty.available_modes().is_empty());
    let kb = keyboard("x", vec![]);
    let modes = Modes {
        mobile: Some(kb.to_mobile_modes()),
        win: Some(kb.to_desktop_modes()),
        x11: Some(kb.to_desktop_modes()),
        ..Modes::default()
    };
    assert_eq!(modes.available_modes(), vec!["win", "x11", "mobile"]);
}

#[test]
fn key_value_from() {
    assert_eq!(KeyValue::from("a".to_string()), KeyValue(Some("a".to_string())));
    assert_eq!(KeyValue::from(None), KeyValue(None));
}
