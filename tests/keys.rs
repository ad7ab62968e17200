use kbdgen::{decode_unicode_escapes, deserialize, serialize};

#[test]
fn test_unicode_escapes() {
    assert_eq!("\u{35}", decode_unicode_escapes(r"\u{35}"));
    assert_eq!("5", decode_unicode_escapes(r"\u{35}"));

    assert_eq!("\u{5}", decode_unicode_escapes(r"\u{5}"));
    assert_eq!("\"", decode_unicode_escapes(r"\u{22}"));
}

#[test]
fn roundtrips() {
    let x = r"0 1 2 3 4 5 6 7 8 9 0 \u{1F} = \
        \u{11} \u{17} \u{5} \u{12} \u{14} \u{19} \u{15} \u{9} \u{F} \u{10} \u{1B} \u{1D} \
        \u{1} \u{13} \u{4} \u{6} \u{7} \u{8} \u{A} \u{B} \u{C} ; ' \u{1C} \
        ` \u{1A} \u{18} \u{3} \u{16} \u{2} \u{E} \u{D} , . /";

    for s in x.split_whitespace() {
        assert_eq!(s.to_lowercase(), serialize(&deserialize(&s)));
    }
}

#[test]
fn escaped_a_decodes_and_encodes_plainly() {
    assert_eq!(deserialize(r"\u{41}"), Some("A".to_string()));
    assert_eq!(serialize(&Some("A".to_string())), "A");
}

#[test]
fn unset_sentinel() {
    assert_eq!(deserialize(r"\u{0}"), None);
    assert_eq!(serialize(&None), r"\u{0}");
    assert_eq!(deserialize(r"\u{00}"), Some("\u{0}".to_string()));
    assert_eq!(deserialize(""), Some(String::new()));
}

#[test]
fn escape_round_trip_on_samples() {
    for c in ['a', '\u{1}', ' ', '\u{300}', '\u{A0}', '\u{10FFFF}', '\\', '}', '\u{FEFF}'] {
        let esc = c.escape_unicode().to_string();
        assert_eq!(deserialize(&esc), Some(c.to_string()));
        let once = serialize(&Some(c.to_string()));
        assert_eq!(deserialize(&once), Some(c.to_string()));
        assert_eq!(serialize(&deserialize(&once)), once);
    }
}

#[test]
fn marks_separators_and_controls_are_escaped() {
    assert_eq!(serialize(&Some("\u{300}".to_string())), r"\u{300}");
    assert_eq!(serialize(&Some(" ".to_string())), r"\u{20}");
    assert_eq!(serialize(&Some("\u{200B}".to_string())), r"\u{200b}");
    assert_eq!(serialize(&Some("a\u{301}b".to_string())), r"a\u{301}b");
    assert_eq!(serialize(&Some("ŋ".to_string())), "ŋ");
}

#[test]
fn serialize_decodes_before_escaping() {
    assert_eq!(serialize(&Some(r"\u{20}x".to_string())), r"\u{20}x");
    assert_eq!(serialize(&Some(r"\u{62}".to_string())), "b");
}

#[test]
fn out_of_range_escapes_give_replacement_character() {
    assert_eq!(decode_unicode_escapes(r"\u{110000}"), "\u{FFFD}");
    assert_eq!(decode_unicode_escapes(r"\u{D800}"), "\u{FFFD}");
    assert_eq!(decode_unicode_escapes(r"\u{FFFFFF}"), "\u{FFFD}");
}

#[test]
fn malformed_escapes_stay_literal() {
    assert_eq!(decode_unicode_escapes(r"\u{}"), r"\u{}");
    assert_eq!(decode_unicode_escapes(r"\u{1234567}"), r"\u{1234567}");
    assert_eq!(decode_unicode_escapes(r"\u{12"), r"\u{12");
    assert_eq!(decode_unicode_escapes(r"\u{g}"), r"\u{g}");
    assert_eq!(decode_unicode_escapes(r"x\u{41}y\u{42}"), "xAyB");
    assert_eq!(decode_unicode_escapes(r"\\u{41}"), r"\A");
}

#[test]
fn encode_decode_is_idempotent_on_samples() {
    for s in ["abc", r"\u{300}", r"\u{41}\u{20}", "a b", r"\u{5c}", "", r"\u{0}"] {
        let once = serialize(&deserialize(s));
        let twice = serialize(&deserialize(&once));
        assert_eq!(once, twice);
    }
}

#[test]
fn nul_character_is_written_distinctly_from_unset() {
    assert_eq!(serialize(&Some("\u{0}".to_string())), r"\u{00}");
    assert_eq!(deserialize(r"\u{00}"), Some("\u{0}".to_string()));
    let once = serialize(&Some("a\u{0}".to_string()));
    assert_eq!(once, r"a\u{00}");
    assert_eq!(serialize(&deserialize(&once)), once);
}

#[test]
fn idempotence_needs_escape_free_decoded_text() {
    let s = r"\u{5c}u{5c}u{41}";
    let once = serialize(&deserialize(s));
    assert_eq!(once, r"\u{41}");
    assert_eq!(serialize(&deserialize(&once)), "A");
}
