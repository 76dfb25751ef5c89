use my_mod::text::{char_is_whitespace, entity_name_matches_value, str_eq, str_is_blank, str_starts_with, trim_str};

#[test]
fn entity_name_matches_numeric_spawn_suffixes() {
    assert!(entity_name_matches_value("clone", "clone"));
    assert!(entity_name_matches_value("clone1", "clone"));
    assert!(entity_name_matches_value("clone12", "clone"));
    assert!(!entity_name_matches_value("clone_extra", "clone"));
    assert!(!entity_name_matches_value("clone1x", "clone"));
}

#[test]
fn name_match_rejects_other_prefixes_and_empty_suffix_forms() {
    assert!(!entity_name_matches_value("clon", "clone"));
    assert!(!entity_name_matches_value("xclone1", "clone"));
    assert!(entity_name_matches_value("unit007", "unit"));
    assert!(!entity_name_matches_value("unit-1", "unit"));
}

#[test]
fn trimming_and_blank_detection() {
    assert_eq!(trim_str("  abc \t"), "abc");
    assert_eq!(trim_str("abc"), "abc");
    assert_eq!(trim_str("   "), "");
    assert!(str_is_blank(""));
    assert!(str_is_blank(" \n\t "));
    assert!(!str_is_blank(" a "));
    assert!(char_is_whitespace(' '));
    assert!(char_is_whitespace('\u{3000}'));
    assert!(!char_is_whitespace('x'));
}

#[test]
fn prefix_and_equality() {
    assert!(str_starts_with("__forge_track_pre:x", "__forge_track_pre:"));
    assert!(!str_starts_with("__forge", "__forge_track_pre:"));
    assert!(str_starts_with("abc", ""));
    assert!(str_eq("naruto", "naruto"));
    assert!(!str_eq("naruto", "narutO"));
}
