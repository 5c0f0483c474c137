use dither_panels::pattern_library::{
    entry_display_name, library_id, new_library_id, sort_library_entries, validated_pattern_name,
    PatternLibraryEntry,
};

fn entry(id: &str, name: &str, created_at: &str) -> PatternLibraryEntry {
    PatternLibraryEntry {
        id: id.into(),
        name: name.into(),
        created_at: created_at.into(),
        path: format!("/lib/{id}.dyuki"),
    }
}

#[test]
fn listing_is_newest_first_then_by_name_and_stable() {
    let entries = vec![
        entry("a", "Zeta", "2024-01-01"),
        entry("b", "Alpha", "2024-03-01"),
        entry("c", "Beta", "2024-01-01"),
        entry("d", "Beta", "2024-01-01"),
        entry("e", "alpha", "2024-03-01"),
    ];
    let sorted = sort_library_entries(entries);
    let ids: Vec<&str> = sorted.iter().map(|e| e.id.as_str()).collect();
    assert_eq!(ids, vec!["b", "e", "c", "d", "a"]);
}

#[test]
fn listing_matches_std_stable_sort() {
    let entries = vec![
        entry("1", "é", "x"),
        entry("2", "e", "x"),
        entry("3", "", ""),
        entry("4", "z", "xy"),
        entry("5", "e", "x"),
    ];
    let mut expected = entries.clone();
    expected.sort_by(|a, b| b.created_at.cmp(&a.created_at).then(a.name.cmp(&b.name)));
    let got = sort_library_entries(entries);
    let a: Vec<&str> = got.iter().map(|e| e.id.as_str()).collect();
    let b: Vec<&str> = expected.iter().map(|e| e.id.as_str()).collect();
    assert_eq!(a, b);
    assert!(sort_library_entries(Vec::new()).is_empty());
}

#[test]
fn display_name_prefers_index_then_manifest_then_id() {
    assert_eq!(entry_display_name(Some("Mine".into()), "Manifest".into(), "id1"), "Mine");
    assert_eq!(entry_display_name(Some("".into()), "Manifest".into(), "id1"), "Manifest");
    assert_eq!(entry_display_name(None, "".into(), "id1"), "id1");
}

#[test]
fn rename_requires_one_to_255_bytes_after_trim() {
    assert_eq!(validated_pattern_name("  Sunset  ").unwrap(), "Sunset");
    assert_eq!(validated_pattern_name(" \t ").unwrap_err(), "Name must be 1–255 characters");
    assert!(validated_pattern_name(&"x".repeat(255)).is_ok());
    assert!(validated_pattern_name(&"x".repeat(256)).is_err());
    // 128 two-byte characters are 256 bytes.
    assert!(validated_pattern_name(&"é".repeat(128)).is_err());
}

#[test]
fn library_ids_fall_back_to_pattern() {
    assert_eq!(library_id("sunset", "1a2b3c4d"), "sunset_1a2b3c4d");
    assert_eq!(library_id("", "1a2b3c4d"), "pattern_1a2b3c4d");
    assert_eq!(library_id("_", "00000000"), "pattern_00000000");
}

#[test]
fn fresh_library_ids_carry_a_random_hex_tag() {
    let a = new_library_id("sunset");
    let b = new_library_id("");
    assert!(a.starts_with("sunset_"));
    assert!(b.starts_with("pattern_"));
    for (id, base) in [(&a, "sunset_"), (&b, "pattern_")] {
        let tag = &id[base.len()..];
        assert_eq!(tag.len(), 8);
        assert!(tag.chars().all(|c| c.is_ascii_digit() || ('a'..='f').contains(&c)));
    }
    assert_ne!(new_library_id("x"), new_library_id("x"));
}
