use typing_sounds::available::AvailableSounds;
use typing_sounds::keymap::{get_key_map, key_map_from_entries, KeyMap, KeyMapError, DEFAULT_SOUND_ID};
use typing_sounds::repair::{resolve_with_draw, resolve_with_repair};

fn sounds(ids: &[i32]) -> AvailableSounds {
    let mut available = AvailableSounds::new();
    for id in ids {
        available.insert(*id);
    }
    available
}

#[test]
fn unmapped_key_resolves_to_default() {
    let keymap = KeyMap::new();
    assert_eq!(DEFAULT_SOUND_ID, 65);
    assert_eq!(keymap.resolve("A"), 65);
    assert!(!keymap.contains_key("A"));
    assert_eq!(keymap.len(), 0);
}

#[test]
fn reassign_inserts_and_overwrites() {
    let mut keymap = KeyMap::new();
    keymap.reassign("A", 5);
    assert_eq!(keymap.resolve("A"), 5);
    keymap.reassign("A", 9);
    assert_eq!(keymap.resolve("A"), 9);
    assert_eq!(keymap.len(), 1);
    assert_eq!(keymap.resolve("B"), 65);
}

#[test]
fn reassign_twice_is_reassign_once() {
    let mut keymap = KeyMap::new();
    keymap.reassign("Space", 3);
    keymap.reassign("Space", 3);
    assert_eq!(keymap.resolve("Space"), 3);
    assert_eq!(keymap.len(), 1);
}

#[test]
fn key_map_is_read_from_a_table() {
    let keymap = get_key_map("A = 5\nB = 7\nSpace = -2\n").unwrap();
    assert_eq!(keymap.len(), 3);
    assert_eq!(keymap.resolve("A"), 5);
    assert_eq!(keymap.resolve("B"), 7);
    assert_eq!(keymap.resolve("Space"), -2);
    assert_eq!(keymap.resolve("C"), 65);
}

#[test]
fn empty_text_is_an_empty_key_map() {
    let keymap = get_key_map("").unwrap();
    assert_eq!(keymap.len(), 0);
}

#[test]
fn malformed_text_is_rejected() {
    assert!(matches!(get_key_map("A = = 5"), Err(KeyMapError::Malformed)));
    assert!(matches!(get_key_map("A = \"five\""), Err(KeyMapError::Malformed)));
    assert!(matches!(get_key_map("A = 1\nA = 2"), Err(KeyMapError::Malformed)));
    assert!(matches!(get_key_map("A = 4294967296"), Err(KeyMapError::Malformed)));
}

#[test]
fn later_entry_replaces_earlier() {
    let entries = vec![("A".to_string(), 1), ("B".to_string(), 2), ("A".to_string(), 3)];
    let keymap = key_map_from_entries(&entries);
    assert_eq!(keymap.len(), 2);
    assert_eq!(keymap.resolve("A"), 3);
    assert_eq!(keymap.resolve("B"), 2);
}

#[test]
fn available_sounds_hold_each_id_once() {
    let mut available = AvailableSounds::new();
    assert!(available.is_empty());
    available.insert(3);
    available.insert(1);
    available.insert(3);
    assert_eq!(available.len(), 2);
    assert!(available.contains(1));
    assert!(available.contains(3));
    assert!(!available.contains(2));
    assert_eq!(available.to_vec(), vec![3, 1]);
    assert_eq!(available.slot(1), 1);
    assert!(!available.is_empty());
}

#[test]
fn stale_mapping_is_repaired_and_sticks() {
    let available = sounds(&[1, 2, 3]);
    let mut keymap = KeyMap::new();
    keymap.reassign("A", 5);
    assert_eq!(resolve_with_draw(&mut keymap, &available, "A", Some(2)), Some(2));
    assert_eq!(keymap.resolve("A"), 2);
    assert_eq!(resolve_with_draw(&mut keymap, &available, "A", Some(3)), Some(2));
    assert_eq!(resolve_with_draw(&mut keymap, &available, "A", None), Some(2));
    assert_eq!(keymap.resolve("A"), 2);
    assert_eq!(resolve_with_repair(&mut keymap, &available, "A"), Some(2));
}

#[test]
fn available_mapping_is_kept() {
    let available = sounds(&[1, 2, 3]);
    let mut keymap = KeyMap::new();
    keymap.reassign("A", 3);
    assert_eq!(resolve_with_draw(&mut keymap, &available, "A", Some(1)), Some(3));
    assert_eq!(keymap.resolve("A"), 3);
    assert_eq!(resolve_with_repair(&mut keymap, &available, "A"), Some(3));
    assert_eq!(keymap.len(), 1);
}

#[test]
fn draw_outside_the_available_sounds_is_not_used() {
    let available = sounds(&[1, 2, 3]);
    let mut keymap = KeyMap::new();
    keymap.reassign("A", 5);
    assert_eq!(resolve_with_draw(&mut keymap, &available, "A", Some(9)), None);
    assert_eq!(resolve_with_draw(&mut keymap, &available, "A", None), None);
    assert_eq!(keymap.resolve("A"), 5);
}

#[test]
fn repair_always_gives_an_available_sound() {
    let available = sounds(&[4, 8, 15, 16, 23, 42]);
    for round in 0..200 {
        let mut keymap = KeyMap::new();
        keymap.reassign("K", 1000 + round);
        let first = resolve_with_repair(&mut keymap, &available, "K").unwrap();
        assert!(available.contains(first));
        assert_ne!(first, 1000 + round);
        assert_eq!(keymap.resolve("K"), first);
        for _ in 0..5 {
            assert_eq!(resolve_with_repair(&mut keymap, &available, "K"), Some(first));
        }
    }
}

#[test]
fn repair_reaches_more_than_one_sound() {
    let available = sounds(&[1, 2, 3]);
    let mut seen = Vec::new();
    for _ in 0..300 {
        let mut keymap = KeyMap::new();
        let drawn = resolve_with_repair(&mut keymap, &available, "A").unwrap();
        if !seen.contains(&drawn) {
            seen.push(drawn);
        }
    }
    assert!(seen.len() > 1);
}

#[test]
fn unmapped_key_is_repaired_like_a_stale_one() {
    let available = sounds(&[7]);
    let mut keymap = KeyMap::new();
    assert_eq!(resolve_with_repair(&mut keymap, &available, "Q"), Some(7));
    assert_eq!(keymap.resolve("Q"), 7);
    assert!(keymap.contains_key("Q"));
}

#[test]
fn nothing_resolves_without_sounds() {
    let available = AvailableSounds::new();
    let mut keymap = KeyMap::new();
    keymap.reassign("A", 5);
    assert_eq!(resolve_with_repair(&mut keymap, &available, "A"), None);
    assert_eq!(keymap.resolve("A"), 5);
    assert_eq!(keymap.len(), 1);
}
