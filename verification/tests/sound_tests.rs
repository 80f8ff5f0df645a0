use typing_sounds::decimal::{append_decimal, parse_id};
use typing_sounds::sound_config::{
    cache_sounds, ends_with, get_key_numbers_from_folder, sound_id_of_file_name, sound_path,
    starts_with, startup_sounds, SoundCache, StartupError,
};

fn written(v: i32) -> String {
    let mut out = String::from("#");
    append_decimal(&mut out, v);
    out
}

#[test]
fn numbers_are_written_in_base_ten() {
    assert_eq!(written(0), "#0");
    assert_eq!(written(7), "#7");
    assert_eq!(written(10), "#10");
    assert_eq!(written(1000), "#1000");
    assert_eq!(written(-1), "#-1");
    assert_eq!(written(-305), "#-305");
    assert_eq!(written(i32::MAX), "#2147483647");
    assert_eq!(written(i32::MIN), "#-2147483648");
}

#[test]
fn numbers_are_read_in_base_ten() {
    assert_eq!(parse_id("0"), Some(0));
    assert_eq!(parse_id("-0"), Some(0));
    assert_eq!(parse_id("+5"), Some(5));
    assert_eq!(parse_id("007"), Some(7));
    assert_eq!(parse_id("65"), Some(65));
    assert_eq!(parse_id("-12"), Some(-12));
    assert_eq!(parse_id("2147483647"), Some(i32::MAX));
    assert_eq!(parse_id("-2147483648"), Some(i32::MIN));
    assert_eq!(parse_id("000000000000000000000000000000042"), Some(42));
}

#[test]
fn what_is_no_number_is_not_read() {
    assert_eq!(parse_id(""), None);
    assert_eq!(parse_id("-"), None);
    assert_eq!(parse_id("+"), None);
    assert_eq!(parse_id("+-1"), None);
    assert_eq!(parse_id("1a"), None);
    assert_eq!(parse_id(" 1"), None);
    assert_eq!(parse_id("1.0"), None);
    assert_eq!(parse_id("\u{ff11}"), None);
    assert_eq!(parse_id("2147483648"), None);
    assert_eq!(parse_id("-2147483649"), None);
    assert_eq!(parse_id("99999999999999999999999999"), None);
}

#[test]
fn reading_agrees_with_std() {
    for text in ["12", "-7", "+3", "0012", "", "x", "4294967296", "-", "3-", "１２"] {
        assert_eq!(parse_id(text), text.parse::<i32>().ok());
    }
    for v in [0, 1, -1, 9, 10, 99, 100, 65, -65, i32::MAX, i32::MIN] {
        assert_eq!(written(v), format!("#{}", v));
        assert_eq!(parse_id(&written(v)[1..]), Some(v));
    }
}

#[test]
fn prefix_and_suffix_are_told() {
    assert!(starts_with("key_sound_1.mp3", "key_sound_"));
    assert!(starts_with("abc", ""));
    assert!(starts_with("abc", "abc"));
    assert!(!starts_with("ab", "abc"));
    assert!(!starts_with("xbc", "abc"));
    assert!(ends_with("key_sound_1.mp3", ".mp3"));
    assert!(ends_with("abc", ""));
    assert!(!ends_with("mp3", ".mp3"));
    assert!(!ends_with("a.mp4", ".mp3"));
    assert!(ends_with("\u{e9}t\u{e9}.mp3", ".mp3"));
}

#[test]
fn sound_file_names_give_their_id() {
    assert_eq!(sound_id_of_file_name("key_sound_12.mp3"), Some(12));
    assert_eq!(sound_id_of_file_name("key_sound_0.mp3"), Some(0));
    assert_eq!(sound_id_of_file_name("key_sound_-3.mp3"), Some(-3));
    assert_eq!(sound_id_of_file_name("key_sound_+3.mp3"), Some(3));
    assert_eq!(sound_id_of_file_name("key_sound_007.mp3"), Some(7));
}

#[test]
fn other_names_are_passed_over() {
    assert_eq!(sound_id_of_file_name(""), None);
    assert_eq!(sound_id_of_file_name("key_sound_.mp3"), None);
    assert_eq!(sound_id_of_file_name("key_sound_mp3"), None);
    assert_eq!(sound_id_of_file_name("key_sound_12.wav"), None);
    assert_eq!(sound_id_of_file_name("key_sound_12.mp3.bak"), None);
    assert_eq!(sound_id_of_file_name("xkey_sound_12.mp3"), None);
    assert_eq!(sound_id_of_file_name("Key_sound_12.mp3"), None);
    assert_eq!(sound_id_of_file_name("key_sound_1x.mp3"), None);
    assert_eq!(sound_id_of_file_name("key_sound_99999999999.mp3"), None);
    assert_eq!(sound_id_of_file_name("readme.txt"), None);
}

#[test]
fn paths_are_built_from_folder_and_id() {
    assert_eq!(sound_path("./output", 7), "./output/key_sound_7.mp3");
    assert_eq!(sound_path("", 65), "/key_sound_65.mp3");
    assert_eq!(sound_path("a/b", -4), "a/b/key_sound_-4.mp3");
}

#[test]
fn file_name_of_an_id_reads_back() {
    for id in [0, 1, 9, 10, 65, 123456, -1, -80, i32::MAX, i32::MIN] {
        let path = sound_path("d", id);
        assert_eq!(sound_id_of_file_name(&path[2..]), Some(id));
    }
}

#[test]
fn folder_entries_give_the_available_sounds() {
    let entries = vec![
        "key_sound_3.mp3".to_string(),
        "notes.txt".to_string(),
        "key_sound_1.mp3".to_string(),
        "key_sound_x.mp3".to_string(),
        "key_sound_03.mp3".to_string(),
        "key_sound_2.ogg".to_string(),
        String::new(),
    ];
    let available = get_key_numbers_from_folder(&entries);
    assert_eq!(available.len(), 2);
    assert!(available.contains(1));
    assert!(available.contains(3));
    assert!(!available.contains(2));
    assert_eq!(available.to_vec(), vec![3, 1]);
    assert!(get_key_numbers_from_folder(&Vec::new()).is_empty());
}

#[test]
fn cache_holds_every_file_in_full() {
    let files = vec![(1, vec![1u8, 2, 3]), (2, vec![9u8; 1000]), (3, Vec::new())];
    let cache = cache_sounds("./output", files.clone());
    assert_eq!(cache.len(), 3);
    for (id, bytes) in &files {
        let path = sound_path("./output", *id);
        let buffer = cache.get(&path).unwrap();
        assert_eq!(buffer.len(), bytes.len());
        assert_eq!(buffer.as_ref(), bytes);
    }
    assert_eq!(cache.get("./output/key_sound_1.mp3").unwrap().as_ref(), &vec![1u8, 2, 3]);
    assert!(cache.get("./output/key_sound_4.mp3").is_none());
    assert!(cache.get("key_sound_1.mp3").is_none());
}

#[test]
fn cache_keeps_the_later_of_two_files_of_one_id() {
    let cache = cache_sounds("s", vec![(5, vec![1u8]), (6, vec![2u8]), (5, vec![3u8, 4])]);
    assert_eq!(cache.len(), 2);
    assert_eq!(cache.get("s/key_sound_5.mp3").unwrap().as_ref(), &vec![3u8, 4]);
    assert_eq!(cache.get("s/key_sound_6.mp3").unwrap().as_ref(), &vec![2u8]);
}

#[test]
fn cache_of_no_files_is_empty() {
    let cache = cache_sounds("./output", Vec::new());
    assert_eq!(cache.len(), 0);
    assert!(cache.get("./output/key_sound_1.mp3").is_none());
}

#[test]
fn loaded_clip_is_shared_not_copied() {
    let mut cache = SoundCache::new();
    cache.load("a.mp3", vec![7u8, 8]);
    let first = cache.get("a.mp3").unwrap().clone();
    let second = cache.get("a.mp3").unwrap().clone();
    assert!(std::sync::Arc::ptr_eq(&first, &second));
    cache.load("a.mp3", vec![1u8]);
    assert_eq!(cache.get("a.mp3").unwrap().as_ref(), &vec![1u8]);
    assert_eq!(first.as_ref(), &vec![7u8, 8]);
    assert_eq!(cache.len(), 1);
}

#[test]
fn folder_without_sounds_cannot_start() {
    assert!(matches!(startup_sounds(&Vec::new()), Err(StartupError::NoSounds)));
    let other = vec!["readme.txt".to_string(), "key_sound_.mp3".to_string()];
    assert!(matches!(startup_sounds(&other), Err(StartupError::NoSounds)));
    let some = vec!["readme.txt".to_string(), "key_sound_4.mp3".to_string()];
    let available = startup_sounds(&some).unwrap();
    assert_eq!(available.to_vec(), vec![4]);
}
