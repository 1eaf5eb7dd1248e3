use full_logger::clock::Timestamp;
use full_logger::file_manager::{FileManager, FileSize, Target};

fn stamp(millis: i64) -> Timestamp {
    Timestamp::new(2024, 3, 9, 7, 5, 1, millis, String::from("2024-03-09 07:05:01 +00:00"))
}

#[test]
fn sizes_in_bytes() {
    assert_eq!(FileSize::O(7).to_bytes(), Some(7));
    assert_eq!(FileSize::Ko(3).to_bytes(), Some(3072));
    assert_eq!(FileSize::Mo(10).to_bytes(), Some(10_485_760));
    assert_eq!(FileSize::Ko(u64::MAX / 1024).to_bytes(), Some(u64::MAX / 1024 * 1024));
    assert_eq!(FileSize::Ko(u64::MAX / 1024 + 1).to_bytes(), None);
    assert_eq!(FileSize::Mo(u64::MAX).to_bytes(), None);
}

#[test]
fn new_manager_has_defaults() {
    let manager = FileManager::new(String::from("log"), FileSize::Mo(10));
    assert_eq!(manager.dir, "log");
    assert_eq!(manager.max_size, 10_485_760);
    assert!(manager.files.is_empty());
    assert!(manager.prefix.is_none());
    assert!(manager.suffix.is_none());
    assert_eq!(manager.file_extension, "log");
}

#[test]
fn setters_change_one_setting_each() {
    let mut manager = FileManager::new(String::from("log"), FileSize::O(1));
    manager.set_file_prefix(String::from("P"));
    manager.set_file_suffix(String::from("S"));
    manager.set_file_extension(String::from("e"));
    assert_eq!(manager.prefix.as_deref(), Some("P"));
    assert_eq!(manager.suffix.as_deref(), Some("S"));
    assert_eq!(manager.file_extension, "e");
    manager.set_file_prefix_str("DEMO_");
    manager.set_file_suffix_str("_LOG");
    manager.set_file_extension_str("log");
    assert_eq!(manager.prefix.as_deref(), Some("DEMO_"));
    assert_eq!(manager.suffix.as_deref(), Some("_LOG"));
    assert_eq!(manager.file_extension, "log");
    assert_eq!(manager.dir, "log");
    assert_eq!(manager.max_size, 1);
}

#[test]
fn fresh_name_follows_the_template() {
    let mut manager = FileManager::new(String::from("log"), FileSize::Mo(10));
    manager.set_file_prefix_str("DEMO_");
    manager.set_file_suffix_str("_LOG");
    manager.set_file_extension_str("txt");
    let name = manager.fresh_file_name(&stamp(1709967901123));
    assert_eq!(name, "log/DEMO_Y2024_M3_D9-H7_M5_S1_ML1709967901123_LOG.txt");
}

#[test]
fn fresh_name_without_prefix_and_suffix() {
    let manager = FileManager::new(String::from("out/dir"), FileSize::Mo(1));
    let now = Timestamp::new(-44, 12, 31, 23, 59, 59, -1, String::new());
    assert_eq!(manager.fresh_file_name(&now), "out/dir/Y-44_M12_D31-H23_M59_S59_ML-1.log");
}

#[test]
fn zero_ceiling_gives_distinct_files() {
    let mut manager = FileManager::new(String::from("log"), FileSize::O(0));
    manager.record_file(String::from("log/a.log"), 0);
    let mut seen: Vec<String> = Vec::new();
    for millis in 1000..1010 {
        let target = manager.select_target(&stamp(millis));
        assert!(target.is_fresh());
        let path = target.into_path();
        assert!(!seen.contains(&path));
        seen.push(path);
    }
    assert_eq!(seen.len(), 10);
}

#[test]
fn known_file_below_ceiling_is_reused() {
    let mut manager = FileManager::new(String::from("log"), FileSize::Ko(1));
    manager.record_file(String::from("log/b.log"), 10);
    manager.record_file(String::from("log/a.log"), 2000);
    manager.record_file(String::from("log/c.log"), 0);
    for millis in 0..3 {
        match manager.select_target(&stamp(millis)) {
            Target::Existing(path) => assert_eq!(path, "log/b.log"),
            Target::Fresh(path) => panic!("asked for {}", path),
        }
    }
    assert_eq!(manager.reusable_file().as_deref(), Some("log/b.log"));
}

#[test]
fn file_at_the_ceiling_has_no_room() {
    let mut manager = FileManager::new(String::from("log"), FileSize::O(100));
    manager.record_file(String::from("log/full.log"), 100);
    assert_eq!(manager.reusable_file(), None);
    manager.record_file(String::from("log/almost.log"), 99);
    assert_eq!(manager.reusable_file().as_deref(), Some("log/almost.log"));
}

#[test]
fn snapshot_is_kept_in_path_order() {
    let mut manager = FileManager::new(String::from("d"), FileSize::O(5));
    let mut paths = vec!["d/z", "d/a", "d/é", "d/ab", "d/", "d/B", "d/a0"];
    for path in paths.iter() {
        manager.record_file(String::from(*path), 1);
    }
    paths.sort();
    let kept: Vec<&str> = manager.files.iter().map(|file| file.path.as_str()).collect();
    assert_eq!(kept, paths);
}

#[test]
fn recording_a_path_again_replaces_its_size() {
    let mut manager = FileManager::new(String::from("d"), FileSize::O(5));
    manager.record_file(String::from("d/a"), 9);
    manager.record_file(String::from("d/b"), 9);
    assert_eq!(manager.reusable_file(), None);
    manager.record_file(String::from("d/b"), 4);
    assert_eq!(manager.files.len(), 2);
    assert_eq!(manager.files[1].size, 4);
    assert_eq!(manager.reusable_file().as_deref(), Some("d/b"));
}

#[test]
fn the_clock_gives_a_fresh_name_of_the_right_shape() {
    let mut manager = FileManager::new(String::from("log"), FileSize::O(0));
    manager.set_file_prefix_str("DEMO_");
    manager.set_file_suffix_str("_LOG");
    let target = manager.get_file_path();
    assert!(target.is_fresh());
    let path = target.into_path();
    assert!(path.starts_with("log/DEMO_Y"));
    assert!(path.ends_with("_LOG.log"));
    let stamp = &path["log/DEMO_".len()..path.len() - "_LOG.log".len()];
    let marks = ["Y", "_M", "_D", "-H", "_M", "_S", "_ML"];
    let mut rest = stamp;
    let mut numbers: Vec<i64> = Vec::new();
    for (i, mark) in marks.iter().enumerate() {
        assert!(rest.starts_with(mark));
        rest = &rest[mark.len()..];
        let end = match marks.get(i + 1) {
            Some(next) => rest.find(next).unwrap(),
            None => rest.len(),
        };
        numbers.push(rest[..end].parse().unwrap());
        rest = &rest[end..];
    }
    assert!(numbers[0] >= 2024);
    assert!((1..=12).contains(&numbers[1]));
    assert!((1..=31).contains(&numbers[2]));
    assert!((0..=23).contains(&numbers[3]));
    assert!((0..=59).contains(&numbers[4]));
    assert!((0..=59).contains(&numbers[5]));
    assert!(numbers[6] > 1_700_000_000_000);
}
