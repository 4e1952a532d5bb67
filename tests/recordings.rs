use babble_boop::recording_manager::RecordingManager;

fn manager(max: usize) -> RecordingManager {
    RecordingManager::new("recordings".to_string(), max)
}

#[test]
fn slugify_joins_words_with_single_dashes() {
    let m = manager(10);
    assert_eq!(m.slugify("Hello, World!"), "hello-world");
    assert_eq!(m.slugify("  Lots   of\tspace \n"), "lots-of-space");
    assert_eq!(m.slugify("ÉCOLE Straße 42"), "École-straße-42");
    assert_eq!(m.slugify("a-b"), "ab");
    assert_eq!(m.slugify("?!"), "");
    assert_eq!(m.slugify(""), "");
}

#[test]
fn file_name_uses_timestamp_and_transcript_prefix() {
    let m = manager(10);
    assert_eq!(m.recording_file_name(1700000000, "Good morning, everyone"), "1700000000_good-morning-everyone.wav");
    let long = "word ".repeat(20);
    let name = m.recording_file_name(7, &long);
    // fifty characters are ten words
    assert_eq!(name, format!("7_{}.wav", vec!["word"; 10].join("-")));
    assert_eq!(m.recording_file_name(0, "..."), "0_.wav");
    // thirty two-byte letters: the first twenty-five fill fifty bytes
    let accented = "é".repeat(30);
    assert_eq!(m.recording_file_name(3, &accented), format!("3_{}.wav", "é".repeat(25)));
    // a three-byte character that would cross the fiftieth byte is left out
    let mixed = format!("{}日本", "a".repeat(48));
    assert_eq!(m.recording_file_name(4, &mixed), format!("4_{}.wav", "a".repeat(48)));
    let exact = format!("{}日", "a".repeat(47));
    assert_eq!(m.recording_file_name(5, &exact), format!("5_{}日.wav", "a".repeat(47)));
}

#[test]
fn pruning_keeps_the_newest() {
    let m = manager(3);
    let modified: Vec<u64> = vec![50, 10, 40, 30, 20, 60];
    let mut doomed = m.recordings_to_delete(&modified);
    assert_eq!(doomed, vec![1, 4, 3]);
    doomed.sort();
    let kept: Vec<u64> = (0..modified.len()).filter(|i| !doomed.contains(i)).map(|i| modified[i]).collect();
    assert_eq!(kept.len(), 3);
    let newest_deleted = doomed.iter().map(|&i| modified[i]).max().unwrap();
    assert!(kept.iter().all(|&t| t > newest_deleted));
}

#[test]
fn pruning_nothing_within_the_limit() {
    let m = manager(10);
    assert!(m.recordings_to_delete(&vec![3, 2, 1]).is_empty());
    assert!(m.recordings_to_delete(&Vec::new()).is_empty());
    assert_eq!(manager(0).recordings_to_delete(&vec![9, 8]), vec![1, 0]);
}

#[test]
fn pruning_equal_times_goes_by_listing_order() {
    let m = manager(1);
    assert_eq!(m.recordings_to_delete(&vec![5, 5, 5]), vec![0, 1]);
}

#[test]
fn manager_reports_its_settings() {
    let m = manager(4);
    assert_eq!(m.recordings_dir(), "recordings");
    assert_eq!(m.max_recordings(), 4);
}
