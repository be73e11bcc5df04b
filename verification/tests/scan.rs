use photo_desk::kinds::{classify, is_skipped_dir, Kind};
use photo_desk::watch::{folder_of, interesting, note_change, take_due, Pending, QUIET_MS};

#[test]
fn classifies_by_extension() {
    assert_eq!(classify("a.jpg"), Some(Kind::Image));
    assert_eq!(classify("a.JPG"), Some(Kind::Image), "대소문자 무시");
    assert_eq!(classify("a.heic"), Some(Kind::Image));
    assert_eq!(classify("IMG_0075.CR2"), Some(Kind::Raw));
    assert_eq!(classify("a.dng"), Some(Kind::Raw));
    assert_eq!(classify("C0086.MP4"), Some(Kind::Video));
    assert_eq!(classify("a.mov"), Some(Kind::Video));
}

#[test]
fn ignores_non_media() {
    assert_eq!(classify("readme.txt"), None);
    assert_eq!(classify("사진 백업방법.txt"), None);
    assert_eq!(classify("noext"), None);
    assert_eq!(classify(""), None);
}

#[test]
fn ignores_hidden_and_resource_forks() {
    assert_eq!(classify("._2022.jpg"), None);
    assert_eq!(classify(".DS_Store"), None);
    assert_eq!(classify(".hidden.jpg"), None);
}

#[test]
fn skips_synology_and_system_folders() {
    assert!(is_skipped_dir("@eaDir"));
    assert!(is_skipped_dir("#recycle"));
    assert!(is_skipped_dir("#trash"));
    assert!(is_skipped_dir(".Spotlight-V100"));
    assert!(is_skipped_dir(".acut"));
    assert!(is_skipped_dir(".git"));
    assert!(!is_skipped_dir("2018"));
    assert!(!is_skipped_dir("2018-07-25 하와이 7일차"));
    assert!(!is_skipped_dir("현준-핸드폰사진 백업"));
}

#[test]
fn kind_values_match_the_schema() {
    assert_eq!(Kind::Image as i32, 0);
    assert_eq!(Kind::Video as i32, 1);
    assert_eq!(Kind::Raw as i32, 2);
    assert_eq!(Kind::Raw.value(), 2);
}

#[test]
fn only_media_and_folders_are_interesting() {
    assert!(interesting("/v/lib/2024/IMG_1.jpg"));
    assert!(interesting("/v/lib/2024/새 폴더"));
    assert!(!interesting("/v/lib/2024/메모.txt"));
    assert!(!interesting("/v/lib/2024/._IMG_1.jpg"));
    assert!(!interesting("/v/lib/.DS_Store"));
    assert!(!interesting("/v/lib/.acut/휴지통/IMG_1.jpg"));
}

#[test]
fn a_file_points_at_its_folder_and_a_folder_at_itself() {
    assert_eq!(folder_of("/a/b/c.jpg"), Some("/a/b".to_string()));
    assert_eq!(folder_of("/a/b"), Some("/a/b".to_string()));
}

#[test]
fn folders_come_out_only_after_going_quiet() {
    let t0: u64 = 100_000;
    let mut p: Vec<Pending> = Vec::new();
    note_change(&mut p, 1, "/a".to_string(), t0);
    note_change(&mut p, 1, "/b".to_string(), t0 + 1000);

    let due = take_due(&mut p, t0 + 1600, QUIET_MS);
    assert_eq!(due, vec![(1, "/a".to_string())], "/a만 잠잠하다");
    assert_eq!(p.len(), 1, "/b는 남는다");

    let due = take_due(&mut p, t0 + 2600, QUIET_MS);
    assert_eq!(due, vec![(1, "/b".to_string())]);
    assert!(p.is_empty());
}

#[test]
fn same_folder_hit_twice_is_one_entry() {
    let t0: u64 = 100_000;
    let mut p: Vec<Pending> = Vec::new();
    note_change(&mut p, 1, "/a".to_string(), t0);
    note_change(&mut p, 1, "/a".to_string(), t0 + 500);
    assert_eq!(p.len(), 1);
    assert!(take_due(&mut p, t0 + 1000, QUIET_MS).is_empty(), "다시 미뤄졌다");
}

// --- further cases ---

#[test]
fn the_same_folder_in_two_libraries_waits_twice() {
    let mut p: Vec<Pending> = Vec::new();
    note_change(&mut p, 1, "/a".to_string(), 0);
    note_change(&mut p, 2, "/a".to_string(), 0);
    assert_eq!(p.len(), 2);
    let mut due = take_due(&mut p, QUIET_MS, QUIET_MS);
    due.sort();
    assert_eq!(due, vec![(1, "/a".to_string()), (2, "/a".to_string())]);
    assert!(p.is_empty());
}

#[test]
fn a_time_that_runs_backwards_keeps_the_folder_waiting() {
    let mut p: Vec<Pending> = Vec::new();
    note_change(&mut p, 1, "/a".to_string(), 5_000);
    assert!(take_due(&mut p, 1_000, QUIET_MS).is_empty());
    assert_eq!(p.len(), 1);
}

#[test]
fn raw_and_video_kinds_ignore_case_and_unknown_ones_are_none() {
    assert_eq!(classify("X.NEF"), Some(Kind::Raw));
    assert_eq!(classify("clip.MoV"), Some(Kind::Video));
    assert_eq!(classify("a.jpg.txt"), None);
    assert_eq!(classify(".jpg"), None);
}

#[test]
fn nfc_normalizes_hangul() {
    // The decomposed spelling macOS hands out (separate jamo).
    let nfd = "\u{1112}\u{1161}\u{11AB}";
    let nfc_str = "\u{D55C}";
    assert_ne!(nfd, nfc_str);
    assert_eq!(photo_desk::unicode::nfc(nfd), nfc_str);
    assert_eq!(photo_desk::unicode::nfc(nfc_str), nfc_str);
}
