use photo_desk::capture_date::scope_label;
use photo_desk::folder::join_rel;
use photo_desk::husk::{to_trash as husks_to_trash, HuskStep};
use photo_desk::kinds::classify;
use photo_desk::naming::{parse_folder, rank, Suggestion};
use photo_desk::husk::is_junk;
use photo_desk::merge::reports_progress;
use photo_desk::p1::{event_groups, library_relative};
use photo_desk::scan::{thumb_needed, ThumbRecord};
use photo_desk::undo::{nothing_left, Route};

fn days(v: &[&str]) -> Vec<String> {
    v.iter().map(|d| d.to_string()).collect()
}

#[test]
fn events_split_on_a_long_gap() {
    let taken = [0, 600, 1200, 10_000, 10_100, 50_000];
    let d = days(&["d1"; 6]);
    assert_eq!(event_groups(&taken, &d, 30, 2), vec![(0, 3), (3, 5)]);
}

#[test]
fn events_split_at_midnight() {
    let taken = [0, 60, 120, 180];
    let d = days(&["d1", "d1", "d2", "d2"]);
    assert_eq!(event_groups(&taken, &d, 30, 2), vec![(0, 2), (2, 4)]);
}

#[test]
fn event_gap_and_size_are_held_to_their_ranges() {
    // A gap under half an hour counts as half an hour; a minimum under two as two.
    let taken = [0, 1700, 3500];
    let d = days(&["d1"; 3]);
    assert_eq!(event_groups(&taken, &d, 1, 0), vec![(0, 3)]);
    assert_eq!(event_groups(&taken, &d, 30, 4), Vec::<(usize, usize)>::new());
    // A gap exactly as long as the limit does not split.
    assert_eq!(event_groups(&[0, 1800], &days(&["d1"; 2]), 30, 2), vec![(0, 2)]);
    assert_eq!(event_groups(&[0, 1801], &days(&["d1"; 2]), 30, 2), Vec::<(usize, usize)>::new());
}

#[test]
fn paths_become_relative_to_their_library() {
    assert_eq!(library_relative("", "/2024/a/"), Some("2024/a".to_string()));
    assert_eq!(library_relative("사진", "사진"), Some(String::new()));
    assert_eq!(library_relative("사진", "사진/2024"), Some("2024".to_string()));
    assert_eq!(library_relative("사진", "사진첩/2024"), None);
}

#[test]
fn a_trash_undo_with_nothing_left_says_why() {
    assert_eq!(nothing_left(Route::Trash).as_deref(), Some("이미 휴지통에서 되돌린 사진입니다"));
    assert_eq!(nothing_left(Route::Restore).as_deref(), Some("이미 휴지통에 있는 사진입니다"));
    assert_eq!(nothing_left(Route::Paths), None);
}

#[test]
fn junk_files_do_not_count_as_content() {
    assert!(is_junk(".DS_Store"));
    assert!(is_junk("._IMG_1.jpg"));
    assert!(is_junk("Thumbs.db"));
    assert!(is_junk("desktop.ini"));
    assert!(!is_junk("IMG_1.jpg"));
}

#[test]
fn merge_progress_every_twenty_fifth_and_last() {
    assert!(reports_progress(0, 100));
    assert!(!reports_progress(1, 100));
    assert!(reports_progress(25, 100));
    assert!(reports_progress(99, 100));
    assert!(!reports_progress(98, 100));
}

#[test]
fn date_correction_scopes_are_labelled() {
    assert_eq!(scope_label(true), "jpeg-exif+mtime");
    assert_eq!(scope_label(false), "mtime+desk-override");
}

#[test]
fn relative_folders_join_with_a_slash() {
    assert_eq!(join_rel("", "a"), "a");
    assert_eq!(join_rel("2024", "a"), "2024/a");
}

#[test]
fn a_changed_photo_needs_its_thumbnail_again() {
    let made = ThumbRecord { made: true, src_size: 10, src_mtime: 99 };
    assert!(!thumb_needed(Some(made), 10, Some(99)));
    assert!(thumb_needed(Some(made), 11, Some(99)));
    assert!(thumb_needed(Some(made), 10, Some(100)));
    assert!(thumb_needed(Some(ThumbRecord { made: false, ..made }), 10, Some(99)));
    assert!(thumb_needed(None, 10, Some(99)));
    assert!(!thumb_needed(Some(ThumbRecord { src_mtime: 0, ..made }), 10, None));
}

#[test]
fn the_case_of_an_extension_does_not_change_the_kind() {
    assert_eq!(classify("IMG_1.JPG"), classify("img_1.jpg"));
    assert_eq!(classify("C0086.MP4"), classify("c0086.mp4"));
    assert_eq!(classify("._IMG_1.jpg"), None);
}

#[test]
fn a_folder_date_is_always_ten_characters() {
    let (d, t) = parse_folder("2024_08_27 제주");
    assert_eq!(d.as_deref(), Some("2024-08-27"));
    assert_eq!(t, "제주");
    assert_eq!(parse_folder("20240827여행").0.as_deref(), Some("2024-08-27"));
    assert_eq!(parse_folder("2024-08.27 x").0, None);
    assert_eq!(parse_folder("  황금부엉이 ").1, "황금부엉이");
}

fn sug(title: &str, score: i32) -> Suggestion {
    Suggestion { title: title.into(), why: String::new(), score }
}

#[test]
fn a_ranking_holds_each_title_once_with_its_best_score() {
    let r = rank(vec![sug("a", 1), sug("b", 5), sug("a", 7), sug("", 9), sug("c", 5)], 10);
    let got: Vec<(String, i32)> = r.iter().map(|s| (s.title.clone(), s.score)).collect();
    assert_eq!(got, vec![("a".to_string(), 7), ("b".to_string(), 5), ("c".to_string(), 5)]);
    assert_eq!(rank(vec![sug("a", 1), sug("b", 5)], 1).len(), 1);
}

#[test]
fn a_husk_path_leaving_the_library_is_reported_and_not_counted() {
    let rels: Vec<String> = vec!["../etc".into(), "2020/a".into()];
    let (moved, first) = husks_to_trash(&rels, &[HuskStep::Moved, HuskStep::Moved]);
    assert_eq!(moved, 1);
    assert_eq!(first.as_deref(), Some("이상한 경로: ../etc"));
}
