use photo_desk::folder::{
    batch_kind as folder_batch_kind, copied_rel, done, gate, journal_op, not_done, parse_journal_op, rehomed,
    restored_note, unchanged, Action, Gate, JournalOp, Preview as FolderPreview,
};
use photo_desk::manifest::{manifest, EntryKind, ManifestError, TreeEntry};
use photo_desk::organize::{
    destination_refusal, move_step, occupied_message, recounted_libraries, MoveFacts, MoveStep,
};
use photo_desk::transfer::{
    batch_kind as transfer_batch_kind, check_artifacts, copy_mismatch, copy_temp_name, count_done, count_failed,
    count_skipped, plan_fits, undo_artifacts, undo_temp_name, Artifact, ArtifactProbe, Mode, TransferOutcome,
    UndoCopyError,
};
use photo_desk::capture_date::{backup_batch_dir, backup_step, removes_backups, undo_temp_name as capture_undo_temp_name};
use photo_desk::folder::{folder_undo_check, folder_undo_refused, folder_undone};
use photo_desk::names::free_name;
use photo_desk::transfer::{exec_failure, exec_step, foreign_folder, nothing_to_transfer, stale_plan_message, ExecStep};
use photo_desk::offload::{moved_rel, offload_check, OffloadRefusal};
use photo_desk::scan::{file_unchanged, folder_rows};
use photo_desk::undo::{path_undo_message, path_undo_step, PathUndoStep};
use photo_desk::watch::{note_change, take_due, Pending};
use photo_desk::trash::{
    item_refusal, lists_failure, nothing_to_do, removal_error, trash_batch_kind, unrecorded_message, Outcome, Removal,
    TrashOp,
};
use photo_desk::undo::{listed_count, owning_library, settled, LibraryRoot};

fn dir(rel: &str) -> TreeEntry {
    TreeEntry { rel: rel.to_string(), kind: EntryKind::Dir }
}

fn file(rel: &str, size: u64, mtime: i64, hash: Option<&str>) -> TreeEntry {
    TreeEntry {
        rel: rel.to_string(),
        kind: EntryKind::File { size, mtime, hash: hash.map(|h| h.to_string()) },
    }
}

#[test]
fn manifest_digests_the_sorted_lines() {
    // Given out of order: the folder line sorts before the file line.
    let entries = vec![file("a/x.jpg", 3, 100, Some("abc")), dir("a")];
    let m = manifest(&entries, true).unwrap();
    assert_eq!(m.stat_sha256, "eef0f98de220eb6059be90861e162fadb3ad8c095d432f26daf9e6b323ea94d3");
    assert_eq!(m.sha256, "26c61dbdbc958757c240f3824beaf8ab2c06003967733d19f118cbffbea07293");
    assert_eq!(m.files, 1);
    assert_eq!(m.directories, 1);
    assert_eq!(m.bytes, 3);
    assert_eq!(m.file_hashes, vec![("a/x.jpg".to_string(), "abc".to_string())]);
}

#[test]
fn manifest_without_contents_keeps_the_stat_digest_only() {
    let entries = vec![dir("a"), file("a/x.jpg", 3, 100, None)];
    let m = manifest(&entries, false).unwrap();
    assert_eq!(m.stat_sha256, "eef0f98de220eb6059be90861e162fadb3ad8c095d432f26daf9e6b323ea94d3");
    assert_eq!(m.sha256, "");
    assert!(m.file_hashes.is_empty());
}

#[test]
fn manifest_of_an_empty_tree_hashes_nothing() {
    let m = manifest(&[], true).unwrap();
    let empty = "e3b0c44298fc1c149afbf4c8996fb92427ae41e4649b934ca495991b7852b855";
    assert_eq!(m.sha256, empty);
    assert_eq!(m.stat_sha256, empty);
    assert_eq!((m.files, m.directories, m.bytes), (0, 0, 0));
}

#[test]
fn manifest_refuses_sizes_beyond_u64() {
    let entries = vec![file("a", u64::MAX, 0, None), file("b", 1, 0, None)];
    assert_eq!(manifest(&entries, false).unwrap_err(), ManifestError::TooLarge);
}

fn folder_preview(action: &str) -> FolderPreview {
    FolderPreview {
        source: "2024/a".into(),
        destination: "2024/b".into(),
        planned_name: "b".into(),
        conflict: "none".into(),
        action: action.into(),
        files: 4,
        directories: 2,
        bytes: 99,
        cross_volume: false,
        drive_sync_warning: false,
    }
}

#[test]
fn gate_skips_refuses_or_runs() {
    let skip = folder_preview("skip");
    let run = folder_preview("move");
    assert_eq!(gate(&skip, Action::Move, true, false), Gate::Skip);
    assert_eq!(gate(&run, Action::Move, true, false), Gate::NameAppeared);
    assert_eq!(gate(&run, Action::Rename, true, true), Gate::Run);
    assert_eq!(gate(&run, Action::Trash, true, false), Gate::Run);
    assert_eq!(gate(&run, Action::Copy, false, false), Gate::Run);
}

#[test]
fn folder_rows_follow_their_branch() {
    assert_eq!(rehomed("lib/2024/a/b", "lib/2024/a", "lib/2025/a"), "lib/2025/a/b");
    assert_eq!(rehomed("lib/2024/a", "lib/2024/a", "lib/2025/z"), "lib/2025/z");
    assert_eq!(copied_rel("lib/2024/a/b/c", "lib/2024/a", "2025/a"), "2025/a/b/c");
    assert_eq!(copied_rel("lib/2024/a", "lib/2024/a", "2025/a"), "2025/a");
}

#[test]
fn folder_names_of_batches_and_journal() {
    assert_eq!(folder_batch_kind(Action::Copy), "folder_copy");
    assert_eq!(folder_batch_kind(Action::Trash), "folder_trash");
    assert_eq!(journal_op(Action::Rename), "rename");
    assert_eq!(parse_journal_op("move"), Some(JournalOp::Move));
    assert_eq!(parse_journal_op("create"), Some(JournalOp::Create));
    assert_eq!(parse_journal_op("delete"), None);
}

#[test]
fn a_done_folder_reports_its_manifest() {
    let m = manifest(&[dir("a"), file("a/x.jpg", 3, 100, Some("abc"))], true).unwrap();
    let o = done(7, m.clone(), None);
    assert_eq!((o.batch_id, o.completed, o.failed), (7, 1, 0));
    assert_eq!((o.files, o.directories, o.bytes), (1, 1, 3));
    assert_eq!(o.manifest_sha256.as_deref(), Some(m.sha256.as_str()));
    let quick = manifest(&[dir("a")], false).unwrap();
    assert_eq!(done(8, quick, Some("경고".into())).manifest_sha256, None);
}

#[test]
fn a_skipped_folder_is_no_failure() {
    let p = folder_preview("skip");
    let skipped = not_done(&p, false, "건너뜀".into());
    assert_eq!((skipped.completed, skipped.failed, skipped.files, skipped.bytes), (0, 0, 4, 99));
    let refused = not_done(&p, true, "이름이 생겼습니다".into());
    assert_eq!(refused.failed, 1);
    assert_eq!(refused.first_error.as_deref(), Some("이름이 생겼습니다"));
}

#[test]
fn a_folder_is_unchanged_by_its_recorded_digest() {
    let m = manifest(&[dir("a"), file("a/x.jpg", 3, 100, Some("abc"))], true).unwrap();
    assert!(unchanged(&m.sha256, None, &m));
    assert!(!unchanged("0000", Some(&m.stat_sha256), &m));
    assert!(unchanged("", Some(&m.stat_sha256), &m));
    assert!(!unchanged("", None, &m));
}

#[test]
fn a_folder_put_back_elsewhere_says_where() {
    assert_eq!(restored_note("2024/a", "2024/a"), None);
    assert_eq!(
        restored_note("2024/a (2)", "2024/a").as_deref(),
        Some("원래 자리에 같은 이름이 있어 «2024/a (2)» 로 되돌렸습니다")
    );
}

#[test]
fn transfer_batches_are_named_by_what_they_do() {
    assert_eq!(transfer_batch_kind(true, Mode::Copy), "publish");
    assert_eq!(transfer_batch_kind(false, Mode::Copy), "copy");
    assert_eq!(transfer_batch_kind(false, Mode::Move), "move");
}

#[test]
fn a_plan_fits_only_the_same_photos() {
    assert!(plan_fits(&[3, 1, 2], &[1, 2, 3]));
    assert!(!plan_fits(&[1, 2], &[1, 2, 3]));
    assert!(!plan_fits(&[1, 2, 4], &[1, 2, 3]));
    assert!(!plan_fits(&[1, 1, 2], &[1, 2, 2]));
}

fn empty_outcome() -> TransferOutcome {
    TransferOutcome {
        batch_id: 5,
        completed: 0,
        failed: 0,
        skipped: 0,
        already_published: 0,
        bytes: 0,
        first_error: None,
        failed_ids: Vec::new(),
    }
}

#[test]
fn transfer_counts_each_photo() {
    let mut out = empty_outcome();
    count_skipped(&mut out, "already_published");
    count_skipped(&mut out, "skip");
    count_done(&mut out, 120);
    count_failed(&mut out, 9, "첫 실패".into());
    count_failed(&mut out, 10, "둘째 실패".into());
    assert_eq!((out.skipped, out.already_published, out.completed, out.bytes), (2, 1, 1, 120));
    assert_eq!(out.failed, 2);
    assert_eq!(out.failed_ids, vec![9, 10]);
    assert_eq!(out.first_error.as_deref(), Some("첫 실패"));
}

#[test]
fn hidden_names_of_copies() {
    assert_eq!(copy_temp_name("a.jpg"), ".a.jpg.photo-desk-copy.tmp");
    assert_eq!(undo_temp_name("a.jpg", 42), ".a.jpg.photo-desk-undo-42.tmp");
    assert_eq!(copy_mismatch(false), "사본 SHA-256이 원본과 다릅니다");
    assert!(copy_mismatch(true).contains("다시 미리보기"));
}

fn artifact(path: &str, hash: &str) -> Artifact {
    Artifact { volume: "V".into(), path: path.into(), size: 10, sha256: hash.into() }
}

#[test]
fn an_undo_deletes_what_was_recorded() {
    let recorded = vec![artifact("a.jpg", "h1"), artifact("a.xmp", "h2")];
    let got = undo_artifacts(recorded, "V", "ignored", 10, None, true).unwrap();
    assert_eq!(got.len(), 2);
    assert_eq!(got[1].path, "a.xmp");
    let old = undo_artifacts(Vec::new(), "V", "b.jpg", 7, Some("h3"), false).unwrap();
    assert_eq!((old[0].volume.as_str(), old[0].path.as_str(), old[0].sha256.as_str()), ("V", "b.jpg", "h3"));
    assert_eq!(undo_artifacts(Vec::new(), "V", "b.jpg", 7, None, false).unwrap_err(), UndoCopyError::NoHash);
    assert_eq!(
        undo_artifacts(Vec::new(), "V", "b.jpg", 7, Some("h3"), true).unwrap_err(),
        UndoCopyError::UnrecordedSidecars
    );
}

#[test]
fn an_undo_stops_at_the_first_changed_copy() {
    let arts = vec![artifact("a.jpg", "h1"), artifact("a.xmp", "h2"), artifact("b.jpg", "h3")];
    let all_good = vec![
        ArtifactProbe::Found { size: 10, sha256: "h1".into() },
        ArtifactProbe::Found { size: 10, sha256: "h2".into() },
        ArtifactProbe::Found { size: 10, sha256: "h3".into() },
    ];
    assert_eq!(check_artifacts(&arts, &all_good), Ok(()));
    let changed = vec![
        ArtifactProbe::Found { size: 10, sha256: "h1".into() },
        ArtifactProbe::Found { size: 10, sha256: "zz".into() },
        ArtifactProbe::Missing,
    ];
    assert_eq!(check_artifacts(&arts, &changed), Err(UndoCopyError::Changed("a.xmp".into())));
    let missing = vec![ArtifactProbe::Missing, ArtifactProbe::NotMounted, ArtifactProbe::Missing];
    assert_eq!(check_artifacts(&arts, &missing), Err(UndoCopyError::Missing("a.jpg".into())));
    let offline = vec![ArtifactProbe::NotMounted, ArtifactProbe::Missing, ArtifactProbe::Missing];
    assert_eq!(check_artifacts(&arts, &offline), Err(UndoCopyError::NotMounted));
}

#[test]
fn undo_errors_read_as_shown() {
    assert_eq!(UndoCopyError::NotMounted.message(), "사본 디스크가 연결되어 있지 않습니다");
    assert_eq!(UndoCopyError::Missing("a.jpg".into()).message(), "되돌릴 사본이 없습니다: a.jpg");
    assert_eq!(
        UndoCopyError::Changed("a.jpg".into()).message(),
        "사본 내용이 작업 뒤 바뀌어 지우지 않았습니다: a.jpg"
    );
}

#[test]
fn trash_outcome_tallies() {
    let mut out = Outcome::started(3);
    out.note_moved(10);
    out.note_moved(5);
    out.note_failed(7, "디스크가 연결되어 있지 않습니다".into());
    out.note_failed(8, "다른 이유".into());
    assert_eq!((out.batch_id, out.moved, out.bytes, out.failed), (3, 2, 15, 2));
    assert_eq!(out.failed_ids, vec![7, 8]);
    assert_eq!(out.first_error.as_deref(), Some("디스크가 연결되어 있지 않습니다"));
    let refused = Outcome::refused_all(&[4, 5, 6], "등록되지 않은 라이브러리입니다".into());
    assert_eq!((refused.failed, refused.moved, refused.batch_id), (3, 0, 0));
    assert_eq!(refused.failed_ids, vec![4, 5, 6]);
}

#[test]
fn a_failed_record_says_whether_the_file_went_back() {
    assert_eq!(unrecorded_message("locked", None), "locked");
    assert_eq!(
        unrecorded_message("locked", Some("gone")),
        "DB 갱신 실패: locked; 파일 원위치 복구도 실패: gone"
    );
}

#[test]
fn a_move_refuses_an_unknown_or_absent_library() {
    assert_eq!(destination_refusal(false, false).as_deref(), Some("등록되지 않은 라이브러리입니다"));
    assert_eq!(destination_refusal(true, false).as_deref(), Some("디스크가 연결되어 있지 않습니다"));
    assert_eq!(destination_refusal(true, true), None);
}

#[test]
fn a_photo_already_in_place_is_left_alone() {
    let base = MoveFacts { mounted: true, folder_id: 1, at_destination: false, occupied: false };
    assert_eq!(move_step(base, 2), MoveStep::Move);
    assert_eq!(move_step(MoveFacts { mounted: false, ..base }, 2), MoveStep::Unmounted);
    assert_eq!(move_step(base, 1), MoveStep::InPlace);
    // In place wins over a name that looks taken by the photo itself.
    assert_eq!(move_step(MoveFacts { at_destination: true, occupied: true, ..base }, 2), MoveStep::InPlace);
    assert_eq!(move_step(MoveFacts { occupied: true, ..base }, 2), MoveStep::Occupied);
    assert_eq!(occupied_message("a.jpg"), "목적지 DB에 같은 이름 기록이 있습니다: a.jpg");
}

#[test]
fn a_move_recounts_every_library_it_touched() {
    assert_eq!(recounted_libraries(&[3, 1, 3], 2), vec![1, 2, 3]);
    assert_eq!(recounted_libraries(&[], 4), vec![4]);
    assert_eq!(recounted_libraries(&[4, 4], 4), vec![4]);
}

#[test]
fn each_trash_operation_says_when_there_is_nothing() {
    assert_eq!(nothing_to_do(TrashOp::Trash).first_error.as_deref(), Some("휴지통으로 옮길 사진이 없습니다"));
    assert_eq!(nothing_to_do(TrashOp::Restore).first_error.as_deref(), Some("휴지통에 되돌릴 사진이 없습니다"));
    let empty = nothing_to_do(TrashOp::Empty);
    assert_eq!(empty.first_error.as_deref(), Some("휴지통이 비어 있습니다"));
    assert_eq!((empty.batch_id, empty.moved, empty.failed), (0, 0, 0));
    assert_eq!(trash_batch_kind(TrashOp::Empty), "delete");
    assert_eq!(trash_batch_kind(TrashOp::Restore), "restore");
}

#[test]
fn a_trash_path_outside_the_trash_is_never_touched() {
    assert_eq!(item_refusal(TrashOp::Trash, false, false).as_deref(), Some("디스크가 연결되어 있지 않습니다"));
    assert_eq!(item_refusal(TrashOp::Trash, true, false), None);
    assert_eq!(item_refusal(TrashOp::Restore, false, true).as_deref(), Some("되돌릴 위치를 알 수 없습니다"));
    assert_eq!(
        item_refusal(TrashOp::Restore, true, false).as_deref(),
        Some("휴지통 밖의 경로는 되돌리지 않습니다")
    );
    assert_eq!(item_refusal(TrashOp::Empty, true, false).as_deref(), Some("휴지통 밖의 경로입니다"));
    assert_eq!(
        item_refusal(TrashOp::Empty, false, false).as_deref(),
        Some("라이브러리가 연결되어 있지 않거나 휴지통 경로 기록이 없습니다")
    );
    assert_eq!(item_refusal(TrashOp::Empty, true, true), None);
    assert!(lists_failure(TrashOp::Empty, false));
    assert!(!lists_failure(TrashOp::Empty, true));
    assert!(lists_failure(TrashOp::Restore, true));
}

#[test]
fn a_file_already_gone_counts_as_deleted() {
    assert_eq!(removal_error(Removal::Removed), None);
    assert_eq!(removal_error(Removal::AlreadyGone), None);
    assert_eq!(removal_error(Removal::Failed("busy".into())).as_deref(), Some("busy"));
    let mut out = Outcome::started(1);
    out.note_failed_unlisted("busy".into());
    assert_eq!((out.failed, out.failed_ids.len()), (1, 0));
}

#[test]
fn an_open_batch_takes_its_journal_count_after_a_minute() {
    assert_eq!(listed_count(0, false, 5, 1000, 1061), 5);
    assert_eq!(listed_count(0, false, 5, 1000, 1060), 0);
    assert_eq!(listed_count(0, true, 5, 1000, 2000), 0);
    assert_eq!(listed_count(3, false, 5, 1000, 2000), 3);
    assert_eq!(listed_count(0, false, 0, 1000, 2000), 0);
    assert_eq!(listed_count(0, false, 5, 0, i64::MIN), 0);
}

#[test]
fn a_trashing_whose_photos_all_came_back_counts_as_undone() {
    assert!(settled("trash", 2, false, 0, 2));
    assert!(!settled("trash", 2, false, 1, 1));
    assert!(settled("restore", 2, false, 2, 0));
    assert!(!settled("restore", 2, true, 2, 0));
    assert!(!settled("move", 2, false, 0, 0));
    assert!(!settled("trash", 0, false, 0, 0));
}

#[test]
fn a_folder_put_back_belongs_to_the_innermost_library() {
    let libs = vec![
        LibraryRoot { id: 1, area: 0, rel_path: "".into() },
        LibraryRoot { id: 2, area: 1, rel_path: "Photos".into() },
        LibraryRoot { id: 3, area: 2, rel_path: "Photos/Shared".into() },
    ];
    assert_eq!(owning_library(&libs, "Photos/Shared/2024"), Some((3, 2)));
    assert_eq!(owning_library(&libs, "Photos/2024"), Some((2, 1)));
    assert_eq!(owning_library(&libs, "PhotosOld/2024"), Some((1, 0)));
    assert_eq!(owning_library(&libs[1..], "Other"), None);
    assert_eq!(owning_library(&libs[1..], "Photos"), Some((2, 1)));
}

#[test]
fn a_scan_reads_again_only_changed_files() {
    assert!(file_unchanged(Some((10, 99)), 10, Some(99)));
    assert!(file_unchanged(Some((10, 0)), 10, None));
    assert!(!file_unchanged(Some((10, 99)), 11, Some(99)));
    assert!(!file_unchanged(Some((10, 99)), 10, Some(98)));
    assert!(!file_unchanged(None, 10, Some(99)));
    let dirs: Vec<String> = vec!["b/c".into(), "a".into(), "b".into(), "a".into(), "".into()];
    assert_eq!(folder_rows(&dirs), vec!["", "a", "b", "b/c"]);
}

#[test]
fn a_branch_moves_only_between_connected_libraries() {
    assert_eq!(offload_check(1, 1, true, "", "2015/a"), Err(OffloadRefusal::SameLibrary));
    assert_eq!(offload_check(1, 2, false, "", "2015/a"), Err(OffloadRefusal::NotConnected));
    assert_eq!(offload_check(1, 2, true, "사진", "사진"), Err(OffloadRefusal::LibraryItself));
    assert_eq!(offload_check(1, 2, true, "사진", "다른/2015"), Err(OffloadRefusal::LibraryItself));
    assert_eq!(offload_check(1, 2, true, "사진", "사진/2015/여행"), Ok("2015/여행".to_string()));
    assert_eq!(OffloadRefusal::SameLibrary.message(), "같은 라이브러리입니다");
}

#[test]
fn a_moved_branch_keeps_its_place_below_the_library() {
    assert_eq!(moved_rel("사진", "백업", "사진/2015/여행"), "백업/2015/여행");
    assert_eq!(moved_rel("", "백업", "2015"), "백업/2015");
    assert_eq!(moved_rel("사진", "", "사진/2015"), "2015");
}

#[test]
fn an_undo_puts_back_only_a_file_as_the_move_left_it() {
    assert_eq!(path_undo_step(false, Some((1, 2)), Some((1, 2))), PathUndoStep::Unmounted);
    assert_eq!(path_undo_step(true, Some((1, 2)), Some((1, 2))), PathUndoStep::Back);
    assert_eq!(path_undo_step(true, Some((1, 2)), Some((1, 3))), PathUndoStep::Changed);
    assert_eq!(path_undo_step(true, None, Some((1, 2))), PathUndoStep::Changed);
    assert_eq!(path_undo_step(true, Some((1, 2)), None), PathUndoStep::Changed);
    assert_eq!(path_undo_message(PathUndoStep::Back), None);
    assert_eq!(
        path_undo_message(PathUndoStep::Changed).as_deref(),
        Some("옮긴 뒤 바뀐 파일은 되돌리지 않습니다")
    );
}

#[test]
fn a_free_name_is_never_one_already_there() {
    let taken = vec!["img_1.jpg".to_string(), "img_1 (2).jpg".to_string()];
    let got = free_name("IMG_1.jpg", &taken, "stamp");
    assert_eq!(got, "IMG_1 (3).jpg");
    assert!(!taken.contains(&got.to_lowercase()));
}

#[test]
fn a_manifest_ignores_the_order_of_the_walk() {
    let a = manifest(&[dir("a"), dir("a/b"), file("a/b/x", 1, 5, Some("h")), file("a/y", 2, 6, Some("k"))], true).unwrap();
    let b = manifest(&[file("a/y", 2, 6, Some("k")), file("a/b/x", 1, 5, Some("h")), dir("a/b"), dir("a")], true).unwrap();
    assert_eq!(a.sha256, b.sha256);
    assert_eq!(a.stat_sha256, b.stat_sha256);
    assert_eq!(a.file_hashes, b.file_hashes);
    assert_eq!((a.files, a.directories, a.bytes), (b.files, b.directories, b.bytes));
}

#[test]
fn a_folder_comes_out_only_once_quiet() {
    let mut pending: Vec<Pending> = Vec::new();
    note_change(&mut pending, 1, "/a".into(), 1000);
    note_change(&mut pending, 1, "/b".into(), 1500);
    note_change(&mut pending, 1, "/a".into(), 1800);
    assert_eq!(pending.len(), 2);
    assert!(take_due(&mut pending, 1999, 500).is_empty());
    assert_eq!(take_due(&mut pending, 2100, 500), vec![(1, "/b".to_string())]);
    assert_eq!(take_due(&mut pending, 2300, 500), vec![(1, "/a".to_string())]);
    assert!(pending.is_empty());
}

#[test]
fn a_date_undo_needs_its_backup_when_there_was_one() {
    assert_eq!(backup_step(false, false, None, None), Ok(false));
    assert_eq!(backup_step(true, false, Some("h"), Some("h")), Err("백업 볼륨이 연결되어 있지 않습니다".to_string()));
    assert_eq!(backup_step(true, true, None, Some("h")), Err("촬영일 백업 파일이 없습니다".to_string()));
    assert_eq!(
        backup_step(true, true, Some("x"), Some("h")),
        Err("촬영일 백업 파일의 SHA-256이 기록과 달라 되돌리지 않았습니다".to_string())
    );
    assert_eq!(
        backup_step(true, true, Some("h"), None),
        Err("촬영일 백업의 원래 SHA-256 기록이 없어 되돌리지 않았습니다".to_string())
    );
    assert_eq!(backup_step(true, true, Some("h"), Some("h")), Ok(true));
    assert!(removes_backups(3, 0));
    assert!(!removes_backups(2, 1));
    assert_eq!(backup_batch_dir(12), ".acut/capture-date-backups/12");
    assert_eq!(capture_undo_temp_name("a.jpg"), ".a.jpg.capture-undo.tmp");
}

#[test]
fn a_folder_undo_refuses_a_changed_folder() {
    assert_eq!(
        folder_undo_check(JournalOp::Create, true, true, true).as_deref(),
        Some("폴더 안에 새 항목이 있어 생성 작업을 되돌리지 않았습니다")
    );
    assert_eq!(folder_undo_check(JournalOp::Create, false, false, false), None);
    assert_eq!(
        folder_undo_check(JournalOp::Move, false, false, true).as_deref(),
        Some("되돌릴 폴더가 디스크에 없습니다")
    );
    assert_eq!(
        folder_undo_check(JournalOp::Copy, false, true, false).as_deref(),
        Some("작업 뒤 폴더 내용이 바뀌어 안전하게 되돌릴 수 없습니다")
    );
    assert_eq!(folder_undo_check(JournalOp::Trash, false, true, true), None);
    let refused = folder_undo_refused(4, "바뀜".into());
    assert_eq!((refused.batch_id, refused.failed, refused.moved), (4, 1, 0));
    let done = folder_undone(4, 1234, 3, None);
    assert_eq!((done.moved, done.bytes, done.folders_removed), (1, 1234, 3));
}

#[test]
fn execution_rechecks_each_photo_against_the_disk() {
    assert_eq!(exec_step(true, true, true, Mode::Move, true), ExecStep::Skip);
    assert_eq!(exec_step(false, true, true, Mode::Move, true), ExecStep::InPlace);
    assert_eq!(exec_step(false, false, true, Mode::Copy, false), ExecStep::NameAppeared);
    assert_eq!(exec_step(false, false, false, Mode::Move, true), ExecStep::Occupied);
    assert_eq!(exec_step(false, false, false, Mode::Copy, true), ExecStep::Go);
    assert_eq!(
        exec_failure(ExecStep::NameAppeared, "a.jpg").as_deref(),
        Some("실행 직전 같은 이름이 생겼습니다: a.jpg")
    );
    assert_eq!(exec_failure(ExecStep::Go, "a.jpg"), None);
    assert_eq!(nothing_to_transfer().first_error.as_deref(), Some("옮기거나 복사할 사진이 없습니다"));
    assert!(stale_plan_message().contains("다시 미리보기"));
    assert_eq!(foreign_folder(3, 3), None);
    assert!(foreign_folder(2, 3).is_some());
}
