use photo_desk::capture_date::{capture_plan, capture_undo_plan, Change, ChangeFacts, ChangeProbe, RestoreFacts};
use photo_desk::folder::{gate_outcome, resolved_check, FolderError, Gate, Preview};
use photo_desk::merge::{merge_plan, merge_stopped, nothing_to_merge, MergeError};
use photo_desk::organize::{move_plan, MoveFacts};
use photo_desk::scan::scan_plan;
use photo_desk::transfer::{
    copy_undo_plan, destination_check, path_inside, settle_transfer, transfer_plan, Artifact, ArtifactProbe,
    ExecFacts, Mode, TransferError, UndoCopyError,
};
use photo_desk::folder::{appledouble_sibling, is_appledouble, needs_content_hash, online_check, Action};
use photo_desk::husk::husk_plan;
use photo_desk::manifest::{content_hash, manifest, tree_entries, Listed, ListedKind};
use photo_desk::names::{free_name_in, numbered_name};
use photo_desk::trash::{file_result, nothing_to_do, rolls_back, settle, trash_batch_kind, trash_plan, TrashOp};
use photo_desk::watch::{note_change, take_due, Pending};
use photo_desk::undo::{closes, path_undo_plan, PathEntry, PathProbe, Route};

#[test]
fn a_trashing_moves_only_located_photos_and_counts_the_rest() {
    let (go, mut out) = trash_plan(TrashOp::Trash, 9, &[1, 2, 3], &[true, false, true], &[false, false, false]);
    assert_eq!(go, vec![0, 2]);
    assert_eq!((out.batch_id, out.failed, out.moved), (9, 1, 0));
    assert_eq!(out.failed_ids, vec![2]);
    assert_eq!(out.first_error.as_deref(), Some("디스크가 연결되어 있지 않습니다"));
    // The first photo moves, the third fails on the disk.
    settle(&mut out, &[1, 3], &[100, 50], &[None, Some("busy".to_string())], true);
    assert_eq!((out.moved, out.failed, out.bytes), (1, 2, 100));
    assert_eq!(out.failed_ids, vec![2, 3]);
    assert_eq!(out.first_error.as_deref(), Some("디스크가 연결되어 있지 않습니다"));
}

#[test]
fn emptying_skips_paths_outside_the_trash_without_listing_them() {
    let (go, out) = trash_plan(TrashOp::Empty, 4, &[1, 2], &[true, true], &[false, true]);
    assert_eq!(go, vec![1]);
    assert_eq!(out.failed, 1);
    assert!(out.failed_ids.is_empty());
    assert_eq!(out.first_error.as_deref(), Some("휴지통 밖의 경로입니다"));
}

#[test]
fn a_move_leaves_photos_in_place_and_refuses_taken_names() {
    let f = MoveFacts { mounted: true, folder_id: 1, at_destination: false, occupied: false };
    let facts = [f, MoveFacts { folder_id: 5, ..f }, MoveFacts { occupied: true, ..f }, MoveFacts { mounted: false, ..f }];
    let names: Vec<String> = vec!["a.jpg".into(), "b.jpg".into(), "c.jpg".into(), "d.jpg".into()];
    let (go, out) = move_plan(3, &[11, 12, 13, 14], &facts, 5, &names);
    assert_eq!(go, vec![0]);
    assert_eq!(out.failed, 2);
    assert_eq!(out.failed_ids, vec![13, 14]);
    assert_eq!(out.first_error.as_deref(), Some("목적지 DB에 같은 이름 기록이 있습니다: c.jpg"));
}

fn entry(id: i64, recorded: Option<(i64, i64)>) -> PathEntry {
    PathEntry {
        file_id: id,
        from_vol: "V".into(),
        from_path: format!("a/{id}.jpg"),
        to_vol: "V".into(),
        to_path: format!("b/{id}.jpg"),
        recorded,
    }
}

#[test]
fn an_undo_moves_back_the_last_first_and_only_unchanged_files() {
    let entries = vec![entry(1, Some((10, 5))), entry(2, Some((20, 6))), entry(3, Some((30, 7)))];
    let probes = vec![
        PathProbe { mounted: true, now: Some((10, 5)) },
        PathProbe { mounted: true, now: Some((21, 6)) },
        PathProbe { mounted: true, now: Some((30, 7)) },
    ];
    let (back, mut out) = path_undo_plan(8, &entries, &probes);
    assert_eq!(back, vec![2, 0]);
    assert_eq!((out.failed, out.moved), (1, 0));
    assert!(out.failed_ids.is_empty());
    assert_eq!(out.first_error.as_deref(), Some("옮긴 뒤 바뀐 파일은 되돌리지 않습니다"));
    settle(&mut out, &[3, 1], &[0, 0], &[None, None], false);
    assert_eq!((out.moved, out.failed), (2, 1));
    assert!(closes(Route::Paths, out.moved, out.failed, entries.len()));
}

#[test]
fn an_undo_with_every_disk_gone_stays_open() {
    let entries = vec![entry(1, Some((10, 5)))];
    let (back, out) = path_undo_plan(8, &entries, &[PathProbe { mounted: false, now: None }]);
    assert!(back.is_empty());
    assert!(!closes(Route::Paths, out.moved, out.failed, entries.len()));
}

fn art(path: &str, size: u64, hash: &str) -> Artifact {
    Artifact { volume: "V".into(), path: path.into(), size, sha256: hash.into() }
}

#[test]
fn a_copy_undo_deletes_only_copies_of_the_same_size_and_hash() {
    let arts = vec![art("a.jpg", 10, "h1"), art("a.xmp", 2, "h2")];
    let same = vec![
        ArtifactProbe::Found { size: 10, sha256: "h1".into() },
        ArtifactProbe::Found { size: 2, sha256: "h2".into() },
    ];
    assert_eq!(
        copy_undo_plan(&arts, &same).unwrap(),
        vec![("V".to_string(), "a.jpg".to_string()), ("V".to_string(), "a.xmp".to_string())]
    );
    let resized = vec![
        ArtifactProbe::Found { size: 10, sha256: "h1".into() },
        ArtifactProbe::Found { size: 3, sha256: "h2".into() },
    ];
    assert_eq!(copy_undo_plan(&arts, &resized), Err(UndoCopyError::Changed("a.xmp".into())));
}

fn exec(id: i64, size: i64, skips: bool, conflict: &str, same: bool, exists: bool, occupied: bool) -> ExecFacts {
    ExecFacts {
        id,
        size,
        plan_skips: skips,
        conflict: conflict.into(),
        planned_name: format!("{id}.jpg"),
        same_path: same,
        target_exists: exists,
        occupied,
    }
}

#[test]
fn a_transfer_counts_skips_places_and_clashes_before_copying() {
    let items = vec![
        exec(1, 10, true, "already_published", false, false, false),
        exec(2, 20, false, "none", true, false, false),
        exec(3, 30, false, "none", false, true, false),
        exec(4, 40, false, "none", false, false, true),
        exec(5, 50, false, "none", false, false, false),
    ];
    let (go, mut out) = transfer_plan(6, &items, Mode::Move);
    assert_eq!(go, vec![4]);
    assert_eq!((out.skipped, out.already_published, out.completed, out.bytes, out.failed), (1, 1, 1, 20, 2));
    assert_eq!(out.failed_ids, vec![3, 4]);
    assert_eq!(out.first_error.as_deref(), Some("실행 직전 같은 이름이 생겼습니다: 3.jpg"));
    settle_transfer(&mut out, &[5], &[50], &[None]);
    assert_eq!((out.completed, out.bytes), (2, 70));
    let (go_copy, _) = transfer_plan(6, &items, Mode::Copy);
    assert_eq!(go_copy, vec![3, 4]);
}

#[test]
fn a_scan_reads_only_new_and_changed_files() {
    let known = [Some((10, 5)), None, Some((10, 5))];
    let (read, skipped) = scan_plan(&known, &[10, 4, 11], &[Some(5), Some(1), Some(5)]);
    assert_eq!(read, vec![1, 2]);
    assert_eq!(skipped, 1);
}

fn change(id: i64, taken_at: i64, manual: bool) -> Change {
    Change { id, taken_at, manual }
}

#[test]
fn a_correction_writes_only_photos_that_pass_the_checks() {
    let items = vec![
        ChangeFacts { change: change(1, 100, false), plausible: true, probe: ChangeProbe::Read(None), filename: Some(100), rel: "a.jpg".into() },
        ChangeFacts { change: change(2, 100, false), plausible: true, probe: ChangeProbe::FileMissing, filename: Some(100), rel: "b.jpg".into() },
        ChangeFacts { change: change(3, 100, false), plausible: true, probe: ChangeProbe::Read(Some(5)), filename: Some(100), rel: "c.jpg".into() },
        ChangeFacts { change: change(4, 100, true), plausible: false, probe: ChangeProbe::Read(None), filename: None, rel: "d.jpg".into() },
    ];
    let (go, out) = capture_plan(2, &items);
    assert_eq!(go, vec![0]);
    assert_eq!(out.failed, 3);
    assert_eq!(out.failed_ids, vec![2, 3, 4]);
    assert_eq!(out.first_error.as_deref(), Some("파일을 찾을 수 없습니다: b.jpg"));
}

#[test]
fn a_date_undo_restores_only_from_a_matching_backup() {
    let items = vec![
        RestoreFacts { id: 1, backed_up: true, backup_mounted: true, backup_hash: Some("h".into()), recorded_hash: Some("h".into()) },
        RestoreFacts { id: 2, backed_up: true, backup_mounted: true, backup_hash: Some("x".into()), recorded_hash: Some("h".into()) },
        RestoreFacts { id: 3, backed_up: false, backup_mounted: false, backup_hash: None, recorded_hash: None },
    ];
    let (go, out) = capture_undo_plan(5, &items);
    assert_eq!(go, vec![0, 2]);
    assert_eq!(out.failed_ids, vec![2]);
    assert_eq!(out.first_error.as_deref(), Some("촬영일 백업 파일의 SHA-256이 기록과 달라 되돌리지 않았습니다"));
}

#[test]
fn merged_photos_keep_their_place_below_the_destination() {
    let dirs: Vec<String> = vec!["B".into(), "B/x".into(), "B/x/y".into()];
    assert_eq!(merge_plan("B", "A", &dirs), vec!["A", "A/x", "A/x/y"]);
    assert_eq!(nothing_to_merge().first_error.as_deref(), Some("합칠 사진이 없습니다"));
    assert!(merge_stopped().contains("⌘Z"));
}

#[test]
fn refusals_read_as_shown() {
    assert!(FolderError::IntoItself.message().contains("자기"));
    assert_eq!(FolderError::Root.message(), "라이브러리 루트에는 이 작업을 할 수 없습니다");
    assert!(MergeError::Overlap.message().contains("겹치지"));
    assert_eq!(MergeError::Foreign.message(), "같은 라이브러리 안의 폴더끼리만 합칠 수 있습니다");
    assert_eq!(TransferError::NotInside.message(), "목적지는 라이브러리 안의 상대 폴더여야 합니다");
    assert!(TransferError::BadName.message().contains("쓸 수 없는"));
}

#[test]
fn a_skipped_folder_plan_does_nothing_and_a_new_name_stops_it() {
    let p = Preview {
        source: "a".into(),
        destination: "b".into(),
        planned_name: "b".into(),
        conflict: "exists".into(),
        action: "skip".into(),
        files: 2,
        directories: 1,
        bytes: 5,
        cross_volume: false,
        drive_sync_warning: false,
    };
    let o = gate_outcome(&p, Gate::Skip).unwrap().unwrap();
    assert_eq!((o.completed, o.failed, o.files), (0, 0, 2));
    assert_eq!(o.first_error.as_deref(), Some("같은 이름이 있어 실행하지 않았습니다"));
    assert_eq!(gate_outcome(&p, Gate::NameAppeared).unwrap_err(), "실행 직전 목적지에 같은 이름이 생겼습니다");
    assert!(gate_outcome(&p, Gate::Run).unwrap().is_none());
}

#[test]
fn a_link_cannot_lead_out_of_the_library() {
    assert!(path_inside("/lib", "/lib"));
    assert!(path_inside("/lib", "/lib/a"));
    assert!(!path_inside("/lib", "/library"));
    assert!(!path_inside("/lib", "/other"));
    assert!(path_inside("/", "/x"));
    assert_eq!(destination_check("/lib", true, Some("/lib/a"), None), None);
    assert_eq!(
        destination_check("/lib", true, Some("/elsewhere"), None).as_deref(),
        Some("심볼릭 링크를 통해 라이브러리 밖으로 쓸 수 없습니다")
    );
    assert_eq!(
        destination_check("/lib", true, Some("/lib"), Some(("/elsewhere/b", true))).as_deref(),
        Some("목적지가 라이브러리 밖이거나 폴더가 아닙니다")
    );
    assert_eq!(destination_check("/lib", false, None, None).as_deref(), Some("목적지 라이브러리가 폴더가 아닙니다"));
    assert_eq!(resolved_check("/lib", Some("/lib/a"), true, "a", false), None);
    assert_eq!(resolved_check("/lib", None, false, "a", false).as_deref(), Some("폴더가 없습니다: a"));
    assert_eq!(
        resolved_check("/lib", Some("/x"), true, "a", true).as_deref(),
        Some("목적지 부모가 라이브러리 밖이거나 폴더가 아닙니다")
    );
}

#[test]
fn tests_moves_the_file_and_keeps_the_row() {
    // One photo of three is trashed; it is located and moves.
    let (go, mut out) = trash_plan(TrashOp::Trash, 1, &[7], &[true], &[true]);
    assert_eq!(go, vec![0]);
    settle(&mut out, &[7], &[120], &[None], true);
    assert_eq!((out.moved, out.failed), (1, 0));
}

#[test]
fn tests_everything_is_written_to_the_journal() {
    let ids = [1, 2, 3];
    let (go, mut out) = trash_plan(TrashOp::Trash, 5, &ids, &[true; 3], &[true; 3]);
    assert_eq!(go.len(), 3, "one journal line per photo moved");
    settle(&mut out, &ids, &[1, 1, 1], &[None, None, None], true);
    assert_eq!(out.moved, 3);
    assert_eq!(trash_batch_kind(TrashOp::Trash), "trash");
}

#[test]
fn tests_trashing_twice_is_harmless() {
    // The second time, no photo is left untrashed: nothing is done.
    let again = nothing_to_do(TrashOp::Trash);
    assert_eq!((again.moved, again.failed), (0, 0));
    assert_eq!(again.batch_id, 0);
    assert!(again.first_error.is_some());
}

#[test]
fn a_file_whose_record_fails_goes_back() {
    assert!(rolls_back(&None, &Some("locked".into())));
    assert!(!rolls_back(&Some("busy".into()), &None));
    assert_eq!(file_result(None, None, None), None);
    assert_eq!(file_result(Some("busy".into()), None, None).as_deref(), Some("busy"));
    assert_eq!(file_result(None, Some("locked".into()), None).as_deref(), Some("locked"));
    assert_eq!(
        file_result(None, Some("locked".into()), Some("gone".into())).as_deref(),
        Some("DB 갱신 실패: locked; 파일 원위치 복구도 실패: gone")
    );
}

#[test]
fn husks_outside_the_library_are_never_planned() {
    let rels: Vec<String> = vec!["../etc".into(), "2020/a".into(), "".into(), "/x".into(), "b".into()];
    let (go, prune) = husk_plan(&rels);
    assert_eq!(go, vec![1, 4]);
    assert_eq!(prune, vec!["2020".to_string()]);
}

#[test]
fn a_walk_becomes_manifest_entries() {
    let l = |rel: &str, kind: ListedKind| Listed { rel: rel.into(), kind };
    let file = |size| ListedKind::File { size, mtime: 1, hash: None };
    let ok = tree_entries(&[l("", ListedKind::Dir), l("a", ListedKind::Dir), l("a/x.jpg", file(3)), l("a/._x.jpg", file(1))]).unwrap();
    let rels: Vec<&str> = ok.iter().map(|e| e.rel.as_str()).collect();
    assert_eq!(rels, vec!["", "a", "a/x.jpg"]);
    assert_eq!(
        tree_entries(&[l("a", ListedKind::Dir), l("a/link", ListedKind::Symlink)]).unwrap_err(),
        "심볼릭 링크가 든 폴더는 안전하게 작업할 수 없습니다: a/link"
    );
    assert_eq!(tree_entries(&[l("p", ListedKind::Other)]).unwrap_err(), "지원하지 않는 폴더 항목입니다: p");
    // The same name spelled decomposed and composed.
    assert_eq!(
        tree_entries(&[l("\u{1112}\u{1161}\u{11AB}", ListedKind::Dir), l("\u{D55C}", ListedKind::Dir)]).unwrap_err(),
        "같은 이름으로 보이는 항목이 둘 있습니다"
    );
    assert!(manifest(&ok, false).is_ok());
}

#[test]
fn file_contents_hash_to_their_sha256() {
    assert_eq!(content_hash(b""), "e3b0c44298fc1c149afbf4c8996fb92427ae41e4649b934ca495991b7852b855");
    assert_eq!(content_hash(b"abc"), "ba7816bf8f01cfea414140de5dae2223b00361a396177a9cb410ff61f20015ad");
}

#[test]
fn appledouble_names_and_hash_choice() {
    assert!(is_appledouble("a/._x.jpg"));
    assert!(!is_appledouble("a/x._jpg"));
    assert_eq!(appledouble_sibling("a/x.jpg"), "a/._x.jpg");
    assert_eq!(appledouble_sibling("x.jpg"), "._x.jpg");
    assert!(needs_content_hash(Action::Copy, false));
    assert!(needs_content_hash(Action::Move, true));
    assert!(!needs_content_hash(Action::Move, false));
    assert!(!needs_content_hash(Action::Rename, false));
    assert_eq!(online_check("내사진", false, false, false).as_deref(), Some("「내사진」 디스크가 연결되어 있지 않습니다"));
    assert_eq!(online_check("내사진", true, true, true), None);
}

#[test]
fn free_names_are_compared_in_lower_case() {
    let listed: Vec<String> = vec!["IMG_1.JPG".into(), "img_1 (2).jpg".into()];
    assert_eq!(free_name_in("IMG_1.jpg", &listed, "t"), "IMG_1 (3).jpg");
    assert_eq!(free_name_in("other.jpg", &listed, "t"), "other.jpg");
    assert_eq!(numbered_name("a.jpg", "7"), "a (7).jpg");
}

#[test]
fn folders_taken_out_are_each_taken_once() {
    let mut pending: Vec<Pending> = Vec::new();
    note_change(&mut pending, 1, "/a".into(), 0);
    note_change(&mut pending, 2, "/a".into(), 0);
    note_change(&mut pending, 1, "/a".into(), 0);
    let due = take_due(&mut pending, 1000, 10);
    assert_eq!(due, vec![(1, "/a".to_string()), (2, "/a".to_string())]);
}
