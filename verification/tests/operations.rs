use photo_desk::capture_date::{
    audit, audit_scope, backup_name, backup_rel, check_change, count_result, is_jpeg, validate_rel as audit_rel,
    yes, AuditProbe, AuditRow, AuditTarget, CaptureError, CaptureOutcome, Change, ChangeProbe, ManifestItem, Scope,
};
use photo_desk::folder::{
    clean_name, clean_rel, plan_target, preview as folder_preview, temp_sibling_name, Action, ConflictPolicy,
    Facts, FolderError, Request as FolderRequest,
};
use photo_desk::husk::{bin_rel, has_photos, husk_of, safe_rel, to_trash as husk_to_trash, HuskStep};
use photo_desk::import::{look, preview as import_preview, Candidate};
use photo_desk::merge::{
    is_junk_file, landing_dir, leftovers, merge_check, merge_label, merge_name, rest_check, under, FoundFile,
    MergeError,
};
use photo_desk::names::free_name;
use photo_desk::offload::{folder_size, BranchFile, BranchFolder};
use photo_desk::organize::{forget_empty_folders, libraries_of, FolderRef};
use photo_desk::rename::{clean_new_name, recorded_ext, rename_label, rename_plan, RenameError, RenamePlan};
use photo_desk::transfer::ConflictPolicy::{Rename, Skip};
use photo_desk::transfer::{
    preview as transfer_preview, validate_rel, ItemFacts, Mode, Probe, Publication, Request, TransferError,
};
use photo_desk::trash::{
    move_with_sidecars, rollback, sidecar_candidates, sidecars, summary, trash_root, MoveRefusal, TrashRow,
};
use photo_desk::undo::{closes, dir_and_name, record, record_to, recent_limit, refusal, route, Route};
use photo_desk::unicode::nfc;
use photo_desk::xmp::{render, sidecar_path, write_plan, Meta, WritePlan, MARK};

#[test]
fn renders_rating_flag_and_tags() {
    let tags = vec!["가족".to_string(), "a<b".to_string()];
    let s = render(&Meta {
        rating: 4,
        culling_flag: 1,
        favorite: true,
        tags: &tags,
    });
    assert!(s.contains("xmp:Rating=\"4\""));
    assert!(s.contains("acut:Flag=\"pick\""));
    assert!(s.contains("<rdf:li>가족</rdf:li>"));
    assert!(s.contains("<rdf:li>a&lt;b</rdf:li>"));
    assert!(s.contains(MARK));
}

#[test]
fn the_sidecar_text_is_byte_for_byte_the_template() {
    let tags = vec!["x&\"y\"".to_string()];
    let m = Meta {
        rating: 9,
        culling_flag: 2,
        favorite: false,
        tags: &tags,
    };
    let items = "     <rdf:li>x&amp;&quot;y&quot;</rdf:li>\n";
    let tag_block = format!("    <dc:subject>\n     <rdf:Bag>\n{items}     </rdf:Bag>\n    </dc:subject>\n");
    let expected = format!(
        "<?xpacket begin=\"\u{FEFF}\" id=\"W5M0MpCehiHzreSzNTczkc9d\"?>\n\
<x:xmpmeta xmlns:x=\"adobe:ns:meta/\">\n\
 <rdf:RDF xmlns:rdf=\"http://www.w3.org/1999/02/22-rdf-syntax-ns#\">\n\
  <rdf:Description rdf:about=\"\"\n\
    xmlns:xmp=\"http://ns.adobe.com/xap/1.0/\"\n\
    xmlns:dc=\"http://purl.org/dc/elements/1.1/\"\n\
    xmlns:acut=\"https://acut.media/ns/1.0/\"\n\
    xmp:Rating=\"{rating}\"\n\
    acut:Flag=\"{flag}\"\n\
    acut:Favorite=\"{fav}\"\n\
    {mark}>\n\
{tags}\
  </rdf:Description>\n\
 </rdf:RDF>\n\
</x:xmpmeta>\n\
<?xpacket end=\"w\"?>\n",
        rating = 5,
        flag = "reject",
        fav = "false",
        mark = MARK,
        tags = tag_block,
    );
    assert_eq!(render(&m), expected);
    let empty = render(&Meta {
        rating: -3,
        culling_flag: 0,
        favorite: true,
        tags: &[],
    });
    assert!(empty.contains("xmp:Rating=\"0\""));
    assert!(empty.contains("acut:Flag=\"none\""));
    assert!(!empty.contains("dc:subject"));
}

#[test]
fn a_sidecar_of_another_program_is_left_alone() {
    assert_eq!(sidecar_path("/v/IMG_1.jpg"), "/v/IMG_1.jpg.xmp");
    assert_eq!(write_plan(None, "body"), WritePlan::Write);
    assert_eq!(write_plan(Some("<x:xmpmeta/>"), "body"), WritePlan::Foreign);
    let ours = format!("a {MARK} b");
    assert_eq!(write_plan(Some(&ours), &ours), WritePlan::Unchanged);
    assert_eq!(write_plan(Some(&ours), "new"), WritePlan::Write);
}

#[test]
fn the_trash_lives_inside_the_library() {
    assert_eq!(trash_root("/v/lib"), "/v/lib/.acut/휴지통");
    assert_eq!(trash_root("/v/lib/"), "/v/lib/.acut/휴지통");
}

#[test]
fn sidecars_follow_by_stem_and_by_full_name() {
    let c = sidecar_candidates("/a/IMG_1.CR2", "/t/IMG_1 (2).CR2");
    assert_eq!(
        c,
        vec![
            ("/a/IMG_1.xmp".to_string(), "/t/IMG_1 (2).xmp".to_string()),
            ("/a/IMG_1.CR2.xmp".to_string(), "/t/IMG_1 (2).CR2.xmp".to_string()),
        ]
    );
    // without an extension both candidates are the same file: once
    assert_eq!(sidecar_candidates("/a/IMG", "/t/IMG").len(), 1);
    let s = sidecars("/a/IMG_1.CR2", "/t/IMG_1.CR2", &[false, true]);
    assert_eq!(s, vec![("/a/IMG_1.CR2.xmp".to_string(), "/t/IMG_1.CR2.xmp".to_string())]);
}

#[test]
fn a_move_is_refused_before_anything_moves() {
    let cars = vec![("/a/x.xmp".to_string(), "/t/x.xmp".to_string())];
    assert!(matches!(move_with_sidecars("/a/x.jpg", "/t/x.jpg", &cars, true, &[false]), Err(MoveRefusal::DestinationTaken)));
    assert!(matches!(move_with_sidecars("/a/x.jpg", "/t/x.jpg", &cars, false, &[true]), Err(MoveRefusal::SidecarTaken)));
    let plan = move_with_sidecars("/a/x.jpg", "/t/x.jpg", &cars, false, &[false]).unwrap();
    assert_eq!(plan[0], ("/a/x.jpg".to_string(), "/t/x.jpg".to_string()));
    assert_eq!(plan[1], cars[0]);
}

#[test]
fn rollback_puts_back_the_last_move_first() {
    let done = vec![("a".to_string(), "b".to_string()), ("c".to_string(), "d".to_string())];
    assert_eq!(
        rollback(&done),
        vec![("d".to_string(), "c".to_string()), ("b".to_string(), "a".to_string())]
    );
}

#[test]
fn the_trash_summary_counts_only_trashed_files() {
    let rows = [
        TrashRow { library_id: 1, size: 10, trashed: true },
        TrashRow { library_id: 2, size: 20, trashed: true },
        TrashRow { library_id: 1, size: 40, trashed: false },
    ];
    let all = summary(&rows, None).unwrap();
    assert_eq!((all.files, all.bytes), (2, 30));
    let one = summary(&rows, Some(1)).unwrap();
    assert_eq!((one.files, one.bytes), (1, 10));
    let huge = [
        TrashRow { library_id: 1, size: i64::MAX, trashed: true },
        TrashRow { library_id: 1, size: 1, trashed: true },
    ];
    assert!(summary(&huge, None).is_none());
}

#[test]
fn a_free_name_is_numbered_case_blind() {
    let taken = vec!["img_1.jpg".to_string(), "img_1 (2).jpg".to_string()];
    assert_eq!(free_name("IMG_1.JPG", &taken, "STAMP"), "IMG_1 (3).JPG");
    assert_eq!(free_name("other.jpg", &taken, "STAMP"), "other.jpg");
    let hidden = vec![".bashrc".to_string()];
    assert_eq!(free_name(".bashrc", &hidden, "S"), ".bashrc (2)");
    let umlaut = vec!["änne.jpg".to_string()];
    assert_eq!(free_name("ÄNNE.jpg", &umlaut, "S"), "ÄNNE (2).jpg", "lower case beyond ASCII");
}

fn found(id: i64, name: &str, wanted_exists: bool) -> ItemFacts {
    ItemFacts {
        id,
        source_area: 1,
        vol_rel: format!("src/{name}"),
        name: name.to_string(),
        probe: Probe::Found {
            sha256: None,
            publication: Publication::Unpublished,
            wanted_exists,
        },
    }
}

fn request(mode: Mode, policy: photo_desk::transfer::ConflictPolicy) -> Request {
    Request {
        ids: vec![],
        destination_library_id: 7,
        destination_dir: "2024/여행".into(),
        mode,
        conflict_policy: policy,
        publish: false,
    }
}

#[test]
fn destinations_stay_inside_the_library() {
    assert_eq!(validate_rel(" /2024/여행/ ").unwrap(), "2024/여행");
    assert_eq!(validate_rel("").unwrap(), "");
    assert!(matches!(validate_rel("2024/../x"), Err(TransferError::NotInside)));
    assert!(matches!(validate_rel("2024/.hidden"), Err(TransferError::BadName)));
    assert!(matches!(validate_rel("a//b"), Err(TransferError::BadName)));
    assert!(matches!(validate_rel("a:b"), Err(TransferError::BadName)));
}

#[test]
fn a_batch_never_plans_two_photos_under_one_name() {
    let items = vec![found(1, "IMG_1.jpg", false), found(2, "img_1.JPG", false), found(3, "b.jpg", true)];
    let present = vec!["b.jpg".to_string()];
    let lower = vec!["b.jpg".to_string()];
    let p = transfer_preview(&request(Mode::Copy, Rename), 2, "2024/여행", &items, &present, &lower, "S");
    assert_eq!(p.mode, "copy");
    assert!(p.publish, "My Photos copied to Shared is a publication");
    assert_eq!(p.source_area, Some(1));
    assert!(p.drive_sync_warning);
    assert_eq!(p.items[0].planned_name, "IMG_1.jpg");
    assert_eq!(p.items[0].conflict, "none");
    assert_eq!(p.items[1].planned_name, "img_1 (2).JPG");
    assert_eq!(p.items[1].conflict, "batch_name_exists");
    assert_eq!(p.items[1].action, "rename");
    assert_eq!(p.items[2].planned_name, "b (2).jpg");
    assert_eq!(p.items[2].conflict, "name_exists");
    assert_eq!(p.items[2].destination, "2024/여행/b (2).jpg");
    let p = transfer_preview(&request(Mode::Move, Skip), 0, "", &items, &present, &lower, "S");
    assert_eq!(p.mode, "move");
    assert!(!p.publish);
    assert!(p.drive_sync_warning, "the source area syncs");
    assert_eq!(p.items[1].action, "skip");
    assert_eq!(p.items[2].action, "skip");
    assert_eq!(p.items[2].destination, "b.jpg");
}

#[test]
fn missing_and_published_photos_are_reported() {
    let mut items = vec![found(1, "a.jpg", false), found(2, "b.jpg", false)];
    items[0].probe = Probe::SourceMissing;
    items[1].probe = Probe::Found {
        sha256: Some("abc".into()),
        publication: Publication::Valid,
        wanted_exists: true,
    };
    let p = transfer_preview(&request(Mode::Copy, Skip), 2, "x", &items, &[], &[], "S");
    assert_eq!(p.items[0].conflict, "source_missing");
    assert_eq!(p.items[0].action, "run");
    assert_eq!(p.items[1].conflict, "already_published");
    assert_eq!(p.items[1].action, "skip");
    assert_eq!(p.items[1].source_sha256.as_deref(), Some("abc"));
}

#[test]
fn folder_paths_are_cleaned_and_refused() {
    assert_eq!(clean_rel(" /2024/여행/ ", false).unwrap(), "2024/여행");
    assert!(matches!(clean_rel("", false), Err(FolderError::Root)));
    assert_eq!(clean_rel("", true).unwrap(), "");
    assert!(matches!(clean_rel("a/../b", false), Err(FolderError::UnsafePath)));
    assert!(matches!(clean_name(Some("a/b")), Err(FolderError::BadName)));
    assert!(matches!(clean_name(None), Err(FolderError::BadName)));
    assert_eq!(clean_name(Some(" 새 폴더 ")).unwrap(), "새 폴더");
    assert_eq!(temp_sibling_name("2024", 42), ".2024.photo-desk-42.tmp");
}

fn folder_request(action: Action, dir: &str, parent: Option<&str>, name: Option<&str>) -> FolderRequest {
    FolderRequest {
        action,
        source_library_id: 1,
        source_dir: dir.into(),
        destination_library_id: None,
        destination_parent: parent.map(|p| p.to_string()),
        name: name.map(|n| n.to_string()),
        conflict_policy: ConflictPolicy::Skip,
    }
}

#[test]
fn folder_targets_follow_the_action() {
    let t = plan_target(&folder_request(Action::Create, "2024", None, Some("새"))).unwrap();
    assert_eq!((t.parent_rel.as_str(), t.name.as_str(), t.destination_rel.as_str()), ("2024", "새", "2024/새"));
    let t = plan_target(&folder_request(Action::Rename, "2024/a", None, Some("b"))).unwrap();
    assert_eq!(t.destination_rel, "2024/b");
    let t = plan_target(&folder_request(Action::Trash, "2024/a", None, None)).unwrap();
    assert_eq!(t.destination_rel, ".acut/휴지통/2024/a");
    assert_eq!(t.parent_rel, ".acut/휴지통/2024");
    let into_itself = plan_target(&folder_request(Action::Move, "2024", Some("2024/x"), None));
    assert!(matches!(into_itself, Err(FolderError::IntoItself)));
    let t = plan_target(&folder_request(Action::Move, "2024/a", Some("2025"), None)).unwrap();
    assert_eq!(t.destination_rel, "2025/a");
    let r = folder_request(Action::Move, "2024/a", Some("2025"), None);
    let facts = Facts {
        wanted_exists: true,
        same_existing_folder: false,
        taken: vec!["a".into()],
        stamp: "t".into(),
        files: 3,
        directories: 1,
        bytes: 30,
        source_area: 0,
        destination_area: 2,
        source_volume: "V".into(),
        destination_volume: "V".into(),
    };
    let p = folder_preview(&t, &r, &facts);
    assert_eq!((p.conflict.as_str(), p.action.as_str()), ("name_exists", "skip"));
    assert_eq!(p.planned_name, "a");
    assert_eq!(p.destination, "2025/a");
    assert!(!p.cross_volume);
    assert!(p.drive_sync_warning);
    let mut renaming = folder_request(Action::Move, "2024/a", Some("2025"), None);
    renaming.conflict_policy = ConflictPolicy::Rename;
    let p = folder_preview(&t, &renaming, &Facts { taken: vec!["A".into(), "a (2)".into()], destination_volume: "W".into(), ..facts.clone() });
    assert_eq!((p.conflict.as_str(), p.action.as_str()), ("name_exists", "rename"));
    assert_eq!(p.destination, "2025/a (3)");
    assert!(p.cross_volume);
}

fn row(id: i64, name: &str, ext: &str, kind: i32) -> AuditRow {
    AuditRow {
        id,
        name: name.into(),
        ext: ext.into(),
        kind,
        taken_at: 0,
        source: 3,
        lib_rel: format!("2024/{name}"),
    }
}

#[test]
fn the_audit_proposes_the_embedded_date_first() {
    let rows = vec![row(1, "20240102_235958.jpg", "jpg", 0), row(2, "x.png", "png", 0), row(3, "y.png", "png", 0)];
    let probes = vec![AuditProbe::Read(Some(5)), AuditProbe::Read(None), AuditProbe::Read(None)];
    let names = vec![Some(7), Some(8), None];
    let items = audit(&rows, &probes, &names).unwrap();
    assert_eq!((items[0].proposed_at, items[0].proposed_source.as_deref()), (Some(5), Some("embedded")));
    assert!(!items[0].auto_selected && items[0].existing_exif);
    assert_eq!(items[0].write_scope, "JPEG EXIF 3필드 + mtime");
    assert_eq!((items[1].proposed_at, items[1].proposed_source.as_deref()), (Some(8), Some("filename")));
    assert!(items[1].auto_selected);
    assert_eq!(items[1].evidence, "파일명 x.png");
    assert_eq!(items[2].proposed_at, None);
    assert_eq!(items[2].interpretation, "수동 날짜·시각이 필요");
    let probes = vec![AuditProbe::Read(None), AuditProbe::FileMissing, AuditProbe::NotMounted];
    assert!(matches!(audit(&rows, &probes, &names), Err(CaptureError::FileMissing)));
}

#[test]
fn an_audit_needs_a_target_inside_a_library() {
    assert!(yes());
    let t = AuditTarget { ids: vec![], library_id: None, rel_path: None, recursive: true };
    assert!(matches!(audit_scope(&t), Err(CaptureError::NoTarget)));
    let t = AuditTarget { ids: vec![], library_id: Some(1), rel_path: Some("../x".into()), recursive: true };
    assert!(matches!(audit_scope(&t), Err(CaptureError::OutsideLibrary)));
    let t = AuditTarget { ids: vec![], library_id: Some(1), rel_path: Some("2024".into()), recursive: false };
    assert!(matches!(audit_scope(&t), Ok(Scope::Folder(1, ref f)) if f == "2024"));
    let t = AuditTarget { ids: vec![4], library_id: None, rel_path: None, recursive: true };
    assert!(matches!(audit_scope(&t), Ok(Scope::Ids(ref v)) if v == &vec![4]));
    assert!(audit_rel("a/b").is_ok());
    assert!(audit_rel("/a").is_err());
    assert!(is_jpeg("jpeg", 0) && !is_jpeg("jpg", 1) && !is_jpeg("png", 0));
}

#[test]
fn corrections_are_checked_before_anything_is_written() {
    let auto = Change { id: 1, taken_at: 10, manual: false };
    let manual = Change { id: 1, taken_at: 10, manual: true };
    assert_eq!(check_change(&auto, false, ChangeProbe::Read(None), Some(10)), Err(CaptureError::OutOfRange));
    assert_eq!(check_change(&auto, true, ChangeProbe::NotFound, Some(10)), Err(CaptureError::NotFound));
    assert_eq!(check_change(&auto, true, ChangeProbe::NotMounted, Some(10)), Err(CaptureError::NotMounted));
    assert_eq!(check_change(&auto, true, ChangeProbe::Read(Some(3)), Some(10)), Err(CaptureError::EmbeddedKept));
    assert_eq!(check_change(&auto, true, ChangeProbe::Read(None), None), Err(CaptureError::NoFilenameClue));
    assert_eq!(check_change(&auto, true, ChangeProbe::Read(None), Some(11)), Err(CaptureError::ChangedSinceAudit));
    assert_eq!(check_change(&auto, true, ChangeProbe::Read(None), Some(10)), Ok(()));
    assert_eq!(check_change(&manual, true, ChangeProbe::Read(Some(3)), None), Ok(()));
    assert_eq!(check_change(&manual, true, ChangeProbe::FileMissing, None), Err(CaptureError::FileMissing));
}

#[test]
fn the_correction_outcome_keeps_the_first_error() {
    let mut out = CaptureOutcome {
        batch_id: 9,
        corrected: 0,
        failed: 0,
        first_error: None,
        failed_ids: vec![],
        manifest: vec![],
    };
    count_result(&mut out, 1, Err("first".into()));
    count_result(&mut out, 2, Err("second".into()));
    let m = ManifestItem {
        id: 3,
        path: "p".into(),
        before_sha256: "a".into(),
        after_sha256: "b".into(),
        before_taken_at: 0,
        written_at: 1,
        rescan_at: 1,
        rescan_source: 0,
        write_scope: "mtime+desk-override".into(),
    };
    count_result(&mut out, 3, Ok(m));
    assert_eq!((out.corrected, out.failed), (1, 2));
    assert_eq!(out.failed_ids, vec![1, 2]);
    assert_eq!(out.first_error.as_deref(), Some("first"));
    assert_eq!(out.manifest[0].id, 3);
    assert_eq!(backup_name(12, "a/b:c\\d.jpg"), "12-a-b-c-d.jpg");
    assert_eq!(backup_rel(5, 12, "x.jpg"), ".acut/capture-date-backups/5/12-x.jpg");
}

#[test]
fn undoing_twice_does_nothing() {
    let r = route("move", Some(100));
    assert_eq!(r, Route::AlreadyUndone);
    let o = refusal(7, r).unwrap();
    assert_eq!((o.batch_id, o.moved, o.failed), (7, 0, 0));
    assert_eq!(o.first_error.as_deref(), Some("이미 되돌린 작업입니다"));
    assert!(!closes(r, 0, 0, 0));
}

#[test]
fn a_permanent_delete_cannot_be_undone() {
    let r = route("delete", None);
    assert_eq!(r, Route::Permanent);
    assert_eq!(refusal(1, r).unwrap().first_error.as_deref(), Some("영구히 지운 사진은 되돌릴 수 없습니다"));
}

#[test]
fn a_fully_failed_undo_stays_undoable() {
    assert!(!closes(Route::Paths, 0, 2, 2));
    assert!(closes(Route::Paths, 1, 1, 2));
    assert!(closes(Route::Paths, 0, 0, 0), "nothing left: closed");
    assert!(!closes(Route::CaptureDate, 0, 1, 1));
    assert!(closes(Route::CaptureDate, 0, 0, 1));
    assert!(!closes(Route::Copies, 0, 1, 1));
    assert!(closes(Route::Copies, 0, 1, 0));
    assert_eq!(route("capture_date", None), Route::CaptureDate);
    assert_eq!(route("publish", None), Route::Copies);
    assert_eq!(route("import", None), Route::Import);
    assert_eq!(route("trash", None), Route::Trash);
    assert_eq!(route("restore", None), Route::Restore);
    assert!(refusal(1, Route::Paths).is_none());
    assert_eq!((recent_limit(0), recent_limit(50), recent_limit(999)), (1, 50, 200));
    assert_eq!(dir_and_name("a/b/c.jpg"), ("a/b".to_string(), "c.jpg".to_string()));
    assert_eq!(dir_and_name("c.jpg"), ("".to_string(), "c.jpg".to_string()));
}

#[test]
fn the_journal_keeps_the_arrival_volume_apart() {
    let e = record_to(1, "move", 2, "T7", "a/x.jpg", "NAS", Some("b/x.jpg"), Ok(()));
    assert_eq!((e.from_vol.as_str(), e.to_vol.as_str()), ("T7", "NAS"));
    assert!(e.ok && e.error.is_none());
    let f = record(1, "trash", 3, "T7", "a/y.jpg", None, Err("디스크가 연결되어 있지 않습니다"));
    assert_eq!(f.to_vol, "T7");
    assert!(!f.ok);
    assert_eq!(f.error.as_deref(), Some("디스크가 연결되어 있지 않습니다"));
}

#[test]
fn renames_keep_the_wanted_name_or_refuse() {
    assert_eq!(clean_new_name(" 주원 첫돌.jpg ").unwrap(), "주원 첫돌.jpg");
    assert_eq!(clean_new_name(""), Err(RenameError::Empty));
    assert_eq!(clean_new_name("a/b.jpg"), Err(RenameError::BadName));
    assert_eq!(clean_new_name(".."), Err(RenameError::BadName));
    assert_eq!(rename_plan("IMG_1.jpg", "IMG_1.jpg", true, true), Ok(RenamePlan::Unchanged));
    assert_eq!(rename_plan("IMG_1.jpg", "IMG_2.jpg", true, true), Err(RenameError::Taken));
    assert_eq!(rename_plan("IMG_1.jpg", "img_1.JPG", true, true), Ok(RenamePlan::Rename));
    assert_eq!(rename_plan("IMG_1.jpg", "x.jpg", false, false), Err(RenameError::Missing));
    assert_eq!(rename_label("a.jpg", "b.jpg"), "a.jpg → b.jpg");
    assert_eq!(recorded_ext("주원.JPG").as_deref(), Some("jpg"));
    assert_eq!(recorded_ext(".bashrc"), None);
}

#[test]
fn overlapping_or_foreign_roots_are_refused() {
    assert!(under("", "x") && under("a", "a") && under("a", "a/b") && !under("a", "ab"));
    assert_eq!(merge_check("", "B", "B"), Err(MergeError::Overlap));
    assert_eq!(merge_check("", "B", "B/2016"), Err(MergeError::Overlap));
    assert_eq!(merge_check("lib", "lib", "lib/A"), Err(MergeError::Overlap), "the root holds every folder");
    assert_eq!(merge_check("lib", "other/B", "lib/A"), Err(MergeError::Foreign));
    assert_eq!(merge_check("lib", "lib/B", "lib/A"), Ok(()));
    assert_eq!(rest_check("lib", "lib/B", "lib/A"), Ok(()));
    assert_eq!(rest_check("lib", "lib/B", "lib/B/x"), Err(MergeError::Overlap));
}

#[test]
fn merged_photos_keep_their_place_below_the_target() {
    assert_eq!(landing_dir("B", "A", "B/2016/x"), "A/2016/x");
    assert_eq!(landing_dir("B", "A", "B"), "A");
    assert_eq!(merge_label("vol/B", "vol/A"), "폴더 합치기 «B» → «A»");
    let catalogued = vec!["a.jpg".to_string(), "a (2).jpg".to_string()];
    let present = vec!["a (3).jpg".to_string()];
    assert_eq!(merge_name("a.jpg", &catalogued, &present), "a (4).jpg");
    assert_eq!(merge_name("b.jpg", &catalogued, &present), "b.jpg");
}

#[test]
fn leftovers_are_counted_by_kind() {
    assert!(is_junk_file(".DS_Store") && is_junk_file("._x") && is_junk_file("Thumbs.db"));
    let files = vec![
        FoundFile { name: "노트.txt".into(), size: 4 },
        FoundFile { name: "b.TXT".into(), size: 6 },
        FoundFile { name: "Thumbs.db".into(), size: 100 },
        FoundFile { name: "old.zip".into(), size: 10 },
        FoundFile { name: "README".into(), size: 1 },
    ];
    let l = leftovers(&files);
    assert_eq!((l.files, l.bytes), (4, 21));
    assert_eq!(
        l.kinds,
        vec![("txt".to_string(), 2), ("(없음)".to_string(), 1), ("zip".to_string(), 1)]
    );
}

#[test]
fn husks_are_folders_with_files_but_no_photos() {
    let live = vec!["2003/여행".to_string()];
    assert!(has_photos(&live, "2003"));
    assert!(has_photos(&live, "2003/여행"));
    assert!(!has_photos(&live, "2003/메모"));
    assert!(!has_photos(&live, "200"));
    let notes = vec![
        FoundFile { name: "IMG_1.TXT".into(), size: 80 },
        FoundFile { name: "IMG_2.TXT".into(), size: 80 },
    ];
    let h = husk_of("2003/메모", &notes).unwrap();
    assert_eq!((h.files, h.bytes), (2, 160));
    assert_eq!(h.kinds[0], ("txt".to_string(), 2));
    assert!(husk_of("x", &[FoundFile { name: ".DS_Store".into(), size: 1 }]).is_none());
    assert_eq!(bin_rel("2003/메모"), ".acut/휴지통/_폴더/2003/메모");
    assert!(safe_rel("2004") && !safe_rel("../etc") && !safe_rel("/etc") && !safe_rel(""));
    let rels = vec!["2003/메모".to_string(), "../etc".to_string(), "2004".to_string(), "2005".to_string()];
    let steps = vec![HuskStep::Moved, HuskStep::Moved, HuskStep::Failed("busy".into()), HuskStep::NotAFolder];
    let (n, err) = husk_to_trash(&rels, &steps);
    assert_eq!(n, 1);
    assert_eq!(err.as_deref(), Some("이상한 경로: ../etc"));
}

#[test]
fn libraries_come_out_once_and_in_order() {
    assert_eq!(libraries_of(&[3, 1, 3, 2, 1]), vec![1, 2, 3]);
    assert!(libraries_of(&[]).is_empty());
    let folders = [
        FolderRef { id: 1, library_id: 1 },
        FolderRef { id: 2, library_id: 1 },
        FolderRef { id: 3, library_id: 2 },
    ];
    let gone = forget_empty_folders(&folders, &[2], 1);
    assert_eq!(gone, vec![FolderRef { id: 1, library_id: 1 }]);
}

#[test]
fn a_branch_counts_its_folders_and_live_files() {
    let folders = vec![
        BranchFolder { id: 1, library_id: 1, rel_path: "2015".into() },
        BranchFolder { id: 2, library_id: 1, rel_path: "2015/여행".into() },
        BranchFolder { id: 3, library_id: 1, rel_path: "2015여행".into() },
        BranchFolder { id: 4, library_id: 2, rel_path: "2015/x".into() },
    ];
    let files = vec![
        BranchFile { folder_id: 1, size: 10, trashed: false },
        BranchFile { folder_id: 2, size: 5, trashed: false },
        BranchFile { folder_id: 2, size: 7, trashed: true },
        BranchFile { folder_id: 3, size: 100, trashed: false },
    ];
    let s = folder_size(&folders, &files, 1).unwrap();
    assert_eq!((s.folders, s.files, s.bytes), (2, 2, 15));
    let none = folder_size(&folders, &files, 99).unwrap();
    assert_eq!((none.folders, none.files, none.bytes), (0, 0, 0));
}

fn cand(path: &str, name: &str, day: &str, size: u64, duplicate: bool) -> Candidate {
    Candidate { path: path.into(), name: name.into(), size, day: day.into(), duplicate }
}

#[test]
fn a_look_lists_each_file_once_by_day_and_name() {
    let c = vec![
        cand("/card-2/IMG_1.JPG", "IMG_1.JPG", "2024-08-27", 1, false),
        cand("/card/IMG_2.JPG", "IMG_2.JPG", "2024-08-26", 2, false),
        cand("/card/IMG_1.JPG", "IMG_1.JPG", "2024-08-27", 3, true),
        cand("/card/IMG_2.JPG", "IMG_2.JPG", "2024-08-26", 2, false),
    ];
    let r = look(&c);
    let paths: Vec<&str> = r.iter().map(|x| x.path.as_str()).collect();
    assert_eq!(paths, vec!["/card/IMG_2.JPG", "/card/IMG_1.JPG", "/card-2/IMG_1.JPG"]);
    let p = import_preview(&r);
    assert_eq!((p.files, p.bytes, p.duplicates, p.day_count), (2, 3, 1, 2));
    assert_eq!(p.days, vec!["2024-08-26".to_string(), "2024-08-27".to_string()]);
}

#[test]
fn names_are_compared_in_composed_form() {
    assert_eq!(nfc("\u{1100}\u{1161}"), "가");
    assert_eq!(nfc("e\u{301}"), "é");
    assert_eq!(clean_rel("\u{1100}\u{1161}/b", false).unwrap(), "가/b");
}
