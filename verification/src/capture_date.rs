//! Capture-date audit and correction: which photos an audit covers, what it
//! proposes for each and why, which corrections may be applied, and how the
//! outcome of a correction batch is counted.

use crate::text::{chars_of, concat, signed_decimal, signed_decimal_of, split_chars, split_on, str_is, string_of};
use vstd::prelude::*;

verus! {

/// What an audit looks at: given photos, or a library folder.
#[derive(Debug, Clone)]
pub struct AuditTarget {
    pub ids: Vec<i64>,
    pub library_id: Option<i64>,
    pub rel_path: Option<String>,
    /// Whether the folders below count too.
    pub recursive: bool,
}

/// Folders below count unless a target says otherwise.
pub fn yes() -> (r: bool)
    ensures
        r,
{
    true
}

/// One audited photo.
#[derive(Debug, Clone)]
pub struct AuditItem {
    pub id: i64,
    pub name: String,
    pub path: String,
    pub current_at: i64,
    pub current_source: i32,
    pub proposed_at: Option<i64>,
    pub proposed_source: Option<String>,
    pub evidence: String,
    pub interpretation: String,
    pub write_scope: String,
    pub auto_selected: bool,
    pub existing_exif: bool,
}

/// A correction to apply.
#[derive(Debug, Clone, Copy, PartialEq, Eq, Structural)]
pub struct Change {
    pub id: i64,
    pub taken_at: i64,
    /// A date the user typed, rather than the one the audit proposed.
    pub manual: bool,
}

/// What a correction wrote, for the record.
#[derive(Debug, Clone)]
pub struct ManifestItem {
    pub id: i64,
    pub path: String,
    pub before_sha256: String,
    pub after_sha256: String,
    pub before_taken_at: i64,
    pub written_at: i64,
    pub rescan_at: i64,
    pub rescan_source: i32,
    pub write_scope: String,
}

/// What a correction batch did.
#[derive(Debug, Clone)]
pub struct CaptureOutcome {
    pub batch_id: i64,
    pub corrected: usize,
    pub failed: usize,
    pub first_error: Option<String>,
    pub failed_ids: Vec<i64>,
    pub manifest: Vec<ManifestItem>,
}

/// Why an audit or a correction is refused.
#[derive(Debug, Clone, Copy, PartialEq, Eq, Structural)]
pub enum CaptureError {
    /// Neither photos nor a library were named.
    NoTarget,
    /// The folder lies outside the library.
    OutsideLibrary,
    /// The photo is not in the catalogue.
    NotFound,
    /// Its disk is not connected.
    NotMounted,
    /// Its file is not on the disk.
    FileMissing,
    /// The date lies outside the plausible range.
    OutOfRange,
    /// The file holds a valid capture date, which is never overwritten automatically.
    EmbeddedKept,
    /// No reliable date in the file name to correct to automatically.
    NoFilenameClue,
    /// The file changed since the audit.
    ChangedSinceAudit,
}

/// A folder an audit may look at: not absolute, and no part `..`.
pub open spec fn rel_inside(rel: Seq<char>) -> bool {
    !(rel.len() > 0 && rel[0] == '/') && forall|i: int|
        0 <= i < split_on(rel, '/').len() ==> #[trigger] split_on(rel, '/')[i] != ".."@
}

pub fn validate_rel(rel: &str) -> (r: Result<(), CaptureError>)
    ensures
        r is Ok <==> rel_inside(rel@),
        r matches Err(e) ==> e == CaptureError::OutsideLibrary,
{
    let v = chars_of(rel);
    if v.len() > 0 && v[0] == '/' {
        return Err(CaptureError::OutsideLibrary);
    }
    let parts = split_chars(v.as_slice(), '/');
    let ghost all = split_on(v@, '/');
    let mut i: usize = 0;
    while i < parts.len()
        invariant
            i <= parts@.len(),
            v@ == rel@,
            all == split_on(v@, '/'),
            parts@.len() == all.len(),
            forall|k: int| 0 <= k < parts@.len() ==> #[trigger] parts@[k]@ == all[k],
            forall|k: int| 0 <= k < i ==> #[trigger] all[k] != ".."@,
        decreases parts.len() - i,
    {
        assert(parts@[i as int]@ == all[i as int]);
        if str_is("..", parts[i].as_slice()) {
            return Err(CaptureError::OutsideLibrary);
        }
        i = i + 1;
    }
    Ok(())
}

/// Which photos an audit covers.
#[derive(Debug, Clone)]
pub enum Scope {
    /// These photos.
    Ids(Vec<i64>),
    /// All of a library.
    Library(i64),
    /// One folder of a library.
    Folder(i64, String),
    /// A folder of a library and all below it.
    Tree(i64, String),
}

/// The scope of an audit target: the photos when any are named; else a
/// library is needed, and its folder (the root when none is given) must lie
/// inside it; the root means the whole library, another folder that folder
/// alone or with all below it.
pub open spec fn scope_holds(t: AuditTarget, r: Result<Scope, CaptureError>) -> bool {
    let rel = match t.rel_path {
        Some(s) => s@,
        None => Seq::empty(),
    };
    if t.ids@.len() > 0 {
        r matches Ok(Scope::Ids(v)) && v@ == t.ids@
    } else if t.library_id is None {
        r == Err::<Scope, CaptureError>(CaptureError::NoTarget)
    } else if !rel_inside(rel) {
        r == Err::<Scope, CaptureError>(CaptureError::OutsideLibrary)
    } else if rel.len() == 0 {
        r matches Ok(Scope::Library(id)) && id == t.library_id->0
    } else if t.recursive {
        r matches Ok(Scope::Tree(id, f)) && id == t.library_id->0 && f@ == rel
    } else {
        r matches Ok(Scope::Folder(id, f)) && id == t.library_id->0 && f@ == rel
    }
}

pub fn audit_scope(t: &AuditTarget) -> (r: Result<Scope, CaptureError>)
    ensures
        scope_holds(*t, r),
{
    if t.ids.len() > 0 {
        let mut v: Vec<i64> = Vec::new();
        let mut i: usize = 0;
        while i < t.ids.len()
            invariant
                i <= t.ids@.len(),
                v@ == t.ids@.subrange(0, i as int),
            decreases t.ids.len() - i,
        {
            v.push(t.ids[i]);
            i = i + 1;
            assert(v@ =~= t.ids@.subrange(0, i as int));
        }
        assert(t.ids@.subrange(0, t.ids@.len() as int) =~= t.ids@);
        return Ok(Scope::Ids(v));
    }
    let id = match t.library_id {
        Some(id) => id,
        None => return Err(CaptureError::NoTarget),
    };
    let rel = match &t.rel_path {
        Some(s) => chars_of(s.as_str()),
        None => Vec::new(),
    };
    let rs = string_of(rel.as_slice());
    match validate_rel(rs.as_str()) {
        Err(e) => return Err(e),
        Ok(()) => {},
    }
    if rel.len() == 0 {
        Ok(Scope::Library(id))
    } else if t.recursive {
        Ok(Scope::Tree(id, rs))
    } else {
        Ok(Scope::Folder(id, rs))
    }
}

/// Whether a photo is a JPEG image, whose EXIF can be rewritten.
pub open spec fn is_jpeg_of(ext: Seq<char>, kind: i32) -> bool {
    (ext == "jpg"@ || ext == "jpeg"@) && kind == 0
}

pub fn is_jpeg(ext: &str, kind: i32) -> (r: bool)
    ensures
        r == is_jpeg_of(ext@, kind),
{
    let e = chars_of(ext);
    (str_is("jpg", e.as_slice()) || str_is("jpeg", e.as_slice())) && kind == 0
}

/// A photo as an audit reads it from the catalogue.
#[derive(Debug, Clone)]
pub struct AuditRow {
    pub id: i64,
    pub name: String,
    pub ext: String,
    pub kind: i32,
    pub taken_at: i64,
    pub source: i32,
    /// Its path relative to its library.
    pub lib_rel: String,
}

/// What the disk says of an audited photo.
#[derive(Debug, Clone, Copy, PartialEq, Eq, Structural)]
pub enum AuditProbe {
    NotMounted,
    FileMissing,
    /// The file was read; the capture time embedded in it, if any.
    Read(Option<i64>),
}

/// The audit of one photo. The embedded capture time wins; else the date
/// in the file name (proposed and selected automatically); else nothing is
/// proposed and a manual date is needed. A JPEG image gets its EXIF
/// rewritten; anything else only its modification time and a desk override.
pub open spec fn audit_item_holds(r: AuditRow, embedded: Option<i64>, filename: Option<i64>, a: AuditItem) -> bool {
    &&& a.id == r.id && a.name@ == r.name@ && a.path@ == r.lib_rel@
    &&& a.current_at == r.taken_at && a.current_source == r.source
    &&& a.proposed_at == match embedded {
        Some(t) => Some(t),
        None => filename,
    }
    &&& match a.proposed_source {
        Some(s) => (embedded is Some && s@ == "embedded"@) || (embedded is None && filename is Some && s@
            == "filename"@),
        None => embedded is None && filename is None,
    }
    &&& a.evidence@ == if embedded is Some {
        "파일 내부 촬영일"@
    } else if filename is Some {
        "파일명 "@ + r.name@
    } else {
        "고신뢰 촬영일 단서 없음"@
    }
    &&& a.interpretation@ == if embedded is Some {
        "시간대 정보가 없는 지역 wall-clock으로 해석"@
    } else if filename is Some {
        "파일명의 날짜/시각을 지역 wall-clock으로 해석"@
    } else {
        "수동 날짜·시각이 필요"@
    }
    &&& a.write_scope@ == if is_jpeg_of(r.ext@, r.kind) {
        "JPEG EXIF 3필드 + mtime"@
    } else {
        "mtime + Photo Desk 보정값 (파일 내부 메타데이터는 변경하지 않음)"@
    }
    &&& a.auto_selected == (embedded is None && filename is Some)
    &&& a.existing_exif == embedded is Some
}

fn lit(s: &str) -> (r: String)
    ensures
        r@ == s@,
{
    let c = chars_of(s);
    string_of(c.as_slice())
}

fn copy_text(s: &String) -> (r: String)
    ensures
        r@ == s@,
{
    let c = chars_of(s.as_str());
    string_of(c.as_slice())
}

/// Audits one photo from the capture time embedded in its file and the date
/// its file name gives, if any.
pub fn audit_item(r: &AuditRow, embedded: Option<i64>, filename: Option<i64>) -> (a: AuditItem)
    ensures
        audit_item_holds(*r, embedded, filename, a),
{
    let (proposed, source, evidence, interpretation) = match embedded {
        Some(t) => (
            Some(t),
            Some(lit("embedded")),
            lit("파일 내부 촬영일"),
            lit("시간대 정보가 없는 지역 wall-clock으로 해석"),
        ),
        None => match filename {
            Some(t) => {
                let p = chars_of("파일명 ");
                let n = chars_of(r.name.as_str());
                let e = concat(p.as_slice(), n.as_slice());
                (
                    Some(t),
                    Some(lit("filename")),
                    string_of(e.as_slice()),
                    lit("파일명의 날짜/시각을 지역 wall-clock으로 해석"),
                )
            },
            None => (None, None, lit("고신뢰 촬영일 단서 없음"), lit("수동 날짜·시각이 필요")),
        },
    };
    let write_scope = if is_jpeg(r.ext.as_str(), r.kind) {
        lit("JPEG EXIF 3필드 + mtime")
    } else {
        lit("mtime + Photo Desk 보정값 (파일 내부 메타데이터는 변경하지 않음)")
    };
    AuditItem {
        id: r.id,
        name: copy_text(&r.name),
        path: copy_text(&r.lib_rel),
        current_at: r.taken_at,
        current_source: r.source,
        proposed_at: proposed,
        proposed_source: source,
        evidence,
        interpretation,
        write_scope,
        auto_selected: embedded.is_none() && proposed.is_some(),
        existing_exif: embedded.is_some(),
    }
}

/// The error an unread photo stops the audit with.
pub open spec fn probe_error(p: AuditProbe) -> Option<CaptureError> {
    match p {
        AuditProbe::NotMounted => Some(CaptureError::NotMounted),
        AuditProbe::FileMissing => Some(CaptureError::FileMissing),
        AuditProbe::Read(_) => None,
    }
}

/// Audits the photos of a scope in catalogue order. It stops at the first
/// photo whose file cannot be read, with that error; else every photo is
/// audited from what its file and file name say. The audit writes nothing.
pub fn audit(rows: &[AuditRow], probes: &[AuditProbe], filenames: &[Option<i64>]) -> (r: Result<
    Vec<AuditItem>,
    CaptureError,
>)
    requires
        probes@.len() == rows@.len(),
        filenames@.len() == rows@.len(),
    ensures
        match r {
            Ok(items) => items@.len() == rows@.len() && (forall|k: int|
                0 <= k < rows@.len() ==> probe_error(#[trigger] probes@[k]) is None) && forall|k: int|
                0 <= k < rows@.len() ==> audit_item_holds(
                    rows@[k],
                    probes@[k]->Read_0,
                    filenames@[k],
                    #[trigger] items@[k],
                ),
            Err(e) => exists|k: int|
                0 <= k < rows@.len() && probe_error(#[trigger] probes@[k]) == Some(e) && forall|j: int|
                    0 <= j < k ==> probe_error(#[trigger] probes@[j]) is None,
        },
{
    let mut out: Vec<AuditItem> = Vec::new();
    let mut i: usize = 0;
    while i < rows.len()
        invariant
            i <= rows@.len(),
            probes@.len() == rows@.len(),
            filenames@.len() == rows@.len(),
            out@.len() == i,
            forall|k: int| 0 <= k < i ==> probe_error(#[trigger] probes@[k]) is None,
            forall|k: int|
                0 <= k < i ==> audit_item_holds(rows@[k], probes@[k]->Read_0, filenames@[k], #[trigger] out@[k]),
        decreases rows.len() - i,
    {
        match probes[i] {
            AuditProbe::NotMounted => {
                assert(probe_error(probes@[i as int]) == Some(CaptureError::NotMounted));
                return Err(CaptureError::NotMounted);
            },
            AuditProbe::FileMissing => {
                assert(probe_error(probes@[i as int]) == Some(CaptureError::FileMissing));
                return Err(CaptureError::FileMissing);
            },
            AuditProbe::Read(embedded) => {
                let a = audit_item(&rows[i], embedded, filenames[i]);
                out.push(a);
            },
        }
        i = i + 1;
    }
    Ok(out)
}

/// What the catalogue and the disk say of a photo to correct.
#[derive(Debug, Clone, Copy, PartialEq, Eq, Structural)]
pub enum ChangeProbe {
    NotFound,
    NotMounted,
    FileMissing,
    /// The file was read; the capture time embedded in it, if any.
    Read(Option<i64>),
}

/// Whether a correction may be written. The date must be plausible; the
/// photo must be found and read; an automatic (not manual) correction must
/// not overwrite an embedded date, needs a date in the file name, and that
/// date must still be the one proposed.
pub open spec fn change_check_of(c: Change, plausible: bool, probe: ChangeProbe, filename: Option<i64>) -> Result<
    (),
    CaptureError,
> {
    if !plausible {
        Err(CaptureError::OutOfRange)
    } else {
        match probe {
            ChangeProbe::NotFound => Err(CaptureError::NotFound),
            ChangeProbe::NotMounted => Err(CaptureError::NotMounted),
            ChangeProbe::FileMissing => Err(CaptureError::FileMissing),
            ChangeProbe::Read(embedded) => if c.manual {
                Ok(())
            } else if embedded is Some {
                Err(CaptureError::EmbeddedKept)
            } else {
                match filename {
                    None => Err(CaptureError::NoFilenameClue),
                    Some(t) => if t != c.taken_at {
                        Err(CaptureError::ChangedSinceAudit)
                    } else {
                        Ok(())
                    },
                }
            },
        }
    }
}

pub fn check_change(c: &Change, plausible: bool, probe: ChangeProbe, filename: Option<i64>) -> (r: Result<
    (),
    CaptureError,
>)
    ensures
        r == change_check_of(*c, plausible, probe, filename),
{
    if !plausible {
        return Err(CaptureError::OutOfRange);
    }
    match probe {
        ChangeProbe::NotFound => Err(CaptureError::NotFound),
        ChangeProbe::NotMounted => Err(CaptureError::NotMounted),
        ChangeProbe::FileMissing => Err(CaptureError::FileMissing),
        ChangeProbe::Read(embedded) => {
            if c.manual {
                Ok(())
            } else if embedded.is_some() {
                Err(CaptureError::EmbeddedKept)
            } else {
                match filename {
                    None => Err(CaptureError::NoFilenameClue),
                    Some(t) => if t != c.taken_at {
                        Err(CaptureError::ChangedSinceAudit)
                    } else {
                        Ok(())
                    },
                }
            }
        },
    }
}

/// The record of what a correction wrote: the EXIF and the modification
/// time of a JPEG, else the modification time and a desk override.
pub open spec fn scope_label_of(jpeg: bool) -> Seq<char> {
    if jpeg {
        "jpeg-exif+mtime"@
    } else {
        "mtime+desk-override"@
    }
}

pub fn scope_label(jpeg: bool) -> (r: String)
    ensures
        r@ == scope_label_of(jpeg),
{
    if jpeg {
        lit("jpeg-exif+mtime")
    } else {
        lit("mtime+desk-override")
    }
}

/// A character of a file name made safe for a backup name.
pub open spec fn safe_char(c: char) -> char {
    if c == '/' || c == '\\' || c == ':' {
        '-'
    } else {
        c
    }
}

/// The name a JPEG's backup takes before its EXIF is rewritten:
/// `<id>-<name>`, with `/`, `\` and `:` of the name turned into `-`.
pub open spec fn backup_name_of(id: i64, name: Seq<char>) -> Seq<char> {
    signed_decimal(id as int) + "-"@ + name.map_values(|c: char| safe_char(c))
}

pub fn backup_name(id: i64, name: &str) -> (r: String)
    ensures
        r@ == backup_name_of(id, name@),
{
    let n = chars_of(name);
    let mut safe: Vec<char> = Vec::new();
    let mut i: usize = 0;
    while i < n.len()
        invariant
            i <= n@.len(),
            safe@ == n@.subrange(0, i as int).map_values(|c: char| safe_char(c)),
        decreases n.len() - i,
    {
        let c = n[i];
        safe.push(if c == '/' || c == '\\' || c == ':' { '-' } else { c });
        i = i + 1;
        assert(safe@ =~= n@.subrange(0, i as int).map_values(|c: char| safe_char(c)));
    }
    assert(n@.subrange(0, n@.len() as int) =~= n@);
    let d = signed_decimal_of(id);
    let dash = chars_of("-");
    let a = concat(d.as_slice(), dash.as_slice());
    let b = concat(a.as_slice(), safe.as_slice());
    string_of(b.as_slice())
}

/// The backup of a JPEG, relative to its library:
/// `.acut/capture-date-backups/<batch>/<id>-<name>`.
pub open spec fn backup_rel_of(batch_id: i64, id: i64, name: Seq<char>) -> Seq<char> {
    ".acut/capture-date-backups/"@ + signed_decimal(batch_id as int) + "/"@ + backup_name_of(id, name)
}

pub fn backup_rel(batch_id: i64, id: i64, name: &str) -> (r: String)
    ensures
        r@ == backup_rel_of(batch_id, id, name@),
{
    let head = chars_of(".acut/capture-date-backups/");
    let b = signed_decimal_of(batch_id);
    let slash = chars_of("/");
    let n = backup_name(id, name);
    let nc = chars_of(n.as_str());
    let x = concat(head.as_slice(), b.as_slice());
    let y = concat(x.as_slice(), slash.as_slice());
    let z = concat(y.as_slice(), nc.as_slice());
    string_of(z.as_slice())
}

/// Counts one correction into the outcome: a success adds its record; a
/// failure counts, keeps the photo's id, and keeps its reason when it is the
/// first.
pub fn count_result(out: &mut CaptureOutcome, id: i64, result: Result<ManifestItem, String>)
    requires
        old(out).corrected < usize::MAX,
        old(out).failed < usize::MAX,
    ensures
        final(out).batch_id == old(out).batch_id,
        match result {
            Ok(m) => final(out).corrected == old(out).corrected + 1 && final(out).failed == old(out).failed
                && final(out).manifest@ == old(out).manifest@.push(m) && final(out).failed_ids@ == old(
                out,
            ).failed_ids@ && final(out).first_error == old(out).first_error,
            Err(e) => final(out).corrected == old(out).corrected && final(out).failed == old(out).failed + 1
                && final(out).manifest@ == old(out).manifest@ && final(out).failed_ids@ == old(
                out,
            ).failed_ids@.push(id) && final(out).first_error == match old(out).first_error {
                Some(f) => Some(f),
                None => Some(e),
            },
        },
{
    match result {
        Ok(m) => {
            out.corrected = out.corrected + 1;
            out.manifest.push(m);
        },
        Err(e) => {
            out.failed = out.failed + 1;
            out.failed_ids.push(id);
            if out.first_error.is_none() {
                out.first_error = Some(e);
            }
        },
    }
}

/// What undoing the date change of one photo does with its backup. A photo
/// without a backup only gets its times back (`Ok(false)`). A JPEG whose
/// bytes were backed up gets them back (`Ok(true)`: copy the backup over the
/// photo first) only when the backup's disk is connected, the backup file is
/// there (`backup_hash` is its SHA-256, `None` when it is missing) and its
/// SHA-256 is the one recorded of the photo's bytes before the correction; otherwise the photo fails.
pub open spec fn backup_step_of(
    backed_up: bool,
    backup_mounted: bool,
    backup_hash: Option<Seq<char>>,
    recorded_hash: Option<Seq<char>>,
) -> Result<bool, Seq<char>> {
    if !backed_up {
        Ok(false)
    } else if !backup_mounted {
        Err("백업 볼륨이 연결되어 있지 않습니다"@)
    } else if backup_hash is None {
        Err("촬영일 백업 파일이 없습니다"@)
    } else if recorded_hash is None {
        Err("촬영일 백업의 원래 SHA-256 기록이 없어 되돌리지 않았습니다"@)
    } else if backup_hash != recorded_hash {
        Err("촬영일 백업 파일의 SHA-256이 기록과 달라 되돌리지 않았습니다"@)
    } else {
        Ok(true)
    }
}

pub open spec fn str_opt(o: Option<&str>) -> Option<Seq<char>> {
    match o {
        Some(s) => Some(s@),
        None => None,
    }
}

pub fn backup_step(
    backed_up: bool,
    backup_mounted: bool,
    backup_hash: Option<&str>,
    recorded_hash: Option<&str>,
) -> (r: Result<bool, String>)
    ensures
        match r {
            Ok(b) => backup_step_of(backed_up, backup_mounted, str_opt(backup_hash), str_opt(recorded_hash)) == Ok::<
                bool,
                Seq<char>,
            >(b),
            Err(m) => backup_step_of(backed_up, backup_mounted, str_opt(backup_hash), str_opt(recorded_hash))
                == Err::<bool, Seq<char>>(m@),
        },
        r == Ok::<bool, String>(true) ==> backed_up && backup_hash is Some && str_opt(backup_hash) == str_opt(
            recorded_hash,
        ),
{
    if !backed_up {
        return Ok(false);
    }
    if !backup_mounted {
        return Err(lit("백업 볼륨이 연결되어 있지 않습니다"));
    }
    let bh = match backup_hash {
        None => return Err(lit("촬영일 백업 파일이 없습니다")),
        Some(h) => h,
    };
    let rh = match recorded_hash {
        None => return Err(lit("촬영일 백업의 원래 SHA-256 기록이 없어 되돌리지 않았습니다")),
        Some(h) => h,
    };
    if !crate::text::chars_eq(chars_of(bh).as_slice(), chars_of(rh).as_slice()) {
        return Err(lit("촬영일 백업 파일의 SHA-256이 기록과 달라 되돌리지 않았습니다"));
    }
    Ok(true)
}

/// Whether an undo removes its batch's backups
/// (`.acut/capture-date-backups/<batch>`): only when every photo came back;
/// until then they are what a retry restores from.
pub open spec fn removes_backups_of(moved: nat, failed: nat) -> bool {
    failed == 0
}

pub fn removes_backups(moved: usize, failed: usize) -> (r: bool)
    ensures
        r == removes_backups_of(moved as nat, failed as nat),
{
    failed == 0
}

/// The folder holding a batch's backups, relative to the library:
/// `.acut/capture-date-backups/<batch>`.
pub open spec fn backup_batch_dir_of(batch_id: i64) -> Seq<char> {
    ".acut/capture-date-backups/"@ + signed_decimal(batch_id as int)
}

pub fn backup_batch_dir(batch_id: i64) -> (r: String)
    ensures
        r@ == backup_batch_dir_of(batch_id),
{
    string_of(concat(chars_of(".acut/capture-date-backups/").as_slice(), signed_decimal_of(batch_id).as_slice()).as_slice())
}

/// The hidden name a backup is copied to beside the photo before it takes
/// the photo's place: `.<name>.capture-undo.tmp`.
pub open spec fn undo_temp_name_of(name: Seq<char>) -> Seq<char> {
    "."@ + name + ".capture-undo.tmp"@
}

pub fn undo_temp_name(name: &str) -> (r: String)
    ensures
        r@ == undo_temp_name_of(name@),
{
    let a = concat(chars_of(".").as_slice(), chars_of(name).as_slice());
    string_of(concat(a.as_slice(), chars_of(".capture-undo.tmp").as_slice()).as_slice())
}

/// The reason a correction or an audit is refused, as shown; `rel` is the
/// photo's path in its library.
pub open spec fn capture_error_message_of(e: CaptureError, rel: Seq<char>) -> Seq<char> {
    match e {
        CaptureError::NoTarget => "감사할 사진이나 폴더를 정하세요"@,
        CaptureError::OutsideLibrary => "라이브러리 밖의 경로는 감사할 수 없습니다"@,
        CaptureError::NotFound => "사진을 찾을 수 없습니다"@,
        CaptureError::NotMounted => "디스크가 연결되어 있지 않습니다"@,
        CaptureError::FileMissing => "파일을 찾을 수 없습니다: "@ + rel,
        CaptureError::OutOfRange => "허용 범위 밖의 촬영일입니다"@,
        CaptureError::EmbeddedKept => "유효한 파일 내부 촬영일은 자동으로 덮어쓰지 않습니다"@,
        CaptureError::NoFilenameClue => "자동 교정할 고신뢰 파일명 단서가 없습니다"@,
        CaptureError::ChangedSinceAudit => "감사 뒤 파일 정보가 바뀌었습니다. 다시 감사하세요"@,
    }
}

pub fn capture_error_message(e: CaptureError, rel: &str) -> (r: String)
    ensures
        r@ == capture_error_message_of(e, rel@),
{
    match e {
        CaptureError::NoTarget => lit("감사할 사진이나 폴더를 정하세요"),
        CaptureError::OutsideLibrary => lit("라이브러리 밖의 경로는 감사할 수 없습니다"),
        CaptureError::NotFound => lit("사진을 찾을 수 없습니다"),
        CaptureError::NotMounted => lit("디스크가 연결되어 있지 않습니다"),
        CaptureError::FileMissing => string_of(
            concat(chars_of("파일을 찾을 수 없습니다: ").as_slice(), chars_of(rel).as_slice()).as_slice(),
        ),
        CaptureError::OutOfRange => lit("허용 범위 밖의 촬영일입니다"),
        CaptureError::EmbeddedKept => lit("유효한 파일 내부 촬영일은 자동으로 덮어쓰지 않습니다"),
        CaptureError::NoFilenameClue => lit("자동 교정할 고신뢰 파일명 단서가 없습니다"),
        CaptureError::ChangedSinceAudit => lit("감사 뒤 파일 정보가 바뀌었습니다. 다시 감사하세요"),
    }
}

/// One correction of a batch as the checks find it.
#[derive(Debug, Clone)]
pub struct ChangeFacts {
    pub change: Change,
    /// The date lies in the plausible range.
    pub plausible: bool,
    pub probe: ChangeProbe,
    /// The date the file name gives, if any.
    pub filename: Option<i64>,
    /// The photo's path in its library.
    pub rel: String,
}

/// Failed count, failed ids, first reason, and positions to write, for the first `n`.
pub open spec fn capture_fold(items: Seq<ChangeFacts>, n: int) -> (int, Seq<i64>, Option<Seq<char>>, Seq<int>)
    decreases n,
{
    if n <= 0 {
        (0, Seq::empty(), None, Seq::empty())
    } else {
        let t = capture_fold(items, n - 1);
        let it = items[n - 1];
        match change_check_of(it.change, it.plausible, it.probe, it.filename) {
            Ok(()) => (t.0, t.1, t.2, t.3.push(n - 1)),
            Err(e) => (t.0 + 1, t.1.push(it.change.id), match t.2 {
                Some(x) => Some(x),
                None => Some(capture_error_message_of(e, it.rel@)),
            }, t.3),
        }
    }
}

proof fn lemma_capture_fold_bound(items: Seq<ChangeFacts>, n: int)
    requires
        0 <= n,
    ensures
        0 <= capture_fold(items, n).0 <= n,
    decreases n,
{
    if n > 0 {
        lemma_capture_fold_bound(items, n - 1);
    }
}

/// Runs the checks of a correction batch over its photos in order: a photo
/// that fails them counts as failed with its reason (the first kept); the
/// others are written. Gives the positions of the photos to write and the
/// outcome so far; `count_result` counts each write.
pub fn capture_plan(batch_id: i64, items: &[ChangeFacts]) -> (r: (Vec<usize>, CaptureOutcome))
    ensures
        ({
            let t = capture_fold(items@, items@.len() as int);
            &&& r.0@.map_values(|x: usize| x as int) == t.3
            &&& r.1.batch_id == batch_id && r.1.corrected == 0 && r.1.manifest@.len() == 0
            &&& r.1.failed == t.0 && r.1.failed_ids@ == t.1
            &&& crate::trash::error_view(r.1.first_error) == t.2
        }),
{
    let mut out = CaptureOutcome {
        batch_id,
        corrected: 0,
        failed: 0,
        first_error: None,
        failed_ids: Vec::new(),
        manifest: Vec::new(),
    };
    let mut go: Vec<usize> = Vec::new();
    let mut i: usize = 0;
    while i < items.len()
        invariant
            i <= items@.len(),
            ({
                let t = capture_fold(items@, i as int);
                &&& go@.map_values(|x: usize| x as int) == t.3
                &&& out.batch_id == batch_id && out.corrected == 0 && out.manifest@.len() == 0
                &&& out.failed == t.0 && out.failed_ids@ == t.1
                &&& crate::trash::error_view(out.first_error) == t.2
            }),
        decreases items.len() - i,
    {
        proof {
            lemma_capture_fold_bound(items@, i as int);
        }
        let it = &items[i];
        match check_change(&it.change, it.plausible, it.probe, it.filename) {
            Ok(()) => {
                let ghost before = go@;
                go.push(i);
                assert(go@.map_values(|x: usize| x as int) =~= before.map_values(|x: usize| x as int).push(i as int));
            },
            Err(e) => {
                let m = capture_error_message(e, it.rel.as_str());
                count_result(&mut out, it.change.id, Err(m));
            },
        }
        i = i + 1;
    }
    (go, out)
}

/// One photo of a date-correction batch as its undo finds it.
#[derive(Debug, Clone)]
pub struct RestoreFacts {
    pub id: i64,
    /// The correction backed up the photo's bytes.
    pub backed_up: bool,
    pub backup_mounted: bool,
    /// SHA-256 of the backup file, `None` when it is missing.
    pub backup_hash: Option<String>,
    /// SHA-256 of the photo's bytes before the correction, as recorded.
    pub recorded_hash: Option<String>,
}

pub open spec fn string_opt(o: Option<String>) -> Option<Seq<char>> {
    match o {
        Some(s) => Some(s@),
        None => None,
    }
}

/// The decision on one photo of a date undo: per `backup_step_of`, it fails
/// (listed) with the reason, or goes back (its backup copied over it first
/// when it was backed up).
pub open spec fn restore_decision_of(f: RestoreFacts) -> (nat, Seq<char>, bool) {
    match backup_step_of(f.backed_up, f.backup_mounted, string_opt(f.backup_hash), string_opt(f.recorded_hash)) {
        Ok(_) => (0, Seq::empty(), false),
        Err(m) => (2, m, true),
    }
}

/// Plans the undo of a date-correction batch. Gives the positions of the
/// photos to put back (the backed-up ones from their checked backup, the
/// others by their times alone) and the outcome so far; `settle` counts the
/// restores, `closes_of(Route::CaptureDate, ..)` says whether the batch is
/// then undone, and `removes_backups_of` whether its backups go.
pub fn capture_undo_plan(batch_id: i64, items: &[RestoreFacts]) -> (r: (Vec<usize>, crate::trash::Outcome))
    ensures
        crate::trash::sifted(
            batch_id,
            items@.map_values(|f: RestoreFacts| f.id),
            Seq::new(items@.len(), |k: int| restore_decision_of(items@[k])),
            r.0@,
            r.1,
        ),
{
    let ghost want = Seq::new(items@.len(), |k: int| restore_decision_of(items@[k]));
    let ghost idv = items@.map_values(|f: RestoreFacts| f.id);
    let mut ids: Vec<i64> = Vec::new();
    let mut d: Vec<crate::trash::Decision> = Vec::new();
    let mut i: usize = 0;
    while i < items.len()
        invariant
            i <= items@.len(),
            want == Seq::new(items@.len(), |k: int| restore_decision_of(items@[k])),
            idv == items@.map_values(|f: RestoreFacts| f.id),
            ids@ == idv.subrange(0, i as int),
            crate::trash::decision_views(d@) == want.subrange(0, i as int),
        decreases items.len() - i,
    {
        let f = &items[i];
        let bh = match &f.backup_hash {
            Some(h) => Some(h.as_str()),
            None => None,
        };
        let rh = match &f.recorded_hash {
            Some(h) => Some(h.as_str()),
            None => None,
        };
        let x = match backup_step(f.backed_up, f.backup_mounted, bh, rh) {
            Ok(_) => crate::trash::Decision::Go,
            Err(m) => crate::trash::Decision::Refuse(m, true),
        };
        let ghost before = d@;
        d.push(x);
        ids.push(f.id);
        assert(crate::trash::decision_views(d@) =~= crate::trash::decision_views(before).push(
            crate::trash::decision_view(x),
        ));
        assert(crate::trash::decision_views(d@) =~= want.subrange(0, i + 1));
        assert(ids@ =~= idv.subrange(0, i + 1));
        i = i + 1;
    }
    assert(want.subrange(0, items@.len() as int) =~= want);
    assert(idv.subrange(0, items@.len() as int) =~= idv);
    crate::trash::sift_new(batch_id, ids.as_slice(), d.as_slice())
}

} // verus!
