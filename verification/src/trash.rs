//! The library trash: where trashed files go, which sidecars travel with a
//! file, how a move of a file and its sidecars is planned and rolled back,
//! and how the trash is summed up.

use crate::names::{rsplit_dot, rsplit_dot_chars};
use crate::text::{chars_eq, chars_of, concat, ends_with_chars, last_index, last_index_of, lemma_last_index_of, slice_of, string_of};
use vstd::prelude::*;

verus! {

/// `Path::join` of a relative part: the part alone under an empty base,
/// else the two with one `/` between them.
pub open spec fn join_path(base: Seq<char>, part: Seq<char>) -> Seq<char> {
    if base.len() == 0 {
        part
    } else if base.last() == '/' {
        base + part
    } else {
        base + "/"@ + part
    }
}

pub fn join_path_chars(base: &[char], part: &[char]) -> (r: Vec<char>)
    ensures
        r@ == join_path(base@, part@),
{
    if base.len() == 0 {
        slice_of(part, 0, part.len())
    } else if base[base.len() - 1] == '/' {
        concat(base, part)
    } else {
        let slash = chars_of("/");
        let a = concat(base, slash.as_slice());
        concat(a.as_slice(), part)
    }
}

/// The trash folder of a library: `<library>/.acut/휴지통`.
pub open spec fn trash_root_of(library_dir: Seq<char>) -> Seq<char> {
    join_path(join_path(library_dir, ".acut"@), "휴지통"@)
}

/// The trash folder of a library. It lives inside the library, so trashing
/// is a rename on the same volume and keeps the folder structure.
pub fn trash_root(library_dir: &str) -> (r: String)
    ensures
        r@ == trash_root_of(library_dir@),
{
    let d = chars_of(library_dir);
    let acut = chars_of(".acut");
    let bin = chars_of("휴지통");
    let a = join_path_chars(d.as_slice(), acut.as_slice());
    let b = join_path_chars(a.as_slice(), bin.as_slice());
    string_of(b.as_slice())
}

/// What a trash operation did.
#[derive(Debug, Clone)]
pub struct Outcome {
    pub batch_id: i64,
    pub moved: usize,
    pub failed: usize,
    pub bytes: i64,
    /// The first reason of failure.
    pub first_error: Option<String>,
    /// The files that failed, so that they can be picked again.
    pub failed_ids: Vec<i64>,
    /// Folders removed from disk (trashing) or from the catalogue (emptying).
    pub folders_removed: usize,
}

impl Outcome {
    /// Nothing done yet, under a batch.
    pub fn started(batch_id: i64) -> (r: Outcome)
        ensures
            r.batch_id == batch_id && r.moved == 0 && r.failed == 0 && r.bytes == 0,
            r.first_error is None && r.failed_ids@.len() == 0 && r.folders_removed == 0,
    {
        Outcome { batch_id, moved: 0, failed: 0, bytes: 0, first_error: None, failed_ids: Vec::new(), folders_removed: 0 }
    }

    /// Every photo refused for one reason, before any batch was opened.
    pub fn refused_all(ids: &[i64], reason: String) -> (r: Outcome)
        ensures
            r.batch_id == 0 && r.moved == 0 && r.bytes == 0 && r.folders_removed == 0,
            r.failed == ids@.len() && r.failed_ids@ == ids@ && r.first_error == Some(reason),
    {
        let mut v: Vec<i64> = Vec::new();
        let mut i: usize = 0;
        while i < ids.len()
            invariant
                i <= ids@.len(),
                v@ == ids@.subrange(0, i as int),
            decreases ids.len() - i,
        {
            v.push(ids[i]);
            i = i + 1;
        }
        assert(ids@.subrange(0, ids@.len() as int) =~= ids@);
        Outcome { batch_id: 0, moved: 0, failed: ids.len(), bytes: 0, first_error: Some(reason), failed_ids: v, folders_removed: 0 }
    }

    /// One more photo done, with its size.
    pub fn note_moved(&mut self, size: i64)
        requires
            old(self).moved < usize::MAX,
            i64::MIN <= old(self).bytes + size <= i64::MAX,
        ensures
            final(self).moved == old(self).moved + 1,
            final(self).bytes == old(self).bytes + size,
            final(self).failed == old(self).failed && final(self).failed_ids@ == old(self).failed_ids@,
            final(self).first_error == old(self).first_error && final(self).batch_id == old(self).batch_id,
            final(self).folders_removed == old(self).folders_removed,
    {
        self.moved = self.moved + 1;
        self.bytes = self.bytes + size;
    }

    /// One more photo failed: its id is kept, and its reason when it is the first.
    pub fn note_failed(&mut self, id: i64, reason: String)
        requires
            old(self).failed < usize::MAX,
        ensures
            final(self).failed == old(self).failed + 1,
            final(self).failed_ids@ == old(self).failed_ids@.push(id),
            final(self).first_error == match old(self).first_error {
                Some(f) => Some(f),
                None => Some(reason),
            },
            final(self).moved == old(self).moved && final(self).bytes == old(self).bytes,
            final(self).batch_id == old(self).batch_id && final(self).folders_removed == old(self).folders_removed,
    {
        self.failed = self.failed + 1;
        self.failed_ids.push(id);
        if self.first_error.is_none() {
            self.first_error = Some(reason);
        }
    }
}

/// The three operations on the trash.
#[derive(Debug, Clone, Copy, PartialEq, Eq, Structural)]
pub enum TrashOp {
    /// Photos go into the trash.
    Trash,
    /// Photos come back out of it.
    Restore,
    /// The trash is emptied for good.
    Empty,
}

/// The answer when none of the chosen photos is there to act on; no batch is opened.
pub open spec fn nothing_message_of(op: TrashOp) -> Seq<char> {
    match op {
        TrashOp::Trash => "휴지통으로 옮길 사진이 없습니다"@,
        TrashOp::Restore => "휴지통에 되돌릴 사진이 없습니다"@,
        TrashOp::Empty => "휴지통이 비어 있습니다"@,
    }
}

pub fn nothing_to_do(op: TrashOp) -> (r: Outcome)
    ensures
        r.batch_id == 0 && r.moved == 0 && r.failed == 0 && r.bytes == 0,
        r.failed_ids@.len() == 0 && r.folders_removed == 0,
        r.first_error matches Some(m) && m@ == nothing_message_of(op),
{
    let m = match op {
        TrashOp::Trash => string_of(chars_of("휴지통으로 옮길 사진이 없습니다").as_slice()),
        TrashOp::Restore => string_of(chars_of("휴지통에 되돌릴 사진이 없습니다").as_slice()),
        TrashOp::Empty => string_of(chars_of("휴지통이 비어 있습니다").as_slice()),
    };
    Outcome { batch_id: 0, moved: 0, failed: 0, bytes: 0, first_error: Some(m), failed_ids: Vec::new(), folders_removed: 0 }
}

/// The kind of batch each operation opens.
pub open spec fn trash_batch_kind_of(op: TrashOp) -> Seq<char> {
    match op {
        TrashOp::Trash => "trash"@,
        TrashOp::Restore => "restore"@,
        TrashOp::Empty => "delete"@,
    }
}

pub fn trash_batch_kind(op: TrashOp) -> (r: String)
    ensures
        r@ == trash_batch_kind_of(op),
{
    match op {
        TrashOp::Trash => string_of(chars_of("trash").as_slice()),
        TrashOp::Restore => string_of(chars_of("restore").as_slice()),
        TrashOp::Empty => string_of(chars_of("delete").as_slice()),
    }
}

/// Why one photo of a trash operation is refused before its file is touched:
/// its library, disk or trash path is not known, or (taking out or emptying)
/// its recorded trash path leads outside the library's trash. `None` lets it go ahead.
pub open spec fn item_refusal_of(op: TrashOp, located: bool, inside_trash: bool) -> Option<Seq<char>> {
    if !located {
        Some(
            match op {
                TrashOp::Trash => "디스크가 연결되어 있지 않습니다"@,
                TrashOp::Restore => "되돌릴 위치를 알 수 없습니다"@,
                TrashOp::Empty => "라이브러리가 연결되어 있지 않거나 휴지통 경로 기록이 없습니다"@,
            },
        )
    } else if op != TrashOp::Trash && !inside_trash {
        Some(
            if op == TrashOp::Restore {
                "휴지통 밖의 경로는 되돌리지 않습니다"@
            } else {
                "휴지통 밖의 경로입니다"@
            },
        )
    } else {
        None
    }
}

pub fn item_refusal(op: TrashOp, located: bool, inside_trash: bool) -> (r: Option<String>)
    ensures
        match r {
            Some(m) => item_refusal_of(op, located, inside_trash) == Some(m@),
            None => item_refusal_of(op, located, inside_trash) is None,
        },
{
    if !located {
        let m = match op {
            TrashOp::Trash => chars_of("디스크가 연결되어 있지 않습니다"),
            TrashOp::Restore => chars_of("되돌릴 위치를 알 수 없습니다"),
            TrashOp::Empty => chars_of("라이브러리가 연결되어 있지 않거나 휴지통 경로 기록이 없습니다"),
        };
        Some(string_of(m.as_slice()))
    } else if op != TrashOp::Trash && !inside_trash {
        if op == TrashOp::Restore {
            Some(string_of(chars_of("휴지통 밖의 경로는 되돌리지 않습니다").as_slice()))
        } else {
            Some(string_of(chars_of("휴지통 밖의 경로입니다").as_slice()))
        }
    } else {
        None
    }
}

/// Whether a failure is listed among the photos to pick again: emptying
/// lists only the photos whose location was unknown.
pub open spec fn lists_failure_of(op: TrashOp, located: bool) -> bool {
    op != TrashOp::Empty || !located
}

pub fn lists_failure(op: TrashOp, located: bool) -> (r: bool)
    ensures
        r == lists_failure_of(op, located),
{
    op != TrashOp::Empty || !located
}

/// What deleting a file for good came to.
#[derive(Debug, Clone)]
pub enum Removal {
    Removed,
    /// The file was gone already: the aim, its absence, is reached.
    AlreadyGone,
    Failed(String),
}

/// The error of a deletion, if it counts as failed.
pub fn removal_error(r: Removal) -> (e: Option<String>)
    ensures
        match r {
            Removal::Failed(m) => e == Some(m),
            _ => e is None,
        },
{
    match r {
        Removal::Failed(m) => Some(m),
        _ => None,
    }
}

impl Outcome {
    /// One more photo failed without being listed for picking again.
    pub fn note_failed_unlisted(&mut self, reason: String)
        requires
            old(self).failed < usize::MAX,
        ensures
            final(self).failed == old(self).failed + 1,
            final(self).failed_ids@ == old(self).failed_ids@,
            final(self).first_error == match old(self).first_error {
                Some(f) => Some(f),
                None => Some(reason),
            },
            final(self).moved == old(self).moved && final(self).bytes == old(self).bytes,
            final(self).batch_id == old(self).batch_id && final(self).folders_removed == old(self).folders_removed,
    {
        self.failed = self.failed + 1;
        if self.first_error.is_none() {
            self.first_error = Some(reason);
        }
    }
}

/// What is reported when the catalogue refused a move that was made on
/// disk: the catalogue's error, and also the error of putting the file
/// back when that failed too.
pub open spec fn unrecorded_message_of(error: Seq<char>, rollback: Option<Seq<char>>) -> Seq<char> {
    match rollback {
        None => error,
        Some(e) => "DB 갱신 실패: "@ + error + "; 파일 원위치 복구도 실패: "@ + e,
    }
}

pub fn unrecorded_message(error: &str, rollback: Option<&str>) -> (r: String)
    ensures
        r@ == unrecorded_message_of(error@, match rollback {
            Some(e) => Some(e@),
            None => None,
        }),
{
    match rollback {
        None => string_of(chars_of(error).as_slice()),
        Some(e) => {
            let a = concat(chars_of("DB 갱신 실패: ").as_slice(), chars_of(error).as_slice());
            let b = concat(a.as_slice(), chars_of("; 파일 원위치 복구도 실패: ").as_slice());
            string_of(concat(b.as_slice(), chars_of(e).as_slice()).as_slice())
        },
    }
}

/// Count and size of what the trash holds.
#[derive(Debug, Clone, Copy, PartialEq, Eq, Structural)]
pub struct Summary {
    pub files: i64,
    pub bytes: i64,
}

/// The trash of one library.
#[derive(Debug, Clone)]
pub struct LibrarySummary {
    pub library_id: i64,
    pub name: String,
    pub files: i64,
    pub bytes: i64,
}

/// A file row as the summary reads it.
#[derive(Debug, Clone, Copy, PartialEq, Eq, Structural)]
pub struct TrashRow {
    pub library_id: i64,
    pub size: i64,
    pub trashed: bool,
}

/// Whether a row counts: trashed, and in the library asked for (any, when none is).
pub open spec fn counts(r: TrashRow, library_id: Option<i64>) -> bool {
    r.trashed && match library_id {
        Some(id) => r.library_id == id,
        None => true,
    }
}

/// Number of counted rows among the first `n`.
pub open spec fn counted(rows: Seq<TrashRow>, library_id: Option<i64>, n: int) -> int
    decreases n,
{
    if n <= 0 {
        0
    } else {
        counted(rows, library_id, n - 1) + if counts(rows[n - 1], library_id) {
            1int
        } else {
            0int
        }
    }
}

/// Total size of the counted rows among the first `n`.
pub open spec fn counted_bytes(rows: Seq<TrashRow>, library_id: Option<i64>, n: int) -> int
    decreases n,
{
    if n <= 0 {
        0
    } else {
        counted_bytes(rows, library_id, n - 1) + if counts(rows[n - 1], library_id) {
            rows[n - 1].size as int
        } else {
            0int
        }
    }
}

/// Whether every running total of the counted sizes stays within `i64`,
/// as the integer sum of the catalogue requires.
pub open spec fn sums_fit(rows: Seq<TrashRow>, library_id: Option<i64>) -> bool {
    forall|n: int|
        0 <= n <= rows.len() ==> i64::MIN <= #[trigger] counted_bytes(rows, library_id, n) <= i64::MAX
}

pub proof fn lemma_counted_bounds(rows: Seq<TrashRow>, library_id: Option<i64>, n: int)
    requires
        0 <= n,
    ensures
        0 <= counted(rows, library_id, n) <= n,
    decreases n,
{
    if n > 0 {
        lemma_counted_bounds(rows, library_id, n - 1);
    }
}

/// Count and total size of the trashed files, of one library or of all:
/// `None` when a running total of the sizes leaves the range of `i64`.
pub fn summary(rows: &[TrashRow], library_id: Option<i64>) -> (r: Option<Summary>)
    requires
        rows@.len() <= i64::MAX,
    ensures
        match r {
            Some(s) => sums_fit(rows@, library_id) && s.files == counted(rows@, library_id, rows@.len() as int)
                && s.bytes == counted_bytes(rows@, library_id, rows@.len() as int),
            None => !sums_fit(rows@, library_id),
        },
{
    let mut files: i64 = 0;
    let mut bytes: i64 = 0;
    let mut i: usize = 0;
    while i < rows.len()
        invariant
            i <= rows@.len() <= i64::MAX,
            files == counted(rows@, library_id, i as int),
            bytes == counted_bytes(rows@, library_id, i as int),
            forall|n: int|
                0 <= n <= i ==> i64::MIN <= #[trigger] counted_bytes(rows@, library_id, n) <= i64::MAX,
        decreases rows.len() - i,
    {
        proof {
            lemma_counted_bounds(rows@, library_id, i as int);
        }
        let r = rows[i];
        let is_counted = r.trashed && match library_id {
            Some(id) => r.library_id == id,
            None => true,
        };
        if is_counted {
            match bytes.checked_add(r.size) {
                Some(b) => {
                    bytes = b;
                },
                None => {
                    assert(counted_bytes(rows@, library_id, i + 1) == bytes + r.size);
                    return None;
                },
            }
            files = files + 1;
        }
        i = i + 1;
        assert forall|n: int| 0 <= n <= i implies i64::MIN <= #[trigger] counted_bytes(rows@, library_id, n) <= i64::MAX by {
            if n == i {
            }
        }
    }
    Some(Summary { files, bytes })
}

/// `p` split at its last `/` into folder and name (folder `""` when there is no `/`).
pub open spec fn split_path(p: Seq<char>) -> (Seq<char>, Seq<char>) {
    let i = last_index_of(p, '/');
    if i < 0 {
        (Seq::empty(), p)
    } else {
        (p.subrange(0, i), p.subrange(i + 1, p.len() as int))
    }
}

pub fn split_path_chars(p: &[char]) -> (r: (Vec<char>, Vec<char>))
    ensures
        r.0@ == split_path(p@).0,
        r.1@ == split_path(p@).1,
{
    proof {
        lemma_last_index_of(p@, '/');
    }
    match last_index(p, '/') {
        Some(i) => {
            assert(i < p.len());
            (slice_of(p, 0, i), slice_of(p, i + 1, p.len()))
        },
        None => (Vec::new(), slice_of(p, 0, p.len())),
    }
}

/// The part of a name before its last `.` (all of it without a `.`).
pub open spec fn dot_stem(n: Seq<char>) -> Seq<char> {
    match rsplit_dot(n) {
        Some(p) => p.0,
        None => n,
    }
}

fn dot_stem_chars(n: &[char]) -> (r: Vec<char>)
    ensures
        r@ == dot_stem(n@),
{
    match rsplit_dot_chars(n) {
        Some(p) => p.0,
        None => slice_of(n, 0, n.len()),
    }
}

/// The sidecars a file may have, paired with the names they take beside the
/// moved file: first the stem sidecar (`IMG_1.xmp` of `IMG_1.CR2`), then the
/// full-name one (`IMG_1.CR2.xmp`); a candidate that is the file itself, or
/// the same as the first, is left out. No candidate when either path has no
/// name.
pub open spec fn sidecar_candidates_of(from: Seq<char>, to: Seq<char>) -> Seq<(Seq<char>, Seq<char>)> {
    let (fd, fname) = split_path(from);
    let (td, tname) = split_path(to);
    if fname.len() == 0 || tname.len() == 0 {
        Seq::empty()
    } else {
        let a = (join_path(fd, dot_stem(fname) + ".xmp"@), join_path(td, dot_stem(tname) + ".xmp"@));
        let b = (join_path(fd, fname + ".xmp"@), join_path(td, tname + ".xmp"@));
        let first = if a.0 != from {
            seq![a]
        } else {
            Seq::empty()
        };
        if b.0 != from && !(first.len() == 1 && first[0].0 == b.0) {
            first.push(b)
        } else {
            first
        }
    }
}

pub open spec fn pair_views(v: Seq<(String, String)>) -> Seq<(Seq<char>, Seq<char>)> {
    v.map_values(|p: (String, String)| (p.0@, p.1@))
}

fn xmp_pair(fd: &[char], fpart: &[char], td: &[char], tpart: &[char]) -> (r: (Vec<char>, Vec<char>))
    ensures
        r.0@ == join_path(fd@, fpart@ + ".xmp"@),
        r.1@ == join_path(td@, tpart@ + ".xmp"@),
{
    let x = chars_of(".xmp");
    let fa = concat(fpart, x.as_slice());
    let ta = concat(tpart, x.as_slice());
    (join_path_chars(fd, fa.as_slice()), join_path_chars(td, ta.as_slice()))
}

/// The candidate sidecar pairs of a move from `from` to `to`.
pub fn sidecar_candidates(from: &str, to: &str) -> (r: Vec<(String, String)>)
    ensures
        pair_views(r@) == sidecar_candidates_of(from@, to@),
{
    let f = chars_of(from);
    let t = chars_of(to);
    let (fd, fname) = split_path_chars(f.as_slice());
    let (td, tname) = split_path_chars(t.as_slice());
    let mut out: Vec<(String, String)> = Vec::new();
    if fname.len() == 0 || tname.len() == 0 {
        assert(pair_views(out@) =~= Seq::empty());
        return out;
    }
    let fs = dot_stem_chars(fname.as_slice());
    let ts = dot_stem_chars(tname.as_slice());
    let a = xmp_pair(fd.as_slice(), fs.as_slice(), td.as_slice(), ts.as_slice());
    let b = xmp_pair(fd.as_slice(), fname.as_slice(), td.as_slice(), tname.as_slice());
    let a_is_from = chars_eq(a.0.as_slice(), f.as_slice());
    let b_is_from = chars_eq(b.0.as_slice(), f.as_slice());
    let same = chars_eq(a.0.as_slice(), b.0.as_slice());
    let ghost av = (a.0@, a.1@);
    let ghost bv = (b.0@, b.1@);
    if !a_is_from {
        out.push((string_of(a.0.as_slice()), string_of(a.1.as_slice())));
    }
    if !b_is_from && !(!a_is_from && same) {
        out.push((string_of(b.0.as_slice()), string_of(b.1.as_slice())));
    }
    proof {
        let first = if av.0 != from@ {
            seq![av]
        } else {
            Seq::<(Seq<char>, Seq<char>)>::empty()
        };
        if !a_is_from {
            assert(pair_views(out@).subrange(0, 1) =~= first);
        }
        if !b_is_from && !(!a_is_from && same) {
            assert(pair_views(out@) =~= first.push(bv));
        } else {
            assert(pair_views(out@) =~= first);
        }
    }
    out
}

/// The entries of `c` among its first `n` whose flag in `keep` is set, in order.
pub open spec fn kept<T>(c: Seq<T>, keep: Seq<bool>, n: int) -> Seq<T>
    decreases n,
{
    if n <= 0 {
        Seq::empty()
    } else if keep[n - 1] {
        kept(c, keep, n - 1).push(c[n - 1])
    } else {
        kept(c, keep, n - 1)
    }
}

/// The sidecars that travel with a file, given for each candidate (in the
/// order of `sidecar_candidates`) whether it is a file on disk.
pub open spec fn sidecars_of(from: Seq<char>, to: Seq<char>, is_file: Seq<bool>) -> Seq<(Seq<char>, Seq<char>)> {
    let c = sidecar_candidates_of(from, to);
    kept(c, is_file, c.len() as int)
}

/// The sidecars of a file that exist, each with the name it takes beside the
/// moved file. `is_file` tells, for each candidate, whether it is a file.
pub fn sidecars(from: &str, to: &str, is_file: &[bool]) -> (r: Vec<(String, String)>)
    requires
        is_file@.len() == sidecar_candidates_of(from@, to@).len(),
    ensures
        pair_views(r@) == sidecars_of(from@, to@, is_file@),
{
    let cands = sidecar_candidates(from, to);
    let ghost c = sidecar_candidates_of(from@, to@);
    let mut out: Vec<(String, String)> = Vec::new();
    let mut i: usize = 0;
    while i < cands.len()
        invariant
            i <= cands@.len(),
            pair_views(cands@) == c,
            is_file@.len() == c.len(),
            pair_views(out@) == kept(c, is_file@, i as int),
        decreases cands.len() - i,
    {
        if is_file[i] {
            let p = (copy_string(&cands[i].0), copy_string(&cands[i].1));
            out.push(p);
            proof {
                assert(pair_views(out@) =~= kept(c, is_file@, i as int).push(c[i as int]));
            }
        }
        i = i + 1;
    }
    out
}

fn copy_string(s: &String) -> (r: String)
    ensures
        r@ == s@,
{
    let c = chars_of(s.as_str());
    string_of(c.as_slice())
}


/// Why a move of a file and its sidecars is refused before anything moves.
#[derive(Debug, Clone, Copy, PartialEq, Eq, Structural)]
pub enum MoveRefusal {
    /// Something other than the file already has the destination path.
    DestinationTaken,
    /// A sidecar's destination already exists; the sidecar is never renamed
    /// aside, since the journal would not know where it went.
    SidecarTaken,
}

/// The moves of a file and its sidecars, in the order they are made: the
/// file first, then each sidecar.
pub open spec fn move_plan_of(from: Seq<char>, to: Seq<char>, cars: Seq<(Seq<char>, Seq<char>)>) -> Seq<(Seq<char>, Seq<char>)> {
    seq![(from, to)] + cars
}

/// Plans moving a file with its sidecars. `to_taken` tells whether the
/// destination exists and is another file; `car_taken` tells, for each
/// sidecar, whether its destination exists. Refused in that order; else the
/// moves to make.
pub fn move_with_sidecars(
    from: &str,
    to: &str,
    cars: &[(String, String)],
    to_taken: bool,
    car_taken: &[bool],
) -> (r: Result<Vec<(String, String)>, MoveRefusal>)
    requires
        car_taken@.len() == cars@.len(),
    ensures
        to_taken ==> r == Err::<Vec<(String, String)>, MoveRefusal>(MoveRefusal::DestinationTaken),
        !to_taken && (exists|k: int| 0 <= k < car_taken@.len() && car_taken@[k]) ==> r == Err::<
            Vec<(String, String)>,
            MoveRefusal,
        >(MoveRefusal::SidecarTaken),
        !to_taken && (forall|k: int| 0 <= k < car_taken@.len() ==> !car_taken@[k]) ==> r is Ok,
        r matches Ok(plan) ==> pair_views(plan@) == move_plan_of(from@, to@, pair_views(cars@)),
{
    if to_taken {
        return Err(MoveRefusal::DestinationTaken);
    }
    let mut k: usize = 0;
    while k < car_taken.len()
        invariant
            !to_taken,
            k <= car_taken@.len(),
            forall|j: int| 0 <= j < k ==> !car_taken@[j],
        decreases car_taken.len() - k,
    {
        if car_taken[k] {
            return Err(MoveRefusal::SidecarTaken);
        }
        k = k + 1;
    }
    let mut plan: Vec<(String, String)> = Vec::new();
    plan.push((copy_string_str(from), copy_string_str(to)));
    let mut i: usize = 0;
    while i < cars.len()
        invariant
            i <= cars@.len(),
            pair_views(plan@) == seq![(from@, to@)] + pair_views(cars@).subrange(0, i as int),
        decreases cars.len() - i,
    {
        let ghost before = pair_views(plan@);
        let a = copy_string(&cars[i].0);
        let b = copy_string(&cars[i].1);
        plan.push((a, b));
        assert(pair_views(plan@) =~= before.push((cars@[i as int].0@, cars@[i as int].1@)));
        assert(pair_views(cars@).subrange(0, i + 1) =~= pair_views(cars@).subrange(0, i as int).push(
            pair_views(cars@)[i as int],
        ));
        i = i + 1;
        assert(pair_views(plan@) =~= seq![(from@, to@)] + pair_views(cars@).subrange(0, i as int));
    }
    assert(pair_views(cars@).subrange(0, cars@.len() as int) =~= pair_views(cars@));
    Ok(plan)
}

fn copy_string_str(s: &str) -> (r: String)
    ensures
        r@ == s@,
{
    let c = chars_of(s);
    string_of(c.as_slice())
}

/// The moves that put back what `done` moved: each move reversed, the last first.
pub open spec fn undo_moves(done: Seq<(Seq<char>, Seq<char>)>) -> Seq<(Seq<char>, Seq<char>)> {
    Seq::new(done.len(), |i: int| (done[done.len() - 1 - i].1, done[done.len() - 1 - i].0))
}

/// The moves that roll back the moves already made when a later one failed.
pub fn rollback(done: &[(String, String)]) -> (r: Vec<(String, String)>)
    ensures
        pair_views(r@) == undo_moves(pair_views(done@)),
{
    let mut out: Vec<(String, String)> = Vec::new();
    let mut i: usize = done.len();
    let ghost d = pair_views(done@);
    while i > 0
        invariant
            i <= done@.len(),
            d == pair_views(done@),
            out@.len() == done@.len() - i,
            forall|k: int| 0 <= k < out@.len() ==> #[trigger] pair_views(out@)[k] == undo_moves(d)[k],
        decreases i,
    {
        i = i - 1;
        let ghost before = pair_views(out@);
        let a = copy_string(&done[i].1);
        let b = copy_string(&done[i].0);
        out.push((a, b));
        assert(pair_views(out@) =~= before.push((d[i as int].1, d[i as int].0)));
        assert forall|k: int| 0 <= k < out@.len() implies #[trigger] pair_views(out@)[k] == undo_moves(d)[k] by {
            if k < before.len() {
                assert(pair_views(out@)[k] == before[k]);
            }
        }
    }
    assert(pair_views(out@) =~= undo_moves(d));
    out
}

/// A rename in a map from paths to contents: the content at the source
/// moves to the target (nothing happens when the source is missing).
pub open spec fn rename_in(m: Map<Seq<char>, int>, mv: (Seq<char>, Seq<char>)) -> Map<Seq<char>, int> {
    if m.dom().contains(mv.0) {
        m.remove(mv.0).insert(mv.1, m[mv.0])
    } else {
        m
    }
}

/// The renames of `moves`, made one after the other.
pub open spec fn apply_moves(m: Map<Seq<char>, int>, moves: Seq<(Seq<char>, Seq<char>)>) -> Map<Seq<char>, int>
    decreases moves.len(),
{
    if moves.len() == 0 {
        m
    } else {
        rename_in(apply_moves(m, moves.drop_last()), moves.last())
    }
}

/// Moves that can all be made on `m`: every source exists, no target does,
/// and no path occurs twice among the sources and targets.
pub open spec fn clean_moves(m: Map<Seq<char>, int>, moves: Seq<(Seq<char>, Seq<char>)>) -> bool {
    &&& forall|i: int| 0 <= i < moves.len() ==> m.dom().contains(#[trigger] moves[i].0)
    &&& forall|i: int| 0 <= i < moves.len() ==> !m.dom().contains(#[trigger] moves[i].1)
    &&& forall|i: int, j: int|
        0 <= i < moves.len() && 0 <= j < moves.len() && i != j ==> moves[i].0 != moves[j].0
            && moves[i].1 != moves[j].1
    &&& forall|i: int, j: int| 0 <= i < moves.len() && 0 <= j < moves.len() ==> moves[i].0 != moves[j].1
}

proof fn lemma_apply_concat(m: Map<Seq<char>, int>, a: Seq<(Seq<char>, Seq<char>)>, b: Seq<(Seq<char>, Seq<char>)>)
    ensures
        apply_moves(m, a + b) == apply_moves(apply_moves(m, a), b),
    decreases b.len(),
{
    if b.len() == 0 {
        assert(a + b =~= a);
    } else {
        assert((a + b).drop_last() =~= a + b.drop_last());
        lemma_apply_concat(m, a, b.drop_last());
    }
}

proof fn lemma_apply_dom(m: Map<Seq<char>, int>, moves: Seq<(Seq<char>, Seq<char>)>)
    requires
        clean_moves(m, moves),
    ensures
        forall|p: Seq<char>|
            #![trigger apply_moves(m, moves).dom().contains(p)]
            apply_moves(m, moves).dom().contains(p) <==> ((m.dom().contains(p) && forall|j: int|
                0 <= j < moves.len() ==> moves[j].0 != p) || exists|j: int|
                0 <= j < moves.len() && moves[j].1 == p),
    decreases moves.len(),
{
    if moves.len() > 0 {
        let dl = moves.drop_last();
        assert(clean_moves(m, dl)) by {
            assert forall|i: int| 0 <= i < dl.len() implies m.dom().contains(#[trigger] dl[i].0) by {
                assert(dl[i] == moves[i]);
            }
            assert forall|i: int| 0 <= i < dl.len() implies !m.dom().contains(#[trigger] dl[i].1) by {
                assert(dl[i] == moves[i]);
            }
        }
        lemma_apply_dom(m, dl);
        let l = moves.last();
        let n = moves.len() - 1;
        assert(moves[n] == l);
        let x = apply_moves(m, dl);
        assert(x.dom().contains(l.0)) by {
            assert(m.dom().contains(moves[n].0));
            assert forall|j: int| 0 <= j < dl.len() implies dl[j].0 != l.0 by {
                assert(dl[j] == moves[j]);
            }
            assert forall|j: int| 0 <= j < dl.len() implies dl[j].1 != l.0 by {
                assert(dl[j] == moves[j]);
            }
        }
        assert forall|p: Seq<char>|
            apply_moves(m, moves).dom().contains(p) <==> ((m.dom().contains(p) && forall|j: int|
                0 <= j < moves.len() ==> moves[j].0 != p) || exists|j: int|
                0 <= j < moves.len() && moves[j].1 == p) by {
            assert(apply_moves(m, moves) == x.remove(l.0).insert(l.1, x[l.0]));
            if p == l.1 {
            } else if p == l.0 {
                assert forall|j: int| 0 <= j < moves.len() implies moves[j].1 != p by {
                }
            } else {
                if x.dom().contains(p) {
                    if (exists|j: int| 0 <= j < dl.len() && dl[j].1 == p) {
                        let j = choose|j: int| 0 <= j < dl.len() && dl[j].1 == p;
                        assert(moves[j].1 == p);
                    } else {
                        assert forall|j: int| 0 <= j < moves.len() implies moves[j].0 != p by {
                            if j < n {
                                assert(dl[j] == moves[j]);
                            }
                        }
                    }
                } else {
                    assert forall|j: int| 0 <= j < moves.len() implies moves[j].1 != p by {
                        if j < n {
                            assert(dl[j] == moves[j]);
                        }
                    }
                    if m.dom().contains(p) {
                        let j = choose|j: int| 0 <= j < dl.len() && dl[j].0 == p;
                        assert(moves[j].0 == p);
                    }
                }
            }
        }
    }
}

/// Rolling back undoes the moves: when the moves made could all be made on
/// the files as they were (every source there, no target there, no path
/// twice), making the rollback moves afterwards gives back the files as
/// they were.
pub proof fn lemma_rollback_restores(m: Map<Seq<char>, int>, done: Seq<(Seq<char>, Seq<char>)>)
    requires
        clean_moves(m, done),
    ensures
        apply_moves(apply_moves(m, done), undo_moves(done)) == m,
    decreases done.len(),
{
    if done.len() == 0 {
        assert(undo_moves(done) =~= Seq::<(Seq<char>, Seq<char>)>::empty());
    } else {
        let dl = done.drop_last();
        let l = done.last();
        let n = done.len() - 1;
        assert(done[n] == l);
        assert(clean_moves(m, dl)) by {
            assert forall|i: int| 0 <= i < dl.len() implies m.dom().contains(#[trigger] dl[i].0) by {
                assert(dl[i] == done[i]);
            }
            assert forall|i: int| 0 <= i < dl.len() implies !m.dom().contains(#[trigger] dl[i].1) by {
                assert(dl[i] == done[i]);
            }
        }
        lemma_rollback_restores(m, dl);
        lemma_apply_dom(m, dl);
        let x = apply_moves(m, dl);
        assert(x.dom().contains(l.0)) by {
            assert(m.dom().contains(done[n].0));
            assert forall|j: int| 0 <= j < dl.len() implies dl[j].0 != l.0 by {
                assert(dl[j] == done[j]);
            }
        }
        assert(!x.dom().contains(l.1)) by {
            assert(!m.dom().contains(done[n].1));
            assert forall|j: int| 0 <= j < dl.len() implies dl[j].1 != l.1 by {
                assert(dl[j] == done[j]);
            }
        }
        let back = seq![(l.1, l.0)];
        assert(undo_moves(done) =~= back + undo_moves(dl));
        lemma_apply_concat(apply_moves(m, done), back, undo_moves(dl));
        assert(back.drop_last() =~= Seq::<(Seq<char>, Seq<char>)>::empty());
        let y = rename_in(x, l);
        assert(apply_moves(y, back.drop_last()) == y);
        assert(apply_moves(y, back) == rename_in(y, (l.1, l.0)));
        assert(rename_in(y, (l.1, l.0)) =~= x);
    }
}

/// The trash keeps the folder structure: a file trashed from `rel` in its
/// library lands at the same `rel` below the library's trash, inside it.
pub proof fn lemma_trash_keeps_structure(library_dir: Seq<char>, rel: Seq<char>)
    requires
        rel.len() > 0,
    ensures
        join_path(trash_root_of(library_dir), rel) == trash_root_of(library_dir) + "/"@ + rel,
        crate::folder::same_or_child(trash_root_of(library_dir), join_path(trash_root_of(library_dir), rel)),
{
    let t = trash_root_of(library_dir);
    let a = join_path(library_dir, ".acut"@);
    reveal_strlit("휴지통");
    reveal_strlit("/");
    reveal_strlit(".acut");
    assert(t.len() > 0 && t.last() != '/') by {
        if a.len() == 0 {
            assert(t == "휴지통"@);
        } else if a.last() == '/' {
            assert(t == a + "휴지통"@);
            assert(t.last() == "휴지통"@.last());
        } else {
            assert(t == a + "/"@ + "휴지통"@);
            assert(t.last() == "휴지통"@.last());
        }
    }
    let p = t + "/"@ + rel;
    assert(p.subrange(0, t.len() as int) =~= t);
    assert(p[t.len() as int] == '/');
}

/// What a batch operation decides for one photo before touching its file.
#[derive(Debug, Clone)]
pub enum Decision {
    /// Its file is moved (or copied, or deleted).
    Go,
    /// Nothing is to be done with it, and it counts neither way.
    Leave,
    /// It fails for this reason; `true` lists it among the photos to pick again.
    Refuse(String, bool),
}

/// A decision as a plain value: 0 go, 1 leave, 2 refuse; the reason; listed.
pub open spec fn decision_view(d: Decision) -> (nat, Seq<char>, bool) {
    match d {
        Decision::Go => (0, Seq::empty(), false),
        Decision::Leave => (1, Seq::empty(), false),
        Decision::Refuse(m, l) => (2, m@, l),
    }
}

pub open spec fn decision_views(d: Seq<Decision>) -> Seq<(nat, Seq<char>, bool)> {
    d.map_values(|x: Decision| decision_view(x))
}

/// The positions among the first `n` whose decision is to go, in order.
pub open spec fn going(d: Seq<(nat, Seq<char>, bool)>, n: int) -> Seq<int>
    decreases n,
{
    if n <= 0 {
        Seq::empty()
    } else if d[n - 1].0 == 0 {
        going(d, n - 1).push(n - 1)
    } else {
        going(d, n - 1)
    }
}

/// How many of the first `n` are refused.
pub open spec fn refusals(d: Seq<(nat, Seq<char>, bool)>, n: int) -> int
    decreases n,
{
    if n <= 0 {
        0
    } else {
        refusals(d, n - 1) + if d[n - 1].0 == 2 {
            1int
        } else {
            0int
        }
    }
}

/// The ids of the first `n` that are refused and listed, in order.
pub open spec fn refused_ids(ids: Seq<i64>, d: Seq<(nat, Seq<char>, bool)>, n: int) -> Seq<i64>
    decreases n,
{
    if n <= 0 {
        Seq::empty()
    } else if d[n - 1].0 == 2 && d[n - 1].2 {
        refused_ids(ids, d, n - 1).push(ids[n - 1])
    } else {
        refused_ids(ids, d, n - 1)
    }
}

/// The reason of the first refusal among the first `n`.
pub open spec fn first_refusal(d: Seq<(nat, Seq<char>, bool)>, n: int) -> Option<Seq<char>>
    decreases n,
{
    if n <= 0 {
        None
    } else {
        match first_refusal(d, n - 1) {
            Some(x) => Some(x),
            None => if d[n - 1].0 == 2 {
                Some(d[n - 1].1)
            } else {
                None
            },
        }
    }
}

pub open spec fn error_view(e: Option<String>) -> Option<Seq<char>> {
    match e {
        Some(s) => Some(s@),
        None => None,
    }
}

proof fn lemma_refusals_bound(d: Seq<(nat, Seq<char>, bool)>, n: int)
    requires
        0 <= n,
    ensures
        0 <= refusals(d, n) <= n,
    decreases n,
{
    if n > 0 {
        lemma_refusals_bound(d, n - 1);
    }
}

/// Applies the decisions of a batch operation: counts each refusal (listing
/// it when asked), keeps the first reason, and gives the positions of the
/// photos whose files are to be acted on, in order.
pub fn sift(out: &mut Outcome, ids: &[i64], decisions: &[Decision]) -> (go: Vec<usize>)
    requires
        ids@.len() == decisions@.len(),
        old(out).failed + ids@.len() <= usize::MAX,
    ensures
        go@.map_values(|x: usize| x as int) == going(decision_views(decisions@), ids@.len() as int),
        final(out).failed == old(out).failed + refusals(decision_views(decisions@), ids@.len() as int),
        final(out).failed_ids@ == old(out).failed_ids@ + refused_ids(ids@, decision_views(decisions@), ids@.len() as int),
        error_view(final(out).first_error) == match old(out).first_error {
            Some(f) => Some(f@),
            None => first_refusal(decision_views(decisions@), ids@.len() as int),
        },
        final(out).moved == old(out).moved && final(out).bytes == old(out).bytes,
        final(out).batch_id == old(out).batch_id && final(out).folders_removed == old(out).folders_removed,
{
    let ghost d = decision_views(decisions@);
    let ghost o = *out;
    let mut go: Vec<usize> = Vec::new();
    let mut i: usize = 0;
    while i < ids.len()
        invariant
            i <= ids@.len(),
            ids@.len() == decisions@.len(),
            d == decision_views(decisions@),
            o.failed + ids@.len() <= usize::MAX,
            go@.map_values(|x: usize| x as int) == going(d, i as int),
            out.failed == o.failed + refusals(d, i as int),
            out.failed_ids@ == o.failed_ids@ + refused_ids(ids@, d, i as int),
            error_view(out.first_error) == match o.first_error {
                Some(f) => Some(f@),
                None => first_refusal(d, i as int),
            },
            out.moved == o.moved && out.bytes == o.bytes,
            out.batch_id == o.batch_id && out.folders_removed == o.folders_removed,
        decreases ids.len() - i,
    {
        proof {
            lemma_refusals_bound(d, i as int);
        }
        let ghost before = go@;
        let ghost fids = out.failed_ids@;
        assert(d[i as int] == decision_view(decisions@[i as int]));
        match &decisions[i] {
            Decision::Go => {
                go.push(i);
                assert(go@.map_values(|x: usize| x as int) =~= before.map_values(|x: usize| x as int).push(i as int));
            },
            Decision::Leave => {},
            Decision::Refuse(m, listed) => {
                let reason = string_of(chars_of(m.as_str()).as_slice());
                if *listed {
                    out.note_failed(ids[i], reason);
                } else {
                    out.note_failed_unlisted(reason);
                }
                assert(out.failed_ids@ =~= o.failed_ids@ + refused_ids(ids@, d, i + 1));
            },
        }
        i = i + 1;
    }
    go
}

/// How many of the first `n` results are successes (`None`).
pub open spec fn successes(r: Seq<Option<Seq<char>>>, n: int) -> int
    decreases n,
{
    if n <= 0 {
        0
    } else {
        successes(r, n - 1) + if r[n - 1] is None {
            1int
        } else {
            0int
        }
    }
}

/// The sizes of the first `n` photos whose result is a success, added up.
pub open spec fn done_bytes(sizes: Seq<i64>, r: Seq<Option<Seq<char>>>, n: int) -> int
    decreases n,
{
    if n <= 0 {
        0
    } else {
        done_bytes(sizes, r, n - 1) + if r[n - 1] is None {
            sizes[n - 1] as int
        } else {
            0int
        }
    }
}

/// The ids of the first `n` photos whose result is a failure, when listed.
pub open spec fn failed_result_ids(ids: Seq<i64>, r: Seq<Option<Seq<char>>>, listed: bool, n: int) -> Seq<i64>
    decreases n,
{
    if n <= 0 || !listed {
        Seq::empty()
    } else if r[n - 1] is Some {
        failed_result_ids(ids, r, listed, n - 1).push(ids[n - 1])
    } else {
        failed_result_ids(ids, r, listed, n - 1)
    }
}

/// The first failure among the first `n` results.
pub open spec fn first_failure(r: Seq<Option<Seq<char>>>, n: int) -> Option<Seq<char>>
    decreases n,
{
    if n <= 0 {
        None
    } else {
        match first_failure(r, n - 1) {
            Some(x) => Some(x),
            None => r[n - 1],
        }
    }
}

pub open spec fn result_views(r: Seq<Option<String>>) -> Seq<Option<Seq<char>>> {
    r.map_values(|x: Option<String>| error_view(x))
}

pub(crate) proof fn lemma_result_counts(sizes: Seq<i64>, r: Seq<Option<Seq<char>>>, n: int, m: int)
    requires
        0 <= m <= n <= r.len(),
        n <= sizes.len(),
        forall|k: int| 0 <= k < sizes.len() ==> sizes[k] >= 0,
    ensures
        0 <= successes(r, m) <= m,
        0 <= done_bytes(sizes, r, m) <= done_bytes(sizes, r, n),
    decreases n,
{
    if n > 0 {
        if m < n {
            lemma_result_counts(sizes, r, n - 1, m);
        } else {
            lemma_result_counts(sizes, r, n - 1, n - 1);
        }
    }
}

/// Counts what happened to the files acted on: each success as done with
/// its size, each failure as failed (listed when asked) with the first reason kept.
pub fn settle(out: &mut Outcome, ids: &[i64], sizes: &[i64], results: &[Option<String>], listed: bool)
    requires
        ids@.len() == sizes@.len(),
        ids@.len() == results@.len(),
        forall|k: int| 0 <= k < sizes@.len() ==> sizes@[k] >= 0,
        old(out).moved + ids@.len() <= usize::MAX,
        old(out).failed + ids@.len() <= usize::MAX,
        old(out).bytes >= 0,
        old(out).bytes + done_bytes(sizes@, result_views(results@), ids@.len() as int) <= i64::MAX,
    ensures
        final(out).moved == old(out).moved + successes(result_views(results@), ids@.len() as int),
        final(out).failed == old(out).failed + (ids@.len() - successes(result_views(results@), ids@.len() as int)),
        final(out).bytes == old(out).bytes + done_bytes(sizes@, result_views(results@), ids@.len() as int),
        final(out).failed_ids@ == old(out).failed_ids@ + failed_result_ids(
            ids@,
            result_views(results@),
            listed,
            ids@.len() as int,
        ),
        error_view(final(out).first_error) == match old(out).first_error {
            Some(f) => Some(f@),
            None => first_failure(result_views(results@), ids@.len() as int),
        },
        final(out).batch_id == old(out).batch_id && final(out).folders_removed == old(out).folders_removed,
{
    let ghost r = result_views(results@);
    let ghost o = *out;
    let n = ids.len();
    let mut i: usize = 0;
    while i < n
        invariant
            i <= n,
            n == ids@.len(),
            ids@.len() == sizes@.len(),
            ids@.len() == results@.len(),
            r == result_views(results@),
            forall|k: int| 0 <= k < sizes@.len() ==> sizes@[k] >= 0,
            o.moved + n <= usize::MAX,
            o.failed + n <= usize::MAX,
            o.bytes >= 0,
            o.bytes + done_bytes(sizes@, r, n as int) <= i64::MAX,
            out.moved == o.moved + successes(r, i as int),
            out.failed == o.failed + (i - successes(r, i as int)),
            out.bytes == o.bytes + done_bytes(sizes@, r, i as int),
            out.failed_ids@ == o.failed_ids@ + failed_result_ids(ids@, r, listed, i as int),
            error_view(out.first_error) == match o.first_error {
                Some(f) => Some(f@),
                None => first_failure(r, i as int),
            },
            out.batch_id == o.batch_id && out.folders_removed == o.folders_removed,
        decreases n - i,
    {
        proof {
            lemma_result_counts(sizes@, r, n as int, i as int);
            lemma_result_counts(sizes@, r, n as int, i + 1);
        }
        assert(r[i as int] == error_view(results@[i as int]));
        match &results[i] {
            None => {
                out.note_moved(sizes[i]);
            },
            Some(e) => {
                let reason = string_of(chars_of(e.as_str()).as_slice());
                if listed {
                    out.note_failed(ids[i], reason);
                } else {
                    out.note_failed_unlisted(reason);
                }
                assert(out.failed_ids@ =~= o.failed_ids@ + failed_result_ids(ids@, r, listed, i + 1));
            },
        }
        i = i + 1;
    }
}

/// The outcome and the positions to act on that the decisions of a new batch give.
pub open spec fn sifted(batch_id: i64, ids: Seq<i64>, d: Seq<(nat, Seq<char>, bool)>, go: Seq<usize>, o: Outcome) -> bool {
    &&& go.map_values(|x: usize| x as int) == going(d, ids.len() as int)
    &&& sifted_outcome(batch_id, ids, d, o)
}

/// The outcome alone that the decisions of a new batch give.
pub open spec fn sifted_outcome(batch_id: i64, ids: Seq<i64>, d: Seq<(nat, Seq<char>, bool)>, o: Outcome) -> bool {
    &&& o.batch_id == batch_id && o.moved == 0 && o.bytes == 0 && o.folders_removed == 0
    &&& o.failed == refusals(d, ids.len() as int)
    &&& o.failed_ids@ == refused_ids(ids, d, ids.len() as int)
    &&& error_view(o.first_error) == first_refusal(d, ids.len() as int)
}

/// Applies the decisions of a batch that starts with nothing done.
pub fn sift_new(batch_id: i64, ids: &[i64], decisions: &[Decision]) -> (r: (Vec<usize>, Outcome))
    requires
        ids@.len() == decisions@.len(),
    ensures
        sifted(batch_id, ids@, decision_views(decisions@), r.0@, r.1),
{
    let mut out = Outcome::started(batch_id);
    let n = ids.len();
    assert(ids@.len() == n);
    let go = sift(&mut out, ids, decisions);
    assert(out.failed_ids@ =~= refused_ids(ids@, decision_views(decisions@), ids@.len() as int));
    (go, out)
}

/// The decision on one photo of a trash operation: refused per
/// `item_refusal_of` (listed per `lists_failure_of`), else it goes.
pub open spec fn trash_decision_of(op: TrashOp, located: bool, inside_trash: bool) -> (nat, Seq<char>, bool) {
    match item_refusal_of(op, located, inside_trash) {
        Some(m) => (2, m, lists_failure_of(op, located)),
        None => (0, Seq::empty(), false),
    }
}

/// Plans a trashing, taking out or emptying of the photos `ids`: for each,
/// whether its library and disk are known (`located`) and whether its
/// recorded trash path lies inside the trash (`inside_trash`). Gives the
/// positions of the photos whose files are then moved or deleted, and the
/// outcome so far; `settle` counts what happened to them.
pub fn trash_plan(op: TrashOp, batch_id: i64, ids: &[i64], located: &[bool], inside_trash: &[bool]) -> (r: (
    Vec<usize>,
    Outcome,
))
    requires
        located@.len() == ids@.len(),
        inside_trash@.len() == ids@.len(),
    ensures
        sifted(
            batch_id,
            ids@,
            Seq::new(ids@.len(), |k: int| trash_decision_of(op, located@[k], inside_trash@[k])),
            r.0@,
            r.1,
        ),
{
    let ghost want = Seq::new(ids@.len(), |k: int| trash_decision_of(op, located@[k], inside_trash@[k]));
    let mut d: Vec<Decision> = Vec::new();
    let mut i: usize = 0;
    while i < ids.len()
        invariant
            i <= ids@.len(),
            located@.len() == ids@.len(),
            inside_trash@.len() == ids@.len(),
            want == Seq::new(ids@.len(), |k: int| trash_decision_of(op, located@[k], inside_trash@[k])),
            decision_views(d@) == want.subrange(0, i as int),
        decreases ids.len() - i,
    {
        let x = match item_refusal(op, located[i], inside_trash[i]) {
            Some(m) => Decision::Refuse(m, lists_failure(op, located[i])),
            None => Decision::Go,
        };
        let ghost before = d@;
        d.push(x);
        assert(decision_views(d@) =~= decision_views(before).push(decision_view(x)));
        assert(decision_views(d@) =~= want.subrange(0, i + 1));
        i = i + 1;
    }
    assert(want.subrange(0, ids@.len() as int) =~= want);
    sift_new(batch_id, ids, d.as_slice())
}

/// The result of one file of a batch: its move on disk, then (when it moved)
/// the catalogue's record of it, then (when that record failed) the move
/// back. A file counts as done only when both its move and its record went
/// through; when the record failed, the file was put back (or that failed
/// too) and the catalogue's error says why, per `unrecorded_message_of`.
pub open spec fn file_result_of(
    move_error: Option<Seq<char>>,
    record_error: Option<Seq<char>>,
    rollback_error: Option<Seq<char>>,
) -> Option<Seq<char>> {
    match move_error {
        Some(e) => Some(e),
        None => match record_error {
            None => None,
            Some(e) => Some(unrecorded_message_of(e, rollback_error)),
        },
    }
}

/// Whether the file must be moved back: it moved and its record failed.
pub open spec fn rolls_back_of(move_error: Option<Seq<char>>, record_error: Option<Seq<char>>) -> bool {
    move_error is None && record_error is Some
}

pub fn rolls_back(move_error: &Option<String>, record_error: &Option<String>) -> (r: bool)
    ensures
        r == rolls_back_of(error_view(*move_error), error_view(*record_error)),
{
    move_error.is_none() && record_error.is_some()
}

pub fn file_result(move_error: Option<String>, record_error: Option<String>, rollback_error: Option<String>) -> (r: Option<String>)
    ensures
        error_view(r) == file_result_of(error_view(move_error), error_view(record_error), error_view(rollback_error)),
{
    match move_error {
        Some(e) => Some(e),
        None => match record_error {
            None => None,
            Some(e) => {
                let rb = match &rollback_error {
                    Some(x) => Some(x.as_str()),
                    None => None,
                };
                Some(unrecorded_message(e.as_str(), rb))
            },
        },
    }
}

} // verus!
