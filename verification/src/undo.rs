//! Undo of a batch: which way a batch is undone, when a batch counts as
//! undone afterwards, and the journal entries every operation leaves.

use crate::text::{chars_of, last_index, last_index_of, lemma_last_index_of, slice_of, str_is, string_of};
use crate::trash::Outcome;
use crate::transfer::{batch_kind_of, Mode};
use vstd::prelude::*;

verus! {

/// A batch of operations, the unit of undo.
#[derive(Debug, Clone)]
pub struct Batch {
    pub id: i64,
    pub kind: String,
    pub label: Option<String>,
    pub item_count: i64,
    pub created_at: i64,
    pub undone_at: Option<i64>,
}

/// How many recent batches a listing shows: between one and two hundred.
pub open spec fn listing_limit(limit: usize) -> usize {
    if limit < 1 {
        1
    } else if limit > 200 {
        200
    } else {
        limit
    }
}

pub fn recent_limit(limit: usize) -> (r: usize)
    ensures
        r == listing_limit(limit),
{
    if limit < 1 {
        1
    } else if limit > 200 {
        200
    } else {
        limit
    }
}

/// The way a batch is undone.
#[derive(Debug, Clone, Copy, PartialEq, Eq, Structural)]
pub enum Route {
    /// It was undone already: nothing happens.
    AlreadyUndone,
    /// Files deleted for good cannot come back.
    Permanent,
    /// Capture dates go back from the backups.
    CaptureDate,
    /// Copies and publications are removed.
    Copies,
    /// Imported files go to the trash.
    Import,
    /// Trashed files come back from the trash.
    Trash,
    /// Files taken out of the trash go back into it.
    Restore,
    /// Moved files go back along their journal, the last first.
    Paths,
}

/// The route of a batch of the given kind. A batch that was undone already
/// is never undone again, whatever its kind.
pub open spec fn route_of(kind: Seq<char>, undone: Option<i64>) -> Route {
    if undone is Some {
        Route::AlreadyUndone
    } else if kind == "delete"@ {
        Route::Permanent
    } else if kind == "capture_date"@ {
        Route::CaptureDate
    } else if kind == "copy"@ || kind == "publish"@ {
        Route::Copies
    } else if kind == "import"@ {
        Route::Import
    } else if kind == "trash"@ {
        Route::Trash
    } else if kind == "restore"@ {
        Route::Restore
    } else {
        Route::Paths
    }
}

pub fn route(kind: &str, undone: Option<i64>) -> (r: Route)
    ensures
        r == route_of(kind@, undone),
{
    if undone.is_some() {
        return Route::AlreadyUndone;
    }
    let k = chars_of(kind);
    if str_is("delete", k.as_slice()) {
        Route::Permanent
    } else if str_is("capture_date", k.as_slice()) {
        Route::CaptureDate
    } else if str_is("copy", k.as_slice()) || str_is("publish", k.as_slice()) {
        Route::Copies
    } else if str_is("import", k.as_slice()) {
        Route::Import
    } else if str_is("trash", k.as_slice()) {
        Route::Trash
    } else if str_is("restore", k.as_slice()) {
        Route::Restore
    } else {
        Route::Paths
    }
}

/// Every batch a transfer opens is undone the way its photos were placed: a
/// copy or a publication, which left the originals where they were, by
/// removing the copies it made; a move by walking its journal back; and a
/// batch undone once is never undone again.
pub proof fn lemma_transfer_batch_route(publish: bool, mode: Mode, undone: Option<i64>)
    ensures
        undone is None && (publish || mode == Mode::Copy) ==> route_of(batch_kind_of(publish, mode), undone)
            == Route::Copies,
        undone is None && !publish && mode == Mode::Move ==> route_of(batch_kind_of(publish, mode), undone)
            == Route::Paths,
        undone is Some ==> route_of(batch_kind_of(publish, mode), undone) == Route::AlreadyUndone,
{
    reveal_strlit("publish");
    reveal_strlit("copy");
    reveal_strlit("move");
    reveal_strlit("delete");
    reveal_strlit("capture_date");
    reveal_strlit("import");
    reveal_strlit("trash");
    reveal_strlit("restore");
    let k = batch_kind_of(publish, mode);
    assert(k.len() > 0 && (k[0] == 'p' || k[0] == 'c' || k[0] == 'm'));
    if k == "move"@ {
        assert(k[1] == 'o' && k.len() == 4);
    }
}

/// The answer to an undo that does nothing: the batch undone already, or
/// deleted for good; other routes do work.
pub open spec fn refusal_of(route: Route) -> Option<Seq<char>> {
    match route {
        Route::AlreadyUndone => Some("이미 되돌린 작업입니다"@),
        Route::Permanent => Some("영구히 지운 사진은 되돌릴 수 없습니다"@),
        _ => None,
    }
}

/// The outcome of an undo that does nothing, for the routes that do
/// nothing: the batch, nothing moved or failed, and the reason.
pub fn refusal(batch_id: i64, route: Route) -> (r: Option<Outcome>)
    ensures
        match r {
            Some(o) => refusal_of(route) is Some && o.batch_id == batch_id && o.moved == 0 && o.failed == 0
                && o.bytes == 0 && o.failed_ids@.len() == 0 && o.folders_removed == 0 && (o.first_error
                matches Some(e) && e@ == refusal_of(route)->0),
            None => refusal_of(route) is None,
        },
{
    let msg = match route {
        Route::AlreadyUndone => chars_of("이미 되돌린 작업입니다"),
        Route::Permanent => chars_of("영구히 지운 사진은 되돌릴 수 없습니다"),
        _ => return None,
    };
    Some(
        Outcome {
            batch_id,
            moved: 0,
            failed: 0,
            bytes: 0,
            first_error: Some(string_of(msg.as_slice())),
            failed_ids: Vec::new(),
            folders_removed: 0,
        },
    )
}

/// The answer when a trash or restore undo finds nothing left to do: the
/// photos came back (or went back) another way.
pub open spec fn nothing_left_of(route: Route) -> Option<Seq<char>> {
    match route {
        Route::Trash => Some("이미 휴지통에서 되돌린 사진입니다"@),
        Route::Restore => Some("이미 휴지통에 있는 사진입니다"@),
        _ => None,
    }
}

pub fn nothing_left(route: Route) -> (r: Option<String>)
    ensures
        match r {
            Some(s) => nothing_left_of(route) == Some(s@),
            None => nothing_left_of(route) is None,
        },
{
    match route {
        Route::Trash => Some(string_of(chars_of("이미 휴지통에서 되돌린 사진입니다").as_slice())),
        Route::Restore => Some(string_of(chars_of("이미 휴지통에 있는 사진입니다").as_slice())),
        _ => None,
    }
}

/// Whether an undo closes its batch, given how many files it put back and
/// how many failed, and whether the batch had anything left to undo
/// (`pending` files, rows or journal entries). A batch with nothing left
/// closes; an undo that put nothing back leaves its batch open, so that it
/// can be tried again once the disk is back. A capture-date undo closes
/// unless every file failed; a copy undo closes once the journal lists no
/// copy any more.
pub open spec fn closes_of(route: Route, moved: nat, failed: nat, pending: nat) -> bool {
    match route {
        Route::AlreadyUndone | Route::Permanent => false,
        Route::CaptureDate => moved > 0 || failed == 0,
        Route::Copies => pending == 0,
        Route::Import | Route::Trash | Route::Restore | Route::Paths => moved > 0 || pending == 0,
    }
}

/// Whether an undo closes its batch. For a copy undo, `pending` counts the
/// copies the journal still lists after it ran.
pub fn closes(route: Route, moved: usize, failed: usize, pending: usize) -> (r: bool)
    ensures
        r == closes_of(route, moved as nat, failed as nat, pending as nat),
{
    match route {
        Route::AlreadyUndone | Route::Permanent => false,
        Route::CaptureDate => moved > 0 || failed == 0,
        Route::Copies => pending == 0,
        Route::Import | Route::Trash | Route::Restore | Route::Paths => moved > 0 || pending == 0,
    }
}

/// Undoing twice does nothing: a batch that was undone is refused with the
/// same answer whatever its kind, and nothing moves.
pub proof fn lemma_undo_twice(kind: Seq<char>, undone_at: i64)
    ensures
        route_of(kind, Some(undone_at)) == Route::AlreadyUndone,
        refusal_of(route_of(kind, Some(undone_at))) == Some("이미 되돌린 작업입니다"@),
{
}

/// A failed undo stays undoable: when files were left to put back and none
/// could be, the batch stays open.
pub proof fn lemma_failed_undo_stays_open(route: Route, failed: nat, pending: nat)
    requires
        pending > 0,
        failed > 0,
    ensures
        !closes_of(route, 0, failed, pending),
{
}

/// A permanent delete never closes as undone and is always refused.
pub proof fn lemma_delete_is_final(undone: Option<i64>, moved: nat, failed: nat, pending: nat)
    ensures
        refusal_of(route_of("delete"@, undone)) is Some,
        !closes_of(route_of("delete"@, undone), moved, failed, pending),
{
}

/// A path relative to a volume split into its folder and its name, at the last `/`.
pub open spec fn dir_and_name_of(vol_rel: Seq<char>) -> (Seq<char>, Seq<char>) {
    let i = last_index_of(vol_rel, '/');
    if i < 0 {
        (Seq::empty(), vol_rel)
    } else {
        (vol_rel.subrange(0, i), vol_rel.subrange(i + 1, vol_rel.len() as int))
    }
}

pub fn dir_and_name(vol_rel: &str) -> (r: (String, String))
    ensures
        (r.0@, r.1@) == dir_and_name_of(vol_rel@),
{
    let v = chars_of(vol_rel);
    proof {
        lemma_last_index_of(v@, '/');
    }
    match last_index(v.as_slice(), '/') {
        Some(i) => {
            assert(i < v.len());
            (string_of(slice_of(v.as_slice(), 0, i).as_slice()), string_of(slice_of(v.as_slice(), i + 1, v.len()).as_slice()))
        },
        None => (string_of(Vec::new().as_slice()), string_of(v.as_slice())),
    }
}

/// A line of the journal: what happened to one file in a batch. Paths are
/// relative to their volumes.
#[derive(Debug, Clone)]
pub struct JournalEntry {
    pub batch_id: i64,
    pub file_id: i64,
    pub op: String,
    pub from_vol: String,
    pub from_path: String,
    pub to_vol: String,
    pub to_path: Option<String>,
    pub ok: bool,
    pub error: Option<String>,
}

fn copy_str(s: &str) -> (r: String)
    ensures
        r@ == s@,
{
    string_of(chars_of(s).as_slice())
}

/// The journal entry of a move that may cross volumes: the arrival volume
/// is kept apart from the departure one; a failure keeps its reason.
pub fn record_to(
    batch_id: i64,
    op: &str,
    file_id: i64,
    from_vol: &str,
    from_path: &str,
    to_vol: &str,
    to_path: Option<&str>,
    r: Result<(), &str>,
) -> (e: JournalEntry)
    ensures
        e.batch_id == batch_id && e.file_id == file_id && e.op@ == op@,
        e.from_vol@ == from_vol@ && e.from_path@ == from_path@ && e.to_vol@ == to_vol@,
        match to_path {
            Some(p) => (e.to_path matches Some(q) && q@ == p@),
            None => e.to_path is None,
        },
        e.ok == r is Ok,
        match r {
            Ok(_) => e.error is None,
            Err(m) => (e.error matches Some(q) && q@ == m@),
        },
{
    JournalEntry {
        batch_id,
        file_id,
        op: copy_str(op),
        from_vol: copy_str(from_vol),
        from_path: copy_str(from_path),
        to_vol: copy_str(to_vol),
        to_path: match to_path {
            Some(p) => Some(copy_str(p)),
            None => None,
        },
        ok: r.is_ok(),
        error: match r {
            Ok(_) => None,
            Err(m) => Some(copy_str(m)),
        },
    }
}

/// The journal entry of an operation that stays on one volume.
pub fn record(
    batch_id: i64,
    op: &str,
    file_id: i64,
    volume_uuid: &str,
    from_path: &str,
    to_path: Option<&str>,
    r: Result<(), &str>,
) -> (e: JournalEntry)
    ensures
        e.batch_id == batch_id && e.file_id == file_id && e.op@ == op@,
        e.from_vol@ == volume_uuid@ && e.to_vol@ == volume_uuid@ && e.from_path@ == from_path@,
        match to_path {
            Some(p) => (e.to_path matches Some(q) && q@ == p@),
            None => e.to_path is None,
        },
        e.ok == r is Ok,
        match r {
            Ok(_) => e.error is None,
            Err(m) => (e.error matches Some(q) && q@ == m@),
        },
{
    record_to(batch_id, op, file_id, volume_uuid, from_path, volume_uuid, to_path, r)
}

/// The count a batch is listed with. A batch left open (counting nothing,
/// not undone) for more than a minute takes the number of its successful
/// journal entries, so that it can be undone.
pub open spec fn listed_count_of(item_count: i64, undone: bool, ok_entries: i64, created_at: i64, now: i64) -> i64 {
    if item_count == 0 && !undone && ok_entries > 0 && created_at < now - 60 {
        ok_entries
    } else {
        item_count
    }
}

pub fn listed_count(item_count: i64, undone: bool, ok_entries: i64, created_at: i64, now: i64) -> (r: i64)
    ensures
        r == listed_count_of(item_count, undone, ok_entries, created_at, now),
{
    let old_enough = now >= i64::MIN + 60 && created_at < now - 60;
    if item_count == 0 && !undone && ok_entries > 0 && old_enough {
        ok_entries
    } else {
        item_count
    }
}

/// Whether a batch counts as undone by the state of its files: a trashing
/// none of whose photos is still in the trash, or a taking out none of whose
/// photos is still out of it. `in_trash` and `out_of_trash` count the
/// batch's successful entries by where their photo is now.
pub open spec fn settled_of(kind: Seq<char>, item_count: i64, undone: bool, in_trash: usize, out_of_trash: usize) -> bool {
    !undone && item_count > 0 && ((kind == "trash"@ && in_trash == 0) || (kind == "restore"@ && out_of_trash == 0))
}

pub fn settled(kind: &str, item_count: i64, undone: bool, in_trash: usize, out_of_trash: usize) -> (r: bool)
    ensures
        r == settled_of(kind@, item_count, undone, in_trash, out_of_trash),
{
    let k = chars_of(kind);
    !undone && item_count > 0 && ((str_is("trash", k.as_slice()) && in_trash == 0) || (str_is("restore", k.as_slice())
        && out_of_trash == 0))
}

/// A library of a volume, by its path relative to the volume.
#[derive(Debug, Clone)]
pub struct LibraryRoot {
    pub id: i64,
    pub area: i32,
    pub rel_path: String,
}

/// Whether a library at `root` holds the folder `dir` (the volume's root holds all).
pub open spec fn holds_dir(root: Seq<char>, dir: Seq<char>) -> bool {
    root.len() == 0 || crate::folder::same_or_child(root, dir)
}

/// The library a folder put back belongs to: among the volume's libraries
/// holding it, one with the longest path (the innermost); its id and area.
pub open spec fn owner_holds(libs: Seq<LibraryRoot>, dir: Seq<char>, r: Option<(i64, i32)>) -> bool {
    match r {
        None => forall|k: int| 0 <= k < libs.len() ==> !holds_dir(#[trigger] libs[k].rel_path@, dir),
        Some(x) => exists|k: int|
            0 <= k < libs.len() && holds_dir(#[trigger] libs[k].rel_path@, dir) && x == (libs[k].id, libs[k].area)
                && forall|j: int|
                0 <= j < libs.len() && holds_dir(#[trigger] libs[j].rel_path@, dir) ==> libs[j].rel_path@.len()
                    <= libs[k].rel_path@.len(),
    }
}

pub fn owning_library(libs: &[LibraryRoot], dir: &str) -> (r: Option<(i64, i32)>)
    ensures
        owner_holds(libs@, dir@, r),
{
    let mut best: Option<usize> = None;
    let mut i: usize = 0;
    while i < libs.len()
        invariant
            i <= libs@.len(),
            match best {
                None => forall|k: int| 0 <= k < i ==> !holds_dir(#[trigger] libs@[k].rel_path@, dir@),
                Some(b) => b < i && holds_dir(libs@[b as int].rel_path@, dir@) && forall|j: int|
                    0 <= j < i && holds_dir(#[trigger] libs@[j].rel_path@, dir@) ==> libs@[j].rel_path@.len()
                        <= libs@[b as int].rel_path@.len(),
            },
        decreases libs.len() - i,
    {
        let root = chars_of(libs[i].rel_path.as_str());
        let holds = root.len() == 0 || crate::folder::is_same_or_child(libs[i].rel_path.as_str(), dir);
        if holds {
            match best {
                None => {
                    best = Some(i);
                },
                Some(b) => {
                    let blen = chars_of(libs[b].rel_path.as_str()).len();
                    if root.len() > blen {
                        best = Some(i);
                    }
                },
            }
        }
        i = i + 1;
    }
    match best {
        None => None,
        Some(b) => {
            assert(holds_dir(libs@[b as int].rel_path@, dir@));
            Some((libs[b].id, libs[b].area))
        },
    }
}

/// What becomes of one moved file when its move is undone.
#[derive(Debug, Clone, Copy, PartialEq, Eq, Structural)]
pub enum PathUndoStep {
    /// The disk it is on, or the one it came from, is not connected.
    Unmounted,
    /// It is not as the move left it (size and modification time recorded
    /// right after the move), or nothing was recorded: it stays.
    Changed,
    /// It goes back.
    Back,
}

/// A moved file goes back only when it is as the move left it.
pub open spec fn path_undo_step_of(mounted: bool, recorded: Option<(i64, i64)>, now: Option<(i64, i64)>) -> PathUndoStep {
    if !mounted {
        PathUndoStep::Unmounted
    } else if recorded is Some && now == recorded {
        PathUndoStep::Back
    } else {
        PathUndoStep::Changed
    }
}

pub fn path_undo_step(mounted: bool, recorded: Option<(i64, i64)>, now: Option<(i64, i64)>) -> (r: PathUndoStep)
    ensures
        r == path_undo_step_of(mounted, recorded, now),
{
    if !mounted {
        return PathUndoStep::Unmounted;
    }
    match (recorded, now) {
        (Some(a), Some(b)) => if a.0 == b.0 && a.1 == b.1 {
            PathUndoStep::Back
        } else {
            PathUndoStep::Changed
        },
        _ => PathUndoStep::Changed,
    }
}

/// The reason a moved file is not put back.
pub open spec fn path_undo_message_of(step: PathUndoStep) -> Option<Seq<char>> {
    match step {
        PathUndoStep::Unmounted => Some("디스크가 연결되어 있지 않습니다"@),
        PathUndoStep::Changed => Some("옮긴 뒤 바뀐 파일은 되돌리지 않습니다"@),
        PathUndoStep::Back => None,
    }
}

pub fn path_undo_message(step: PathUndoStep) -> (r: Option<String>)
    ensures
        match r {
            Some(m) => path_undo_message_of(step) == Some(m@),
            None => path_undo_message_of(step) is None,
        },
{
    match step {
        PathUndoStep::Unmounted => Some(string_of(chars_of("디스크가 연결되어 있지 않습니다").as_slice())),
        PathUndoStep::Changed => Some(string_of(chars_of("옮긴 뒤 바뀐 파일은 되돌리지 않습니다").as_slice())),
        PathUndoStep::Back => None,
    }
}

/// A successful entry of a batch's journal that moved a file.
#[derive(Debug, Clone)]
pub struct PathEntry {
    pub file_id: i64,
    pub from_vol: String,
    pub from_path: String,
    pub to_vol: String,
    pub to_path: String,
    /// Size and modification time recorded right after the move, if any.
    pub recorded: Option<(i64, i64)>,
}

/// What the disk says of a moved file now.
#[derive(Debug, Clone, Copy)]
pub struct PathProbe {
    /// Both the disk it is on and the one it came from are connected.
    pub mounted: bool,
    /// Its size and modification time now, when it is there.
    pub now: Option<(i64, i64)>,
}

/// The decision on one entry: it goes back, or fails unlisted with its reason.
pub open spec fn path_decision_of(e: PathEntry, p: PathProbe) -> (nat, Seq<char>, bool) {
    let s = path_undo_step_of(p.mounted, e.recorded, p.now);
    if s == PathUndoStep::Back {
        (0, Seq::empty(), false)
    } else {
        (2, path_undo_message_of(s)->0, false)
    }
}

/// The entries last first.
pub open spec fn last_first<T>(s: Seq<T>) -> Seq<T> {
    Seq::new(s.len(), |k: int| s[s.len() - 1 - k])
}

/// Plans the undo of a batch of moves: its successful entries in journal
/// order and, for each, what the disk says now. The entries are taken last
/// first, so that names pushed aside within the batch go back in place.
/// Gives the positions (in `entries`) of the files to move back, in that
/// order, and the outcome so far; `settle` (unlisted) counts the moves, and
/// `closes_of(Route::Paths, ..)` with all entries pending says whether the
/// batch is then marked undone.
pub fn path_undo_plan(batch_id: i64, entries: &[PathEntry], probes: &[PathProbe]) -> (r: (Vec<usize>, Outcome))
    requires
        probes@.len() == entries@.len(),
    ensures
        r.0@.map_values(|x: usize| x as int) == crate::trash::going(
            Seq::new(entries@.len(), |k: int| path_decision_of(last_first(entries@)[k], last_first(probes@)[k])),
            entries@.len() as int,
        ).map_values(|p: int| entries@.len() - 1 - p),
        crate::trash::sifted_outcome(
            batch_id,
            last_first(entries@).map_values(|e: PathEntry| e.file_id),
            Seq::new(entries@.len(), |k: int| path_decision_of(last_first(entries@)[k], last_first(probes@)[k])),
            r.1,
        ),
{
    let n = entries.len();
    let ghost want = Seq::new(n as nat, |k: int| path_decision_of(last_first(entries@)[k], last_first(probes@)[k]));
    let ghost rid = last_first(entries@).map_values(|e: PathEntry| e.file_id);
    let mut ids: Vec<i64> = Vec::new();
    let mut d: Vec<crate::trash::Decision> = Vec::new();
    let mut i: usize = 0;
    while i < n
        invariant
            i <= n,
            n == entries@.len(),
            probes@.len() == n,
            want == Seq::new(n as nat, |k: int| path_decision_of(last_first(entries@)[k], last_first(probes@)[k])),
            rid == last_first(entries@).map_values(|e: PathEntry| e.file_id),
            ids@ == rid.subrange(0, i as int),
            crate::trash::decision_views(d@) == want.subrange(0, i as int),
        decreases n - i,
    {
        let j = n - 1 - i;
        let e = &entries[j];
        let step = path_undo_step(probes[j].mounted, e.recorded, probes[j].now);
        let x = match path_undo_message(step) {
            Some(m) => crate::trash::Decision::Refuse(m, false),
            None => crate::trash::Decision::Go,
        };
        assert(last_first(entries@)[i as int] == entries@[j as int]);
        assert(last_first(probes@)[i as int] == probes@[j as int]);
        let ghost before = d@;
        d.push(x);
        ids.push(e.file_id);
        assert(crate::trash::decision_views(d@) =~= crate::trash::decision_views(before).push(
            crate::trash::decision_view(x),
        ));
        assert(crate::trash::decision_views(d@) =~= want.subrange(0, i + 1));
        assert(ids@ =~= rid.subrange(0, i + 1));
        i = i + 1;
    }
    assert(want.subrange(0, n as int) =~= want);
    assert(rid.subrange(0, n as int) =~= rid);
    let (go, out) = crate::trash::sift_new(batch_id, ids.as_slice(), d.as_slice());
    let mut back: Vec<usize> = Vec::new();
    let mut k: usize = 0;
    while k < go.len()
        invariant
            k <= go@.len(),
            n == entries@.len(),
            go@.map_values(|x: usize| x as int) == crate::trash::going(want, n as int),
            back@.map_values(|x: usize| x as int) == go@.map_values(|x: usize| x as int).subrange(0, k as int).map_values(
                |p: int| n - 1 - p,
            ),
        decreases go.len() - k,
    {
        proof {
            lemma_going_below(want, n as int);
            assert(go@.map_values(|x: usize| x as int)[k as int] == go@[k as int] as int);
        }
        let p = go[k];
        assert(crate::trash::going(want, n as int)[k as int] == p as int);
        assert(p < n);
        let ghost before = back@;
        back.push(n - 1 - p);
        assert(back@.map_values(|x: usize| x as int) =~= before.map_values(|x: usize| x as int).push(n - 1 - p));
        assert(back@.map_values(|x: usize| x as int) =~= go@.map_values(|x: usize| x as int).subrange(0, k + 1).map_values(
            |p: int| n - 1 - p,
        ));
        k = k + 1;
    }
    assert(go@.map_values(|x: usize| x as int).subrange(0, go@.len() as int) =~= go@.map_values(|x: usize| x as int));
    (back, out)
}

proof fn lemma_going_below(d: Seq<(nat, Seq<char>, bool)>, n: int)
    requires
        0 <= n,
    ensures
        forall|j: int| 0 <= j < crate::trash::going(d, n).len() ==> 0 <= #[trigger] crate::trash::going(d, n)[j] < n,
    decreases n,
{
    if n > 0 {
        lemma_going_below(d, n - 1);
        let g = crate::trash::going(d, n - 1);
        assert forall|j: int| 0 <= j < crate::trash::going(d, n).len() implies 0 <= #[trigger] crate::trash::going(
            d,
            n,
        )[j] < n by {
            if j < g.len() {
                assert(crate::trash::going(d, n)[j] == g[j]);
            }
        }
    }
}

} // verus!
