//! Folder operations — create, rename, move, copy, trash — as decisions:
//! which relative paths are safe, where a folder goes, and what a preview
//! reports before anything on disk changes.

use crate::text::{
    chars_eq, chars_of, concat, contains_char, last_index, last_index_of, lemma_last_index_of,
    slice_of, split_chars, split_on, starts_with, starts_with_chars, str_is, string_of, trim,
    trim_both, trim_both_chars, trim_chars, Trim,
};
use crate::unicode::{nfc_chars, nfc_of};
use vstd::prelude::*;

verus! {

#[derive(Debug, Clone, Copy, PartialEq, Eq, Structural)]
pub enum Action {
    Create,
    Rename,
    Move,
    Copy,
    Trash,
}

#[derive(Debug, Clone, Copy, PartialEq, Eq, Structural)]
pub enum ConflictPolicy {
    Skip,
    Rename,
}

/// Skipping is what a request without a policy asks for.
pub fn default_policy() -> (p: ConflictPolicy)
    ensures
        p == ConflictPolicy::Skip,
{
    ConflictPolicy::Skip
}

/// A folder operation as the front end asks for it.
#[derive(Debug, Clone)]
pub struct Request {
    pub action: Action,
    pub source_library_id: i64,
    /// The parent for a create, the folder itself otherwise; relative to the library.
    pub source_dir: String,
    pub destination_library_id: Option<i64>,
    pub destination_parent: Option<String>,
    pub name: Option<String>,
    pub conflict_policy: ConflictPolicy,
}

/// What an operation would do.
#[derive(Debug, Clone)]
pub struct Preview {
    pub source: String,
    pub destination: String,
    pub planned_name: String,
    pub conflict: String,
    pub action: String,
    pub files: usize,
    pub directories: usize,
    pub bytes: u64,
    pub cross_volume: bool,
    pub drive_sync_warning: bool,
}

/// What an operation did.
#[derive(Debug, Clone)]
pub struct FolderOutcome {
    pub batch_id: i64,
    pub completed: usize,
    pub failed: usize,
    pub files: usize,
    pub directories: usize,
    pub bytes: u64,
    pub first_error: Option<String>,
    pub manifest_sha256: Option<String>,
}

/// Why a folder request is refused.
#[derive(Debug, Clone, Copy, PartialEq, Eq, Structural)]
pub enum FolderError {
    /// The operation would act on the library root.
    Root,
    /// The relative folder is not a safe path inside the library.
    UnsafePath,
    /// The folder name is empty or not usable.
    BadName,
    /// A folder cannot go into itself or below itself.
    IntoItself,
}

/// A path part that may not be used: empty, `.`/`..`, hidden, holding `:`
/// or a control character.
pub open spec fn bad_name_of(p: Seq<char>) -> bool {
    ||| p.len() == 0
    ||| p == "."@
    ||| p == ".."@
    ||| p[0] == '.'
    ||| p.contains(':')
    ||| exists|i: int| 0 <= i < p.len() && (#[trigger] p[i] as u32) < 0x20
}

pub fn bad_name(part: &[char]) -> (r: bool)
    ensures
        r == bad_name_of(part@),
{
    if part.len() == 0 || str_is(".", part) || str_is("..", part) || part[0] == '.'
        || contains_char(part, ':') {
        return true;
    }
    let mut i: usize = 0;
    while i < part.len()
        invariant
            i <= part@.len(),
            forall|k: int| 0 <= k < i ==> (#[trigger] part@[k] as u32) >= 0x20,
        decreases part.len() - i,
    {
        if (part[i] as u32) < 0x20 {
            return true;
        }
        i = i + 1;
    }
    false
}

/// The relative folder a request names: trimmed of white space and of `/`
/// at both ends, in NFC; refused when empty (unless allowed) or when any
/// part is a bad name.
pub open spec fn clean_rel_of(value: Seq<char>, allow_empty: bool) -> Result<Seq<char>, FolderError> {
    let clean = nfc_of(trim_both(trim(value), Trim::Slash));
    if clean.len() == 0 {
        if allow_empty {
            Ok(clean)
        } else {
            Err(FolderError::Root)
        }
    } else if exists|i: int|
        0 <= i < split_on(clean, '/').len() && bad_name_of(#[trigger] split_on(clean, '/')[i]) {
        Err(FolderError::UnsafePath)
    } else {
        Ok(clean)
    }
}

pub fn clean_rel_chars(value: &[char], allow_empty: bool) -> (r: Result<Vec<char>, FolderError>)
    ensures
        match r {
            Ok(v) => clean_rel_of(value@, allow_empty) == Ok::<Seq<char>, FolderError>(v@),
            Err(e) => clean_rel_of(value@, allow_empty) == Err::<Seq<char>, FolderError>(e),
        },
{
    let t = trim_chars(value);
    let s = trim_both_chars(t.as_slice(), Trim::Slash);
    let clean = nfc_chars(s.as_slice());
    if clean.len() == 0 {
        return if allow_empty {
            Ok(clean)
        } else {
            Err(FolderError::Root)
        };
    }
    let parts = split_chars(clean.as_slice(), '/');
    let ghost all = split_on(clean@, '/');
    let mut i: usize = 0;
    while i < parts.len()
        invariant
            i <= parts@.len(),
            all == split_on(clean@, '/'),
            clean@ == nfc_of(trim_both(trim(value@), Trim::Slash)),
            clean@.len() > 0,
            parts@.len() == all.len(),
            forall|k: int| 0 <= k < parts@.len() ==> #[trigger] parts@[k]@ == all[k],
            forall|k: int| 0 <= k < i ==> !bad_name_of(#[trigger] all[k]),
        decreases parts.len() - i,
    {
        assert(parts@[i as int]@ == all[i as int]);
        if bad_name(parts[i].as_slice()) {
            assert(bad_name_of(split_on(clean@, '/')[i as int]));
            return Err(FolderError::UnsafePath);
        }
        i = i + 1;
    }
    Ok(clean)
}

/// Cleans a library-relative folder path.
pub fn clean_rel(value: &str, allow_empty: bool) -> (r: Result<String, FolderError>)
    ensures
        match r {
            Ok(v) => clean_rel_of(value@, allow_empty) == Ok::<Seq<char>, FolderError>(v@),
            Err(e) => clean_rel_of(value@, allow_empty) == Err::<Seq<char>, FolderError>(e),
        },
{
    let v = chars_of(value);
    match clean_rel_chars(v.as_slice(), allow_empty) {
        Ok(c) => Ok(string_of(c.as_slice())),
        Err(e) => Err(e),
    }
}

/// A new folder name: trimmed, in NFC; refused when empty, holding `/`, or bad.
pub open spec fn clean_name_of(value: Seq<char>) -> Result<Seq<char>, FolderError> {
    let name = nfc_of(trim(value));
    if name.len() == 0 || name.contains('/') || bad_name_of(name) {
        Err(FolderError::BadName)
    } else {
        Ok(name)
    }
}

pub fn clean_name_chars(value: &[char]) -> (r: Result<Vec<char>, FolderError>)
    ensures
        match r {
            Ok(v) => clean_name_of(value@) == Ok::<Seq<char>, FolderError>(v@),
            Err(e) => clean_name_of(value@) == Err::<Seq<char>, FolderError>(e),
        },
{
    let t = trim_chars(value);
    let name = nfc_chars(t.as_slice());
    if name.len() == 0 || contains_char(name.as_slice(), '/') || bad_name(name.as_slice()) {
        Err(FolderError::BadName)
    } else {
        Ok(name)
    }
}

/// Cleans a folder name; a missing name is an empty one.
pub fn clean_name(value: Option<&str>) -> (r: Result<String, FolderError>)
    ensures
        match r {
            Ok(v) => clean_name_of(
                match value {
                    Some(s) => s@,
                    None => Seq::empty(),
                },
            ) == Ok::<Seq<char>, FolderError>(v@),
            Err(e) => clean_name_of(
                match value {
                    Some(s) => s@,
                    None => Seq::empty(),
                },
            ) == Err::<Seq<char>, FolderError>(e),
        },
{
    let v = match value {
        Some(s) => chars_of(s),
        None => Vec::new(),
    };
    match clean_name_chars(v.as_slice()) {
        Ok(c) => Ok(string_of(c.as_slice())),
        Err(e) => Err(e),
    }
}

/// `parent/name`, or `name` under the root.
pub open spec fn join_rel_of(parent: Seq<char>, name: Seq<char>) -> Seq<char> {
    if parent.len() == 0 {
        name
    } else {
        parent + "/"@ + name
    }
}

pub fn join_rel_chars(parent: &[char], name: &[char]) -> (r: Vec<char>)
    ensures
        r@ == join_rel_of(parent@, name@),
{
    if parent.len() == 0 {
        slice_of(name, 0, name.len())
    } else {
        let slash = chars_of("/");
        let a = concat(parent, slash.as_slice());
        concat(a.as_slice(), name)
    }
}

pub fn join_rel(parent: &str, name: &str) -> (r: String)
    ensures
        r@ == join_rel_of(parent@, name@),
{
    let p = chars_of(parent);
    let n = chars_of(name);
    let r = join_rel_chars(p.as_slice(), n.as_slice());
    string_of(r.as_slice())
}

/// `candidate` is `parent` or lies below it.
pub open spec fn same_or_child(parent: Seq<char>, candidate: Seq<char>) -> bool {
    candidate == parent || (starts_with(candidate, parent) && candidate.len() > parent.len()
        && candidate[parent.len() as int] == '/')
}

pub fn is_same_or_child_chars(parent: &[char], candidate: &[char]) -> (r: bool)
    ensures
        r == same_or_child(parent@, candidate@),
{
    chars_eq(candidate, parent) || (starts_with_chars(candidate, parent) && candidate.len()
        > parent.len() && candidate[parent.len()] == '/')
}

pub fn is_same_or_child(parent: &str, candidate: &str) -> (r: bool)
    ensures
        r == same_or_child(parent@, candidate@),
{
    let p = chars_of(parent);
    let c = chars_of(candidate);
    is_same_or_child_chars(p.as_slice(), c.as_slice())
}

/// The last `/`-separated part of a path (all of it when there is no `/`).
pub open spec fn last_part(p: Seq<char>) -> Seq<char> {
    p.subrange(last_index_of(p, '/') + 1, p.len() as int)
}

/// The part of a path before its last `/`, or `""`.
pub open spec fn parent_part(p: Seq<char>) -> Seq<char> {
    let i = last_index_of(p, '/');
    if i < 0 {
        Seq::empty()
    } else {
        p.subrange(0, i)
    }
}

pub fn last_part_chars(p: &[char]) -> (r: Vec<char>)
    ensures
        r@ == last_part(p@),
{
    proof {
        lemma_last_index_of(p@, '/');
    }
    match last_index(p, '/') {
        Some(i) => {
            assert(i < p.len());
            slice_of(p, i + 1, p.len())
        },
        None => slice_of(p, 0, p.len()),
    }
}

pub fn parent_part_chars(p: &[char]) -> (r: Vec<char>)
    ensures
        r@ == parent_part(p@),
{
    proof {
        lemma_last_index_of(p@, '/');
    }
    match last_index(p, '/') {
        Some(i) => slice_of(p, 0, i),
        None => Vec::new(),
    }
}

pub open spec fn opt_text(o: Option<String>) -> Seq<char> {
    match o {
        Some(s) => s@,
        None => Seq::empty(),
    }
}

/// Where a request leads, before the disk is looked at.
#[derive(Debug, Clone)]
pub struct Target {
    /// The cleaned source folder (the parent, for a create).
    pub source_rel: String,
    /// The library the folder ends up in.
    pub destination_library_id: i64,
    /// Its parent folder there.
    pub parent_rel: String,
    /// Its name there.
    pub name: String,
    /// `parent_rel/name`; for trash, the wanted place under `.acut/휴지통`.
    pub destination_rel: String,
}

/// The trash folder of a library, relative to its root.
pub open spec fn trash_rel() -> Seq<char> {
    ".acut/휴지통"@
}

/// What a request leads to: for a create, the new folder below the source;
/// for trash, the same path below the library's trash; a rename keeps the
/// folder in its parent and library; a move or copy goes below the chosen
/// parent of the chosen library (the source's by default), under the given
/// name or its own. A folder never moves, renames or copies into itself.
pub open spec fn target_of(r: Request) -> Result<(Seq<char>, i64, Seq<char>, Seq<char>, Seq<char>), FolderError> {
    match clean_rel_of(r.source_dir@, r.action == Action::Create) {
        Err(e) => Err(e),
        Ok(src) => if r.action == Action::Create {
            match clean_name_of(opt_text(r.name)) {
                Err(e) => Err(e),
                Ok(n) => Ok((src, r.source_library_id, src, n, join_rel_of(src, n))),
            }
        } else if r.action == Action::Trash {
            Ok(
                (
                    src,
                    r.source_library_id,
                    parent_part(join_rel_of(trash_rel(), src)),
                    last_part(src),
                    join_rel_of(trash_rel(), src),
                ),
            )
        } else {
            let lib = if r.action == Action::Rename {
                r.source_library_id
            } else {
                match r.destination_library_id {
                    Some(id) => id,
                    None => r.source_library_id,
                }
            };
            let parent = if r.action == Action::Rename {
                Ok::<Seq<char>, FolderError>(parent_part(src))
            } else {
                clean_rel_of(opt_text(r.destination_parent), true)
            };
            match parent {
                Err(e) => Err(e),
                Ok(p) => {
                    let name = if r.action == Action::Rename || r.name is Some {
                        clean_name_of(opt_text(r.name))
                    } else {
                        Ok(last_part(src))
                    };
                    match name {
                        Err(e) => Err(e),
                        Ok(n) => {
                            let dest = join_rel_of(p, n);
                            if r.source_library_id == lib && same_or_child(src, dest) {
                                Err(FolderError::IntoItself)
                            } else {
                                Ok((src, lib, p, n, dest))
                            }
                        },
                    }
                },
            }
        },
    }
}

/// A move or a copy lands in the library the request names, and in the
/// source's own library only when it names none; a create, a rename and a
/// trash stay in the source's library. A folder is refused as going into
/// itself only when it stays in its own library.
pub proof fn lemma_target_library(r: Request)
    ensures
        r.destination_library_id matches Some(id) ==> (target_of(r) matches Ok(t) ==> ((r.action == Action::Move
            || r.action == Action::Copy) ==> t.1 == id)),
        target_of(r) matches Ok(t) ==> ((r.action == Action::Move || r.action == Action::Copy)
            && r.destination_library_id is None ==> t.1 == r.source_library_id),
        target_of(r) matches Ok(t) ==> ((r.action == Action::Create || r.action == Action::Rename || r.action
            == Action::Trash) ==> t.1 == r.source_library_id),
        r.destination_library_id matches Some(id) && id != r.source_library_id && r.action != Action::Rename
            ==> target_of(r) != Err::<(Seq<char>, i64, Seq<char>, Seq<char>, Seq<char>), FolderError>(
            FolderError::IntoItself),
{
}

pub open spec fn target_view(t: Target) -> (Seq<char>, i64, Seq<char>, Seq<char>, Seq<char>) {
    (t.source_rel@, t.destination_library_id, t.parent_rel@, t.name@, t.destination_rel@)
}

fn opt_chars(o: &Option<String>) -> (r: Vec<char>)
    ensures
        r@ == opt_text(*o),
{
    match o {
        Some(s) => chars_of(s.as_str()),
        None => Vec::new(),
    }
}

/// Plans where a folder request leads.
pub fn plan_target(request: &Request) -> (r: Result<Target, FolderError>)
    ensures
        match r {
            Ok(t) => target_of(*request) == Ok::<
                (Seq<char>, i64, Seq<char>, Seq<char>, Seq<char>),
                FolderError,
            >(target_view(t)),
            Err(e) => target_of(*request) == Err::<
                (Seq<char>, i64, Seq<char>, Seq<char>, Seq<char>),
                FolderError,
            >(e),
        },
{
    let sd = chars_of(request.source_dir.as_str());
    let src = match clean_rel_chars(sd.as_slice(), request.action == Action::Create) {
        Err(e) => return Err(e),
        Ok(s) => s,
    };
    if request.action == Action::Create {
        let nm = opt_chars(&request.name);
        let n = match clean_name_chars(nm.as_slice()) {
            Err(e) => return Err(e),
            Ok(n) => n,
        };
        let dest = join_rel_chars(src.as_slice(), n.as_slice());
        return Ok(
            Target {
                source_rel: string_of(src.as_slice()),
                destination_library_id: request.source_library_id,
                parent_rel: string_of(src.as_slice()),
                name: string_of(n.as_slice()),
                destination_rel: string_of(dest.as_slice()),
            },
        );
    }
    if request.action == Action::Trash {
        let trash = chars_of(".acut/휴지통");
        let wanted = join_rel_chars(trash.as_slice(), src.as_slice());
        let parent = parent_part_chars(wanted.as_slice());
        let name = last_part_chars(src.as_slice());
        return Ok(
            Target {
                source_rel: string_of(src.as_slice()),
                destination_library_id: request.source_library_id,
                parent_rel: string_of(parent.as_slice()),
                name: string_of(name.as_slice()),
                destination_rel: string_of(wanted.as_slice()),
            },
        );
    }
    let lib = if request.action == Action::Rename {
        request.source_library_id
    } else {
        match request.destination_library_id {
            Some(id) => id,
            None => request.source_library_id,
        }
    };
    let parent = if request.action == Action::Rename {
        parent_part_chars(src.as_slice())
    } else {
        let dp = opt_chars(&request.destination_parent);
        match clean_rel_chars(dp.as_slice(), true) {
            Err(e) => return Err(e),
            Ok(p) => p,
        }
    };
    let name = if request.action == Action::Rename || request.name.is_some() {
        let nm = opt_chars(&request.name);
        match clean_name_chars(nm.as_slice()) {
            Err(e) => return Err(e),
            Ok(n) => n,
        }
    } else {
        last_part_chars(src.as_slice())
    };
    let dest = join_rel_chars(parent.as_slice(), name.as_slice());
    if request.source_library_id == lib && is_same_or_child_chars(src.as_slice(), dest.as_slice()) {
        return Err(FolderError::IntoItself);
    }
    Ok(
        Target {
            source_rel: string_of(src.as_slice()),
            destination_library_id: lib,
            parent_rel: string_of(parent.as_slice()),
            name: string_of(name.as_slice()),
            destination_rel: string_of(dest.as_slice()),
        },
    )
}

/// The outcome of looking for a name clash at the destination.
#[derive(Debug, Clone, Copy, PartialEq, Eq, Structural)]
pub enum Clash {
    /// Nothing in the way: run as planned.
    Clear,
    /// A folder of that name exists and the policy skips.
    Skip,
    /// A folder of that name exists and the policy takes the first free numbered name.
    RenameFree,
    /// The trash already held that path, so the trash path was numbered.
    TrashNumbered,
}

/// The clash rule: an existing destination (other than the folder itself,
/// in a rename) is skipped or renamed per the policy, except for trash,
/// whose destination was already made free; a trash destination that moved
/// off the plain trash path is reported as renamed.
pub open spec fn clash_of(
    action: Action,
    policy: ConflictPolicy,
    wanted_exists: bool,
    same_existing_folder: bool,
    trash_numbered: bool,
) -> Clash {
    let exists = wanted_exists && !same_existing_folder;
    if exists && action != Action::Trash {
        match policy {
            ConflictPolicy::Skip => Clash::Skip,
            ConflictPolicy::Rename => Clash::RenameFree,
        }
    } else if action == Action::Trash && trash_numbered {
        Clash::TrashNumbered
    } else {
        Clash::Clear
    }
}

pub fn clash(
    action: Action,
    policy: ConflictPolicy,
    wanted_exists: bool,
    same_existing_folder: bool,
    trash_numbered: bool,
) -> (c: Clash)
    ensures
        c == clash_of(action, policy, wanted_exists, same_existing_folder, trash_numbered),
{
    let exists = wanted_exists && !same_existing_folder;
    if exists && action != Action::Trash {
        match policy {
            ConflictPolicy::Skip => Clash::Skip,
            ConflictPolicy::Rename => Clash::RenameFree,
        }
    } else if action == Action::Trash && trash_numbered {
        Clash::TrashNumbered
    } else {
        Clash::Clear
    }
}

pub open spec fn clash_conflict(c: Clash) -> Seq<char> {
    match c {
        Clash::Clear => "none"@,
        _ => "name_exists"@,
    }
}

pub open spec fn clash_action(c: Clash) -> Seq<char> {
    match c {
        Clash::Clear => "run"@,
        Clash::Skip => "skip"@,
        _ => "rename"@,
    }
}

/// What the disk says about a planned operation.
#[derive(Debug, Clone)]
pub struct Facts {
    /// Whether something already has the wanted destination path.
    pub wanted_exists: bool,
    /// For a rename, whether that something is the folder itself (a change of case).
    pub same_existing_folder: bool,
    /// The names in the destination's parent folder, as listed.
    pub taken: Vec<String>,
    /// The tag a free name takes when every number is used.
    pub stamp: String,
    pub files: usize,
    pub directories: usize,
    pub bytes: u64,
    pub source_area: i32,
    pub destination_area: i32,
    /// The volumes of the source and destination libraries.
    pub source_volume: String,
    pub destination_volume: String,
}

/// Whether the destination takes a free numbered name: trashing onto a
/// name the trash already has, or any other operation onto a taken name
/// (not the folder itself) under the Rename policy.
pub open spec fn numbers_of(action: Action, policy: ConflictPolicy, f: Facts) -> bool {
    f.wanted_exists && (action == Action::Trash || (!f.same_existing_folder && policy == ConflictPolicy::Rename))
}

/// Where the operation puts the folder: its wanted place, or in the same
/// parent under the first name free in the listing (in lower case).
pub open spec fn destination_of(t: Target, action: Action, policy: ConflictPolicy, f: Facts) -> Seq<char> {
    if numbers_of(action, policy, f) {
        join_rel_of(t.parent_rel@, crate::names::free_name_of(t.name@, crate::names::lowered(f.taken@), f.stamp@))
    } else {
        t.destination_rel@
    }
}

/// Whether an area syncs with the NAS (My Photos 1, Shared 2).
pub open spec fn synced(area: i32) -> bool {
    area == 1 || area == 2
}

/// The preview of a planned operation: source and destination (per
/// `destination_of`), the last part of the destination as the planned name, the clash as conflict and
/// action, the tree counts (one folder and nothing else for a create), and a
/// sync warning when either side is a synced area.
pub open spec fn preview_of(t: Target, action: Action, policy: ConflictPolicy, f: Facts) -> (
    Seq<char>,
    Seq<char>,
    Seq<char>,
    Seq<char>,
    Seq<char>,
    (usize, usize, u64),
    bool,
    bool,
) {
    let dest = destination_of(t, action, policy, f);
    let numbered = action == Action::Trash && dest != t.destination_rel@;
    let c = clash_of(action, policy, f.wanted_exists, f.same_existing_folder, numbered);
    (
        t.source_rel@,
        dest,
        last_part(dest),
        clash_conflict(c),
        clash_action(c),
        if action == Action::Create {
            (0usize, 1usize, 0u64)
        } else {
            (f.files, f.directories, f.bytes)
        },
        f.source_volume@ != f.destination_volume@,
        synced(f.source_area) || synced(f.destination_area),
    )
}

pub open spec fn preview_view(p: Preview) -> (
    Seq<char>,
    Seq<char>,
    Seq<char>,
    Seq<char>,
    Seq<char>,
    (usize, usize, u64),
    bool,
    bool,
) {
    (
        p.source@,
        p.destination@,
        p.planned_name@,
        p.conflict@,
        p.action@,
        (p.files, p.directories, p.bytes),
        p.cross_volume,
        p.drive_sync_warning,
    )
}

fn copy_text(s: &String) -> (r: String)
    ensures
        r@ == s@,
{
    let c = chars_of(s.as_str());
    string_of(c.as_slice())
}

/// Builds the preview of a planned operation from what the disk says.
pub fn preview(t: &Target, request: &Request, f: &Facts) -> (p: Preview)
    ensures
        preview_view(p) == preview_of(*t, request.action, request.conflict_policy, *f),
{
    let numbers = f.wanted_exists && (request.action == Action::Trash || (!f.same_existing_folder
        && request.conflict_policy == ConflictPolicy::Rename));
    let d = if numbers {
        let free = crate::names::free_name_in(t.name.as_str(), f.taken.as_slice(), f.stamp.as_str());
        join_rel_chars(chars_of(t.parent_rel.as_str()).as_slice(), chars_of(free.as_str()).as_slice())
    } else {
        chars_of(t.destination_rel.as_str())
    };
    let w = chars_of(t.destination_rel.as_str());
    let numbered = request.action == Action::Trash && !chars_eq(d.as_slice(), w.as_slice());
    let c = clash(
        request.action,
        request.conflict_policy,
        f.wanted_exists,
        f.same_existing_folder,
        numbered,
    );
    let conflict = match c {
        Clash::Clear => chars_of("none"),
        _ => chars_of("name_exists"),
    };
    let action = match c {
        Clash::Clear => chars_of("run"),
        Clash::Skip => chars_of("skip"),
        _ => chars_of("rename"),
    };
    let planned = last_part_chars(d.as_slice());
    let (files, directories, bytes) = if request.action == Action::Create {
        (0usize, 1usize, 0u64)
    } else {
        (f.files, f.directories, f.bytes)
    };
    Preview {
        source: copy_text(&t.source_rel),
        destination: string_of(d.as_slice()),
        planned_name: string_of(planned.as_slice()),
        conflict: string_of(conflict.as_slice()),
        action: string_of(action.as_slice()),
        files,
        directories,
        bytes,
        cross_volume: !chars_eq(chars_of(f.source_volume.as_str()).as_slice(), chars_of(f.destination_volume.as_str()).as_slice()),
        drive_sync_warning: f.source_area == 1 || f.source_area == 2 || f.destination_area == 1
            || f.destination_area == 2,
    }
}

/// The hidden sibling a copy is assembled in before it takes its name:
/// `.name.photo-desk-<batch>.tmp`.
pub open spec fn temp_name_of(name: Seq<char>, batch: nat) -> Seq<char> {
    "."@ + name + ".photo-desk-"@ + crate::text::decimal(batch) + ".tmp"@
}

pub fn temp_sibling_name(name: &str, batch: u64) -> (r: String)
    ensures
        r@ == temp_name_of(name@, batch as nat),
{
    let dot = chars_of(".");
    let n = chars_of(name);
    let mid = chars_of(".photo-desk-");
    let num = crate::text::decimal_of(batch);
    let tail = chars_of(".tmp");
    let a = concat(dot.as_slice(), n.as_slice());
    let b = concat(a.as_slice(), mid.as_slice());
    let c = concat(b.as_slice(), num.as_slice());
    let d = concat(c.as_slice(), tail.as_slice());
    string_of(d.as_slice())
}


/// The kind of batch a folder operation opens.
pub open spec fn batch_kind_of(a: Action) -> Seq<char> {
    match a {
        Action::Create => "folder_create"@,
        Action::Rename => "folder_rename"@,
        Action::Move => "folder_move"@,
        Action::Copy => "folder_copy"@,
        Action::Trash => "folder_trash"@,
    }
}

pub fn batch_kind(a: Action) -> (r: String)
    ensures
        r@ == batch_kind_of(a),
{
    let c = match a {
        Action::Create => chars_of("folder_create"),
        Action::Rename => chars_of("folder_rename"),
        Action::Move => chars_of("folder_move"),
        Action::Copy => chars_of("folder_copy"),
        Action::Trash => chars_of("folder_trash"),
    };
    string_of(c.as_slice())
}

/// The operation a folder journal records.
pub open spec fn journal_op_of(a: Action) -> Seq<char> {
    match a {
        Action::Create => "create"@,
        Action::Rename => "rename"@,
        Action::Move => "move"@,
        Action::Copy => "copy"@,
        Action::Trash => "trash"@,
    }
}

pub fn journal_op(a: Action) -> (r: String)
    ensures
        r@ == journal_op_of(a),
{
    let c = match a {
        Action::Create => chars_of("create"),
        Action::Rename => chars_of("rename"),
        Action::Move => chars_of("move"),
        Action::Copy => chars_of("copy"),
        Action::Trash => chars_of("trash"),
    };
    string_of(c.as_slice())
}

/// Whether a planned operation runs at the moment of execution.
#[derive(Debug, Clone, Copy, PartialEq, Eq, Structural)]
pub enum Gate {
    /// The plan skips: nothing is done and no batch is opened.
    Skip,
    /// Something took the destination since the plan: refused.
    NameAppeared,
    Run,
}

/// Whether to go ahead when the operation is carried out. A skip stays a
/// skip. A destination that exists by now refuses, unless it is the folder
/// itself (a rename) or the operation is a trashing, which finds a free name.
/// Otherwise it runs.
pub open spec fn gate_of(plan_skips: bool, action: Action, destination_exists: bool, same_existing_folder: bool) -> Gate {
    if plan_skips {
        Gate::Skip
    } else if destination_exists && action != Action::Trash && !same_existing_folder {
        Gate::NameAppeared
    } else {
        Gate::Run
    }
}

pub fn gate(preview: &Preview, action: Action, destination_exists: bool, same_existing_folder: bool) -> (r: Gate)
    ensures
        r == gate_of(preview.action@ == "skip"@, action, destination_exists, same_existing_folder),
{
    let a = chars_of(preview.action.as_str());
    if str_is("skip", a.as_slice()) {
        Gate::Skip
    } else if destination_exists && action != Action::Trash && !same_existing_folder {
        Gate::NameAppeared
    } else {
        Gate::Run
    }
}

/// The new path of a folder row that moves with its branch: the branch's
/// new path followed by what came after the old one.
pub open spec fn rehomed_of(old: Seq<char>, source_vol: Seq<char>, destination_vol: Seq<char>) -> Seq<char> {
    destination_vol + if starts_with(old, source_vol) {
        old.subrange(source_vol.len() as int, old.len() as int)
    } else {
        Seq::empty()
    }
}

pub fn rehomed(old: &str, source_vol: &str, destination_vol: &str) -> (r: String)
    ensures
        r@ == rehomed_of(old@, source_vol@, destination_vol@),
{
    let o = chars_of(old);
    let sv = chars_of(source_vol);
    let dv = chars_of(destination_vol);
    let suffix = if starts_with_chars(o.as_slice(), sv.as_slice()) {
        slice_of(o.as_slice(), sv.len(), o.len())
    } else {
        Vec::new()
    };
    string_of(concat(dv.as_slice(), suffix.as_slice()).as_slice())
}

/// Where a folder row of a copied branch is copied to, relative to the
/// destination library: the same place below the copy.
pub open spec fn copied_rel_of(old: Seq<char>, source_vol: Seq<char>, destination_rel: Seq<char>) -> Seq<char> {
    let suffix = if starts_with(old, source_vol) {
        crate::text::trim_start(old.subrange(source_vol.len() as int, old.len() as int), Trim::Slash)
    } else {
        Seq::empty()
    };
    if suffix.len() == 0 {
        destination_rel
    } else {
        join_rel_of(destination_rel, suffix)
    }
}

pub fn copied_rel(old: &str, source_vol: &str, destination_rel: &str) -> (r: String)
    ensures
        r@ == copied_rel_of(old@, source_vol@, destination_rel@),
{
    let o = chars_of(old);
    let sv = chars_of(source_vol);
    let d = chars_of(destination_rel);
    let suffix = if starts_with_chars(o.as_slice(), sv.as_slice()) {
        let rest = slice_of(o.as_slice(), sv.len(), o.len());
        crate::text::trim_start_chars(rest.as_slice(), Trim::Slash)
    } else {
        Vec::new()
    };
    if suffix.len() == 0 {
        string_of(d.as_slice())
    } else {
        string_of(join_rel_chars(d.as_slice(), suffix.as_slice()).as_slice())
    }
}

/// The outcome of a folder operation that ran: one done, with the counts
/// of its manifest and the content digest when there is one.
pub open spec fn done_holds(batch_id: i64, m: crate::manifest::Manifest, warning: Option<String>, o: FolderOutcome) -> bool {
    &&& o.batch_id == batch_id && o.completed == 1 && o.failed == 0
    &&& o.files == m.files && o.directories == m.directories && o.bytes == m.bytes
    &&& o.first_error == warning
    &&& match o.manifest_sha256 {
        Some(d) => d@ == m.sha256@ && m.sha256@.len() > 0,
        None => m.sha256@.len() == 0,
    }
}

pub fn done(batch_id: i64, m: crate::manifest::Manifest, warning: Option<String>) -> (o: FolderOutcome)
    ensures
        done_holds(batch_id, m, warning, o),
{
    let digest = if m.sha256.unicode_len() > 0 {
        Some(string_of(chars_of(m.sha256.as_str()).as_slice()))
    } else {
        None
    };
    FolderOutcome {
        batch_id,
        completed: 1,
        failed: 0,
        files: m.files,
        directories: m.directories,
        bytes: m.bytes,
        first_error: warning,
        manifest_sha256: digest,
    }
}

/// The outcome of a folder operation that did not run or failed: nothing
/// done, the counts of the preview, and the reason; a skip is no failure.
pub fn not_done(p: &Preview, failed: bool, reason: String) -> (o: FolderOutcome)
    ensures
        o.batch_id == 0 && o.completed == 0 && o.failed == if failed {
            1usize
        } else {
            0usize
        },
        o.files == p.files && o.directories == p.directories && o.bytes == p.bytes,
        o.first_error == Some(reason),
        o.manifest_sha256 is None,
{
    FolderOutcome {
        batch_id: 0,
        completed: 0,
        failed: if failed {
            1
        } else {
            0
        },
        files: p.files,
        directories: p.directories,
        bytes: p.bytes,
        first_error: Some(reason),
        manifest_sha256: None,
    }
}

/// The operations a folder journal can hold.
#[derive(Debug, Clone, Copy, PartialEq, Eq, Structural)]
pub enum JournalOp {
    Create,
    Copy,
    Move,
    Rename,
    Trash,
}

pub open spec fn journal_op_from(op: Seq<char>) -> Option<JournalOp> {
    if op == "create"@ {
        Some(JournalOp::Create)
    } else if op == "copy"@ {
        Some(JournalOp::Copy)
    } else if op == "move"@ {
        Some(JournalOp::Move)
    } else if op == "rename"@ {
        Some(JournalOp::Rename)
    } else if op == "trash"@ {
        Some(JournalOp::Trash)
    } else {
        None
    }
}

pub fn parse_journal_op(op: &str) -> (r: Option<JournalOp>)
    ensures
        r == journal_op_from(op@),
{
    let c = chars_of(op);
    if str_is("create", c.as_slice()) {
        Some(JournalOp::Create)
    } else if str_is("copy", c.as_slice()) {
        Some(JournalOp::Copy)
    } else if str_is("move", c.as_slice()) {
        Some(JournalOp::Move)
    } else if str_is("rename", c.as_slice()) {
        Some(JournalOp::Rename)
    } else if str_is("trash", c.as_slice()) {
        Some(JournalOp::Trash)
    } else {
        None
    }
}

/// Whether a folder is as its operation left it: by the content digest
/// when the journal kept one, else by the stat digest (which older journals
/// lack, and then nothing matches).
pub open spec fn unchanged_of(journal_content: Seq<char>, journal_stat: Option<Seq<char>>, now: crate::manifest::Manifest) -> bool {
    if journal_content.len() == 0 {
        journal_stat == Some(now.stat_sha256@)
    } else {
        now.sha256@ == journal_content
    }
}

pub fn unchanged(journal_content: &str, journal_stat: Option<&str>, now: &crate::manifest::Manifest) -> (r: bool)
    ensures
        r == unchanged_of(
            journal_content@,
            match journal_stat {
                Some(s) => Some(s@),
                None => None,
            },
            *now,
        ),
{
    let jc = chars_of(journal_content);
    if jc.len() == 0 {
        match journal_stat {
            Some(s) => chars_eq(chars_of(s).as_slice(), chars_of(now.stat_sha256.as_str()).as_slice()),
            None => false,
        }
    } else {
        chars_eq(chars_of(now.sha256.as_str()).as_slice(), jc.as_slice())
    }
}

/// The note of an undo that put a folder back beside its old place, which
/// something else had taken meanwhile.
pub open spec fn restored_note_of(restored_rel: Seq<char>, source_path: Seq<char>) -> Option<Seq<char>> {
    if restored_rel != source_path {
        Some("원래 자리에 같은 이름이 있어 «"@ + restored_rel + "» 로 되돌렸습니다"@)
    } else {
        None
    }
}

pub fn restored_note(restored_rel: &str, source_path: &str) -> (r: Option<String>)
    ensures
        match r {
            Some(n) => restored_note_of(restored_rel@, source_path@) == Some(n@),
            None => restored_note_of(restored_rel@, source_path@) is None,
        },
{
    let r = chars_of(restored_rel);
    let sp = chars_of(source_path);
    if chars_eq(r.as_slice(), sp.as_slice()) {
        None
    } else {
        let a = chars_of("원래 자리에 같은 이름이 있어 «");
        let b = chars_of("» 로 되돌렸습니다");
        let x = concat(a.as_slice(), r.as_slice());
        Some(string_of(concat(x.as_slice(), b.as_slice()).as_slice()))
    }
}

/// Whether the undo of a folder operation may go ahead: a created folder
/// must still be empty (an unreadable one counts as not empty); any other
/// operation needs the folder where it left it, unchanged since.
pub open spec fn folder_undo_check_of(op: JournalOp, has_entries: bool, destination_is_dir: bool, unchanged: bool) -> Option<Seq<char>> {
    if op == JournalOp::Create {
        if has_entries {
            Some("폴더 안에 새 항목이 있어 생성 작업을 되돌리지 않았습니다"@)
        } else {
            None
        }
    } else if !destination_is_dir {
        Some("되돌릴 폴더가 디스크에 없습니다"@)
    } else if !unchanged {
        Some("작업 뒤 폴더 내용이 바뀌어 안전하게 되돌릴 수 없습니다"@)
    } else {
        None
    }
}

pub fn folder_undo_check(op: JournalOp, has_entries: bool, destination_is_dir: bool, unchanged: bool) -> (r: Option<String>)
    ensures
        match r {
            Some(m) => folder_undo_check_of(op, has_entries, destination_is_dir, unchanged) == Some(m@),
            None => folder_undo_check_of(op, has_entries, destination_is_dir, unchanged) is None,
        },
{
    let m = if op == JournalOp::Create {
        if has_entries {
            chars_of("폴더 안에 새 항목이 있어 생성 작업을 되돌리지 않았습니다")
        } else {
            return None;
        }
    } else if !destination_is_dir {
        chars_of("되돌릴 폴더가 디스크에 없습니다")
    } else if !unchanged {
        chars_of("작업 뒤 폴더 내용이 바뀌어 안전하게 되돌릴 수 없습니다")
    } else {
        return None;
    };
    Some(string_of(m.as_slice()))
}

/// The outcome of a folder undo that was refused: one failure and its reason.
pub fn folder_undo_refused(batch_id: i64, reason: String) -> (o: crate::trash::Outcome)
    ensures
        o.batch_id == batch_id && o.failed == 1 && o.moved == 0 && o.bytes == 0,
        o.first_error == Some(reason) && o.failed_ids@.len() == 0 && o.folders_removed == 0,
{
    crate::trash::Outcome {
        batch_id,
        moved: 0,
        failed: 1,
        bytes: 0,
        first_error: Some(reason),
        failed_ids: Vec::new(),
        folders_removed: 0,
    }
}

/// The outcome of a folder undo that went through: one folder back, with the
/// size and folder count its journal recorded, and the note of a folder put
/// back beside its old place, if any.
pub fn folder_undone(batch_id: i64, bytes: u64, directories: usize, note: Option<String>) -> (o: crate::trash::Outcome)
    ensures
        o.batch_id == batch_id && o.moved == 1 && o.failed == 0,
        o.bytes == bytes as i64 && o.folders_removed == directories,
        o.first_error == note && o.failed_ids@.len() == 0,
{
    crate::trash::Outcome {
        batch_id,
        moved: 1,
        failed: 0,
        bytes: bytes as i64,
        first_error: note,
        failed_ids: Vec::new(),
        folders_removed: directories,
    }
}

/// A folder left as an operation made it can be undone: whatever order a
/// later walk gives its entries in, the manifest it yields matches the one
/// recorded (by the content digest when one was recorded, else by the stat
/// digest), so the undo check passes.
pub proof fn lemma_untouched_folder_undoes(
    recorded_entries: Seq<crate::manifest::EntryView>,
    now_entries: Seq<crate::manifest::EntryView>,
    hash_contents: bool,
    recorded: crate::manifest::Manifest,
    now: crate::manifest::Manifest,
    op: JournalOp,
)
    requires
        recorded_entries.to_multiset() == now_entries.to_multiset(),
        crate::manifest::manifest_holds(recorded_entries, hash_contents, recorded),
        crate::manifest::manifest_holds(now_entries, hash_contents, now),
        op != JournalOp::Create,
    ensures
        unchanged_of(recorded.sha256@, Some(recorded.stat_sha256@), now),
        folder_undo_check_of(op, false, true, unchanged_of(recorded.sha256@, Some(recorded.stat_sha256@), now)) is None,
{
    crate::manifest::lemma_manifest_order_free(recorded_entries, now_entries, hash_contents, recorded, now);
}

/// The reason a folder request is refused, as shown.
pub open spec fn folder_error_message_of(e: FolderError) -> Seq<char> {
    match e {
        FolderError::Root => "라이브러리 루트에는 이 작업을 할 수 없습니다"@,
        FolderError::UnsafePath => "라이브러리 안의 안전한 상대 폴더를 지정하세요"@,
        FolderError::BadName => "비어 있거나 사용할 수 없는 폴더 이름입니다"@,
        FolderError::IntoItself => "폴더를 자기 자신이나 자기 하위로 옮길 수 없습니다"@,
    }
}

impl FolderError {
    pub fn message(&self) -> (r: String)
        ensures
            r@ == folder_error_message_of(*self),
    {
        let c = match self {
            FolderError::Root => chars_of("라이브러리 루트에는 이 작업을 할 수 없습니다"),
            FolderError::UnsafePath => chars_of("라이브러리 안의 안전한 상대 폴더를 지정하세요"),
            FolderError::BadName => chars_of("비어 있거나 사용할 수 없는 폴더 이름입니다"),
            FolderError::IntoItself => chars_of("폴더를 자기 자신이나 자기 하위로 옮길 수 없습니다"),
        };
        string_of(c.as_slice())
    }
}

/// The early answer of an operation, from its `Gate`: when the preview
/// said to leave it, it ends with nothing done and the reason, which is no
/// failure; a destination name that turned up meanwhile is an error;
/// otherwise it goes on (`Ok(None)`).
pub fn gate_outcome(p: &Preview, g: Gate) -> (r: Result<Option<FolderOutcome>, String>)
    ensures
        g == Gate::Skip ==> (r matches Ok(Some(o)) && o.batch_id == 0 && o.completed == 0 && o.failed == 0
            && o.files == p.files && o.directories == p.directories && o.bytes == p.bytes
            && error_text(o.first_error) == Some("같은 이름이 있어 실행하지 않았습니다"@)
            && o.manifest_sha256 is None),
        g == Gate::NameAppeared ==> (r matches Err(m) && m@ == "실행 직전 목적지에 같은 이름이 생겼습니다"@),
        g == Gate::Run ==> r matches Ok(None),
{
    match g {
        Gate::Skip => Ok(Some(not_done(p, false, string_of(chars_of("같은 이름이 있어 실행하지 않았습니다").as_slice())))),
        Gate::NameAppeared => Err(string_of(chars_of("실행 직전 목적지에 같은 이름이 생겼습니다").as_slice())),
        Gate::Run => Ok(None),
    }
}

pub open spec fn error_text(e: Option<String>) -> Option<Seq<char>> {
    match e {
        Some(s) => Some(s@),
        None => None,
    }
}

/// Whether a folder named relative to a library may be acted on, after
/// resolving links: it must exist (`resolved` is its resolved path), resolve
/// inside the resolved library root, and be a folder. `parent` says it is the
/// parent a destination goes into, which words the refusals otherwise.
pub open spec fn resolved_check_of(root: Seq<char>, resolved: Option<Seq<char>>, is_dir: bool, rel: Seq<char>, parent: bool) -> Option<
    Seq<char>,
> {
    match resolved {
        None => Some(
            if parent {
                "목적지 부모 폴더가 없습니다: "@ + rel
            } else {
                "폴더가 없습니다: "@ + rel
            },
        ),
        Some(p) => if !crate::transfer::path_inside_of(root, p) || !is_dir {
            Some(
                if parent {
                    "목적지 부모가 라이브러리 밖이거나 폴더가 아닙니다"@
                } else {
                    "라이브러리 밖이거나 폴더가 아닌 경로입니다"@
                },
            )
        } else {
            None
        },
    }
}

pub fn resolved_check(root: &str, resolved: Option<&str>, is_dir: bool, rel: &str, parent: bool) -> (r: Option<String>)
    ensures
        error_text(r) == resolved_check_of(
            root@,
            match resolved {
                Some(p) => Some(p@),
                None => None,
            },
            is_dir,
            rel@,
            parent,
        ),
{
    match resolved {
        None => {
            let head = if parent {
                chars_of("목적지 부모 폴더가 없습니다: ")
            } else {
                chars_of("폴더가 없습니다: ")
            };
            Some(string_of(concat(head.as_slice(), chars_of(rel).as_slice()).as_slice()))
        },
        Some(p) => {
            if !crate::transfer::path_inside(root, p) || !is_dir {
                let m = if parent {
                    chars_of("목적지 부모가 라이브러리 밖이거나 폴더가 아닙니다")
                } else {
                    chars_of("라이브러리 밖이거나 폴더가 아닌 경로입니다")
                };
                Some(string_of(m.as_slice()))
            } else {
                None
            }
        },
    }
}

/// Whether a path names an AppleDouble file (`._name`), which macOS makes
/// beside files on foreign disks and which a tree's manifest leaves out.
pub open spec fn appledouble_of(path: Seq<char>) -> bool {
    crate::text::starts_with(last_part(path), "._"@)
}

pub fn is_appledouble(path: &str) -> (r: bool)
    ensures
        r == appledouble_of(path@),
{
    let l = last_part_chars(chars_of(path).as_slice());
    crate::text::starts_with_chars(l.as_slice(), chars_of("._").as_slice())
}

/// The AppleDouble file that may sit beside a path: `._<name>` in the same folder.
pub open spec fn appledouble_sibling_of(path: Seq<char>) -> Seq<char> {
    join_rel_of(parent_part(path), "._"@ + last_part(path))
}

pub fn appledouble_sibling(path: &str) -> (r: String)
    ensures
        r@ == appledouble_sibling_of(path@),
{
    let p = chars_of(path);
    let n = concat(chars_of("._").as_slice(), last_part_chars(p.as_slice()).as_slice());
    string_of(join_rel_chars(parent_part_chars(p.as_slice()).as_slice(), n.as_slice()).as_slice())
}

/// Whether an operation reads file contents to build its manifest: only a
/// copy, and a move across volumes, check the copy by SHA-256; other
/// operations on one volume compare names, sizes and times.
pub open spec fn needs_content_hash_of(action: Action, cross_volume: bool) -> bool {
    action == Action::Copy || (action == Action::Move && cross_volume)
}

pub fn needs_content_hash(action: Action, cross_volume: bool) -> (r: bool)
    ensures
        r == needs_content_hash_of(action, cross_volume),
{
    action == Action::Copy || (action == Action::Move && cross_volume)
}

/// Whether a library's folder may be worked in: its disk must be connected
/// (`dir_known`), its path must resolve, and it must be a folder.
pub open spec fn online_check_of(name: Seq<char>, dir_known: bool, resolves: bool, is_dir: bool) -> Option<Seq<char>> {
    if !dir_known {
        Some("「"@ + name + "」 디스크가 연결되어 있지 않습니다"@)
    } else if !resolves {
        Some("「"@ + name + "」 라이브러리 경로를 확인할 수 없습니다"@)
    } else if !is_dir {
        Some("「"@ + name + "」 라이브러리가 폴더가 아닙니다"@)
    } else {
        None
    }
}

pub fn online_check(name: &str, dir_known: bool, resolves: bool, is_dir: bool) -> (r: Option<String>)
    ensures
        error_text(r) == online_check_of(name@, dir_known, resolves, is_dir),
{
    let tail = if !dir_known {
        chars_of("」 디스크가 연결되어 있지 않습니다")
    } else if !resolves {
        chars_of("」 라이브러리 경로를 확인할 수 없습니다")
    } else if !is_dir {
        chars_of("」 라이브러리가 폴더가 아닙니다")
    } else {
        return None;
    };
    let a = concat(chars_of("「").as_slice(), chars_of(name).as_slice());
    Some(string_of(concat(a.as_slice(), tail.as_slice()).as_slice()))
}

} // verus!
