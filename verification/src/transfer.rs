//! Moving and copying photos to any folder, and publishing to Shared: the
//! destination check, when a copy is a publication, and the plan of every
//! item before anything runs — names that clash on disk or within the batch
//! are skipped or numbered, and what was already published is skipped.

use crate::folder::{bad_name, bad_name_of};
use crate::names::{holds, holds_chars, is_plain_name, lowercase_chars, lowercase_of, numbered, numbered_chars, stem_ext, stem_ext_chars, views};
use crate::text::{chars_of, concat, decimal, decimal_of, slice_of, split_chars, split_on, str_is, string_of, trim, trim_both, trim_both_chars, trim_chars, Trim};
use crate::unicode::{nfc_chars, nfc_of};
use vstd::prelude::*;

verus! {

#[derive(Debug, Clone, Copy, PartialEq, Eq, Structural)]
pub enum Mode {
    Move,
    Copy,
}

#[derive(Debug, Clone, Copy, PartialEq, Eq, Structural)]
pub enum ConflictPolicy {
    Skip,
    Rename,
}

/// Skipping is what a request without a policy asks for.
pub fn default_policy() -> (p: ConflictPolicy)
    ensures
        p == ConflictPolicy::Skip,
{
    ConflictPolicy::Skip
}

/// A transfer as the front end asks for it.
#[derive(Debug, Clone)]
pub struct Request {
    pub ids: Vec<i64>,
    pub destination_library_id: i64,
    pub destination_dir: String,
    pub mode: Mode,
    pub conflict_policy: ConflictPolicy,
    pub publish: bool,
}

/// What would happen to one photo.
#[derive(Debug, Clone)]
pub struct PreviewItem {
    pub id: i64,
    pub source: String,
    pub destination: String,
    pub planned_name: String,
    pub conflict: String,
    pub action: String,
    pub source_sha256: Option<String>,
}

/// What a transfer would do.
#[derive(Debug, Clone)]
pub struct Preview {
    pub mode: String,
    pub publish: bool,
    pub source_area: Option<i32>,
    pub destination_area: i32,
    pub drive_sync_warning: bool,
    pub items: Vec<PreviewItem>,
}

/// What a transfer did.
#[derive(Debug, Clone)]
pub struct TransferOutcome {
    pub batch_id: i64,
    pub completed: usize,
    pub failed: usize,
    pub skipped: usize,
    pub already_published: usize,
    pub bytes: i64,
    pub first_error: Option<String>,
    pub failed_ids: Vec<i64>,
}

/// Why a destination folder is refused.
#[derive(Debug, Clone, Copy, PartialEq, Eq, Structural)]
pub enum TransferError {
    /// The folder climbs out of the library with `..`.
    NotInside,
    /// A part of the folder is empty, hidden, or holds `:` or a control character.
    BadName,
}

/// The destination folder of a request: trimmed of white space and of `/`
/// at both ends, in NFC; the library root when empty; refused when a part
/// is `..` (outside the library) or a bad name.
pub open spec fn validate_rel_of(rel: Seq<char>) -> Result<Seq<char>, TransferError> {
    let clean = nfc_of(trim_both(trim(rel), Trim::Slash));
    let parts = split_on(clean, '/');
    if clean.len() == 0 {
        Ok(clean)
    } else if exists|i: int| 0 <= i < parts.len() && #[trigger] parts[i] == ".."@ {
        Err(TransferError::NotInside)
    } else if exists|i: int| 0 <= i < parts.len() && bad_name_of(#[trigger] parts[i]) {
        Err(TransferError::BadName)
    } else {
        Ok(clean)
    }
}

/// Checks and cleans the destination folder of a request.
pub fn validate_rel(rel: &str) -> (r: Result<String, TransferError>)
    ensures
        match r {
            Ok(v) => validate_rel_of(rel@) == Ok::<Seq<char>, TransferError>(v@),
            Err(e) => validate_rel_of(rel@) == Err::<Seq<char>, TransferError>(e),
        },
{
    let v = chars_of(rel);
    let t = trim_chars(v.as_slice());
    let s = trim_both_chars(t.as_slice(), Trim::Slash);
    let clean = nfc_chars(s.as_slice());
    if clean.len() == 0 {
        return Ok(string_of(clean.as_slice()));
    }
    let parts = split_chars(clean.as_slice(), '/');
    let ghost all = split_on(clean@, '/');
    let mut i: usize = 0;
    while i < parts.len()
        invariant
            i <= parts@.len(),
            all == split_on(clean@, '/'),
            clean@ == nfc_of(trim_both(trim(rel@), Trim::Slash)),
            clean@.len() > 0,
            parts@.len() == all.len(),
            forall|k: int| 0 <= k < parts@.len() ==> #[trigger] parts@[k]@ == all[k],
            forall|k: int| 0 <= k < i ==> #[trigger] all[k] != ".."@,
        decreases parts.len() - i,
    {
        assert(parts@[i as int]@ == all[i as int]);
        if str_is("..", parts[i].as_slice()) {
            assert(split_on(clean@, '/')[i as int] == ".."@);
            return Err(TransferError::NotInside);
        }
        i = i + 1;
    }
    let mut j: usize = 0;
    while j < parts.len()
        invariant
            j <= parts@.len(),
            all == split_on(clean@, '/'),
            clean@ == nfc_of(trim_both(trim(rel@), Trim::Slash)),
            clean@.len() > 0,
            parts@.len() == all.len(),
            forall|k: int| 0 <= k < parts@.len() ==> #[trigger] parts@[k]@ == all[k],
            forall|k: int| 0 <= k < all.len() ==> #[trigger] all[k] != ".."@,
            forall|k: int| 0 <= k < j ==> !bad_name_of(#[trigger] all[k]),
        decreases parts.len() - j,
    {
        assert(parts@[j as int]@ == all[j as int]);
        if bad_name(parts[j].as_slice()) {
            assert(bad_name_of(split_on(clean@, '/')[j as int]));
            return Err(TransferError::BadName);
        }
        j = j + 1;
    }
    Ok(string_of(clean.as_slice()))
}

/// The area the photos come from, when they all share one.
pub open spec fn source_area_of(areas: Seq<i32>) -> Option<i32> {
    if areas.len() > 0 && forall|i: int| 0 <= i < areas.len() ==> #[trigger] areas[i] == areas[0] {
        Some(areas[0])
    } else {
        None
    }
}

pub fn source_area(areas: &[i32]) -> (r: Option<i32>)
    ensures
        r == source_area_of(areas@),
{
    if areas.len() == 0 {
        return None;
    }
    let a = areas[0];
    let mut i: usize = 0;
    while i < areas.len()
        invariant
            i <= areas@.len(),
            areas@.len() > 0,
            a == areas@[0],
            forall|k: int| 0 <= k < i ==> areas@[k] == a,
        decreases areas.len() - i,
    {
        if areas[i] != a {
            return None;
        }
        i = i + 1;
    }
    Some(a)
}

/// A copy is a publication when asked for, or when photos all from My
/// Photos (area 1) are copied to a Shared library (area 2).
pub open spec fn publishes_of(requested: bool, source_area: Option<i32>, destination_area: i32, mode: Mode) -> bool {
    requested || (source_area == Some(1i32) && destination_area == 2 && mode == Mode::Copy)
}

pub fn publishes(requested: bool, source_area: Option<i32>, destination_area: i32, mode: Mode) -> (r: bool)
    ensures
        r == publishes_of(requested, source_area, destination_area, mode),
{
    requested || (source_area == Some(1i32) && destination_area == 2 && mode == Mode::Copy)
}

/// Areas that sync with the NAS: My Photos and Shared.
pub open spec fn syncs(area: i32) -> bool {
    area == 1 || area == 2
}

/// What the catalogue says of an earlier publication of the same bytes.
#[derive(Debug, Clone, Copy, PartialEq, Eq, Structural)]
pub enum Publication {
    /// None is recorded.
    Unpublished,
    /// One is recorded and the published file is there with the same hash.
    Valid,
    /// One is recorded but the file is gone or changed.
    Stale,
}

/// What the disk and the catalogue say of one photo.
#[derive(Debug, Clone)]
pub enum Probe {
    /// The source file is not on a mounted disk.
    SourceMissing,
    /// The source could not be read to hash it for a publication.
    SourceUnreadable,
    /// The source is there.
    Found {
        /// Its SHA-256, when the transfer publishes.
        sha256: Option<String>,
        publication: Publication,
        /// Whether the destination folder already has its name.
        wanted_exists: bool,
    },
}

/// One photo as the preview plans it.
#[derive(Debug, Clone)]
pub struct ItemFacts {
    pub id: i64,
    pub source_area: i32,
    /// Its path relative to its volume.
    pub vol_rel: String,
    pub name: String,
    pub probe: Probe,
}

/// `rel/name`, or `name` at the library root.
pub open spec fn under_rel(rel: Seq<char>, name: Seq<char>) -> Seq<char> {
    if rel.len() == 0 {
        name
    } else {
        rel + "/"@ + name
    }
}

fn under_rel_chars(rel: &[char], name: &[char]) -> (r: Vec<char>)
    ensures
        r@ == under_rel(rel@, name@),
{
    if rel.len() == 0 {
        slice_of(name, 0, name.len())
    } else {
        let slash = chars_of("/");
        let a = concat(rel, slash.as_slice());
        concat(a.as_slice(), name)
    }
}

/// The first number from `k` on, below 10,000, whose numbered name is
/// neither reserved in the batch (in lower case) nor present on disk.
pub open spec fn first_open(
    stem: Seq<char>,
    ext: Option<Seq<char>>,
    reserved: Seq<Seq<char>>,
    present: Seq<Seq<char>>,
    k: int,
) -> Option<int>
    decreases 10000 - k,
{
    if k >= 10000 {
        None
    } else if !holds(reserved, lowercase_of(numbered(stem, decimal(k as nat), ext))) && !holds(
        present,
        numbered(stem, decimal(k as nat), ext),
    ) {
        Some(k)
    } else {
        first_open(stem, ext, reserved, present, k + 1)
    }
}

/// A name for a photo whose planned name another photo of the batch took:
/// the first `stem (n).ext` free in the batch and on disk, else `stem (stamp).ext`.
pub open spec fn batch_free_name_of(
    name: Seq<char>,
    reserved: Seq<Seq<char>>,
    present: Seq<Seq<char>>,
    stamp: Seq<char>,
) -> Seq<char> {
    let (stem, ext) = stem_ext(name);
    match first_open(stem, ext, reserved, present, 2) {
        Some(n) => numbered(stem, decimal(n as nat), ext),
        None => numbered(stem, stamp, ext),
    }
}

fn batch_free_name(name: &[char], reserved: &[String], present: &[String], stamp: &[char]) -> (r: Vec<char>)
    ensures
        r@ == batch_free_name_of(name@, views(reserved@), views(present@), stamp@),
{
    let (stem, ext) = stem_ext_chars(name);
    let ghost ev: Option<Seq<char>> = match &ext {
        Some(e) => Some(e@),
        None => None,
    };
    let mut k: u64 = 2;
    while k < 10000
        invariant
            2 <= k <= 10000,
            stem@ == stem_ext(name@).0,
            ev == stem_ext(name@).1,
            ev == match ext {
                Some(e) => Some(e@),
                None => None::<Seq<char>>,
            },
            first_open(stem@, ev, views(reserved@), views(present@), 2) == first_open(
                stem@,
                ev,
                views(reserved@),
                views(present@),
                k as int,
            ),
        decreases 10000 - k,
    {
        let num = decimal_of(k);
        let cand = numbered_chars(stem.as_slice(), num.as_slice(), &ext);
        let low = lowercase_chars(cand.as_slice());
        if !holds_chars(reserved, low.as_slice()) && !holds_chars(present, cand.as_slice()) {
            return cand;
        }
        k = k + 1;
    }
    numbered_chars(stem.as_slice(), stamp, &ext)
}

/// The view of a planned item: id, source, destination, planned name,
/// conflict, action and source hash.
pub type ItemView = (i64, Seq<char>, Seq<char>, Seq<char>, Seq<char>, Seq<char>, Option<Seq<char>>);

pub open spec fn item_view(p: PreviewItem) -> ItemView {
    (
        p.id,
        p.source@,
        p.destination@,
        p.planned_name@,
        p.conflict@,
        p.action@,
        match p.source_sha256 {
            Some(h) => Some(h@),
            None => None,
        },
    )
}

/// The first plan of a found photo, before the batch is looked at: skip
/// what was published and is still there; else a clash with a file on
/// disk is skipped or renamed to a free name per the policy; a stale record
/// or no clash runs under the photo's own name.
pub open spec fn disk_plan_of(
    name: Seq<char>,
    publication: Publication,
    wanted_exists: bool,
    policy: ConflictPolicy,
    taken_lower: Seq<Seq<char>>,
    stamp: Seq<char>,
) -> (Seq<char>, Seq<char>, Seq<char>) {
    if publication == Publication::Valid {
        ("already_published"@, "skip"@, name)
    } else if wanted_exists {
        match policy {
            ConflictPolicy::Skip => ("name_exists"@, "skip"@, name),
            ConflictPolicy::Rename => ("name_exists"@, "rename"@, crate::names::free_name_of(name, taken_lower, stamp)),
        }
    } else if publication == Publication::Stale {
        ("stale_ledger"@, "run"@, name)
    } else {
        ("none"@, "run"@, name)
    }
}

/// The plan of one photo given the lower-cased names the batch has
/// reserved so far, and the names it reserves after: a name another photo
/// of the batch took is skipped or numbered per the policy; a photo that
/// does not skip reserves its planned name.
pub open spec fn plan_of(
    it: ItemFacts,
    rel: Seq<char>,
    policy: ConflictPolicy,
    present: Seq<Seq<char>>,
    taken_lower: Seq<Seq<char>>,
    stamp: Seq<char>,
    reserved: Seq<Seq<char>>,
) -> (ItemView, Seq<Seq<char>>) {
    match it.probe {
        Probe::SourceMissing => (
            (it.id, it.vol_rel@, under_rel(rel, it.name@), it.name@, "source_missing"@, "run"@, None),
            reserved,
        ),
        Probe::SourceUnreadable => (
            (it.id, it.vol_rel@, under_rel(rel, it.name@), it.name@, "source_unreadable"@, "run"@, None),
            reserved,
        ),
        Probe::Found { sha256, publication, wanted_exists } => {
            let (c0, a0, p0) = disk_plan_of(it.name@, publication, wanted_exists, policy, taken_lower, stamp);
            let clash = a0 != "skip"@ && holds(reserved, lowercase_of(p0));
            let (c1, a1, p1) = if clash {
                match policy {
                    ConflictPolicy::Skip => ("batch_name_exists"@, "skip"@, p0),
                    ConflictPolicy::Rename => (
                        "batch_name_exists"@,
                        "rename"@,
                        batch_free_name_of(p0, reserved, present, stamp),
                    ),
                }
            } else {
                (c0, a0, p0)
            };
            let reserved2 = if a1 != "skip"@ {
                reserved.push(lowercase_of(p1))
            } else {
                reserved
            };
            (
                (
                    it.id,
                    it.vol_rel@,
                    under_rel(rel, p1),
                    p1,
                    c1,
                    a1,
                    match sha256 {
                        Some(h) => Some(h@),
                        None => None,
                    },
                ),
                reserved2,
            )
        },
    }
}

/// The plans of the first `n` photos, and the names they reserve.
pub open spec fn plans_of(
    items: Seq<ItemFacts>,
    rel: Seq<char>,
    policy: ConflictPolicy,
    present: Seq<Seq<char>>,
    taken_lower: Seq<Seq<char>>,
    stamp: Seq<char>,
    n: int,
) -> (Seq<ItemView>, Seq<Seq<char>>)
    decreases n,
{
    if n <= 0 {
        (Seq::empty(), Seq::empty())
    } else {
        let (done, reserved) = plans_of(items, rel, policy, present, taken_lower, stamp, n - 1);
        let (v, reserved2) = plan_of(items[n - 1], rel, policy, present, taken_lower, stamp, reserved);
        (done.push(v), reserved2)
    }
}

fn copy_chars_string(s: &String) -> (r: String)
    ensures
        r@ == s@,
{
    let c = chars_of(s.as_str());
    string_of(c.as_slice())
}

fn lit(s: &str) -> (r: String)
    ensures
        r@ == s@,
{
    let c = chars_of(s);
    string_of(c.as_slice())
}

fn disk_plan(
    name: &[char],
    publication: Publication,
    wanted_exists: bool,
    policy: ConflictPolicy,
    taken_lower: &[String],
    stamp: &str,
) -> (r: (String, String, Vec<char>))
    ensures
        (r.0@, r.1@, r.2@) == disk_plan_of(name@, publication, wanted_exists, policy, views(taken_lower@), stamp@),
{
    if publication == Publication::Valid {
        (lit("already_published"), lit("skip"), slice_of(name, 0, name.len()))
    } else if wanted_exists {
        match policy {
            ConflictPolicy::Skip => (lit("name_exists"), lit("skip"), slice_of(name, 0, name.len())),
            ConflictPolicy::Rename => {
                let n = string_of(name);
                let f = crate::names::free_name(n.as_str(), taken_lower, stamp);
                (lit("name_exists"), lit("rename"), chars_of(f.as_str()))
            },
        }
    } else if publication == Publication::Stale {
        (lit("stale_ledger"), lit("run"), slice_of(name, 0, name.len()))
    } else {
        (lit("none"), lit("run"), slice_of(name, 0, name.len()))
    }
}

/// Plans one photo; `reserved` holds the lower-cased names the batch has
/// taken so far and gains this photo's name when it does not skip.
pub fn plan_item(
    it: &ItemFacts,
    rel: &str,
    policy: ConflictPolicy,
    present: &[String],
    taken_lower: &[String],
    stamp: &str,
    reserved: &mut Vec<String>,
) -> (r: PreviewItem)
    ensures
        (item_view(r), views(final(reserved)@)) == plan_of(
            *it,
            rel@,
            policy,
            views(present@),
            views(taken_lower@),
            stamp@,
            views(old(reserved)@),
        ),
{
    let rc = chars_of(rel);
    let name = chars_of(it.name.as_str());
    match &it.probe {
        Probe::SourceMissing => {
            let d = under_rel_chars(rc.as_slice(), name.as_slice());
            PreviewItem {
                id: it.id,
                source: copy_chars_string(&it.vol_rel),
                destination: string_of(d.as_slice()),
                planned_name: string_of(name.as_slice()),
                conflict: lit("source_missing"),
                action: lit("run"),
                source_sha256: None,
            }
        },
        Probe::SourceUnreadable => {
            let d = under_rel_chars(rc.as_slice(), name.as_slice());
            PreviewItem {
                id: it.id,
                source: copy_chars_string(&it.vol_rel),
                destination: string_of(d.as_slice()),
                planned_name: string_of(name.as_slice()),
                conflict: lit("source_unreadable"),
                action: lit("run"),
                source_sha256: None,
            }
        },
        Probe::Found { sha256, publication, wanted_exists } => {
            let (c0, a0, p0) = disk_plan(name.as_slice(), *publication, *wanted_exists, policy, taken_lower, stamp);
            let a0c = chars_of(a0.as_str());
            let skip0 = str_is("skip", a0c.as_slice());
            let key0 = lowercase_chars(p0.as_slice());
            let clash = !skip0 && holds_chars(reserved.as_slice(), key0.as_slice());
            let (c1, a1, p1) = if clash {
                match policy {
                    ConflictPolicy::Skip => (lit("batch_name_exists"), lit("skip"), p0),
                    ConflictPolicy::Rename => {
                        let st = chars_of(stamp);
                        let f = batch_free_name(p0.as_slice(), reserved.as_slice(), present, st.as_slice());
                        (lit("batch_name_exists"), lit("rename"), f)
                    },
                }
            } else {
                (c0, a0, p0)
            };
            let a1c = chars_of(a1.as_str());
            if !str_is("skip", a1c.as_slice()) {
                let key = lowercase_chars(p1.as_slice());
                let ghost before = views(reserved@);
                reserved.push(string_of(key.as_slice()));
                assert(views(reserved@) =~= before.push(lowercase_of(p1@)));
            }
            let d = under_rel_chars(rc.as_slice(), p1.as_slice());
            let sha = match sha256 {
                Some(h) => Some(copy_chars_string(h)),
                None => None,
            };
            PreviewItem {
                id: it.id,
                source: copy_chars_string(&it.vol_rel),
                destination: string_of(d.as_slice()),
                planned_name: string_of(p1.as_slice()),
                conflict: c1,
                action: a1,
                source_sha256: sha,
            }
        },
    }
}

/// The header and items of a preview: the mode, whether it publishes, the
/// common source area, the destination area, a sync warning when either
/// side syncs with the NAS, and the plan of every photo in order.
pub open spec fn preview_holds(
    p: Preview,
    request: Request,
    destination_area: i32,
    rel: Seq<char>,
    items: Seq<ItemFacts>,
    present: Seq<Seq<char>>,
    taken_lower: Seq<Seq<char>>,
    stamp: Seq<char>,
) -> bool {
    let areas = items.map_values(|it: ItemFacts| it.source_area);
    let sa = source_area_of(areas);
    &&& p.mode@ == match request.mode {
        Mode::Move => "move"@,
        Mode::Copy => "copy"@,
    }
    &&& p.publish == publishes_of(request.publish, sa, destination_area, request.mode)
    &&& p.source_area == sa
    &&& p.destination_area == destination_area
    &&& p.drive_sync_warning == ((sa is Some && syncs(sa->0)) || syncs(destination_area))
    &&& p.items@.map_values(|i: PreviewItem| item_view(i)) == plans_of(
        items,
        rel,
        request.conflict_policy,
        present,
        taken_lower,
        stamp,
        items.len() as int,
    ).0
}

/// The preview of a transfer into `rel` (already checked with
/// `validate_rel`) of a library of the given area. `items` are the photos in
/// id order with what the disk says of each, `present` the names in the
/// destination folder, `taken_lower` the same in lower case, and `stamp` the
/// tag for a name when every number is taken.
pub fn preview(
    request: &Request,
    destination_area: i32,
    rel: &str,
    items: &[ItemFacts],
    present: &[String],
    taken_lower: &[String],
    stamp: &str,
) -> (p: Preview)
    ensures
        preview_holds(p, *request, destination_area, rel@, items@, views(present@), views(taken_lower@), stamp@),
{
    let mut areas: Vec<i32> = Vec::new();
    let mut k: usize = 0;
    while k < items.len()
        invariant
            k <= items@.len(),
            areas@ == items@.subrange(0, k as int).map_values(|it: ItemFacts| it.source_area),
        decreases items.len() - k,
    {
        areas.push(items[k].source_area);
        k = k + 1;
        assert(areas@ =~= items@.subrange(0, k as int).map_values(|it: ItemFacts| it.source_area));
    }
    assert(items@.subrange(0, items@.len() as int) =~= items@);
    let sa = source_area(areas.as_slice());
    let publish = publishes(request.publish, sa, destination_area, request.mode);
    let mut out: Vec<PreviewItem> = Vec::new();
    let mut reserved: Vec<String> = Vec::new();
    let mut i: usize = 0;
    while i < items.len()
        invariant
            i <= items@.len(),
            (out@.map_values(|x: PreviewItem| item_view(x)), views(reserved@)) == plans_of(
                items@,
                rel@,
                request.conflict_policy,
                views(present@),
                views(taken_lower@),
                stamp@,
                i as int,
            ),
        decreases items.len() - i,
    {
        let ghost before = out@.map_values(|x: PreviewItem| item_view(x));
        let item = plan_item(&items[i], rel, request.conflict_policy, present, taken_lower, stamp, &mut reserved);
        out.push(item);
        assert(out@.map_values(|x: PreviewItem| item_view(x)) =~= before.push(item_view(item)));
        i = i + 1;
    }
    let mode = match request.mode {
        Mode::Move => lit("move"),
        Mode::Copy => lit("copy"),
    };
    let warn = match sa {
        Some(a) => a == 1 || a == 2,
        None => false,
    } || destination_area == 1 || destination_area == 2;
    Preview {
        mode,
        publish,
        source_area: sa,
        destination_area,
        drive_sync_warning: warn,
        items: out,
    }
}


proof fn lemma_first_open_free(
    stem: Seq<char>,
    ext: Option<Seq<char>>,
    reserved: Seq<Seq<char>>,
    present: Seq<Seq<char>>,
    k: int,
)
    ensures
        first_open(stem, ext, reserved, present, k) matches Some(m) ==> !holds(
            reserved,
            lowercase_of(numbered(stem, decimal(m as nat), ext)),
        ),
    decreases 10000 - k,
{
    if k < 10000 {
        lemma_first_open_free(stem, ext, reserved, present, k + 1);
    }
}

/// Whether the plan of photo `k` found the photo and does not skip it.
pub open spec fn found_and_runs(items: Seq<ItemFacts>, views: Seq<ItemView>, k: int) -> bool {
    items[k].probe is Found && views[k].5 != "skip"@
}

/// Whether photo `k` needed a name free in the batch and every numbered
/// name was taken, so that it fell back to the stamp.
pub open spec fn batch_fallback(
    items: Seq<ItemFacts>,
    rel: Seq<char>,
    policy: ConflictPolicy,
    present: Seq<Seq<char>>,
    taken_lower: Seq<Seq<char>>,
    stamp: Seq<char>,
    k: int,
) -> bool {
    let reserved = plans_of(items, rel, policy, present, taken_lower, stamp, k).1;
    match items[k].probe {
        Probe::Found { sha256, publication, wanted_exists } => {
            let (c0, a0, p0) = disk_plan_of(items[k].name@, publication, wanted_exists, policy, taken_lower, stamp);
            a0 != "skip"@ && holds(reserved, lowercase_of(p0)) && policy == ConflictPolicy::Rename
                && first_open(stem_ext(p0).0, stem_ext(p0).1, reserved, present, 2) is None
        },
        _ => false,
    }
}

proof fn lemma_plans_reserve(
    items: Seq<ItemFacts>,
    rel: Seq<char>,
    policy: ConflictPolicy,
    present: Seq<Seq<char>>,
    taken_lower: Seq<Seq<char>>,
    stamp: Seq<char>,
    n: int,
)
    requires
        0 <= n <= items.len(),
        forall|k: int| 0 <= k < n ==> !#[trigger] batch_fallback(items, rel, policy, present, taken_lower, stamp, k),
    ensures
        plans_of(items, rel, policy, present, taken_lower, stamp, n).0.len() == n,
        forall|k: int|
            0 <= k < n && #[trigger] found_and_runs(items, plans_of(items, rel, policy, present, taken_lower, stamp, n).0, k)
                ==> holds(
                plans_of(items, rel, policy, present, taken_lower, stamp, n).1,
                lowercase_of(plans_of(items, rel, policy, present, taken_lower, stamp, n).0[k].3),
            ),
        forall|i: int, j: int|
            0 <= i < j < n && found_and_runs(items, plans_of(items, rel, policy, present, taken_lower, stamp, n).0, i)
                && found_and_runs(items, plans_of(items, rel, policy, present, taken_lower, stamp, n).0, j) ==> lowercase_of(
                #[trigger] plans_of(items, rel, policy, present, taken_lower, stamp, n).0[i].3,
            ) != lowercase_of(#[trigger] plans_of(items, rel, policy, present, taken_lower, stamp, n).0[j].3),
    decreases n,
{
    if n > 0 {
        lemma_plans_reserve(items, rel, policy, present, taken_lower, stamp, n - 1);
        let (done, reserved) = plans_of(items, rel, policy, present, taken_lower, stamp, n - 1);
        let (v, reserved2) = plan_of(items[n - 1], rel, policy, present, taken_lower, stamp, reserved);
        let all = plans_of(items, rel, policy, present, taken_lower, stamp, n);
        assert(all.0 == done.push(v));
        assert(all.1 == reserved2);
        assert(!batch_fallback(items, rel, policy, present, taken_lower, stamp, n - 1));
        // what the newest photo adds
        let fresh = found_and_runs(items, all.0, n - 1) ==> !holds(reserved, lowercase_of(v.3))
            && reserved2 == reserved.push(lowercase_of(v.3));
        assert(fresh) by {
            match items[n - 1].probe {
                Probe::Found { sha256, publication, wanted_exists } => {
                    let (c0, a0, p0) = disk_plan_of(items[n - 1].name@, publication, wanted_exists, policy, taken_lower, stamp);
                    let (stem, ext) = stem_ext(p0);
                    lemma_first_open_free(stem, ext, reserved, present, 2);
                },
                _ => {},
            }
        }
        let unchanged = !found_and_runs(items, all.0, n - 1) ==> reserved2 == reserved;
        assert(unchanged) by {
            match items[n - 1].probe {
                Probe::Found { sha256, publication, wanted_exists } => {},
                _ => {},
            }
        }
        assert forall|k: int|
            0 <= k < n && #[trigger] found_and_runs(items, all.0, k) implies holds(all.1, lowercase_of(all.0[k].3)) by {
            if k < n - 1 {
                assert(all.0[k] == done[k]);
                assert(found_and_runs(items, done, k));
                let w = choose|w: int| 0 <= w < reserved.len() && reserved[w] == lowercase_of(done[k].3);
                if found_and_runs(items, all.0, n - 1) {
                    assert(reserved2[w] == reserved[w]);
                }
            } else {
                assert(all.0[k] == v);
                assert(reserved2[reserved.len() as int] == lowercase_of(v.3));
            }
        }
        assert forall|i: int, j: int|
            0 <= i < j < n && found_and_runs(items, all.0, i) && found_and_runs(items, all.0, j) implies lowercase_of(
                #[trigger] all.0[i].3,
            ) != lowercase_of(#[trigger] all.0[j].3) by {
            assert(all.0[i] == done[i]);
            assert(found_and_runs(items, done, i));
            if j < n - 1 {
                assert(all.0[j] == done[j]);
                assert(found_and_runs(items, done, j));
            } else {
                assert(all.0[j] == v);
                assert(holds(reserved, lowercase_of(done[i].3)));
            }
        }
    }
}

/// No two photos of a batch run under the same name, compared without
/// regard to case: each photo found on disk that does not skip takes a
/// name that no earlier such photo took — unless every numbered name was
/// taken and it fell back to the stamp.
pub proof fn lemma_batch_names_distinct(
    items: Seq<ItemFacts>,
    rel: Seq<char>,
    policy: ConflictPolicy,
    present: Seq<Seq<char>>,
    taken_lower: Seq<Seq<char>>,
    stamp: Seq<char>,
    i: int,
    j: int,
)
    requires
        forall|k: int|
            0 <= k < items.len() ==> !#[trigger] batch_fallback(items, rel, policy, present, taken_lower, stamp, k),
        0 <= i < j < items.len(),
        found_and_runs(items, plans_of(items, rel, policy, present, taken_lower, stamp, items.len() as int).0, i),
        found_and_runs(items, plans_of(items, rel, policy, present, taken_lower, stamp, items.len() as int).0, j),
    ensures
        lowercase_of(plans_of(items, rel, policy, present, taken_lower, stamp, items.len() as int).0[i].3)
            != lowercase_of(plans_of(items, rel, policy, present, taken_lower, stamp, items.len() as int).0[j].3),
{
    lemma_plans_reserve(items, rel, policy, present, taken_lower, stamp, items.len() as int);
}


/// The kind of batch a transfer opens: a publication, a copy or a move.
pub open spec fn batch_kind_of(publish: bool, mode: Mode) -> Seq<char> {
    if publish {
        "publish"@
    } else if mode == Mode::Copy {
        "copy"@
    } else {
        "move"@
    }
}

pub fn batch_kind(publish: bool, mode: Mode) -> (r: String)
    ensures
        r@ == batch_kind_of(publish, mode),
{
    if publish {
        lit("publish")
    } else if mode == Mode::Copy {
        lit("copy")
    } else {
        lit("move")
    }
}

/// Whether a plan still fits the photos at execution: as many different
/// photos planned as there are photos now, and every photo planned.
pub open spec fn plan_fits_of(plan_ids: Seq<i64>, item_ids: Seq<i64>) -> bool {
    plan_ids.to_set().len() == item_ids.len() && forall|i: int| 0 <= i < item_ids.len() ==> plan_ids.contains(#[trigger] item_ids[i])
}

pub fn plan_fits(plan_ids: &[i64], item_ids: &[i64]) -> (r: bool)
    ensures
        r == plan_fits_of(plan_ids@, item_ids@),
{
    let distinct = crate::organize::libraries_of(plan_ids);
    proof {
        let d = distinct@;
        assert(d.no_duplicates()) by {
            assert forall|a: int, b: int| 0 <= a < d.len() && 0 <= b < d.len() && a != b implies d[a] != d[b] by {
                if a < b {
                    assert(d[a] < d[b]);
                } else {
                    assert(d[b] < d[a]);
                }
            }
        }
        d.unique_seq_to_set();
    }
    if distinct.len() != item_ids.len() {
        return false;
    }
    let mut i: usize = 0;
    while i < item_ids.len()
        invariant
            i <= item_ids@.len(),
            plan_ids@.to_set().len() == item_ids@.len(),
            forall|k: int| 0 <= k < i ==> plan_ids@.contains(#[trigger] item_ids@[k]),
        decreases item_ids.len() - i,
    {
        let mut found = false;
        let mut j: usize = 0;
        while j < plan_ids.len()
            invariant
                j <= plan_ids@.len(),
                i < item_ids@.len(),
                found == exists|m: int| 0 <= m < j && plan_ids@[m] == item_ids@[i as int],
            decreases plan_ids.len() - j,
        {
            if plan_ids[j] == item_ids[i] {
                found = true;
            }
            j = j + 1;
        }
        if !found {
            assert(!plan_ids@.contains(item_ids@[i as int]));
            return false;
        }
        i = i + 1;
    }
    true
}

/// Counts a photo the plan skips; one already published counts twice.
pub fn count_skipped(out: &mut TransferOutcome, conflict: &str)
    requires
        old(out).skipped < usize::MAX,
        old(out).already_published < usize::MAX,
    ensures
        final(out).skipped == old(out).skipped + 1,
        final(out).already_published == old(out).already_published + if conflict@ == "already_published"@ {
            1int
        } else {
            0int
        },
        final(out).completed == old(out).completed && final(out).failed == old(out).failed,
        final(out).bytes == old(out).bytes && final(out).first_error == old(out).first_error,
        final(out).failed_ids@ == old(out).failed_ids@ && final(out).batch_id == old(out).batch_id,
{
    out.skipped = out.skipped + 1;
    if str_is("already_published", chars_of(conflict).as_slice()) {
        out.already_published = out.already_published + 1;
    }
}

/// Counts a photo moved or copied, with its size.
pub fn count_done(out: &mut TransferOutcome, size: i64)
    requires
        old(out).completed < usize::MAX,
        i64::MIN <= old(out).bytes + size <= i64::MAX,
    ensures
        final(out).completed == old(out).completed + 1,
        final(out).bytes == old(out).bytes + size,
        final(out).failed == old(out).failed && final(out).skipped == old(out).skipped,
        final(out).already_published == old(out).already_published,
        final(out).first_error == old(out).first_error && final(out).failed_ids@ == old(out).failed_ids@,
        final(out).batch_id == old(out).batch_id,
{
    out.completed = out.completed + 1;
    out.bytes = out.bytes + size;
}

/// Counts a photo that failed: its id is kept, and its reason when it is the first.
pub fn count_failed(out: &mut TransferOutcome, id: i64, reason: String)
    requires
        old(out).failed < usize::MAX,
    ensures
        final(out).failed == old(out).failed + 1,
        final(out).failed_ids@ == old(out).failed_ids@.push(id),
        final(out).first_error == match old(out).first_error {
            Some(f) => Some(f),
            None => Some(reason),
        },
        final(out).completed == old(out).completed && final(out).skipped == old(out).skipped,
        final(out).already_published == old(out).already_published && final(out).bytes == old(out).bytes,
        final(out).batch_id == old(out).batch_id,
{
    out.failed = out.failed + 1;
    out.failed_ids.push(id);
    if out.first_error.is_none() {
        out.first_error = Some(reason);
    }
}

/// The hidden name a copy is written under before it takes its own:
/// `.<name>.photo-desk-copy.tmp`.
pub open spec fn copy_temp_name_of(name: Seq<char>) -> Seq<char> {
    "."@ + name + ".photo-desk-copy.tmp"@
}

pub fn copy_temp_name(name: &str) -> (r: String)
    ensures
        r@ == copy_temp_name_of(name@),
{
    let a = concat(chars_of(".").as_slice(), chars_of(name).as_slice());
    string_of(concat(a.as_slice(), chars_of(".photo-desk-copy.tmp").as_slice()).as_slice())
}

/// Why a copy was refused after it was made: the planned hash no longer
/// matches (the source changed since the preview), or the copy differs
/// from the source.
pub open spec fn copy_mismatch_of(planned_hash: bool) -> Seq<char> {
    if planned_hash {
        "미리보기 뒤 원본 내용이 바뀌었습니다. 다시 미리보기 하세요"@
    } else {
        "사본 SHA-256이 원본과 다릅니다"@
    }
}

pub fn copy_mismatch(planned_hash: bool) -> (r: String)
    ensures
        r@ == copy_mismatch_of(planned_hash),
{
    if planned_hash {
        lit("미리보기 뒤 원본 내용이 바뀌었습니다. 다시 미리보기 하세요")
    } else {
        lit("사본 SHA-256이 원본과 다릅니다")
    }
}

/// The hidden name a copy is set aside under before an undo deletes it:
/// `.<name>.photo-desk-undo-<batch>.tmp`.
pub open spec fn undo_temp_name_of(name: Seq<char>, batch_id: i64) -> Seq<char> {
    "."@ + name + ".photo-desk-undo-"@ + crate::text::signed_decimal(batch_id as int) + ".tmp"@
}

pub fn undo_temp_name(name: &str, batch_id: i64) -> (r: String)
    ensures
        r@ == undo_temp_name_of(name@, batch_id),
{
    let a = concat(chars_of(".").as_slice(), chars_of(name).as_slice());
    let b = concat(a.as_slice(), chars_of(".photo-desk-undo-").as_slice());
    let c = concat(b.as_slice(), crate::text::signed_decimal_of(batch_id).as_slice());
    string_of(concat(c.as_slice(), chars_of(".tmp").as_slice()).as_slice())
}

/// A file a copy made: the copy itself or one of its sidecars, with the
/// size and hash it had when made.
#[derive(Debug, Clone)]
pub struct Artifact {
    pub volume: String,
    pub path: String,
    pub size: u64,
    pub sha256: String,
}

/// Why a copy is not undone.
#[derive(Debug, Clone, PartialEq, Eq)]
pub enum UndoCopyError {
    /// An old copy without a recorded hash.
    NoHash,
    /// An old copy whose sidecars were not recorded.
    UnrecordedSidecars,
    /// The disk of a copy is not connected.
    NotMounted,
    /// A copy is gone.
    Missing(String),
    /// A copy could not be read to hash it.
    Unreadable(String),
    /// A copy changed since it was made.
    Changed(String),
}

/// An undo error as a plain value: its kind and the text it carries.
pub open spec fn undo_error_view(e: UndoCopyError) -> (nat, Seq<char>) {
    match e {
        UndoCopyError::NoHash => (0, Seq::empty()),
        UndoCopyError::UnrecordedSidecars => (1, Seq::empty()),
        UndoCopyError::NotMounted => (2, Seq::empty()),
        UndoCopyError::Missing(p) => (3, p@),
        UndoCopyError::Unreadable(e) => (4, e@),
        UndoCopyError::Changed(p) => (5, p@),
    }
}

/// The reason an undo error is shown with.
pub open spec fn undo_message_of(e: UndoCopyError) -> Seq<char> {
    match e {
        UndoCopyError::NoHash => "사본의 원래 SHA-256 기록이 없어 지우지 않았습니다"@,
        UndoCopyError::UnrecordedSidecars => "0.9.0 사본의 사이드카 경로 기록이 없어 안전하게 되돌릴 수 없습니다"@,
        UndoCopyError::NotMounted => "사본 디스크가 연결되어 있지 않습니다"@,
        UndoCopyError::Missing(p) => "되돌릴 사본이 없습니다: "@ + p@,
        UndoCopyError::Unreadable(e) => "되돌릴 사본의 해시를 읽다가 실패했습니다: "@ + e@,
        UndoCopyError::Changed(p) => "사본 내용이 작업 뒤 바뀌어 지우지 않았습니다: "@ + p@,
    }
}

impl UndoCopyError {
    /// The reason as shown.
    pub fn message(&self) -> (r: String)
        ensures
            r@ == undo_message_of(*self),
    {
        match self {
            UndoCopyError::NoHash => lit("사본의 원래 SHA-256 기록이 없어 지우지 않았습니다"),
            UndoCopyError::UnrecordedSidecars => lit("0.9.0 사본의 사이드카 경로 기록이 없어 안전하게 되돌릴 수 없습니다"),
            UndoCopyError::NotMounted => lit("사본 디스크가 연결되어 있지 않습니다"),
            UndoCopyError::Missing(p) => string_of(concat(chars_of("되돌릴 사본이 없습니다: ").as_slice(), chars_of(p.as_str()).as_slice()).as_slice()),
            UndoCopyError::Unreadable(e) => string_of(concat(chars_of("되돌릴 사본의 해시를 읽다가 실패했습니다: ").as_slice(), chars_of(e.as_str()).as_slice()).as_slice()),
            UndoCopyError::Changed(p) => string_of(concat(chars_of("사본 내용이 작업 뒤 바뀌어 지우지 않았습니다: ").as_slice(), chars_of(p.as_str()).as_slice()).as_slice()),
        }
    }
}

pub open spec fn artifact_view(a: Artifact) -> (Seq<char>, Seq<char>, u64, Seq<char>) {
    (a.volume@, a.path@, a.size, a.sha256@)
}

/// The files to delete when undoing one copy: those its manifest recorded;
/// for an old copy without a manifest, the copy alone with the hash of its
/// catalogue row (and its size) — refused without that hash, or when
/// sidecars sit beside it that nothing recorded.
pub fn undo_artifacts(
    recorded: Vec<Artifact>,
    volume: &str,
    path: &str,
    size: u64,
    expected: Option<&str>,
    has_sidecars: bool,
) -> (r: Result<Vec<Artifact>, UndoCopyError>)
    ensures
        recorded@.len() > 0 ==> (r matches Ok(v) && v@ == recorded@),
        recorded@.len() == 0 && expected is None ==> r == Err::<Vec<Artifact>, UndoCopyError>(UndoCopyError::NoHash),
        recorded@.len() == 0 && expected is Some && has_sidecars ==> r == Err::<Vec<Artifact>, UndoCopyError>(
            UndoCopyError::UnrecordedSidecars,
        ),
        recorded@.len() == 0 && expected is Some && !has_sidecars ==> (r matches Ok(v) && v@.len() == 1
            && artifact_view(v@[0]) == (volume@, path@, size, expected->0@)),
{
    if recorded.len() > 0 {
        return Ok(recorded);
    }
    let h = match expected {
        None => return Err(UndoCopyError::NoHash),
        Some(h) => h,
    };
    if has_sidecars {
        return Err(UndoCopyError::UnrecordedSidecars);
    }
    let mut v: Vec<Artifact> = Vec::new();
    v.push(Artifact { volume: lit(volume), path: lit(path), size, sha256: lit(h) });
    Ok(v)
}

/// What the disk says of a file a copy made.
#[derive(Debug, Clone)]
pub enum ArtifactProbe {
    NotMounted,
    Missing,
    Unreadable(String),
    /// The file is there, with this size and hash now.
    Found { size: u64, sha256: String },
}

/// The error one artifact stops an undo with, if any.
pub open spec fn artifact_error_of(a: Artifact, p: ArtifactProbe) -> Option<(nat, Seq<char>)> {
    match p {
        ArtifactProbe::NotMounted => Some((2, Seq::empty())),
        ArtifactProbe::Missing => Some((3, a.path@)),
        ArtifactProbe::Unreadable(e) => Some((4, e@)),
        ArtifactProbe::Found { size, sha256 } => if size != a.size || sha256@ != a.sha256@ {
            Some((5, a.path@))
        } else {
            None
        },
    }
}

/// Whether the files of a copy may be deleted: each there with the size and
/// SHA-256 it had when made.
/// The first that is not stops the undo of that copy.
pub fn check_artifacts(arts: &[Artifact], probes: &[ArtifactProbe]) -> (r: Result<(), UndoCopyError>)
    requires
        probes@.len() == arts@.len(),
    ensures
        r is Ok <==> forall|k: int| 0 <= k < arts@.len() ==> artifact_error_of(arts@[k], #[trigger] probes@[k]) is None,
        r matches Err(e) ==> exists|k: int|
            0 <= k < arts@.len() && artifact_error_of(arts@[k], #[trigger] probes@[k]) == Some(undo_error_view(e)) && forall|j: int|
                0 <= j < k ==> artifact_error_of(arts@[j], #[trigger] probes@[j]) is None,
{
    let mut i: usize = 0;
    while i < arts.len()
        invariant
            i <= arts@.len(),
            probes@.len() == arts@.len(),
            forall|j: int| 0 <= j < i ==> artifact_error_of(arts@[j], #[trigger] probes@[j]) is None,
        decreases arts.len() - i,
    {
        match &probes[i] {
            ArtifactProbe::NotMounted => {
                assert(artifact_error_of(arts@[i as int], probes@[i as int]) is Some);
                return Err(UndoCopyError::NotMounted);
            },
            ArtifactProbe::Missing => {
                assert(artifact_error_of(arts@[i as int], probes@[i as int]) is Some);
                return Err(UndoCopyError::Missing(lit(arts[i].path.as_str())));
            },
            ArtifactProbe::Unreadable(e) => {
                assert(artifact_error_of(arts@[i as int], probes@[i as int]) is Some);
                return Err(UndoCopyError::Unreadable(lit(e.as_str())));
            },
            ArtifactProbe::Found { size, sha256 } => {
                if *size != arts[i].size || !crate::text::chars_eq(
                    chars_of(sha256.as_str()).as_slice(),
                    chars_of(arts[i].sha256.as_str()).as_slice(),
                ) {
                    assert(artifact_error_of(arts@[i as int], probes@[i as int]) is Some);
                    return Err(UndoCopyError::Changed(lit(arts[i].path.as_str())));
                }
            },
        }
        i = i + 1;
    }
    Ok(())
}

/// What undoing one copy deletes: the place of each file the copy made, in
/// order, when every one of them is there unchanged (size and SHA-256);
/// otherwise the first reason it is kept, and nothing is deleted.
pub fn copy_undo_plan(arts: &[Artifact], probes: &[ArtifactProbe]) -> (r: Result<Vec<(String, String)>, UndoCopyError>)
    requires
        probes@.len() == arts@.len(),
    ensures
        r is Ok <==> forall|k: int| 0 <= k < arts@.len() ==> artifact_error_of(arts@[k], #[trigger] probes@[k]) is None,
        r matches Ok(v) ==> v@.len() == arts@.len() && forall|k: int|
            0 <= k < v@.len() ==> (#[trigger] v@[k]).0@ == arts@[k].volume@ && v@[k].1@ == arts@[k].path@,
        r matches Err(e) ==> exists|k: int|
            0 <= k < arts@.len() && artifact_error_of(arts@[k], #[trigger] probes@[k]) == Some(undo_error_view(e)) && forall|j: int|
                0 <= j < k ==> artifact_error_of(arts@[j], #[trigger] probes@[j]) is None,
{
    match check_artifacts(arts, probes) {
        Err(e) => Err(e),
        Ok(()) => {
            let mut v: Vec<(String, String)> = Vec::new();
            let mut i: usize = 0;
            while i < arts.len()
                invariant
                    i <= arts@.len(),
                    v@.len() == i,
                    forall|k: int| 0 <= k < i ==> (#[trigger] v@[k]).0@ == arts@[k].volume@ && v@[k].1@ == arts@[k].path@,
                decreases arts.len() - i,
            {
                v.push((lit(arts[i].volume.as_str()), lit(arts[i].path.as_str())));
                i = i + 1;
            }
            Ok(v)
        },
    }
}

/// What execution does with one photo of the plan, in this order: a planned
/// skip is counted and left; a photo already at its destination path is
/// done; a destination name that appeared since the preview, or (moving) a
/// name the destination's catalogue holds for another photo, fails it;
/// otherwise it is moved or copied.
#[derive(Debug, Clone, Copy, PartialEq, Eq, Structural)]
pub enum ExecStep {
    Skip,
    InPlace,
    NameAppeared,
    Occupied,
    Go,
}

pub open spec fn exec_step_of(plan_skips: bool, same_path: bool, target_exists: bool, mode: Mode, occupied: bool) -> ExecStep {
    if plan_skips {
        ExecStep::Skip
    } else if same_path {
        ExecStep::InPlace
    } else if target_exists {
        ExecStep::NameAppeared
    } else if mode == Mode::Move && occupied {
        ExecStep::Occupied
    } else {
        ExecStep::Go
    }
}

pub fn exec_step(plan_skips: bool, same_path: bool, target_exists: bool, mode: Mode, occupied: bool) -> (r: ExecStep)
    ensures
        r == exec_step_of(plan_skips, same_path, target_exists, mode, occupied),
{
    if plan_skips {
        ExecStep::Skip
    } else if same_path {
        ExecStep::InPlace
    } else if target_exists {
        ExecStep::NameAppeared
    } else if mode == Mode::Move && occupied {
        ExecStep::Occupied
    } else {
        ExecStep::Go
    }
}

/// The reason a photo fails at execution, for the steps that fail.
pub open spec fn exec_failure_of(step: ExecStep, planned_name: Seq<char>) -> Option<Seq<char>> {
    match step {
        ExecStep::NameAppeared => Some("실행 직전 같은 이름이 생겼습니다: "@ + planned_name),
        ExecStep::Occupied => Some("목적지 DB에 같은 이름 기록이 있습니다: "@ + planned_name),
        _ => None,
    }
}

pub fn exec_failure(step: ExecStep, planned_name: &str) -> (r: Option<String>)
    ensures
        match r {
            Some(m) => exec_failure_of(step, planned_name@) == Some(m@),
            None => exec_failure_of(step, planned_name@) is None,
        },
{
    let head = match step {
        ExecStep::NameAppeared => chars_of("실행 직전 같은 이름이 생겼습니다: "),
        ExecStep::Occupied => chars_of("목적지 DB에 같은 이름 기록이 있습니다: "),
        _ => return None,
    };
    Some(string_of(concat(head.as_slice(), chars_of(planned_name).as_slice()).as_slice()))
}

/// The outcome when none of the chosen photos is left to transfer: no batch.
pub fn nothing_to_transfer() -> (o: TransferOutcome)
    ensures
        o.batch_id == 0 && o.completed == 0 && o.failed == 0 && o.skipped == 0,
        o.already_published == 0 && o.bytes == 0 && o.failed_ids@.len() == 0,
        o.first_error matches Some(m) && m@ == "옮기거나 복사할 사진이 없습니다"@,
{
    TransferOutcome {
        batch_id: 0,
        completed: 0,
        failed: 0,
        skipped: 0,
        already_published: 0,
        bytes: 0,
        first_error: Some(lit("옮기거나 복사할 사진이 없습니다")),
        failed_ids: Vec::new(),
    }
}

/// The refusal of an execution whose plan no longer fits the photos.
pub open spec fn stale_plan_message_of() -> Seq<char> {
    "실행 계획과 현재 사진 목록이 달라졌습니다. 다시 미리보기 하세요"@
}

pub fn stale_plan_message() -> (r: String)
    ensures
        r@ == stale_plan_message_of(),
{
    lit("실행 계획과 현재 사진 목록이 달라졌습니다. 다시 미리보기 하세요")
}

/// A destination folder row already registered to another library is not
/// taken over.
pub open spec fn foreign_folder_of(owner: i64, library_id: i64) -> Option<Seq<char>> {
    if owner != library_id {
        Some("목적지 폴더가 이미 다른 라이브러리에 속해 있습니다"@)
    } else {
        None
    }
}

pub fn foreign_folder(owner: i64, library_id: i64) -> (r: Option<String>)
    ensures
        match r {
            Some(m) => foreign_folder_of(owner, library_id) == Some(m@),
            None => foreign_folder_of(owner, library_id) is None,
        },
{
    if owner != library_id {
        Some(lit("목적지 폴더가 이미 다른 라이브러리에 속해 있습니다"))
    } else {
        None
    }
}

/// One photo of a transfer as execution finds it.
#[derive(Debug, Clone)]
pub struct ExecFacts {
    pub id: i64,
    pub size: i64,
    /// The plan skips it.
    pub plan_skips: bool,
    /// The plan's conflict for it.
    pub conflict: String,
    pub planned_name: String,
    /// Its path is already its destination path.
    pub same_path: bool,
    /// The destination path exists now.
    pub target_exists: bool,
    /// The destination folder's catalogue holds its planned name for another photo.
    pub occupied: bool,
}

/// Counts so far: skipped, already published, completed, bytes, failed,
/// failed ids, first error, and the positions of the photos to transfer.
pub type ExecTally = (int, int, int, int, int, Seq<i64>, Option<Seq<char>>, Seq<int>);

pub open spec fn exec_step_for(it: ExecFacts, mode: Mode) -> ExecStep {
    exec_step_of(it.plan_skips, it.same_path, it.target_exists, mode, it.occupied)
}

/// What execution does with the first `n` photos, in order.
pub open spec fn exec_fold(items: Seq<ExecFacts>, mode: Mode, n: int) -> ExecTally
    decreases n,
{
    if n <= 0 {
        (0, 0, 0, 0, 0, Seq::empty(), None, Seq::empty())
    } else {
        let t = exec_fold(items, mode, n - 1);
        let it = items[n - 1];
        let step = exec_step_for(it, mode);
        if step == ExecStep::Skip {
            (t.0 + 1, t.1 + if it.conflict@ == "already_published"@ {
                1int
            } else {
                0int
            }, t.2, t.3, t.4, t.5, t.6, t.7)
        } else if step == ExecStep::InPlace {
            (t.0, t.1, t.2 + 1, t.3 + it.size, t.4, t.5, t.6, t.7)
        } else if step == ExecStep::Go {
            (t.0, t.1, t.2, t.3, t.4, t.5, t.6, t.7.push(n - 1))
        } else {
            (t.0, t.1, t.2, t.3, t.4 + 1, t.5.push(it.id), match t.6 {
                Some(e) => Some(e),
                None => exec_failure_of(step, it.planned_name@),
            }, t.7)
        }
    }
}

proof fn lemma_exec_fold_bounds(items: Seq<ExecFacts>, mode: Mode, n: int, m: int)
    requires
        0 <= m <= n <= items.len(),
        forall|k: int| 0 <= k < items.len() ==> items[k].size >= 0,
    ensures
        0 <= exec_fold(items, mode, m).0 <= m,
        0 <= exec_fold(items, mode, m).1 <= m,
        0 <= exec_fold(items, mode, m).2 <= m,
        0 <= exec_fold(items, mode, m).4 <= m,
        0 <= exec_fold(items, mode, m).3 <= exec_fold(items, mode, n).3,
    decreases n,
{
    if n > 0 {
        if m < n {
            lemma_exec_fold_bounds(items, mode, n - 1, m);
        } else {
            lemma_exec_fold_bounds(items, mode, n - 1, n - 1);
        }
    }
}

/// Runs the per-photo checks of a transfer's execution over the photos in
/// plan order: a planned skip is counted (and counted as already published
/// when that was its conflict); a photo already in place counts as done; a
/// name that appeared, or (moving) a name the destination catalogue holds,
/// fails it. Gives the positions of the photos to move or copy, and the
/// outcome so far; `settle_transfer` counts what happened to them.
pub fn transfer_plan(batch_id: i64, items: &[ExecFacts], mode: Mode) -> (r: (Vec<usize>, TransferOutcome))
    requires
        forall|k: int| 0 <= k < items@.len() ==> items@[k].size >= 0,
        exec_fold(items@, mode, items@.len() as int).3 <= i64::MAX,
    ensures
        ({
            let t = exec_fold(items@, mode, items@.len() as int);
            &&& r.0@.map_values(|x: usize| x as int) == t.7
            &&& r.1.batch_id == batch_id && r.1.skipped == t.0 && r.1.already_published == t.1
            &&& r.1.completed == t.2 && r.1.bytes == t.3 && r.1.failed == t.4
            &&& r.1.failed_ids@ == t.5 && crate::trash::error_view(r.1.first_error) == t.6
        }),
{
    let n = items.len();
    let mut out = TransferOutcome {
        batch_id,
        completed: 0,
        failed: 0,
        skipped: 0,
        already_published: 0,
        bytes: 0,
        first_error: None,
        failed_ids: Vec::new(),
    };
    let mut go: Vec<usize> = Vec::new();
    let mut i: usize = 0;
    while i < n
        invariant
            i <= n,
            n == items@.len(),
            forall|k: int| 0 <= k < items@.len() ==> items@[k].size >= 0,
            exec_fold(items@, mode, n as int).3 <= i64::MAX,
            ({
                let t = exec_fold(items@, mode, i as int);
                &&& go@.map_values(|x: usize| x as int) == t.7
                &&& out.batch_id == batch_id && out.skipped == t.0 && out.already_published == t.1
                &&& out.completed == t.2 && out.bytes == t.3 && out.failed == t.4
                &&& out.failed_ids@ == t.5 && crate::trash::error_view(out.first_error) == t.6
            }),
        decreases n - i,
    {
        proof {
            lemma_exec_fold_bounds(items@, mode, n as int, i as int);
            lemma_exec_fold_bounds(items@, mode, n as int, i + 1);
        }
        let it = &items[i];
        let step = exec_step(it.plan_skips, it.same_path, it.target_exists, mode, it.occupied);
        match step {
            ExecStep::Skip => {
                count_skipped(&mut out, it.conflict.as_str());
            },
            ExecStep::InPlace => {
                count_done(&mut out, it.size);
            },
            ExecStep::Go => {
                let ghost before = go@;
                go.push(i);
                assert(go@.map_values(|x: usize| x as int) =~= before.map_values(|x: usize| x as int).push(i as int));
            },
            _ => {
                let m = match exec_failure(step, it.planned_name.as_str()) {
                    Some(m) => m,
                    None => lit(""),
                };
                count_failed(&mut out, it.id, m);
            },
        }
        i = i + 1;
    }
    (go, out)
}

/// Counts what happened to the photos moved or copied: each success as
/// completed with its size, each failure as failed with its id, keeping the
/// first reason.
pub fn settle_transfer(out: &mut TransferOutcome, ids: &[i64], sizes: &[i64], results: &[Option<String>])
    requires
        ids@.len() == sizes@.len(),
        ids@.len() == results@.len(),
        forall|k: int| 0 <= k < sizes@.len() ==> sizes@[k] >= 0,
        old(out).completed + ids@.len() <= usize::MAX,
        old(out).failed + ids@.len() <= usize::MAX,
        old(out).bytes >= 0,
        old(out).bytes + crate::trash::done_bytes(sizes@, crate::trash::result_views(results@), ids@.len() as int)
            <= i64::MAX,
    ensures
        final(out).completed == old(out).completed + crate::trash::successes(
            crate::trash::result_views(results@),
            ids@.len() as int,
        ),
        final(out).failed == old(out).failed + (ids@.len() - crate::trash::successes(
            crate::trash::result_views(results@),
            ids@.len() as int,
        )),
        final(out).bytes == old(out).bytes + crate::trash::done_bytes(
            sizes@,
            crate::trash::result_views(results@),
            ids@.len() as int,
        ),
        final(out).failed_ids@ == old(out).failed_ids@ + crate::trash::failed_result_ids(
            ids@,
            crate::trash::result_views(results@),
            true,
            ids@.len() as int,
        ),
        crate::trash::error_view(final(out).first_error) == match old(out).first_error {
            Some(f) => Some(f@),
            None => crate::trash::first_failure(crate::trash::result_views(results@), ids@.len() as int),
        },
        final(out).batch_id == old(out).batch_id && final(out).skipped == old(out).skipped,
        final(out).already_published == old(out).already_published,
{
    let ghost r = crate::trash::result_views(results@);
    let ghost o = *out;
    let n = ids.len();
    let mut i: usize = 0;
    while i < n
        invariant
            i <= n,
            n == ids@.len(),
            ids@.len() == sizes@.len(),
            ids@.len() == results@.len(),
            r == crate::trash::result_views(results@),
            forall|k: int| 0 <= k < sizes@.len() ==> sizes@[k] >= 0,
            o.completed + n <= usize::MAX,
            o.failed + n <= usize::MAX,
            o.bytes >= 0,
            o.bytes + crate::trash::done_bytes(sizes@, r, n as int) <= i64::MAX,
            out.completed == o.completed + crate::trash::successes(r, i as int),
            out.failed == o.failed + (i - crate::trash::successes(r, i as int)),
            out.bytes == o.bytes + crate::trash::done_bytes(sizes@, r, i as int),
            out.failed_ids@ == o.failed_ids@ + crate::trash::failed_result_ids(ids@, r, true, i as int),
            crate::trash::error_view(out.first_error) == match o.first_error {
                Some(f) => Some(f@),
                None => crate::trash::first_failure(r, i as int),
            },
            out.batch_id == o.batch_id && out.skipped == o.skipped && out.already_published == o.already_published,
        decreases n - i,
    {
        proof {
            crate::trash::lemma_result_counts(sizes@, r, n as int, i as int);
            crate::trash::lemma_result_counts(sizes@, r, n as int, i + 1);
        }
        assert(r[i as int] == crate::trash::error_view(results@[i as int]));
        match &results[i] {
            None => {
                count_done(out, sizes[i]);
            },
            Some(e) => {
                count_failed(out, ids[i], lit(e.as_str()));
                assert(out.failed_ids@ =~= o.failed_ids@ + crate::trash::failed_result_ids(ids@, r, true, i + 1));
            },
        }
        i = i + 1;
    }
}

/// The reason a destination folder is refused, as shown.
pub open spec fn transfer_error_message_of(e: TransferError) -> Seq<char> {
    match e {
        TransferError::NotInside => "목적지는 라이브러리 안의 상대 폴더여야 합니다"@,
        TransferError::BadName => "목적지 폴더 이름에 쓸 수 없는 문자가 있습니다"@,
    }
}

impl TransferError {
    pub fn message(&self) -> (r: String)
        ensures
            r@ == transfer_error_message_of(*self),
    {
        match self {
            TransferError::NotInside => lit("목적지는 라이브러리 안의 상대 폴더여야 합니다"),
            TransferError::BadName => lit("목적지 폴더 이름에 쓸 수 없는 문자가 있습니다"),
        }
    }
}

/// Whether a resolved (canonical) path lies in a resolved root, as
/// `Path::starts_with` compares whole parts: the root itself or a path below
/// it; every absolute path lies in `/`.
pub open spec fn path_inside_of(root: Seq<char>, p: Seq<char>) -> bool {
    if root == "/"@ {
        p.len() > 0 && p[0] == '/'
    } else {
        crate::folder::same_or_child(root, p)
    }
}

pub fn path_inside(root: &str, p: &str) -> (r: bool)
    ensures
        r == path_inside_of(root@, p@),
{
    let rc = chars_of(root);
    if str_is("/", rc.as_slice()) {
        let pc = chars_of(p);
        pc.len() > 0 && pc[0] == '/'
    } else {
        crate::folder::is_same_or_child(root, p)
    }
}

/// Whether a destination may be written to, after resolving links: the
/// library root must be a folder; the nearest existing ancestor of the
/// destination (`real_ancestor`, `None` when there is none) must resolve
/// inside the root, so that no link leads out of the library; and a
/// destination that exists (`real_destination`: its resolved path and
/// whether it is a folder) must resolve inside the root and be a folder.
pub open spec fn destination_check_of(
    root: Seq<char>,
    root_is_dir: bool,
    real_ancestor: Option<Seq<char>>,
    real_destination: Option<(Seq<char>, bool)>,
) -> Option<Seq<char>> {
    if !root_is_dir {
        Some("목적지 라이브러리가 폴더가 아닙니다"@)
    } else if real_ancestor is None {
        Some("목적지의 기존 부모 폴더를 확인할 수 없습니다"@)
    } else if !path_inside_of(root, real_ancestor->0) {
        Some("심볼릭 링크를 통해 라이브러리 밖으로 쓸 수 없습니다"@)
    } else {
        match real_destination {
            Some((d, is_dir)) => if !path_inside_of(root, d) || !is_dir {
                Some("목적지가 라이브러리 밖이거나 폴더가 아닙니다"@)
            } else {
                None
            },
            None => None,
        }
    }
}

pub fn destination_check(
    root: &str,
    root_is_dir: bool,
    real_ancestor: Option<&str>,
    real_destination: Option<(&str, bool)>,
) -> (r: Option<String>)
    ensures
        crate::trash::error_view(r) == destination_check_of(
            root@,
            root_is_dir,
            match real_ancestor {
                Some(a) => Some(a@),
                None => None,
            },
            match real_destination {
                Some((d, b)) => Some((d@, b)),
                None => None,
            },
        ),
{
    if !root_is_dir {
        return Some(lit("목적지 라이브러리가 폴더가 아닙니다"));
    }
    let a = match real_ancestor {
        None => return Some(lit("목적지의 기존 부모 폴더를 확인할 수 없습니다")),
        Some(a) => a,
    };
    if !path_inside(root, a) {
        return Some(lit("심볼릭 링크를 통해 라이브러리 밖으로 쓸 수 없습니다"));
    }
    match real_destination {
        Some((d, is_dir)) => {
            if !path_inside(root, d) || !is_dir {
                Some(lit("목적지가 라이브러리 밖이거나 폴더가 아닙니다"))
            } else {
                None
            }
        },
        None => None,
    }
}

} // verus!
