//! Husks: folders that hold files but no photo (camera notes, thumbnails,
//! archives) once the photos are gone. Which folders are husks, which paths
//! may be moved to the trash's folder bin, and what a batch of such moves
//! reports.

use crate::merge::junk_of;
use crate::text::{chars_of, concat, split_chars, split_on, starts_with, starts_with_chars, str_is, string_of};
use vstd::prelude::*;

verus! {

/// A folder with files but no photo.
#[derive(Debug, Clone)]
pub struct Husk {
    /// Its path relative to the library.
    pub rel: String,
    pub files: usize,
    pub bytes: u64,
    /// Count per extension, most frequent first (at most four).
    pub kinds: Vec<(String, usize)>,
}

/// Files a husk count ignores.
pub fn is_junk(name: &str) -> (r: bool)
    ensures
        r == junk_of(name@),
{
    crate::merge::is_junk_file(name)
}

/// A path that stays inside the library: not empty, not absolute, no part `..`.
pub open spec fn safe_rel_of(rel: Seq<char>) -> bool {
    rel.len() > 0 && rel[0] != '/' && forall|i: int|
        0 <= i < split_on(rel, '/').len() ==> #[trigger] split_on(rel, '/')[i] != ".."@
}

pub fn safe_rel(rel: &str) -> (r: bool)
    ensures
        r == safe_rel_of(rel@),
{
    let v = chars_of(rel);
    if v.len() == 0 || v[0] == '/' {
        return false;
    }
    let parts = split_chars(v.as_slice(), '/');
    let ghost all = split_on(v@, '/');
    let mut i: usize = 0;
    while i < parts.len()
        invariant
            i <= parts@.len(),
            v@ == rel@,
            all == split_on(v@, '/'),
            parts@.len() == all.len(),
            forall|k: int| 0 <= k < parts@.len() ==> #[trigger] parts@[k]@ == all[k],
            forall|k: int| 0 <= k < i ==> #[trigger] all[k] != ".."@,
        decreases parts.len() - i,
    {
        assert(parts@[i as int]@ == all[i as int]);
        if str_is("..", parts[i].as_slice()) {
            return false;
        }
        i = i + 1;
    }
    true
}

/// Where a husk goes, relative to its library: the folder bin of the trash,
/// `.acut/휴지통/_폴더/<rel>`.
pub open spec fn bin_rel_of(rel: Seq<char>) -> Seq<char> {
    ".acut/휴지통/_폴더/"@ + rel
}

pub fn bin_rel(rel: &str) -> (r: String)
    ensures
        r@ == bin_rel_of(rel@),
{
    let a = chars_of(".acut/휴지통/_폴더/");
    let b = chars_of(rel);
    let c = concat(a.as_slice(), b.as_slice());
    string_of(c.as_slice())
}

/// Whether a folder (relative to its volume) has photos in it or below it,
/// given the folders that hold photos: the volume root always does.
pub open spec fn has_photos_of(live: Seq<Seq<char>>, dir: Seq<char>) -> bool {
    dir.len() == 0 || exists|i: int|
        0 <= i < live.len() && (live[i] == dir || starts_with(#[trigger] live[i], dir + "/"@))
}

pub fn has_photos(live: &[String], dir: &str) -> (r: bool)
    ensures
        r == has_photos_of(crate::names::views(live@), dir@),
{
    let d = chars_of(dir);
    if d.len() == 0 {
        return true;
    }
    let slash = chars_of("/");
    let pre = concat(d.as_slice(), slash.as_slice());
    let ghost lv = crate::names::views(live@);
    let mut i: usize = 0;
    while i < live.len()
        invariant
            i <= live@.len(),
            lv == crate::names::views(live@),
            d@ == dir@,
            pre@ == dir@ + "/"@,
            forall|k: int| 0 <= k < i ==> !(lv[k] == dir@ || starts_with(#[trigger] lv[k], dir@ + "/"@)),
        decreases live.len() - i,
    {
        let l = chars_of(live[i].as_str());
        assert(l@ == lv[i as int]);
        if crate::text::chars_eq(l.as_slice(), d.as_slice()) || starts_with_chars(l.as_slice(), pre.as_slice()) {
            return true;
        }
        i = i + 1;
    }
    false
}

/// What the disk did with one requested husk, for a path that is safe.
#[derive(Debug, Clone)]
pub enum HuskStep {
    /// It is not a folder (any more): skipped quietly.
    NotAFolder,
    /// It went to the folder bin.
    Moved,
    /// The move failed, for this reason.
    Failed(String),
}

/// The first error of a batch of husk moves, among the first `n` requests:
/// an unsafe path is refused, a failed move reports its path and reason.
pub open spec fn first_husk_error(rels: Seq<String>, steps: Seq<HuskStep>, n: int) -> Option<Seq<char>>
    decreases n,
{
    if n <= 0 {
        None
    } else {
        match first_husk_error(rels, steps, n - 1) {
            Some(e) => Some(e),
            None => if !safe_rel_of(rels[n - 1]@) {
                Some("이상한 경로: "@ + rels[n - 1]@)
            } else {
                match steps[n - 1] {
                    HuskStep::Failed(m) => Some(rels[n - 1]@ + ": "@ + m@),
                    _ => None,
                }
            },
        }
    }
}

/// The number of husks moved among the first `n` requests.
pub open spec fn husks_moved(rels: Seq<String>, steps: Seq<HuskStep>, n: int) -> int
    decreases n,
{
    if n <= 0 {
        0
    } else {
        husks_moved(rels, steps, n - 1) + if safe_rel_of(rels[n - 1]@) && steps[n - 1] is Moved {
            1int
        } else {
            0int
        }
    }
}

/// The report of moving husks to the folder bin: how many moved, and the
/// first error. A path that could leave the library is refused and never
/// touched; for the others, `steps` says what the disk did.
pub fn to_trash(rels: &[String], steps: &[HuskStep]) -> (r: (usize, Option<String>))
    requires
        steps@.len() == rels@.len(),
    ensures
        r.0 == husks_moved(rels@, steps@, rels@.len() as int),
        match r.1 {
            Some(e) => first_husk_error(rels@, steps@, rels@.len() as int) == Some(e@),
            None => first_husk_error(rels@, steps@, rels@.len() as int) is None,
        },
{
    let mut moved: usize = 0;
    let mut first: Option<String> = None;
    let mut i: usize = 0;
    while i < rels.len()
        invariant
            i <= rels@.len(),
            steps@.len() == rels@.len(),
            moved == husks_moved(rels@, steps@, i as int),
            0 <= husks_moved(rels@, steps@, i as int) <= i,
            match first {
                Some(e) => first_husk_error(rels@, steps@, i as int) == Some(e@),
                None => first_husk_error(rels@, steps@, i as int) is None,
            },
        decreases rels.len() - i,
    {
        let rc = chars_of(rels[i].as_str());
        if !safe_rel(rels[i].as_str()) {
            if first.is_none() {
                let p = chars_of("이상한 경로: ");
                let m = concat(p.as_slice(), rc.as_slice());
                first = Some(string_of(m.as_slice()));
            }
        } else {
            match &steps[i] {
                HuskStep::NotAFolder => {},
                HuskStep::Moved => {
                    moved = moved + 1;
                },
                HuskStep::Failed(e) => {
                    if first.is_none() {
                        let sep = chars_of(": ");
                        let ec = chars_of(e.as_str());
                        let a = concat(rc.as_slice(), sep.as_slice());
                        let m = concat(a.as_slice(), ec.as_slice());
                        first = Some(string_of(m.as_slice()));
                    }
                },
            }
        }
        i = i + 1;
    }
    (moved, first)
}


/// A folder below which there is no photo, summed up: a husk when some file
/// that is not junk is there (its count, their size, its four most
/// frequent kinds), nothing when only junk or nothing is there.
pub fn husk_of(rel: &str, files: &[crate::merge::FoundFile]) -> (r: Option<Husk>)
    requires
        crate::merge::counted_size(files@, files@.len() as int) <= u64::MAX,
        files@.len() <= i64::MAX,
    ensures
        match r {
            Some(h) => h.rel@ == rel@ && h.files == crate::merge::counted_names(files@).len() && h.files > 0
                && h.bytes == crate::merge::counted_size(files@, files@.len() as int) && crate::merge::kinds_hold(
                crate::merge::counted_names(files@),
                4,
                crate::merge::count_views(h.kinds@),
            ),
            None => crate::merge::counted_names(files@).len() == 0,
        },
{
    let l = crate::merge::leftovers(files);
    if l.files == 0 {
        return None;
    }
    let (names, _) = crate::merge::tally(files);
    proof {
        files@.lemma_filter_len(|f: crate::merge::FoundFile| !junk_of(f.name@));
        assert(names@.len() == crate::names::views(names@).len());
    }
    let k = crate::merge::kinds(names.as_slice(), 4);
    Some(Husk { rel: string_of(chars_of(rel).as_slice()), files: l.files, bytes: l.bytes, kinds: k })
}

/// A path that could leave the library is never moved and is always
/// reported: when some requested path is empty, absolute or climbs with
/// `..`, the report has a first error, and that path adds nothing to the
/// count of husks moved, whatever the disk said of it.
pub proof fn lemma_unsafe_path_reported(rels: Seq<String>, steps: Seq<HuskStep>, k: int, n: int)
    requires
        0 <= k < n <= rels.len(),
        n <= steps.len(),
        !safe_rel_of(rels[k]@),
    ensures
        first_husk_error(rels, steps, n) is Some,
        husks_moved(rels, steps, k + 1) == husks_moved(rels, steps, k),
    decreases n,
{
    if n > k + 1 {
        lemma_unsafe_path_reported(rels, steps, k, n - 1);
    }
}

/// The positions among the first `n` requested husks that may be moved:
/// those whose path stays inside the library.
pub open spec fn safe_positions(rels: Seq<String>, n: int) -> Seq<int>
    decreases n,
{
    if n <= 0 {
        Seq::empty()
    } else if safe_rel_of(rels[n - 1]@) {
        safe_positions(rels, n - 1).push(n - 1)
    } else {
        safe_positions(rels, n - 1)
    }
}

/// The folders emptied husks may leave behind, to be pruned upwards: the
/// parent of each safe path that has one, in order.
pub open spec fn prune_starts_of(rels: Seq<String>, n: int) -> Seq<Seq<char>>
    decreases n,
{
    if n <= 0 {
        Seq::empty()
    } else if safe_rel_of(rels[n - 1]@) && crate::folder::parent_part(rels[n - 1]@).len() > 0 {
        prune_starts_of(rels, n - 1).push(crate::folder::parent_part(rels[n - 1]@))
    } else {
        prune_starts_of(rels, n - 1)
    }
}

/// Plans moving husks to the folder bin: the positions of the requested
/// paths that are acted on (a path that could leave the library never is),
/// and the folders to prune afterwards. `to_trash` reports the outcome.
pub fn husk_plan(rels: &[String]) -> (r: (Vec<usize>, Vec<String>))
    ensures
        r.0@.map_values(|x: usize| x as int) == safe_positions(rels@, rels@.len() as int),
        r.1@.map_values(|s: String| s@) == prune_starts_of(rels@, rels@.len() as int),
{
    let mut go: Vec<usize> = Vec::new();
    let mut parents: Vec<String> = Vec::new();
    let mut i: usize = 0;
    while i < rels.len()
        invariant
            i <= rels@.len(),
            go@.map_values(|x: usize| x as int) == safe_positions(rels@, i as int),
            parents@.map_values(|s: String| s@) == prune_starts_of(rels@, i as int),
        decreases rels.len() - i,
    {
        if safe_rel(rels[i].as_str()) {
            let ghost g = go@;
            go.push(i);
            assert(go@.map_values(|x: usize| x as int) =~= g.map_values(|x: usize| x as int).push(i as int));
            let p = crate::folder::parent_part_chars(chars_of(rels[i].as_str()).as_slice());
            if p.len() > 0 {
                let ghost ps = parents@;
                let s = string_of(p.as_slice());
                parents.push(s);
                assert(parents@.map_values(|s: String| s@) =~= ps.map_values(|s: String| s@).push(s@));
            }
        }
        i = i + 1;
    }
    (go, parents)
}

} // verus!
