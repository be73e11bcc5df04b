//! What a scan of a library writes: which files it reads again, the
//! folder rows it makes first, and which photos need a thumbnail made.

use crate::order::{insert_sorted, strictly_sorted, texts_of};
use crate::text::{chars_of, string_of};
use vstd::prelude::*;

verus! {

/// Whether a file the catalogue knows is left as it is: its recorded size
/// and modification time (zero when it had none) are those found now.
pub open spec fn file_unchanged_of(known: Option<(i64, i64)>, size: u64, mtime: Option<i64>) -> bool {
    match known {
        Some((sz, mt)) => sz == size as i64 && mt == match mtime {
            Some(t) => t,
            None => 0,
        },
        None => false,
    }
}

pub fn file_unchanged(known: Option<(i64, i64)>, size: u64, mtime: Option<i64>) -> (r: bool)
    ensures
        r == file_unchanged_of(known, size, mtime),
{
    match known {
        Some((sz, mt)) => {
            let t = match mtime {
                Some(t) => t,
                None => 0,
            };
            sz == size as i64 && mt == t
        },
        None => false,
    }
}

/// The views of a list of strings.
pub open spec fn string_views(v: Seq<String>) -> Seq<Seq<char>> {
    v.map_values(|s: String| s@)
}

/// The folders of the files a scan writes, each once, in increasing order,
/// so that a parent's row is made before its children's.
pub fn folder_rows(dirs: &[String]) -> (r: Vec<String>)
    ensures
        strictly_sorted(string_views(r@)),
        string_views(r@).to_set() == string_views(dirs@).to_set(),
{
    let mut sorted: Vec<Vec<char>> = Vec::new();
    let mut i: usize = 0;
    while i < dirs.len()
        invariant
            i <= dirs@.len(),
            strictly_sorted(texts_of(sorted@)),
            texts_of(sorted@).to_set() == string_views(dirs@.subrange(0, i as int)).to_set(),
        decreases dirs.len() - i,
    {
        let c = chars_of(dirs[i].as_str());
        insert_sorted(&mut sorted, c);
        proof {
            assert(string_views(dirs@.subrange(0, i + 1)) =~= string_views(dirs@.subrange(0, i as int)).push(
                dirs@[i as int]@,
            ));
            string_views(dirs@.subrange(0, i as int)).lemma_push_to_set_commute(dirs@[i as int]@);
        }
        i = i + 1;
    }
    assert(dirs@.subrange(0, dirs@.len() as int) =~= dirs@);
    let mut out: Vec<String> = Vec::new();
    let mut j: usize = 0;
    while j < sorted.len()
        invariant
            j <= sorted@.len(),
            string_views(out@) == texts_of(sorted@).subrange(0, j as int),
        decreases sorted.len() - j,
    {
        let s = string_of(sorted[j].as_slice());
        let ghost before = out@;
        assert(s@ == texts_of(sorted@)[j as int]);
        out.push(s);
        proof {
            assert(out@ == before.push(s));
            assert(string_views(out@) =~= string_views(before).push(s@));
            assert(string_views(out@) =~= texts_of(sorted@).subrange(0, j + 1));
        }
        j = j + 1;
    }
    assert(texts_of(sorted@).subrange(0, sorted@.len() as int) =~= texts_of(sorted@));
    out
}

/// What the catalogue holds of a photo's thumbnail: whether it was made,
/// and the size and modification time of the photo it was made from.
#[derive(Debug, Clone, Copy, PartialEq, Eq, Structural)]
pub struct ThumbRecord {
    pub made: bool,
    pub src_size: i64,
    pub src_mtime: i64,
}

/// Whether a photo needs a thumbnail made: it has none, the last attempt
/// did not make one, or the photo's size or modification time (zero when it
/// has none) changed since.
pub open spec fn thumb_needed_of(thumb: Option<ThumbRecord>, size: i64, mtime: Option<i64>) -> bool {
    match thumb {
        None => true,
        Some(t) => !t.made || t.src_size != size || t.src_mtime != match mtime {
            Some(m) => m,
            None => 0,
        },
    }
}

pub fn thumb_needed(thumb: Option<ThumbRecord>, size: i64, mtime: Option<i64>) -> (r: bool)
    ensures
        r == thumb_needed_of(thumb, size, mtime),
{
    let m = match mtime {
        Some(m) => m,
        None => 0,
    };
    match thumb {
        None => true,
        Some(t) => !t.made || t.src_size != size || t.src_mtime != m,
    }
}

/// The positions among the first `n` found files that are read again.
pub open spec fn to_read(known: Seq<Option<(i64, i64)>>, sizes: Seq<u64>, mtimes: Seq<Option<i64>>, n: int) -> Seq<int>
    decreases n,
{
    if n <= 0 {
        Seq::empty()
    } else if file_unchanged_of(known[n - 1], sizes[n - 1], mtimes[n - 1]) {
        to_read(known, sizes, mtimes, n - 1)
    } else {
        to_read(known, sizes, mtimes, n - 1).push(n - 1)
    }
}

/// Splits the files a scan found into those read again, in order, and the
/// number left as they are: for each, what the catalogue knows of it (size
/// and modification time) and what was found.
pub fn scan_plan(known: &[Option<(i64, i64)>], sizes: &[u64], mtimes: &[Option<i64>]) -> (r: (Vec<usize>, usize))
    requires
        sizes@.len() == known@.len(),
        mtimes@.len() == known@.len(),
    ensures
        r.0@.map_values(|x: usize| x as int) == to_read(known@, sizes@, mtimes@, known@.len() as int),
        r.1 + r.0@.len() == known@.len(),
{
    let mut go: Vec<usize> = Vec::new();
    let mut skipped: usize = 0;
    let mut i: usize = 0;
    while i < known.len()
        invariant
            i <= known@.len(),
            sizes@.len() == known@.len(),
            mtimes@.len() == known@.len(),
            go@.map_values(|x: usize| x as int) == to_read(known@, sizes@, mtimes@, i as int),
            skipped + go@.len() == i,
        decreases known.len() - i,
    {
        if file_unchanged(known[i], sizes[i], mtimes[i]) {
            skipped = skipped + 1;
        } else {
            let ghost before = go@;
            go.push(i);
            assert(go@.map_values(|x: usize| x as int) =~= before.map_values(|x: usize| x as int).push(i as int));
        }
        i = i + 1;
    }
    (go, skipped)
}

} // verus!
