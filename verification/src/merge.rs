//! Merging one folder tree into another of the same library: which pairs of
//! folders may merge, where each photo lands, how a clashing name is
//! numbered, and what counts as leftover junk.

use crate::names::{holds, holds_chars, numbered, numbered_chars, rsplit_dot, rsplit_dot_chars, views};
use crate::text::{chars_eq, chars_of, concat, decimal, decimal_of, slice_of, starts_with, starts_with_chars, str_is, string_of, trim_start, trim_start_chars, Trim};
use vstd::prelude::*;

verus! {

/// Progress of a merge.
#[derive(Debug, Clone, Copy, PartialEq, Eq, Structural)]
pub struct MergeProgress {
    pub done: usize,
    pub total: usize,
}

/// What a merge left behind: files that are not photos.
#[derive(Debug, Clone)]
pub struct Leftovers {
    pub files: usize,
    pub bytes: u64,
    /// Count per extension, most frequent first.
    pub kinds: Vec<(String, usize)>,
}

/// `p` is `root` or lies below it; everything lies below the empty root.
pub open spec fn under_of(root: Seq<char>, p: Seq<char>) -> bool {
    root.len() == 0 || p == root || starts_with(p, root + "/"@)
}

pub fn under(root: &str, p: &str) -> (r: bool)
    ensures
        r == under_of(root@, p@),
{
    let rc = chars_of(root);
    let pc = chars_of(p);
    if rc.len() == 0 || chars_eq(pc.as_slice(), rc.as_slice()) {
        return true;
    }
    let slash = chars_of("/");
    let pre = concat(rc.as_slice(), slash.as_slice());
    starts_with_chars(pc.as_slice(), pre.as_slice())
}

/// Why a merge is refused.
#[derive(Debug, Clone, Copy, PartialEq, Eq, Structural)]
pub enum MergeError {
    /// The two folders are the same, or one holds the other.
    Overlap,
    /// A folder lies outside the library, or is the library itself.
    Foreign,
}

/// The check of a merge of `src` into `dst` in a library at `lib`: two
/// folders that do not hold each other, both inside the library, the
/// source not the library itself.
pub open spec fn merge_check_of(lib: Seq<char>, src: Seq<char>, dst: Seq<char>) -> Result<(), MergeError> {
    if src == dst || under_of(src, dst) || under_of(dst, src) {
        Err(MergeError::Overlap)
    } else if !under_of(lib, src) || !under_of(lib, dst) || src == lib {
        Err(MergeError::Foreign)
    } else {
        Ok(())
    }
}

pub fn merge_check(lib: &str, src: &str, dst: &str) -> (r: Result<(), MergeError>)
    ensures
        r == merge_check_of(lib@, src@, dst@),
{
    let s = chars_of(src);
    let d = chars_of(dst);
    let l = chars_of(lib);
    if chars_eq(s.as_slice(), d.as_slice()) || under(src, dst) || under(dst, src) {
        return Err(MergeError::Overlap);
    }
    if !under(lib, src) || !under(lib, dst) || chars_eq(s.as_slice(), l.as_slice()) {
        return Err(MergeError::Foreign);
    }
    Ok(())
}

/// Two folders of which one is the other, or lies inside it (its path goes
/// on from the other's path with a '/'), are never merged: the check
/// refuses them as an overlap, in either order and whatever the library.
pub proof fn lemma_nested_folders_never_merge(lib: Seq<char>, outer: Seq<char>, inner: Seq<char>)
    requires
        inner == outer || (outer.len() < inner.len() && inner[outer.len() as int] == '/'
            && inner.subrange(0, outer.len() as int) == outer),
    ensures
        merge_check_of(lib, inner, outer) == Err::<(), MergeError>(MergeError::Overlap),
        merge_check_of(lib, outer, inner) == Err::<(), MergeError>(MergeError::Overlap),
{
    if inner != outer {
        reveal_strlit("/");
        assert(inner.subrange(0, outer.len() + 1int) =~= outer + "/"@);
        assert(starts_with(inner, outer + "/"@));
    }
}

/// The check of moving the leftovers of `src` into `dst`: the two must not
/// hold each other and the source must not be the library itself.
pub open spec fn rest_check_of(lib: Seq<char>, src: Seq<char>, dst: Seq<char>) -> Result<(), MergeError> {
    if src == dst || under_of(src, dst) || under_of(dst, src) || src == lib {
        Err(MergeError::Overlap)
    } else {
        Ok(())
    }
}

pub fn rest_check(lib: &str, src: &str, dst: &str) -> (r: Result<(), MergeError>)
    ensures
        r == rest_check_of(lib@, src@, dst@),
{
    let s = chars_of(src);
    let d = chars_of(dst);
    let l = chars_of(lib);
    if chars_eq(s.as_slice(), d.as_slice()) || under(src, dst) || under(dst, src) || chars_eq(
        s.as_slice(),
        l.as_slice(),
    ) {
        return Err(MergeError::Overlap);
    }
    Ok(())
}

/// The folder a photo of `dir` lands in: the same place below `dst` as it
/// had below `src`.
pub open spec fn landing_dir_of(src: Seq<char>, dst: Seq<char>, dir: Seq<char>) -> Seq<char> {
    let sub = if starts_with(dir, src) {
        trim_start(dir.subrange(src.len() as int, dir.len() as int), Trim::Slash)
    } else {
        Seq::empty()
    };
    if sub.len() == 0 {
        dst
    } else {
        dst + "/"@ + sub
    }
}

pub fn landing_dir(src: &str, dst: &str, dir: &str) -> (r: String)
    ensures
        r@ == landing_dir_of(src@, dst@, dir@),
{
    let s = chars_of(src);
    let d = chars_of(dst);
    let f = chars_of(dir);
    let sub = if starts_with_chars(f.as_slice(), s.as_slice()) {
        let rest = slice_of(f.as_slice(), s.len(), f.len());
        trim_start_chars(rest.as_slice(), Trim::Slash)
    } else {
        Vec::new()
    };
    if sub.len() == 0 {
        string_of(d.as_slice())
    } else {
        let slash = chars_of("/");
        let a = concat(d.as_slice(), slash.as_slice());
        let b = concat(a.as_slice(), sub.as_slice());
        string_of(b.as_slice())
    }
}

/// The last part of a `/`-separated path.
pub open spec fn tail_of(p: Seq<char>) -> Seq<char> {
    crate::trash::split_path(p).1
}

/// The label of a merge batch: `폴더 합치기 «<src>» → «<dst>»` with the last
/// parts of the two folders.
pub open spec fn merge_label_of(src: Seq<char>, dst: Seq<char>) -> Seq<char> {
    "폴더 합치기 «"@ + tail_of(src) + "» → «"@ + tail_of(dst) + "»"@
}

pub fn merge_label(src: &str, dst: &str) -> (r: String)
    ensures
        r@ == merge_label_of(src@, dst@),
{
    let s = chars_of(src);
    let d = chars_of(dst);
    let (_, st) = crate::trash::split_path_chars(s.as_slice());
    let (_, dt) = crate::trash::split_path_chars(d.as_slice());
    let a = chars_of("폴더 합치기 «");
    let m = chars_of("» → «");
    let e = chars_of("»");
    let x = concat(a.as_slice(), st.as_slice());
    let y = concat(x.as_slice(), m.as_slice());
    let z = concat(y.as_slice(), dt.as_slice());
    let w = concat(z.as_slice(), e.as_slice());
    string_of(w.as_slice())
}

/// Whether the merge reports progress after photo `i` of `total`: every
/// 25th photo, and the last.
pub open spec fn reports_progress_of(i: nat, total: nat) -> bool {
    i % 25 == 0 || i + 1 == total
}

pub fn reports_progress(i: usize, total: usize) -> (r: bool)
    ensures
        r == reports_progress_of(i as nat, total as nat),
{
    i % 25 == 0 || (i < total && i + 1 == total)
}

/// The first number from `k` on, below 10,000, whose numbered name is
/// neither in the catalogue's folder nor on disk.
pub open spec fn first_unused(
    stem: Seq<char>,
    ext: Option<Seq<char>>,
    catalogued: Seq<Seq<char>>,
    present: Seq<Seq<char>>,
    k: int,
) -> Option<int>
    decreases 10000 - k,
{
    if k >= 10000 {
        None
    } else if !holds(present, numbered(stem, decimal(k as nat), ext)) && !holds(
        catalogued,
        numbered(stem, decimal(k as nat), ext),
    ) {
        Some(k)
    } else {
        first_unused(stem, ext, catalogued, present, k + 1)
    }
}

/// The name a merged photo takes in its landing folder, which the disk
/// already made free: kept when the catalogue's folder does not hold it;
/// else the first `stem (n).ext` (split at the last `.`) that neither the
/// disk nor the catalogue holds; kept when all are taken.
pub open spec fn merge_name_of(name: Seq<char>, catalogued: Seq<Seq<char>>, present: Seq<Seq<char>>) -> Seq<char> {
    if !holds(catalogued, name) {
        name
    } else {
        let (stem, ext) = match rsplit_dot(name) {
            Some(p) => (p.0, Some(p.1)),
            None => (name, None),
        };
        match first_unused(stem, ext, catalogued, present, 2) {
            Some(n) => numbered(stem, decimal(n as nat), ext),
            None => name,
        }
    }
}

pub fn merge_name(name: &str, catalogued: &[String], present: &[String]) -> (r: String)
    ensures
        r@ == merge_name_of(name@, views(catalogued@), views(present@)),
{
    let n = chars_of(name);
    if !holds_chars(catalogued, n.as_slice()) {
        return string_of(n.as_slice());
    }
    let (stem, ext) = match rsplit_dot_chars(n.as_slice()) {
        Some(p) => (p.0, Some(p.1)),
        None => (slice_of(n.as_slice(), 0, n.len()), None),
    };
    let ghost ev: Option<Seq<char>> = match &ext {
        Some(e) => Some(e@),
        None => None,
    };
    proof {
        let (s2, e2) = match rsplit_dot(name@) {
            Some(p) => (p.0, Some(p.1)),
            None => (name@, None),
        };
        assert(s2 == stem@ && e2 == ev);
    }
    let mut k: u64 = 2;
    while k < 10000
        invariant
            2 <= k <= 10000,
            n@ == name@,
            holds(views(catalogued@), name@),
            ev == match rsplit_dot(name@) {
                Some(p) => Some(p.1),
                None => None::<Seq<char>>,
            },
            stem@ == match rsplit_dot(name@) {
                Some(p) => p.0,
                None => name@,
            },
            ev == match ext {
                Some(e) => Some(e@),
                None => None::<Seq<char>>,
            },
            first_unused(stem@, ev, views(catalogued@), views(present@), 2) == first_unused(
                stem@,
                ev,
                views(catalogued@),
                views(present@),
                k as int,
            ),
        decreases 10000 - k,
    {
        let num = decimal_of(k);
        let cand = numbered_chars(stem.as_slice(), num.as_slice(), &ext);
        if !holds_chars(present, cand.as_slice()) && !holds_chars(catalogued, cand.as_slice()) {
            return string_of(cand.as_slice());
        }
        k = k + 1;
    }
    string_of(n.as_slice())
}

/// Files of no interest that a merge deletes and a count ignores: Finder's
/// `.DS_Store`, AppleDouble `._` files, Windows' `Thumbs.db` and `desktop.ini`.
pub open spec fn junk_of(name: Seq<char>) -> bool {
    name == ".DS_Store"@ || starts_with(name, "._"@) || name == "Thumbs.db"@ || name == "desktop.ini"@
}

pub fn is_junk_file(name: &str) -> (r: bool)
    ensures
        r == junk_of(name@),
{
    let n = chars_of(name);
    let p = chars_of("._");
    str_is(".DS_Store", n.as_slice()) || starts_with_chars(n.as_slice(), p.as_slice()) || str_is(
        "Thumbs.db",
        n.as_slice(),
    ) || str_is("desktop.ini", n.as_slice())
}


/// The kind of a file as a count groups it: its extension after the last
/// `.` in ASCII lower case, or `(없음)` without one.
pub open spec fn ext_key_of(name: Seq<char>) -> Seq<char> {
    match rsplit_dot(name) {
        Some(p) => crate::text::lower_ascii_seq(p.1),
        None => "(없음)"@,
    }
}

pub fn ext_key(name: &[char]) -> (r: Vec<char>)
    ensures
        r@ == ext_key_of(name@),
{
    match rsplit_dot_chars(name) {
        Some(p) => crate::text::lower_ascii(p.1.as_slice()),
        None => chars_of("(없음)"),
    }
}

/// The counts of the kinds of files named, most frequent first and then by
/// kind, at most `k` of them: each a kind that occurs with its count, each
/// before the next, and each before every kind left out.
pub open spec fn kinds_hold(names: Seq<Seq<char>>, k: nat, r: Seq<(Seq<char>, nat)>) -> bool {
    crate::top::common_hold(
        names.map_values(|n: Seq<char>| ext_key_of(n)),
        1,
        k,
        r.map_values(|p: (Seq<char>, nat)| (p.0, p.1 as int)),
    )
}

pub open spec fn count_views(r: Seq<(String, usize)>) -> Seq<(Seq<char>, nat)> {
    r.map_values(|p: (String, usize)| (p.0@, p.1 as nat))
}

/// Counts files by kind and keeps the `k` most frequent kinds.
pub fn kinds(names: &[String], k: usize) -> (r: Vec<(String, usize)>)
    requires
        names@.len() <= i64::MAX,
    ensures
        kinds_hold(views(names@), k as nat, count_views(r@)),
{
    let ghost keys = views(names@).map_values(|n: Seq<char>| ext_key_of(n));
    let mut ks: Vec<Vec<char>> = Vec::new();
    let mut i: usize = 0;
    while i < names.len()
        invariant
            i <= names@.len(),
            keys == views(names@).map_values(|n: Seq<char>| ext_key_of(n)),
            crate::order::texts_of(ks@) == keys.subrange(0, i as int),
        decreases names.len() - i,
    {
        let nc = chars_of(names[i].as_str());
        let key = ext_key(nc.as_slice());
        let ghost before = ks@;
        ks.push(key);
        assert(crate::order::texts_of(ks@) =~= crate::order::texts_of(before).push(key@));
        i = i + 1;
        assert(keys.subrange(0, i as int) =~= keys.subrange(0, i - 1).push(keys[i - 1]));
    }
    assert(keys.subrange(0, names@.len() as int) =~= keys);
    let common = crate::top::most_common(ks.as_slice(), 1, k);
    let mut out: Vec<(String, usize)> = Vec::new();
    let mut j: usize = 0;
    let nl = names.len();
    while j < common.len()
        invariant
            j <= common@.len(),
            nl == names@.len(),
            keys == crate::order::texts_of(ks@),
            crate::top::common_hold(keys, 1, k as nat, crate::top::pool_view(common@)),
            forall|q: int| 0 <= q < common@.len() ==> 1 <= #[trigger] common@[q].1 <= nl,
            out@.len() == j,
            forall|q: int| 0 <= q < j ==> (#[trigger] out@[q]).0@ == common@[q].0@ && out@[q].1 as int == common@[q].1 as int,
        decreases common.len() - j,
    {
        let t0 = string_of(common[j].0.as_slice());
        let t1 = common[j].1 as usize;
        let ghost before = out@;
        out.push((t0, t1));
        proof {
            assert forall|q: int| 0 <= q < j + 1 implies (#[trigger] out@[q]).0@ == common@[q].0@ && out@[q].1 as int == common@[q].1 as int by {
                if q < j {
                    assert(out@[q] == before[q]);
                }
            }
        }
        j = j + 1;
    }
    proof {
        assert(count_views(out@).map_values(|p: (Seq<char>, nat)| (p.0, p.1 as int)) =~= crate::top::pool_view(common@));
    }
    out
}

/// A file found below a folder: its name and size.
#[derive(Debug, Clone)]
pub struct FoundFile {
    pub name: String,
    pub size: u64,
}

/// The names of the files that count, in order: all but junk.
pub open spec fn counted_names(files: Seq<FoundFile>) -> Seq<Seq<char>> {
    files.filter(|f: FoundFile| !junk_of(f.name@)).map_values(|f: FoundFile| f.name@)
}

/// Total size of the first `n` files that count.
pub open spec fn counted_size(files: Seq<FoundFile>, n: int) -> int
    decreases n,
{
    if n <= 0 {
        0
    } else {
        counted_size(files, n - 1) + if junk_of(files[n - 1].name@) {
            0int
        } else {
            files[n - 1].size as int
        }
    }
}

/// The files that count (all but junk) and their total size, as names and a sum.
pub fn tally(files: &[FoundFile]) -> (r: (Vec<String>, u64))
    requires
        counted_size(files@, files@.len() as int) <= u64::MAX,
    ensures
        views(r.0@) == counted_names(files@),
        r.1 == counted_size(files@, files@.len() as int),
{
    let mut names: Vec<String> = Vec::new();
    let mut bytes: u64 = 0;
    let mut i: usize = 0;
    proof {
        lemma_counted_size_monotone(files@, files@.len() as int);
    }
    while i < files.len()
        invariant
            i <= files@.len(),
            counted_size(files@, files@.len() as int) <= u64::MAX,
            forall|a: int| 0 <= a <= files@.len() ==> #[trigger] counted_size(files@, a) <= counted_size(files@, files@.len() as int),
            views(names@) == files@.subrange(0, i as int).filter(|f: FoundFile| !junk_of(f.name@)).map_values(
                |f: FoundFile| f.name@,
            ),
            bytes == counted_size(files@, i as int),
        decreases files.len() - i,
    {
        let junk = is_junk_file(files[i].name.as_str());
        proof {
            reveal(Seq::filter);
            assert(files@.subrange(0, i + 1).drop_last() =~= files@.subrange(0, i as int));
            assert(files@.subrange(0, i + 1).last() == files@[i as int]);
            assert(counted_size(files@, i + 1) <= counted_size(files@, files@.len() as int));
        }
        let ghost before = files@.subrange(0, i as int).filter(|f: FoundFile| !junk_of(f.name@));
        if !junk {
            let ghost vb = views(names@);
            names.push(string_of(chars_of(files[i].name.as_str()).as_slice()));
            bytes = bytes + files[i].size;
            proof {
                assert(files@.subrange(0, i + 1).filter(|f: FoundFile| !junk_of(f.name@)) == before.push(files@[i as int]));
                assert(views(names@) =~= vb.push(files@[i as int].name@));
                assert(views(names@) =~= before.push(files@[i as int]).map_values(|f: FoundFile| f.name@));
            }
        } else {
            assert(files@.subrange(0, i + 1).filter(|f: FoundFile| !junk_of(f.name@)) == before);
        }
        i = i + 1;
    }
    assert(files@.subrange(0, files@.len() as int) =~= files@);
    (names, bytes)
}

proof fn lemma_counted_size_monotone(files: Seq<FoundFile>, n: int)
    requires
        0 <= n <= files.len(),
    ensures
        forall|a: int| 0 <= a <= n ==> 0 <= #[trigger] counted_size(files, a) <= counted_size(files, n),
    decreases n,
{
    if n > 0 {
        lemma_counted_size_monotone(files, n - 1);
        assert(counted_size(files, n) >= counted_size(files, n - 1));
    }
}

/// What is left in a folder after a merge: how many files that are not
/// junk, their total size, and the eight most frequent kinds.
pub fn leftovers(files: &[FoundFile]) -> (r: Leftovers)
    requires
        counted_size(files@, files@.len() as int) <= u64::MAX,
        files@.len() <= i64::MAX,
    ensures
        r.files == counted_names(files@).len(),
        r.bytes == counted_size(files@, files@.len() as int),
        kinds_hold(counted_names(files@), 8, count_views(r.kinds@)),
{
    let (names, bytes) = tally(files);
    proof {
        assert(files@.filter(|f: FoundFile| !junk_of(f.name@)).len() <= files@.len()) by {
            files@.lemma_filter_len(|f: FoundFile| !junk_of(f.name@));
        }
        assert(names@.len() == views(names@).len());
        assert(counted_names(files@).len() == files@.filter(|f: FoundFile| !junk_of(f.name@)).len());
    }
    let k = kinds(names.as_slice(), 8);
    Leftovers { files: names.len(), bytes, kinds: k }
}

/// The reason a merge is refused, as shown.
pub open spec fn merge_error_message_of(e: MergeError) -> Seq<char> {
    match e {
        MergeError::Overlap => "두 폴더가 서로를 품고 있습니다 — 겹치지 않는 두 폴더여야 합니다"@,
        MergeError::Foreign => "같은 라이브러리 안의 폴더끼리만 합칠 수 있습니다"@,
    }
}

impl MergeError {
    pub fn message(&self) -> (r: String)
        ensures
            r@ == merge_error_message_of(*self),
    {
        let c = match self {
            MergeError::Overlap => chars_of("두 폴더가 서로를 품고 있습니다 — 겹치지 않는 두 폴더여야 합니다"),
            MergeError::Foreign => chars_of("같은 라이브러리 안의 폴더끼리만 합칠 수 있습니다"),
        };
        string_of(c.as_slice())
    }
}

/// The folders the photos of a merge land in, in the order the photos come
/// (each photo's folder below the source becomes the same folder below the
/// destination).
pub fn merge_plan(src: &str, dst: &str, dirs: &[String]) -> (r: Vec<String>)
    ensures
        r@.len() == dirs@.len(),
        forall|k: int| 0 <= k < r@.len() ==> (#[trigger] r@[k])@ == landing_dir_of(src@, dst@, dirs@[k]@),
{
    let mut v: Vec<String> = Vec::new();
    let mut i: usize = 0;
    while i < dirs.len()
        invariant
            i <= dirs@.len(),
            v@.len() == i,
            forall|k: int| 0 <= k < i ==> (#[trigger] v@[k])@ == landing_dir_of(src@, dst@, dirs@[k]@),
        decreases dirs.len() - i,
    {
        v.push(landing_dir(src, dst, dirs[i].as_str()));
        i = i + 1;
    }
    v
}

/// The answer to a merge of a folder with no photos: nothing done, no batch.
pub fn nothing_to_merge() -> (o: crate::trash::Outcome)
    ensures
        o.batch_id == 0 && o.moved == 0 && o.failed == 0 && o.bytes == 0,
        o.failed_ids@.len() == 0 && o.folders_removed == 0,
        o.first_error matches Some(m) && m@ == "합칠 사진이 없습니다"@,
{
    crate::trash::Outcome {
        batch_id: 0,
        moved: 0,
        failed: 0,
        bytes: 0,
        first_error: Some(string_of(chars_of("합칠 사진이 없습니다").as_slice())),
        failed_ids: Vec::new(),
        folders_removed: 0,
    }
}

/// The note of a merge stopped midway; what moved stays moved, and can be undone.
pub open spec fn merge_stopped_of() -> Seq<char> {
    "멈췄습니다 — 옮긴 것은 그대로, ⌘Z 로 되돌릴 수 있습니다"@
}

pub fn merge_stopped() -> (r: String)
    ensures
        r@ == merge_stopped_of(),
{
    string_of(chars_of("멈췄습니다 — 옮긴 것은 그대로, ⌘Z 로 되돌릴 수 있습니다").as_slice())
}

} // verus!
