//! Folder watching: which change notices matter, which folder a notice points
//! at, and which pending folders have gone quiet long enough to rescan.

use crate::kinds::{classify_chars, kind_of};
use crate::text::{
    chars_eq, chars_of, concat, last_index, last_index_of, lemma_last_index_of, slice_of,
    split_chars, split_on, starts_with, starts_with_chars, str_is, string_of,
};
use vstd::prelude::*;

verus! {

/// What changed in one folder, reported to the front end.
#[derive(Debug, Clone)]
pub struct Changed {
    pub library_id: i64,
    pub inserted: usize,
    pub updated: usize,
    pub removed: usize,
}

/// Milliseconds a folder must stay quiet before it is rescanned.
pub const QUIET_MS: u64 = 1500;

/// The parts of a `/`-separated path that name something: empty parts and
/// `.` are left out, as `Path::components` leaves them out.
pub open spec fn named_parts(parts: Seq<Seq<char>>) -> Seq<Seq<char>>
    decreases parts.len(),
{
    if parts.len() == 0 {
        Seq::empty()
    } else {
        let rest = named_parts(parts.drop_last());
        if parts.last().len() == 0 || parts.last() == "."@ {
            rest
        } else {
            rest.push(parts.last())
        }
    }
}

pub open spec fn path_parts(p: Seq<char>) -> Seq<Seq<char>> {
    named_parts(split_on(p, '/'))
}

/// `Path::file_name`: the last part, unless it is `..` or there is none.
pub open spec fn file_name_of(p: Seq<char>) -> Option<Seq<char>> {
    let c = path_parts(p);
    if c.len() == 0 || c.last() == ".."@ {
        None
    } else {
        Some(c.last())
    }
}

/// `Path::extension` of a file name: what follows the last `'.'`, unless that
/// dot starts the name.
pub open spec fn has_extension(name: Seq<char>) -> bool {
    last_index_of(name, '.') > 0
}

/// Folders whose changes are never ours to follow.
pub open spec fn ignored_part(s: Seq<char>) -> bool {
    s == ".acut"@ || s == ".Trashes"@ || s == ".Spotlight-V100"@ || s == ".fseventsd"@
}

/// A notice is followed unless it lies under a cache, trash or system
/// folder, or names a resource fork or `.DS_Store`; a name without an
/// extension (a folder) is followed, a file only when it is media.
pub open spec fn interesting_of(p: Seq<char>) -> bool {
    let parts = split_on(p, '/');
    let name = match file_name_of(p) {
        Some(n) => n,
        None => Seq::empty(),
    };
    &&& !(exists|i: int| 0 <= i < parts.len() && ignored_part(#[trigger] parts[i]))
    &&& !(starts_with(name, "._"@) || name == ".DS_Store"@)
    &&& (has_extension(name) ==> kind_of(name) is Some)
}

/// The folder a notice points at: the path itself when its name has no
/// extension, else its parent (its named parts without the last, under `/`
/// when it is absolute).
pub open spec fn folder_of_spec(p: Seq<char>) -> Seq<char> {
    let name = match file_name_of(p) {
        Some(n) => n,
        None => Seq::empty(),
    };
    if !has_extension(name) {
        p
    } else {
        let c = path_parts(p);
        let dir = joined(c.drop_last());
        if p.len() > 0 && p[0] == '/' {
            "/"@ + dir
        } else {
            dir
        }
    }
}

/// Parts joined by `/`.
pub open spec fn joined(parts: Seq<Seq<char>>) -> Seq<char>
    decreases parts.len(),
{
    if parts.len() == 0 {
        Seq::empty()
    } else if parts.len() == 1 {
        parts[0]
    } else {
        joined(parts.drop_last()) + "/"@ + parts.last()
    }
}

fn named_parts_exec(p: &[char]) -> (r: Vec<Vec<char>>)
    ensures
        r@.len() == path_parts(p@).len(),
        forall|k: int| 0 <= k < r@.len() ==> #[trigger] r@[k]@ == path_parts(p@)[k],
{
    let pieces = split_chars(p, '/');
    let ghost all = split_on(p@, '/');
    let mut out: Vec<Vec<char>> = Vec::new();
    let mut i: usize = 0;
    while i < pieces.len()
        invariant
            i <= pieces@.len(),
            pieces@.len() == all.len(),
            all == split_on(p@, '/'),
            forall|k: int| 0 <= k < pieces@.len() ==> #[trigger] pieces@[k]@ == all[k],
            out@.len() == named_parts(all.subrange(0, i as int)).len(),
            forall|k: int|
                0 <= k < out@.len() ==> #[trigger] out@[k]@ == named_parts(
                    all.subrange(0, i as int),
                )[k],
        decreases pieces.len() - i,
    {
        assert(all.subrange(0, i + 1).drop_last() =~= all.subrange(0, i as int));
        assert(all.subrange(0, i + 1).last() == all[i as int]);
        assert(pieces@[i as int]@ == all[i as int]);
        let piece = slice_of(pieces[i].as_slice(), 0, pieces[i].len());
        assert(piece@ =~= all[i as int]);
        if !(piece.len() == 0 || str_is(".", piece.as_slice())) {
            out.push(piece);
        }
        i = i + 1;
    }
    assert(all.subrange(0, all.len() as int) =~= all);
    out
}

fn file_name_exec(parts: &Vec<Vec<char>>, p: &[char]) -> (r: Vec<char>)
    requires
        parts@.len() == path_parts(p@).len(),
        forall|k: int| 0 <= k < parts@.len() ==> #[trigger] parts@[k]@ == path_parts(p@)[k],
    ensures
        r@ == match file_name_of(p@) {
            Some(n) => n,
            None => Seq::empty(),
        },
{
    if parts.len() == 0 {
        return Vec::new();
    }
    let last = &parts[parts.len() - 1];
    if str_is("..", last.as_slice()) {
        Vec::new()
    } else {
        slice_of(last.as_slice(), 0, last.len())
    }
}

fn has_extension_exec(name: &[char]) -> (r: bool)
    ensures
        r == has_extension(name@),
{
    match last_index(name, '.') {
        Some(i) => i > 0,
        None => false,
    }
}

/// Whether this change notice is one to follow.
pub fn interesting(path: &str) -> (r: bool)
    ensures
        r == interesting_of(path@),
{
    let p = chars_of(path);
    let pieces = split_chars(p.as_slice(), '/');
    let ghost all = split_on(p@, '/');
    let mut i: usize = 0;
    while i < pieces.len()
        invariant
            i <= pieces@.len(),
            p@ == path@,
            all == split_on(p@, '/'),
            pieces@.len() == all.len(),
            forall|k: int| 0 <= k < pieces@.len() ==> #[trigger] pieces@[k]@ == all[k],
            forall|k: int| 0 <= k < i ==> !ignored_part(#[trigger] all[k]),
        decreases pieces.len() - i,
    {
        let s = pieces[i].as_slice();
        assert(pieces@[i as int]@ == all[i as int]);
        if str_is(".acut", s) || str_is(".Trashes", s) || str_is(".Spotlight-V100", s) || str_is(
            ".fseventsd",
            s,
        ) {
            assert(ignored_part(all[i as int]));
            return false;
        }
        i = i + 1;
    }
    let parts = named_parts_exec(p.as_slice());
    let name = file_name_exec(&parts, p.as_slice());
    let fork = chars_of("._");
    if starts_with_chars(name.as_slice(), fork.as_slice()) || str_is(".DS_Store", name.as_slice()) {
        return false;
    }
    if !has_extension_exec(name.as_slice()) {
        return true;
    }
    classify_chars(name.as_slice()).is_some()
}

fn joined_exec(parts: &Vec<Vec<char>>, n: usize) -> (r: Vec<char>)
    requires
        n <= parts@.len(),
    ensures
        r@ == joined(parts@.subrange(0, n as int).map_values(|v: Vec<char>| v@)),
{
    let mut r: Vec<char> = Vec::new();
    let mut i: usize = 0;
    let ghost views = parts@.map_values(|v: Vec<char>| v@);
    assert(views.subrange(0, 0) =~= Seq::<Seq<char>>::empty());
    assert(parts@.subrange(0, 0).map_values(|v: Vec<char>| v@) =~= Seq::<Seq<char>>::empty());
    while i < n
        invariant
            i <= n <= parts@.len(),
            views == parts@.map_values(|v: Vec<char>| v@),
            r@ == joined(views.subrange(0, i as int)),
        decreases n - i,
    {
        let ghost sub = views.subrange(0, i + 1);
        assert(sub.drop_last() =~= views.subrange(0, i as int));
        assert(sub.last() == parts@[i as int]@);
        if i == 0 {
            r = slice_of(parts[0].as_slice(), 0, parts[0].len());
            assert(r@ == sub[0]);
        } else {
            let slash = chars_of("/");
            let a = concat(r.as_slice(), slash.as_slice());
            r = concat(a.as_slice(), parts[i].as_slice());
        }
        i = i + 1;
    }
    assert(parts@.subrange(0, n as int).map_values(|v: Vec<char>| v@) =~= views.subrange(
        0,
        n as int,
    ));
    r
}

/// The folder to rescan for a notice: a file's parent, or a folder itself.
pub fn folder_of(path: &str) -> (r: Option<String>)
    ensures
        r matches Some(f) && f@ == folder_of_spec(path@),
{
    let p = chars_of(path);
    let parts = named_parts_exec(p.as_slice());
    let name = file_name_exec(&parts, p.as_slice());
    if !has_extension_exec(name.as_slice()) {
        return Some(string_of(p.as_slice()));
    }
    assert(parts@.len() > 0);
    let dir = joined_exec(&parts, parts.len() - 1);
    proof {
        let c = path_parts(p@);
        assert(parts@.subrange(0, parts@.len() - 1).map_values(|v: Vec<char>| v@) =~= c.drop_last());
    }
    if p.len() > 0 && p[0] == '/' {
        let root = chars_of("/");
        let r = concat(root.as_slice(), dir.as_slice());
        Some(string_of(r.as_slice()))
    } else {
        Some(string_of(dir.as_slice()))
    }
}

/// A folder waiting to be rescanned: its library, its path, and the time in
/// milliseconds of the last notice about it.
#[derive(Debug, Clone)]
pub struct Pending {
    pub library_id: i64,
    pub folder: String,
    pub at_ms: u64,
}

pub open spec fn key_of(p: Pending) -> (i64, Seq<char>) {
    (p.library_id, p.folder@)
}

/// No folder waits twice.
pub open spec fn keys_unique(s: Seq<Pending>) -> bool {
    forall|i: int, j: int|
        0 <= i < j < s.len() ==> key_of(#[trigger] s[i]) != key_of(#[trigger] s[j])
}

/// Quiet long enough: `now.duration_since(at) >= quiet`, the duration being
/// zero when `at` is later than `now`.
pub open spec fn is_due(at: u64, now: u64, quiet: u64) -> bool {
    (if now >= at {
        now - at
    } else {
        0
    }) >= quiet
}

pub open spec fn due_keys(s: Seq<Pending>, now: u64, quiet: u64) -> Seq<(i64, Seq<char>)>
    decreases s.len(),
{
    if s.len() == 0 {
        Seq::empty()
    } else {
        let rest = due_keys(s.drop_last(), now, quiet);
        if is_due(s.last().at_ms, now, quiet) {
            rest.push(key_of(s.last()))
        } else {
            rest
        }
    }
}

pub open spec fn still_waiting(s: Seq<Pending>, now: u64, quiet: u64) -> Seq<Pending>
    decreases s.len(),
{
    if s.len() == 0 {
        Seq::empty()
    } else {
        let rest = still_waiting(s.drop_last(), now, quiet);
        if is_due(s.last().at_ms, now, quiet) {
            rest
        } else {
            rest.push(s.last())
        }
    }
}

proof fn lemma_still_waiting_sub(s: Seq<Pending>, now: u64, quiet: u64)
    ensures
        forall|i: int|
            0 <= i < still_waiting(s, now, quiet).len() ==> s.contains(
                #[trigger] still_waiting(s, now, quiet)[i],
            ),
        keys_unique(s) ==> keys_unique(still_waiting(s, now, quiet)),
    decreases s.len(),
{
    if s.len() > 0 {
        lemma_still_waiting_sub(s.drop_last(), now, quiet);
        let rest = still_waiting(s.drop_last(), now, quiet);
        let w = still_waiting(s, now, quiet);
        assert forall|i: int| 0 <= i < w.len() implies s.contains(#[trigger] w[i]) by {
            if i < rest.len() {
                assert(w[i] == rest[i]);
                let k = choose|k: int| 0 <= k < s.drop_last().len() && s.drop_last()[k] == rest[i];
                assert(s[k] == rest[i]);
            } else {
                assert(w[i] == s.last());
                assert(s[s.len() - 1] == s.last());
            }
        }
        if keys_unique(s) {
            assert(keys_unique(s.drop_last())) by {
                assert forall|i: int, j: int| 0 <= i < j < s.drop_last().len() implies key_of(
                    #[trigger] s.drop_last()[i],
                ) != key_of(#[trigger] s.drop_last()[j]) by {
                    assert(s.drop_last()[i] == s[i] && s.drop_last()[j] == s[j]);
                }
            }
            assert forall|i: int, j: int| 0 <= i < j < w.len() implies key_of(#[trigger] w[i])
                != key_of(#[trigger] w[j]) by {
                if j < rest.len() {
                    assert(w[i] == rest[i] && w[j] == rest[j]);
                } else {
                    assert(w[j] == s.last());
                    assert(w[i] == rest[i]);
                    let k = choose|k: int|
                        0 <= k < s.drop_last().len() && s.drop_last()[k] == rest[i];
                    assert(s[k] == rest[i]);
                    assert(s[s.len() - 1] == s.last());
                }
            }
        }
    }
}

/// Takes out the folders that went quiet, in the order they wait, and
/// leaves the rest waiting in order.
pub fn take_due(pending: &mut Vec<Pending>, now_ms: u64, quiet_ms: u64) -> (r: Vec<(i64, String)>)
    ensures
        r@.len() == due_keys(old(pending)@, now_ms, quiet_ms).len(),
        forall|k: int|
            0 <= k < r@.len() ==> (#[trigger] r@[k]).0 == due_keys(
                old(pending)@,
                now_ms,
                quiet_ms,
            )[k].0 && r@[k].1@ == due_keys(old(pending)@, now_ms, quiet_ms)[k].1,
        final(pending)@ == still_waiting(old(pending)@, now_ms, quiet_ms),
        keys_unique(old(pending)@) ==> keys_unique(final(pending)@),
        keys_unique(old(pending)@) ==> forall|i: int, j: int|
            0 <= i < j < r@.len() ==> (#[trigger] r@[i]).0 != (#[trigger] r@[j]).0 || r@[i].1@ != r@[j].1@,
{
    let ghost orig = pending@;
    let mut items: Vec<Pending> = Vec::new();
    std::mem::swap(&mut items, pending);
    let mut due: Vec<(i64, String)> = Vec::new();
    let mut keep: Vec<Pending> = Vec::new();
    let ghost mut i: int = 0;
    assert(orig.subrange(0, 0) =~= Seq::<Pending>::empty());
    assert(orig.subrange(0, orig.len() as int) =~= orig);
    while items.len() > 0
        invariant
            0 <= i <= orig.len(),
            items@ == orig.subrange(i, orig.len() as int),
            due@.len() == due_keys(orig.subrange(0, i), now_ms, quiet_ms).len(),
            forall|k: int|
                0 <= k < due@.len() ==> (#[trigger] due@[k]).0 == due_keys(
                    orig.subrange(0, i),
                    now_ms,
                    quiet_ms,
                )[k].0 && due@[k].1@ == due_keys(orig.subrange(0, i), now_ms, quiet_ms)[k].1,
            keep@ == still_waiting(orig.subrange(0, i), now_ms, quiet_ms),
        decreases items.len(),
    {
        assert(orig.subrange(0, i + 1).drop_last() =~= orig.subrange(0, i));
        let p = items.remove(0);
        assert(p == orig[i]);
        assert(items@ =~= orig.subrange(i + 1, orig.len() as int));
        let waited = if now_ms >= p.at_ms {
            now_ms - p.at_ms
        } else {
            0
        };
        if waited >= quiet_ms {
            due.push((p.library_id, p.folder));
        } else {
            keep.push(p);
        }
        proof {
            i = i + 1;
        }
    }
    assert(orig.subrange(0, i) =~= orig);
    proof {
        lemma_still_waiting_sub(orig, now_ms, quiet_ms);
        if keys_unique(orig) {
            lemma_due_keys_unique(orig, now_ms, quiet_ms);
            let dk = due_keys(orig, now_ms, quiet_ms);
            assert forall|i: int, j: int| 0 <= i < j < due@.len() implies (#[trigger] due@[i]).0 != (#[trigger] due@[j]).0
                || due@[i].1@ != due@[j].1@ by {
                assert(dk[i] != dk[j]);
            }
        }
    }
    *pending = keep;
    due
}

/// Marks a folder as changed now: its time is renewed if it already waits,
/// else it joins the end of the queue.
pub fn note_change(pending: &mut Vec<Pending>, library_id: i64, folder: String, at_ms: u64)
    requires
        keys_unique(old(pending)@),
    ensures
        keys_unique(final(pending)@),
        exists|k: int|
            0 <= k < final(pending)@.len() && key_of(#[trigger] final(pending)@[k]) == (
                library_id,
                folder@,
            ) && final(pending)@[k].at_ms == at_ms,
        forall|k: int|
            0 <= k < final(pending)@.len() && key_of(#[trigger] final(pending)@[k]) != (
                library_id,
                folder@,
            ) ==> old(pending)@.contains(final(pending)@[k]),
        forall|k: int|
            0 <= k < old(pending)@.len() && key_of(#[trigger] old(pending)@[k]) != (
                library_id,
                folder@,
            ) ==> final(pending)@.contains(old(pending)@[k]),
{
    let f = chars_of(folder.as_str());
    let mut i: usize = 0;
    while i < pending.len()
        invariant
            i <= pending@.len(),
            pending@ == old(pending)@,
            keys_unique(old(pending)@),
            f@ == folder@,
            forall|k: int| 0 <= k < i ==> key_of(#[trigger] pending@[k]) != (library_id, folder@),
        decreases pending.len() - i,
    {
        let g = chars_of(pending[i].folder.as_str());
        if pending[i].library_id == library_id && chars_eq(g.as_slice(), f.as_slice()) {
            let ghost before = pending@;
            let old_p = pending.remove(i);
            let p = Pending { library_id, folder: old_p.folder, at_ms };
            pending.insert(i, p);
            proof {
                assert(pending@ =~= before.update(i as int, p));
                assert forall|a: int, b: int| 0 <= a < b < pending@.len() implies key_of(
                    #[trigger] pending@[a],
                ) != key_of(#[trigger] pending@[b]) by {
                    assert(key_of(pending@[a]) == key_of(before[a]));
                    assert(key_of(pending@[b]) == key_of(before[b]));
                }
                assert(key_of(pending@[i as int]) == (library_id, folder@));
                assert forall|k: int|
                    0 <= k < before.len() && key_of(#[trigger] before[k]) != (
                        library_id,
                        folder@,
                    ) implies pending@.contains(before[k]) by {
                    assert(k != i);
                    assert(pending@[k] == before[k]);
                }
                assert forall|k: int|
                    0 <= k < pending@.len() && key_of(#[trigger] pending@[k]) != (
                        library_id,
                        folder@,
                    ) implies before.contains(pending@[k]) by {
                    assert(k != i);
                    assert(pending@[k] == before[k]);
                }
            }
            return;
        }
        i = i + 1;
    }
    let ghost before = pending@;
    pending.push(Pending { library_id, folder, at_ms });
    proof {
        assert forall|k: int|
            0 <= k < before.len() && key_of(#[trigger] before[k]) != (library_id, folder@) implies pending@.contains(
            before[k],
        ) by {
            assert(pending@[k] == before[k]);
        }
        assert forall|k: int|
            0 <= k < pending@.len() && key_of(#[trigger] pending@[k]) != (library_id, folder@) implies before.contains(
            pending@[k],
        ) by {
            assert(pending@[k] == before[k]);
        }
        assert(key_of(pending@[before.len() as int]) == (library_id, folder@));
    }
}

proof fn lemma_due_keys_from(s: Seq<Pending>, now: u64, quiet: u64)
    ensures
        forall|x: (i64, Seq<char>)|
            due_keys(s, now, quiet).contains(x) ==> exists|k: int|
                0 <= k < s.len() && key_of(#[trigger] s[k]) == x && is_due(s[k].at_ms, now, quiet),
    decreases s.len(),
{
    if s.len() > 0 {
        lemma_due_keys_from(s.drop_last(), now, quiet);
        let rest = due_keys(s.drop_last(), now, quiet);
        assert forall|x: (i64, Seq<char>)| due_keys(s, now, quiet).contains(x) implies exists|k: int|
            0 <= k < s.len() && key_of(#[trigger] s[k]) == x && is_due(s[k].at_ms, now, quiet) by {
            if rest.contains(x) {
                let k = choose|k: int|
                    0 <= k < s.drop_last().len() && key_of(#[trigger] s.drop_last()[k]) == x && is_due(
                        s.drop_last()[k].at_ms,
                        now,
                        quiet,
                    );
                assert(s[k] == s.drop_last()[k]);
            } else {
                let j = choose|j: int| 0 <= j < due_keys(s, now, quiet).len() && due_keys(s, now, quiet)[j] == x;
                assert(j == rest.len());
                assert(s[s.len() - 1] == s.last());
            }
        }
    }
}

proof fn lemma_due_keys_has(s: Seq<Pending>, now: u64, quiet: u64, k: int)
    requires
        0 <= k < s.len(),
        is_due(s[k].at_ms, now, quiet),
    ensures
        due_keys(s, now, quiet).contains(key_of(s[k])),
    decreases s.len(),
{
    let d = due_keys(s, now, quiet);
    if k == s.len() - 1 {
        assert(d[d.len() - 1] == key_of(s.last()));
    } else {
        assert(s.drop_last()[k] == s[k]);
        lemma_due_keys_has(s.drop_last(), now, quiet, k);
        let rest = due_keys(s.drop_last(), now, quiet);
        let j = choose|j: int| 0 <= j < rest.len() && rest[j] == key_of(s[k]);
        if is_due(s.last().at_ms, now, quiet) {
            assert(d[j] == rest[j]);
        }
    }
}

proof fn lemma_still_waiting_has(s: Seq<Pending>, now: u64, quiet: u64, k: int)
    requires
        0 <= k < s.len(),
        !is_due(s[k].at_ms, now, quiet),
    ensures
        still_waiting(s, now, quiet).contains(s[k]),
    decreases s.len(),
{
    let w = still_waiting(s, now, quiet);
    if k == s.len() - 1 {
        assert(w[w.len() - 1] == s.last());
    } else {
        assert(s.drop_last()[k] == s[k]);
        lemma_still_waiting_has(s.drop_last(), now, quiet, k);
        let rest = still_waiting(s.drop_last(), now, quiet);
        let j = choose|j: int| 0 <= j < rest.len() && rest[j] == s[k];
        if !is_due(s.last().at_ms, now, quiet) {
            assert(w[j] == rest[j]);
        }
    }
}

/// A folder comes out only once it has gone quiet: among folders that each
/// wait once, a folder is taken out exactly when its last notice is at
/// least the quiet time old; otherwise it stays waiting, as it was.
pub proof fn lemma_out_only_when_quiet(s: Seq<Pending>, now: u64, quiet: u64, k: int)
    requires
        keys_unique(s),
        0 <= k < s.len(),
    ensures
        due_keys(s, now, quiet).contains(key_of(s[k])) <==> is_due(s[k].at_ms, now, quiet),
        !is_due(s[k].at_ms, now, quiet) ==> still_waiting(s, now, quiet).contains(s[k]),
{
    if is_due(s[k].at_ms, now, quiet) {
        lemma_due_keys_has(s, now, quiet, k);
    } else {
        lemma_still_waiting_has(s, now, quiet, k);
        lemma_due_keys_from(s, now, quiet);
        if due_keys(s, now, quiet).contains(key_of(s[k])) {
            let j = choose|j: int| 0 <= j < s.len() && key_of(#[trigger] s[j]) == key_of(s[k]) && is_due(s[j].at_ms, now, quiet);
            if j < k {
                assert(key_of(s[j]) != key_of(s[k]));
            } else if k < j {
                assert(key_of(s[k]) != key_of(s[j]));
            }
        }
    }
}

proof fn lemma_still_waiting_not_due(s: Seq<Pending>, now: u64, quiet: u64)
    ensures
        forall|i: int|
            0 <= i < still_waiting(s, now, quiet).len() ==> !is_due(
                (#[trigger] still_waiting(s, now, quiet)[i]).at_ms,
                now,
                quiet,
            ),
    decreases s.len(),
{
    if s.len() > 0 {
        lemma_still_waiting_not_due(s.drop_last(), now, quiet);
        let rest = still_waiting(s.drop_last(), now, quiet);
        let w = still_waiting(s, now, quiet);
        assert forall|i: int| 0 <= i < w.len() implies !is_due((#[trigger] w[i]).at_ms, now, quiet) by {
            if i < rest.len() {
                assert(w[i] == rest[i]);
            }
        }
    }
}

/// A folder taken out no longer waits, and every folder still waiting is
/// one that was waiting and has not gone quiet.
pub proof fn lemma_taken_out_leaves(s: Seq<Pending>, now: u64, quiet: u64, k: int)
    requires
        0 <= k < s.len(),
    ensures
        is_due(s[k].at_ms, now, quiet) ==> !still_waiting(s, now, quiet).contains(s[k]),
        forall|i: int|
            0 <= i < still_waiting(s, now, quiet).len() ==> s.contains(#[trigger] still_waiting(s, now, quiet)[i])
                && !is_due(still_waiting(s, now, quiet)[i].at_ms, now, quiet),
{
    lemma_still_waiting_not_due(s, now, quiet);
    lemma_still_waiting_sub(s, now, quiet);
}

/// Among folders that each wait once, no folder is taken out twice.
pub proof fn lemma_due_keys_unique(s: Seq<Pending>, now: u64, quiet: u64)
    requires
        keys_unique(s),
    ensures
        forall|i: int, j: int|
            0 <= i < j < due_keys(s, now, quiet).len() ==> #[trigger] due_keys(s, now, quiet)[i] != #[trigger] due_keys(
                s,
                now,
                quiet,
            )[j],
    decreases s.len(),
{
    if s.len() > 0 {
        let p = s.drop_last();
        assert(keys_unique(p)) by {
            assert forall|i: int, j: int| 0 <= i < j < p.len() implies key_of(#[trigger] p[i]) != key_of(#[trigger] p[j]) by {
                assert(p[i] == s[i] && p[j] == s[j]);
            }
        }
        lemma_due_keys_unique(p, now, quiet);
        lemma_due_keys_from(p, now, quiet);
        let rest = due_keys(p, now, quiet);
        let d = due_keys(s, now, quiet);
        if is_due(s.last().at_ms, now, quiet) {
            assert forall|i: int, j: int| 0 <= i < j < d.len() implies #[trigger] d[i] != #[trigger] d[j] by {
                if j == rest.len() {
                    assert(d[i] == rest[i]);
                    assert(rest.contains(rest[i]));
                    let k = choose|k: int| 0 <= k < p.len() && key_of(#[trigger] p[k]) == rest[i] && is_due(p[k].at_ms, now, quiet);
                    assert(p[k] == s[k]);
                    assert(d[j] == key_of(s[s.len() - 1]));
                } else {
                    assert(d[i] == rest[i] && d[j] == rest[j]);
                }
            }
        }
    }
}

} // verus!
