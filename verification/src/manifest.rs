//! The manifest of a folder tree: one line per entry, in the order of the
//! lines, digested with SHA-256. The stat digest (names, sizes, times) tells
//! whether a tree changed since an operation; the content digest (names,
//! sizes, file hashes) checks a copy against its source.

use crate::order::{lemma_lex_irreflexive, lemma_lex_total, lemma_lex_transitive, lex_less, lex_lt};
use crate::text::{chars_of, concat, decimal, decimal_of, signed_decimal, signed_decimal_of, string_of};
use sha2::{Digest, Sha256};
use vstd::prelude::*;

verus! {

/// SHA-256 of the UTF-8 bytes of a text, written as lower-case hex, as the
/// `sha2` crate computes it.
pub uninterp spec fn sha256_hex_of(text: Seq<char>) -> Seq<char>;

/// `Sha256::digest` of the `sha2` crate over the bytes of the text,
/// formatted with `{:x}`. Claimed: the result is `sha256_hex_of` of the
/// text, a function of the text alone. (Hashing the lines one `update` at a
/// time, as a streaming hasher does, digests the same bytes.)
#[verifier::external_body]
fn sha256_hex(text: &str) -> (r: String)
    ensures
        r@ == sha256_hex_of(text@),
{
    format!("{:x}", Sha256::digest(text.as_bytes()))
}

/// What an entry of a tree is.
#[derive(Debug, Clone)]
pub enum EntryKind {
    Dir,
    File {
        size: u64,
        /// Modification time in seconds.
        mtime: i64,
        /// SHA-256 of the contents, when they were read.
        hash: Option<String>,
    },
}

/// An entry of a tree: its path relative to the root (in NFC) and its kind.
#[derive(Debug, Clone)]
pub struct TreeEntry {
    pub rel: String,
    pub kind: EntryKind,
}

/// The manifest of a tree.
#[derive(Debug, Clone)]
pub struct Manifest {
    /// Digest of the content lines; empty when contents were not read.
    pub sha256: String,
    /// Digest of the stat lines.
    pub stat_sha256: String,
    pub files: usize,
    pub directories: usize,
    pub bytes: u64,
    /// Each file whose contents were read, with its hash, in line order.
    pub file_hashes: Vec<(String, String)>,
}

/// The plain view of an entry: path, whether it is a folder, size, time and hash.
pub type EntryView = (Seq<char>, bool, u64, i64, Option<Seq<char>>);

pub open spec fn entry_view(e: TreeEntry) -> EntryView {
    match e.kind {
        EntryKind::Dir => (e.rel@, true, 0u64, 0i64, None),
        EntryKind::File { size, mtime, hash } => (
            e.rel@,
            false,
            size,
            mtime,
            match hash {
                Some(h) => Some(h@),
                None => None,
            },
        ),
    }
}

/// The stat line of an entry: `D\0<path>` for a folder,
/// `F\0<path>\0<size>\0<mtime>` for a file.
pub open spec fn stat_line(v: EntryView) -> Seq<char> {
    if v.1 {
        "D\0"@ + v.0
    } else {
        "F\0"@ + v.0 + "\0"@ + decimal(v.2 as nat) + "\0"@ + signed_decimal(v.3 as int)
    }
}

/// The content line of an entry: `D\0<path>` for a folder,
/// `F\0<path>\0<size>\0<hash>` for a file whose contents were read, empty otherwise.
pub open spec fn content_line(v: EntryView) -> Seq<char> {
    if v.1 {
        "D\0"@ + v.0
    } else {
        match v.4 {
            Some(h) => "F\0"@ + v.0 + "\0"@ + decimal(v.2 as nat) + "\0"@ + h,
            None => Seq::empty(),
        }
    }
}

/// Lines, each followed by a newline.
pub open spec fn joined(lines: Seq<Seq<char>>) -> Seq<char>
    decreases lines.len(),
{
    if lines.len() == 0 {
        Seq::empty()
    } else {
        joined(lines.drop_last()) + lines.last() + "\n"@
    }
}

/// Whether `r` holds the entries of `es` (by view), each once, in strictly
/// increasing order of their stat lines.
pub open spec fn in_line_order(es: Seq<EntryView>, r: Seq<EntryView>) -> bool {
    &&& r.len() == es.len()
    &&& forall|i: int, j: int| 0 <= i < j < r.len() ==> lex_lt(stat_line(#[trigger] r[i]), stat_line(#[trigger] r[j]))
    &&& forall|i: int| 0 <= i < r.len() ==> es.contains(#[trigger] r[i])
    &&& forall|j: int| 0 <= j < es.len() ==> r.contains(#[trigger] es[j])
}

/// Number of folders among the first `n` entries.
pub open spec fn dir_count(r: Seq<EntryView>, n: int) -> int
    decreases n,
{
    if n <= 0 {
        0
    } else {
        dir_count(r, n - 1) + if r[n - 1].1 {
            1int
        } else {
            0int
        }
    }
}

/// Total size of the first `n` entries (folders count nothing).
pub open spec fn size_sum(r: Seq<EntryView>, n: int) -> int
    decreases n,
{
    if n <= 0 {
        0
    } else {
        size_sum(r, n - 1) + r[n - 1].2 as int
    }
}

/// The files among the first `n` entries whose contents were read, with their hashes.
pub open spec fn hashed(r: Seq<EntryView>, n: int) -> Seq<(Seq<char>, Seq<char>)>
    decreases n,
{
    if n <= 0 {
        Seq::empty()
    } else if !r[n - 1].1 && r[n - 1].4 is Some {
        hashed(r, n - 1).push((r[n - 1].0, r[n - 1].4->0))
    } else {
        hashed(r, n - 1)
    }
}

/// The manifest of the entries `r` in line order.
pub open spec fn manifest_of(r: Seq<EntryView>, hash_contents: bool, m: Manifest) -> bool {
    &&& m.stat_sha256@ == sha256_hex_of(joined(r.map_values(|v: EntryView| stat_line(v))))
    &&& m.sha256@ == if hash_contents {
        sha256_hex_of(joined(r.map_values(|v: EntryView| content_line(v))))
    } else {
        Seq::empty()
    }
    &&& m.directories == dir_count(r, r.len() as int)
    &&& m.files == r.len() - dir_count(r, r.len() as int)
    &&& m.bytes == size_sum(r, r.len() as int)
    &&& m.file_hashes@.map_values(|p: (String, String)| (p.0@, p.1@)) == hashed(r, r.len() as int)
}

/// The manifest of a tree's entries: that of the entries in line order.
pub open spec fn manifest_holds(es: Seq<EntryView>, hash_contents: bool, m: Manifest) -> bool {
    exists|o: Seq<EntryView>| in_line_order(es, o) && manifest_of(o, hash_contents, m)
}

/// Whether the sizes of a tree's entries add up beyond `u64`.
pub open spec fn too_large(es: Seq<EntryView>) -> bool {
    exists|o: Seq<EntryView>| in_line_order(es, o) && size_sum(o, o.len() as int) > u64::MAX
}

/// Why a manifest cannot be made.
#[derive(Debug, Clone, Copy, PartialEq, Eq, Structural)]
pub enum ManifestError {
    /// The sizes add up to more than `u64` holds.
    TooLarge,
}

/// Whether the entries of a tree have distinct paths without `\0`, as a
/// walk of a file system gives them.
pub open spec fn distinct_paths(es: Seq<EntryView>) -> bool {
    &&& forall|i: int, j: int| 0 <= i < j < es.len() ==> (#[trigger] es[i]).0 != (#[trigger] es[j]).0
    &&& forall|i: int| 0 <= i < es.len() ==> !(#[trigger] es[i]).0.contains('\0')
}

proof fn lemma_distinct_lines(a: EntryView, b: EntryView)
    requires
        a.0 != b.0,
        !a.0.contains('\0'),
        !b.0.contains('\0'),
    ensures
        stat_line(a) != stat_line(b),
{
    let la = stat_line(a);
    let lb = stat_line(b);
    reveal_strlit("D\0");
    reveal_strlit("F\0");
    reveal_strlit("\0");
    if la == lb {
        assert(la[0] == lb[0]);
        if a.1 && b.1 {
            assert(a.0 =~= la.subrange(2, la.len() as int));
            assert(b.0 =~= lb.subrange(2, lb.len() as int));
        } else if !a.1 && !b.1 {
            let n = a.0.len() as int;
            let m = b.0.len() as int;
            if n < m {
                assert(la[2 + n] == '\0');
                assert(lb[2 + n] == b.0[n]);
                assert(b.0.contains(b.0[n]));
            } else if m < n {
                assert(lb[2 + m] == '\0');
                assert(la[2 + m] == a.0[m]);
                assert(a.0.contains(a.0[m]));
            } else {
                assert(a.0 =~= la.subrange(2, 2 + n));
                assert(b.0 =~= lb.subrange(2, 2 + m));
            }
        }
    }
}

fn stat_line_exec(e: &TreeEntry) -> (r: Vec<char>)
    ensures
        r@ == stat_line(entry_view(*e)),
{
    let rel = chars_of(e.rel.as_str());
    match &e.kind {
        EntryKind::Dir => {
            let t = chars_of("D\0");
            concat(t.as_slice(), rel.as_slice())
        },
        EntryKind::File { size, mtime, hash } => {
            let t = chars_of("F\0");
            let z = chars_of("\0");
            let a = concat(t.as_slice(), rel.as_slice());
            let b = concat(a.as_slice(), z.as_slice());
            let c = concat(b.as_slice(), decimal_of(*size).as_slice());
            let d = concat(c.as_slice(), z.as_slice());
            concat(d.as_slice(), signed_decimal_of(*mtime).as_slice())
        },
    }
}

fn content_line_exec(e: &TreeEntry) -> (r: Vec<char>)
    ensures
        r@ == content_line(entry_view(*e)),
{
    let rel = chars_of(e.rel.as_str());
    match &e.kind {
        EntryKind::Dir => {
            let t = chars_of("D\0");
            concat(t.as_slice(), rel.as_slice())
        },
        EntryKind::File { size, mtime, hash } => match hash {
            Some(h) => {
                let t = chars_of("F\0");
                let z = chars_of("\0");
                let a = concat(t.as_slice(), rel.as_slice());
                let b = concat(a.as_slice(), z.as_slice());
                let c = concat(b.as_slice(), decimal_of(*size).as_slice());
                let d = concat(c.as_slice(), z.as_slice());
                concat(d.as_slice(), chars_of(h.as_str()).as_slice())
            },
            None => Vec::new(),
        },
    }
}

fn copy_entry(e: &TreeEntry) -> (r: TreeEntry)
    ensures
        entry_view(r) == entry_view(*e),
{
    let rel = string_of(chars_of(e.rel.as_str()).as_slice());
    let kind = match &e.kind {
        EntryKind::Dir => EntryKind::Dir,
        EntryKind::File { size, mtime, hash } => EntryKind::File {
            size: *size,
            mtime: *mtime,
            hash: match hash {
                Some(h) => Some(string_of(chars_of(h.as_str()).as_slice())),
                None => None,
            },
        },
    };
    TreeEntry { rel, kind }
}

pub open spec fn views(es: Seq<TreeEntry>) -> Seq<EntryView> {
    es.map_values(|e: TreeEntry| entry_view(e))
}

/// The entries of a tree in the order of their stat lines.
pub fn line_order(entries: &[TreeEntry]) -> (r: Vec<TreeEntry>)
    requires
        distinct_paths(views(entries@)),
    ensures
        in_line_order(views(entries@), views(r@)),
{
    let ghost es = views(entries@);
    let mut out: Vec<TreeEntry> = Vec::new();
    let mut i: usize = 0;
    while i < entries.len()
        invariant
            i <= entries@.len(),
            es == views(entries@),
            distinct_paths(es),
            views(out@).len() == i,
            forall|a: int, b: int| 0 <= a < b < out@.len() ==> lex_lt(stat_line(#[trigger] views(out@)[a]), stat_line(#[trigger] views(out@)[b])),
            forall|a: int| 0 <= a < out@.len() ==> es.subrange(0, i as int).contains(#[trigger] views(out@)[a]),
            forall|j: int| 0 <= j < i ==> views(out@).contains(#[trigger] es[j]),
        decreases entries.len() - i,
    {
        let line = stat_line_exec(&entries[i]);
        let ghost v = es[i as int];
        assert(entry_view(entries@[i as int]) == v);
        let mut p: usize = 0;
        while p < out.len() && lex_less(stat_line_exec(&out[p]).as_slice(), line.as_slice())
            invariant
                p <= out@.len(),
                line@ == stat_line(v),
                forall|m: int| 0 <= m < p ==> lex_lt(stat_line(#[trigger] views(out@)[m]), stat_line(v)),
            decreases out.len() - p,
        {
            p = p + 1;
        }
        let ghost before = views(out@);
        proof {
            // no earlier entry has this line: the paths differ
            assert forall|m: int| 0 <= m < before.len() implies stat_line(#[trigger] before[m]) != stat_line(v) by {
                let w = before[m];
                assert(es.subrange(0, i as int).contains(w));
                let k = choose|k: int| 0 <= k < i && es.subrange(0, i as int)[k] == w;
                assert(es[k] == w);
                assert(es[k].0 != es[i as int].0);
                assert(!es[k].0.contains('\0') && !es[i as int].0.contains('\0'));
                lemma_distinct_lines(w, v);
            }
            if p < before.len() {
                lemma_lex_total(stat_line(before[p as int]), stat_line(v));
            }
        }
        let e = copy_entry(&entries[i]);
        out.insert(p, e);
        proof {
            assert(views(out@) =~= before.insert(p as int, v));
            let t = views(out@);
            assert forall|a: int, b: int| 0 <= a < b < t.len() implies lex_lt(stat_line(#[trigger] t[a]), stat_line(#[trigger] t[b])) by {
                if b < p {
                    assert(t[a] == before[a] && t[b] == before[b]);
                } else if b == p {
                    assert(t[a] == before[a]);
                } else if a < p {
                    assert(t[a] == before[a] && t[b] == before[b - 1]);
                } else if a == p {
                    assert(t[b] == before[b - 1]);
                    if b - 1 > p {
                        lemma_lex_transitive(stat_line(v), stat_line(before[p as int]), stat_line(before[b - 1]));
                    }
                } else {
                    assert(t[a] == before[a - 1] && t[b] == before[b - 1]);
                }
            }
            assert forall|a: int| 0 <= a < t.len() implies es.subrange(0, i + 1).contains(#[trigger] t[a]) by {
                if a < p {
                    assert(t[a] == before[a]);
                    let k = choose|k: int| 0 <= k < i && es.subrange(0, i as int)[k] == before[a];
                    assert(es.subrange(0, i + 1)[k] == before[a]);
                } else if a == p {
                    assert(es.subrange(0, i + 1)[i as int] == v);
                } else {
                    assert(t[a] == before[a - 1]);
                    let k = choose|k: int| 0 <= k < i && es.subrange(0, i as int)[k] == before[a - 1];
                    assert(es.subrange(0, i + 1)[k] == before[a - 1]);
                }
            }
            assert forall|j: int| 0 <= j < i + 1 implies t.contains(#[trigger] es[j]) by {
                if j < i {
                    let k = choose|k: int| 0 <= k < before.len() && before[k] == es[j];
                    if k < p {
                        assert(t[k] == es[j]);
                    } else {
                        assert(t[k + 1] == es[j]);
                    }
                } else {
                    assert(t[p as int] == es[j]);
                }
            }
        }
        i = i + 1;
    }
    assert(es.subrange(0, es.len() as int) =~= es);
    out
}

/// Builds the manifest of a tree from its entries: the entries in line
/// order, the digest of their stat lines, the digest of their content lines
/// when the contents were read, the counts and the total size; refused when
/// the sizes add up beyond `u64`.
pub fn manifest(entries: &[TreeEntry], hash_contents: bool) -> (r: Result<Manifest, ManifestError>)
    requires
        distinct_paths(views(entries@)),
    ensures
        r matches Ok(m) ==> manifest_holds(views(entries@), hash_contents, m),
        r matches Err(e) ==> e == ManifestError::TooLarge,
        r is Err <==> too_large(views(entries@)),
{
    let sorted = line_order(entries);
    let ghost o = views(sorted@);
    let mut stat_text: Vec<char> = Vec::new();
    let mut content_text: Vec<char> = Vec::new();
    let mut files: usize = 0;
    let mut directories: usize = 0;
    let mut bytes: u64 = 0;
    let mut file_hashes: Vec<(String, String)> = Vec::new();
    let mut i: usize = 0;
    while i < sorted.len()
        invariant
            i <= sorted@.len(),
            o == views(sorted@),
            in_line_order(views(entries@), o),
            stat_text@ == joined(o.subrange(0, i as int).map_values(|v: EntryView| stat_line(v))),
            content_text@ == joined(o.subrange(0, i as int).map_values(|v: EntryView| content_line(v))),
            directories == dir_count(o, i as int),
            files == i - dir_count(o, i as int),
            0 <= dir_count(o, i as int) <= i,
            bytes == size_sum(o, i as int),
            forall|n: int| 0 <= n <= i ==> #[trigger] size_sum(o, n) <= u64::MAX,
            file_hashes@.map_values(|p: (String, String)| (p.0@, p.1@)) == hashed(o, i as int),
        decreases sorted.len() - i,
    {
        let e = &sorted[i];
        let ghost v = o[i as int];
        assert(entry_view(*e) == v);
        let sl = stat_line_exec(e);
        let cl = content_line_exec(e);
        let nl = chars_of("\n");
        proof {
            let xs = o.subrange(0, i as int).map_values(|v: EntryView| stat_line(v));
            let xc = o.subrange(0, i as int).map_values(|v: EntryView| content_line(v));
            assert(o.subrange(0, i + 1).map_values(|v: EntryView| stat_line(v)) =~= xs.push(stat_line(v)));
            assert(o.subrange(0, i + 1).map_values(|v: EntryView| content_line(v)) =~= xc.push(content_line(v)));
            assert(xs.push(stat_line(v)).drop_last() =~= xs);
            assert(xc.push(content_line(v)).drop_last() =~= xc);
        }
        let a = concat(stat_text.as_slice(), sl.as_slice());
        stat_text = concat(a.as_slice(), nl.as_slice());
        let b = concat(content_text.as_slice(), cl.as_slice());
        content_text = concat(b.as_slice(), nl.as_slice());
        match &e.kind {
            EntryKind::Dir => {
                directories = directories + 1;
            },
            EntryKind::File { size, mtime, hash } => {
                match bytes.checked_add(*size) {
                    Some(x) => {
                        bytes = x;
                    },
                    None => {
                        proof {
                            assert(size_sum(o, i + 1) > u64::MAX);
                            lemma_size_sum_grows(o, i + 1, o.len() as int);
                            assert(too_large(views(entries@)));
                        }
                        return Err(ManifestError::TooLarge);
                    },
                }
                files = files + 1;
                match hash {
                    Some(h) => {
                        let ghost fb = file_hashes@.map_values(|p: (String, String)| (p.0@, p.1@));
                        file_hashes.push((string_of(chars_of(e.rel.as_str()).as_slice()), string_of(chars_of(h.as_str()).as_slice())));
                        assert(file_hashes@.map_values(|p: (String, String)| (p.0@, p.1@)) =~= fb.push((v.0, v.4->0)));
                    },
                    None => {},
                }
            },
        }
        i = i + 1;
        assert forall|n: int| 0 <= n <= i implies #[trigger] size_sum(o, n) <= u64::MAX by {
            if n == i {
            }
        }
    }
    assert(o.subrange(0, o.len() as int) =~= o);
    let st = string_of(stat_text.as_slice());
    let stat_sha256 = sha256_hex(st.as_str());
    let sha256 = if hash_contents {
        let ct = string_of(content_text.as_slice());
        sha256_hex(ct.as_str())
    } else {
        string_of(Vec::new().as_slice())
    };
    let m = Manifest { sha256, stat_sha256, files, directories, bytes, file_hashes };
    proof {
        assert(o.subrange(0, o.len() as int).map_values(|v: EntryView| stat_line(v)) == o.map_values(|v: EntryView| stat_line(v)));
        assert(o.subrange(0, o.len() as int).map_values(|v: EntryView| content_line(v)) == o.map_values(|v: EntryView| content_line(v)));
        assert(manifest_of(o, hash_contents, m));
        assert(manifest_holds(views(entries@), hash_contents, m));
        assert forall|o2: Seq<EntryView>| in_line_order(views(entries@), o2) implies !(size_sum(o2, o2.len() as int)
            > u64::MAX) by {
            lemma_line_order_unique(views(entries@), o, o2);
        }
    }
    Ok(m)
}

proof fn lemma_size_sum_grows(o: Seq<EntryView>, a: int, b: int)
    requires
        0 <= a <= b <= o.len(),
    ensures
        size_sum(o, a) <= size_sum(o, b),
    decreases b - a,
{
    if a < b {
        lemma_size_sum_grows(o, a, b - 1);
    }
}

proof fn lemma_line_order_at(es: Seq<EntryView>, a: Seq<EntryView>, b: Seq<EntryView>, i: int)
    requires
        in_line_order(es, a),
        in_line_order(es, b),
        0 <= i < a.len(),
    ensures
        a[i] == b[i],
    decreases i,
{
    assert forall|j: int| 0 <= j < i implies a[j] == b[j] by {
        lemma_line_order_at(es, a, b, j);
    }
    if a[i] != b[i] {
        assert(es.contains(a[i]));
        let m = choose|m: int| 0 <= m < es.len() && es[m] == a[i];
        assert(b.contains(es[m]));
        let p = choose|p: int| 0 <= p < b.len() && b[p] == es[m];
        assert(es.contains(b[i]));
        let n = choose|n: int| 0 <= n < es.len() && es[n] == b[i];
        assert(a.contains(es[n]));
        let q = choose|q: int| 0 <= q < a.len() && a[q] == es[n];
        if p < i {
            assert(a[p] == b[p]);
            assert(lex_lt(stat_line(a[p]), stat_line(a[i])));
            lemma_lex_irreflexive(stat_line(a[i]));
        }
        if q < i {
            assert(a[q] == b[q]);
            assert(lex_lt(stat_line(b[q]), stat_line(b[i])));
            lemma_lex_irreflexive(stat_line(b[i]));
        }
        assert(p > i && q > i);
        assert(lex_lt(stat_line(b[i]), stat_line(b[p])));
        assert(lex_lt(stat_line(a[i]), stat_line(a[q])));
        lemma_lex_total(stat_line(a[i]), stat_line(b[i]));
    }
}

/// The entries of a tree have one line order.
proof fn lemma_line_order_unique(es: Seq<EntryView>, a: Seq<EntryView>, b: Seq<EntryView>)
    requires
        in_line_order(es, a),
        in_line_order(es, b),
    ensures
        a == b,
{
    assert forall|i: int| 0 <= i < a.len() implies a[i] == b[i] by {
        lemma_line_order_at(es, a, b, i);
    }
    assert(a =~= b);
}

/// A manifest does not depend on the order in which a walk gives a tree's
/// entries: two manifests of the same entries, in any two orders, have the
/// same digests, counts, total size and file hashes.
pub proof fn lemma_manifest_order_free(
    es1: Seq<EntryView>,
    es2: Seq<EntryView>,
    hash_contents: bool,
    m1: Manifest,
    m2: Manifest,
)
    requires
        es1.to_multiset() == es2.to_multiset(),
        manifest_holds(es1, hash_contents, m1),
        manifest_holds(es2, hash_contents, m2),
    ensures
        m1.sha256@ == m2.sha256@,
        m1.stat_sha256@ == m2.stat_sha256@,
        m1.files == m2.files && m1.directories == m2.directories && m1.bytes == m2.bytes,
        m1.file_hashes@.map_values(|p: (String, String)| (p.0@, p.1@)) == m2.file_hashes@.map_values(
            |p: (String, String)| (p.0@, p.1@),
        ),
{
    es1.to_multiset_ensures();
    es2.to_multiset_ensures();
    let o1 = choose|o: Seq<EntryView>| in_line_order(es1, o) && manifest_of(o, hash_contents, m1);
    let o2 = choose|o: Seq<EntryView>| in_line_order(es2, o) && manifest_of(o, hash_contents, m2);
    assert forall|x: EntryView| es1.contains(x) <==> es2.contains(x) by {
        es1.to_multiset_ensures();
        es2.to_multiset_ensures();
        assert(es1.contains(x) <==> es1.to_multiset().count(x) > 0);
        assert(es2.contains(x) <==> es2.to_multiset().count(x) > 0);
    }
    assert forall|i: int| 0 <= i < o2.len() implies es1.contains(#[trigger] o2[i]) by {
        assert(es2.contains(o2[i]));
    }
    assert forall|j: int| 0 <= j < es1.len() implies o2.contains(#[trigger] es1[j]) by {
        assert(es1.contains(es1[j]));
        assert(es2.contains(es1[j]));
        let k = choose|k: int| 0 <= k < es2.len() && es2[k] == es1[j];
        assert(o2.contains(es2[k]));
    }
    assert(in_line_order(es1, o2));
    lemma_line_order_unique(es1, o1, o2);
}

/// SHA-256 of a byte string, written as lower-case hex, as the `sha2`
/// crate computes it.
pub uninterp spec fn sha256_bytes_hex_of(data: Seq<u8>) -> Seq<char>;

/// `Sha256::digest` of the `sha2` crate over the bytes, formatted with
/// `{:x}`. Claimed: the result is `sha256_bytes_hex_of` of the bytes, a
/// function of them alone.
#[verifier::external_body]
fn sha256_hex_bytes(data: &[u8]) -> (r: String)
    ensures
        r@ == sha256_bytes_hex_of(data@),
{
    format!("{:x}", Sha256::digest(data))
}

/// The SHA-256 of a file's contents, in lower-case hex: what a copy is
/// checked against and what a manifest records of each file.
pub fn content_hash(contents: &[u8]) -> (r: String)
    ensures
        r@ == sha256_bytes_hex_of(contents@),
{
    sha256_hex_bytes(contents)
}

/// What a walk of a tree finds at a path, before any decision.
#[derive(Debug, Clone)]
pub enum ListedKind {
    Dir,
    File {
        size: u64,
        mtime: i64,
        hash: Option<String>,
    },
    Symlink,
    /// Neither a folder, a file nor a link.
    Other,
}

/// An entry of a walk: its path relative to the root, as the disk spells it.
#[derive(Debug, Clone)]
pub struct Listed {
    pub rel: String,
    pub kind: ListedKind,
}

/// The refusal of the first listed entry that cannot be worked on: a link
/// (which could lead out of the root), or something neither file nor folder.
pub open spec fn first_unworkable(ls: Seq<Listed>, n: int) -> Option<Seq<char>>
    decreases n,
{
    if n <= 0 {
        None
    } else {
        match first_unworkable(ls, n - 1) {
            Some(m) => Some(m),
            None => match ls[n - 1].kind {
                ListedKind::Symlink => Some("심볼릭 링크가 든 폴더는 안전하게 작업할 수 없습니다: "@ + ls[n - 1].rel@),
                ListedKind::Other => Some("지원하지 않는 폴더 항목입니다: "@ + ls[n - 1].rel@),
                _ => None,
            },
        }
    }
}

/// The entries a manifest is made of, among the first `n` listed: folders
/// and files other than AppleDouble `._` files, in order, each path in NFC.
pub open spec fn kept_entries(ls: Seq<Listed>, n: int) -> Seq<EntryView>
    decreases n,
{
    if n <= 0 {
        Seq::empty()
    } else {
        let rest = kept_entries(ls, n - 1);
        let rel = crate::unicode::nfc_of(ls[n - 1].rel@);
        match ls[n - 1].kind {
            ListedKind::Dir => rest.push((rel, true, 0u64, 0i64, None)),
            ListedKind::File { size, mtime, hash } => if crate::folder::appledouble_of(ls[n - 1].rel@) {
                rest
            } else {
                rest.push(
                    (
                        rel,
                        false,
                        size,
                        mtime,
                        match hash {
                            Some(h) => Some(h@),
                            None => None,
                        },
                    ),
                )
            },
            _ => rest,
        }
    }
}

/// The message when two entries come out with the same path.
pub open spec fn same_path_message() -> Seq<char> {
    "같은 이름으로 보이는 항목이 둘 있습니다"@
}

fn distinct_entries(v: &[TreeEntry]) -> (r: bool)
    ensures
        r == distinct_paths(views(v@)),
{
    let ghost es = views(v@);
    let mut i: usize = 0;
    while i < v.len()
        invariant
            i <= v@.len(),
            es == views(v@),
            forall|a: int, b: int| 0 <= a < b < i ==> (#[trigger] es[a]).0 != (#[trigger] es[b]).0,
            forall|a: int| 0 <= a < i ==> !(#[trigger] es[a]).0.contains('\0'),
        decreases v.len() - i,
    {
        let ci = chars_of(v[i].rel.as_str());
        assert(es[i as int].0 == ci@);
        if crate::text::contains_char(ci.as_slice(), '\0') {
            return false;
        }
        let mut j: usize = 0;
        while j < i
            invariant
                j <= i < v@.len(),
                es == views(v@),
                ci@ == es[i as int].0,
                forall|a: int| 0 <= a < j ==> es[a].0 != es[i as int].0,
            decreases i - j,
        {
            let cj = chars_of(v[j].rel.as_str());
            assert(es[j as int].0 == cj@);
            if crate::text::chars_eq(cj.as_slice(), ci.as_slice()) {
                return false;
            }
            j = j + 1;
        }
        i = i + 1;
    }
    true
}

/// The entries of a walk as a manifest takes them: refused at the first
/// link or entry neither file nor folder, or when two paths come out the
/// same in NFC (or one holds `\0`); otherwise the folders and the files
/// other than AppleDouble ones, in order, with their paths in NFC.
pub fn tree_entries(listed: &[Listed]) -> (r: Result<Vec<TreeEntry>, String>)
    ensures
        first_unworkable(listed@, listed@.len() as int) matches Some(m) ==> (r matches Err(e) && e@ == m),
        first_unworkable(listed@, listed@.len() as int) is None ==> (r is Ok <==> distinct_paths(
            kept_entries(listed@, listed@.len() as int),
        )),
        first_unworkable(listed@, listed@.len() as int) is None && !distinct_paths(
            kept_entries(listed@, listed@.len() as int),
        ) ==> (r matches Err(e) && e@ == same_path_message()),
        r matches Ok(v) ==> views(v@) == kept_entries(listed@, listed@.len() as int) && distinct_paths(views(v@)),
{
    let mut out: Vec<TreeEntry> = Vec::new();
    let mut i: usize = 0;
    while i < listed.len()
        invariant
            i <= listed@.len(),
            first_unworkable(listed@, i as int) is None,
            views(out@) == kept_entries(listed@, i as int),
        decreases listed.len() - i,
    {
        let l = &listed[i];
        let ghost before = out@;
        match &l.kind {
            ListedKind::Symlink => {
                let m = concat(
                    chars_of("심볼릭 링크가 든 폴더는 안전하게 작업할 수 없습니다: ").as_slice(),
                    chars_of(l.rel.as_str()).as_slice(),
                );
                proof {
                    lemma_unworkable_stays(listed@, i as int + 1, listed@.len() as int);
                }
                return Err(string_of(m.as_slice()));
            },
            ListedKind::Other => {
                let m = concat(chars_of("지원하지 않는 폴더 항목입니다: ").as_slice(), chars_of(l.rel.as_str()).as_slice());
                proof {
                    lemma_unworkable_stays(listed@, i as int + 1, listed@.len() as int);
                }
                return Err(string_of(m.as_slice()));
            },
            ListedKind::Dir => {
                let e = TreeEntry { rel: crate::unicode::nfc(l.rel.as_str()), kind: EntryKind::Dir };
                out.push(e);
                assert(views(out@) =~= views(before).push(entry_view(e)));
            },
            ListedKind::File { size, mtime, hash } => {
                if !crate::folder::is_appledouble(l.rel.as_str()) {
                    let h = match hash {
                        Some(h) => Some(string_of(chars_of(h.as_str()).as_slice())),
                        None => None,
                    };
                    let e = TreeEntry {
                        rel: crate::unicode::nfc(l.rel.as_str()),
                        kind: EntryKind::File { size: *size, mtime: *mtime, hash: h },
                    };
                    out.push(e);
                    assert(views(out@) =~= views(before).push(entry_view(e)));
                }
            },
        }
        i = i + 1;
    }
    if !distinct_entries(out.as_slice()) {
        return Err(string_of(chars_of("같은 이름으로 보이는 항목이 둘 있습니다").as_slice()));
    }
    Ok(out)
}

proof fn lemma_unworkable_stays(ls: Seq<Listed>, k: int, n: int)
    requires
        0 < k <= n,
        first_unworkable(ls, k) is Some,
    ensures
        first_unworkable(ls, n) == first_unworkable(ls, k),
    decreases n - k,
{
    if k < n {
        lemma_unworkable_stays(ls, k, n - 1);
    }
}

} // verus!
