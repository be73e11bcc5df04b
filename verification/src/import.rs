//! Bringing photos in from a card: the day folder each one lands in, and
//! what a preview of an import reports.

use crate::order::{insert_sorted, lemma_lex_irreflexive, lemma_lex_total, lemma_lex_transitive, lemma_path_order, lex_less, lex_lt, path_less, path_lt, strictly_sorted, texts_of};
use crate::text::{bytes_range, chars_of, concat, get_bytes, string_of};
use vstd::prelude::*;

verus! {

/// One photo that could be brought in.
#[derive(Debug, Clone)]
pub struct Candidate {
    pub path: String,
    pub name: String,
    pub size: u64,
    /// The day it was taken (`2024-08-27`); the file time stands in when unknown.
    pub day: String,
    /// Whether the library already holds the same photo.
    pub duplicate: bool,
}

/// What an import would do.
#[derive(Debug, Default)]
pub struct Preview {
    pub files: usize,
    pub bytes: u64,
    /// Photos already present, which are skipped.
    pub duplicates: usize,
    /// The first day folders it would fill, in order.
    pub days: Vec<String>,
    /// How many different days.
    pub day_count: usize,
}

/// What an import did.
#[derive(Debug, Default, Clone)]
pub struct Report {
    pub copied: usize,
    pub skipped: usize,
    pub failed: usize,
    pub bytes: u64,
    pub first_error: Option<String>,
    pub batch_id: i64,
}

/// `year/day` when the first four bytes of the day are its year, else the day as is.
pub open spec fn day_dir_of(day: Seq<char>) -> Seq<char> {
    match bytes_range(day, 0, 4) {
        Some(y) => y + "/"@ + day,
        None => day,
    }
}

/// The folder of a day, under its year: `2024/2024-08-27`.
pub fn day_dir(day: &str) -> (r: String)
    ensures
        r@ == day_dir_of(day@),
{
    let d = chars_of(day);
    match get_bytes(d.as_slice(), 0, 4) {
        Some(y) => {
            let slash = chars_of("/");
            let a = concat(y.as_slice(), slash.as_slice());
            let r = concat(a.as_slice(), d.as_slice());
            string_of(r.as_slice())
        },
        None => string_of(d.as_slice()),
    }
}

/// Counts and bytes over the candidates that are not duplicates.
pub open spec fn new_count(c: Seq<Candidate>) -> nat
    decreases c.len(),
{
    if c.len() == 0 {
        0
    } else {
        new_count(c.drop_last()) + if c.last().duplicate {
            0nat
        } else {
            1nat
        }
    }
}

pub open spec fn new_bytes(c: Seq<Candidate>) -> nat
    decreases c.len(),
{
    if c.len() == 0 {
        0
    } else {
        new_bytes(c.drop_last()) + if c.last().duplicate {
            0nat
        } else {
            c.last().size as nat
        }
    }
}

pub open spec fn dup_count(c: Seq<Candidate>) -> nat
    decreases c.len(),
{
    if c.len() == 0 {
        0
    } else {
        dup_count(c.drop_last()) + if c.last().duplicate {
            1nat
        } else {
            0nat
        }
    }
}

/// The days that new photos fall on.
pub open spec fn new_days(c: Seq<Candidate>) -> Set<Seq<char>> {
    Set::new(|d: Seq<char>| exists|i: int| 0 <= i < c.len() && !c[i].duplicate && c[i].day@ == d)
}

proof fn lemma_counts_le(c: Seq<Candidate>)
    ensures
        new_count(c) + dup_count(c) == c.len(),
    decreases c.len(),
{
    if c.len() > 0 {
        lemma_counts_le(c.drop_last());
    }
}

/// What an import of these candidates would bring in: counts and bytes of
/// the new ones, the number of duplicates, how many days, and the first
/// eight days in order.
pub fn preview(cands: &[Candidate]) -> (p: Preview)
    requires
        new_bytes(cands@) <= u64::MAX,
    ensures
        p.files == new_count(cands@),
        p.bytes == new_bytes(cands@),
        p.duplicates == dup_count(cands@),
        p.day_count == new_days(cands@).len(),
        p.days@.len() == if new_days(cands@).len() < 8 {
            new_days(cands@).len()
        } else {
            8
        },
        forall|i: int, j: int|
            0 <= i < j < p.days@.len() ==> lex_lt(#[trigger] p.days@[i]@, #[trigger] p.days@[j]@),
        forall|i: int| 0 <= i < p.days@.len() ==> new_days(cands@).contains(#[trigger] p.days@[i]@),
        forall|d: Seq<char>, i: int|
            #![trigger new_days(cands@).contains(d), p.days@[i]]
            new_days(cands@).contains(d) && (forall|k: int|
                0 <= k < p.days@.len() ==> #[trigger] p.days@[k]@ != d) && 0 <= i < p.days@.len()
                ==> lex_lt(p.days@[i]@, d),
{
    let mut files: usize = 0;
    let mut bytes: u64 = 0;
    let mut dups: usize = 0;
    let mut days: Vec<Vec<char>> = Vec::new();
    let mut i: usize = 0;
    while i < cands.len()
        invariant
            i <= cands@.len(),
            new_bytes(cands@) <= u64::MAX,
            files == new_count(cands@.subrange(0, i as int)),
            bytes == new_bytes(cands@.subrange(0, i as int)),
            dups == dup_count(cands@.subrange(0, i as int)),
            strictly_sorted(texts_of(days@)),
            texts_of(days@).to_set() == new_days(cands@.subrange(0, i as int)),
        decreases cands.len() - i,
    {
        let ghost pre = cands@.subrange(0, i as int);
        let ghost next = cands@.subrange(0, i + 1);
        assert(next.drop_last() =~= pre);
        proof {
            lemma_counts_le(pre);
            lemma_new_bytes_prefix(cands@, i + 1);
        }
        if cands[i].duplicate {
            dups = dups + 1;
            assert(new_days(next) =~= new_days(pre)) by {
                assert forall|d: Seq<char>| new_days(next).contains(d) implies new_days(
                    pre,
                ).contains(d) by {
                    let k = choose|k: int|
                        0 <= k < next.len() && !next[k].duplicate && next[k].day@ == d;
                    assert(k < i);
                    assert(pre[k] == next[k]);
                }
                assert forall|d: Seq<char>| new_days(pre).contains(d) implies new_days(
                    next,
                ).contains(d) by {
                    let k = choose|k: int|
                        0 <= k < pre.len() && !pre[k].duplicate && pre[k].day@ == d;
                    assert(next[k] == pre[k]);
                }
            }
        } else {
            files = files + 1;
            bytes = bytes + cands[i].size;
            let d = chars_of(cands[i].day.as_str());
            insert_sorted(&mut days, d);
            assert(new_days(next) =~= new_days(pre).insert(cands@[i as int].day@)) by {
                assert forall|e: Seq<char>| new_days(next).contains(e) implies new_days(
                    pre,
                ).insert(cands@[i as int].day@).contains(e) by {
                    let k = choose|k: int|
                        0 <= k < next.len() && !next[k].duplicate && next[k].day@ == e;
                    if k < i {
                        assert(pre[k] == next[k]);
                    }
                }
                assert forall|e: Seq<char>| new_days(pre).insert(cands@[i as int].day@).contains(
                    e,
                ) implies new_days(next).contains(e) by {
                    if e == cands@[i as int].day@ {
                        assert(next[i as int] == cands@[i as int]);
                    } else {
                        let k = choose|k: int|
                            0 <= k < pre.len() && !pre[k].duplicate && pre[k].day@ == e;
                        assert(next[k] == pre[k]);
                    }
                }
            }
        }
        i = i + 1;
    }
    assert(cands@.subrange(0, cands@.len() as int) =~= cands@);
    let ghost all = texts_of(days@);
    proof {
        lemma_sorted_unique_len(all);
    }
    let day_count = days.len();
    let mut out: Vec<String> = Vec::new();
    let mut k: usize = 0;
    while k < days.len() && k < 8
        invariant
            k <= days@.len(),
            k <= 8,
            all == texts_of(days@),
            out@.len() == k,
            forall|j: int| 0 <= j < k ==> #[trigger] out@[j]@ == all[j],
        decreases days.len() - k,
    {
        out.push(string_of(days[k].as_slice()));
        k = k + 1;
    }
    proof {
        assert forall|d: Seq<char>, i: int|
            #![trigger new_days(cands@).contains(d), out@[i]]
            new_days(cands@).contains(d) && (forall|k2: int|
                0 <= k2 < out@.len() ==> #[trigger] out@[k2]@ != d) && 0 <= i < out@.len()
                implies lex_lt(out@[i]@, d) by {
            assert(all.to_set().contains(d));
            let j = choose|j: int| 0 <= j < all.len() && all[j] == d;
            if j < out@.len() {
                assert(out@[j]@ == d);
            }
            assert(out@[i]@ == all[i]);
        }
        assert forall|i: int| 0 <= i < out@.len() implies new_days(cands@).contains(
            #[trigger] out@[i]@,
        ) by {
            assert(out@[i]@ == all[i]);
            assert(all.contains(all[i]));
        }
        assert forall|i: int, j: int| 0 <= i < j < out@.len() implies lex_lt(
            #[trigger] out@[i]@,
            #[trigger] out@[j]@,
        ) by {
            assert(out@[i]@ == all[i]);
            assert(out@[j]@ == all[j]);
        }
    }
    Preview { files, bytes, duplicates: dups, days: out, day_count }
}

proof fn lemma_new_bytes_prefix(c: Seq<Candidate>, k: int)
    requires
        0 <= k <= c.len(),
    ensures
        new_bytes(c.subrange(0, k)) <= new_bytes(c),
    decreases c.len() - k,
{
    if k < c.len() {
        lemma_new_bytes_prefix(c, k + 1);
        assert(c.subrange(0, k + 1).drop_last() =~= c.subrange(0, k));
    } else {
        assert(c.subrange(0, k) =~= c);
    }
}

/// A strictly sorted list has as many elements as its set.
proof fn lemma_sorted_unique_len(s: Seq<Seq<char>>)
    requires
        strictly_sorted(s),
    ensures
        s.to_set().len() == s.len(),
{
    assert(s.no_duplicates()) by {
        assert forall|i: int, j: int| 0 <= i < s.len() && 0 <= j < s.len() && i != j implies s[i]
            != s[j] by {
            if i < j {
                crate::order::lemma_lex_irreflexive(s[i]);
            } else {
                crate::order::lemma_lex_irreflexive(s[j]);
            }
        }
    }
    s.unique_seq_to_set();
}


/// The view of a candidate: path, name, size, day and whether it is a duplicate.
pub open spec fn cand_view(c: Candidate) -> (Seq<char>, Seq<char>, u64, Seq<char>, bool) {
    (c.path@, c.name@, c.size, c.day@, c.duplicate)
}

/// The order candidates are listed in: by day, then by name, then by path.
pub open spec fn listed_before(a: Candidate, b: Candidate) -> bool {
    lex_lt(a.day@, b.day@) || (a.day@ == b.day@ && (lex_lt(a.name@, b.name@) || (a.name@ == b.name@ && path_lt(
        a.path@,
        b.path@,
    ))))
}

pub proof fn lemma_listed_order(a: Candidate, b: Candidate, c: Candidate)
    ensures
        !listed_before(a, a),
        !(listed_before(a, b) && listed_before(b, a)),
        a.path@ != b.path@ ==> listed_before(a, b) || listed_before(b, a),
        listed_before(a, b) && listed_before(b, c) ==> listed_before(a, c),
{
    lemma_lex_irreflexive(a.day@);
    lemma_lex_irreflexive(a.name@);
    lemma_lex_total(a.day@, b.day@);
    lemma_lex_total(a.name@, b.name@);
    lemma_path_order(a.path@, b.path@, c.path@);
    if lex_lt(a.day@, b.day@) && lex_lt(b.day@, c.day@) {
        lemma_lex_transitive(a.day@, b.day@, c.day@);
    }
    if lex_lt(a.name@, b.name@) && lex_lt(b.name@, c.name@) {
        lemma_lex_transitive(a.name@, b.name@, c.name@);
    }
}

/// Whether `c[j]` is the first candidate with its path.
pub open spec fn first_of_path(c: Seq<Candidate>, j: int) -> bool {
    0 <= j < c.len() && forall|m: int| 0 <= m < j ==> c[m].path@ != c[j].path@
}

/// Whether `x` is the first candidate of `c` with its path.
pub open spec fn taken_from(c: Seq<Candidate>, x: Candidate) -> bool {
    exists|j: int| first_of_path(c, j) && cand_view(x) == cand_view(c[j])
}

/// Whether some candidate of `r` has the path `p`.
pub open spec fn lists_path(r: Seq<Candidate>, p: Seq<char>) -> bool {
    exists|i: int| 0 <= i < r.len() && r[i].path@ == p
}

/// The candidates a look lists: each path once (the first candidate found
/// with it, as a file dropped twice is one file), by day, name and path.
pub open spec fn look_holds(c: Seq<Candidate>, r: Seq<Candidate>) -> bool {
    &&& forall|i: int, j: int| 0 <= i < j < r.len() ==> listed_before(#[trigger] r[i], #[trigger] r[j])
    &&& forall|i: int, j: int| 0 <= i < j < r.len() ==> (#[trigger] r[i]).path@ != (#[trigger] r[j]).path@
    &&& forall|i: int| 0 <= i < r.len() ==> taken_from(c, #[trigger] r[i])
    &&& forall|j: int| 0 <= j < c.len() ==> lists_path(r, #[trigger] c[j].path@)
}

fn copy_candidate(c: &Candidate) -> (r: Candidate)
    ensures
        cand_view(r) == cand_view(*c),
{
    Candidate {
        path: string_of(chars_of(c.path.as_str()).as_slice()),
        name: string_of(chars_of(c.name.as_str()).as_slice()),
        size: c.size,
        day: string_of(chars_of(c.day.as_str()).as_slice()),
        duplicate: c.duplicate,
    }
}

fn listed_before_exec(a: &Candidate, b: &Candidate) -> (r: bool)
    ensures
        r == listed_before(*a, *b),
{
    let ad = chars_of(a.day.as_str());
    let bd = chars_of(b.day.as_str());
    let an = chars_of(a.name.as_str());
    let bn = chars_of(b.name.as_str());
    let ap = chars_of(a.path.as_str());
    let bp = chars_of(b.path.as_str());
    lex_less(ad.as_slice(), bd.as_slice()) || (crate::text::chars_eq(ad.as_slice(), bd.as_slice()) && (lex_less(
        an.as_slice(),
        bn.as_slice(),
    ) || (crate::text::chars_eq(an.as_slice(), bn.as_slice()) && path_less(ap.as_slice(), bp.as_slice()))))
}

/// The candidates found by a look, each path once, in the order a person
/// reads them: by day, then name (then path).
pub fn look(cands: &[Candidate]) -> (r: Vec<Candidate>)
    ensures
        look_holds(cands@, r@),
{
    let ghost c = cands@;
    let mut out: Vec<Candidate> = Vec::new();
    let mut i: usize = 0;
    while i < cands.len()
        invariant
            i <= c.len(),
            c == cands@,
            forall|a: int, b: int| 0 <= a < b < out@.len() ==> listed_before(#[trigger] out@[a], #[trigger] out@[b]),
            forall|a: int, b: int| 0 <= a < b < out@.len() ==> (#[trigger] out@[a]).path@ != (#[trigger] out@[b]).path@,
            forall|a: int| 0 <= a < out@.len() ==> taken_from(c, #[trigger] out@[a]),
            forall|j: int| 0 <= j < i ==> lists_path(out@, #[trigger] c[j].path@),
            forall|a: int| 0 <= a < out@.len() ==> exists|j: int| 0 <= j < i && (#[trigger] out@[a]).path@ == c[j].path@,
        decreases c.len() - i,
    {
        let x = &cands[i];
        let xp = chars_of(x.path.as_str());
        let mut seen = false;
        let mut q: usize = 0;
        while q < out.len()
            invariant
                q <= out@.len(),
                c == cands@,
                i < c.len(),
                xp@ == c[i as int].path@,
                seen == exists|m: int| 0 <= m < q && out@[m].path@ == xp@,
            decreases out.len() - q,
        {
            let op = chars_of(out[q].path.as_str());
            if crate::text::chars_eq(op.as_slice(), xp.as_slice()) {
                seen = true;
            }
            q = q + 1;
        }
        if seen {
            proof {
                let m = choose|m: int| 0 <= m < out@.len() && out@[m].path@ == xp@;
                assert(lists_path(out@, c[i as int].path@));
            }
        } else {
            let mut p: usize = 0;
            while p < out.len() && listed_before_exec(&out[p], x)
                invariant
                    p <= out@.len(),
                    c == cands@,
                    i < c.len(),
                    *x == c[i as int],
                    forall|m: int| 0 <= m < p ==> listed_before(#[trigger] out@[m], c[i as int]),
                decreases out.len() - p,
            {
                p = p + 1;
            }
            let y = copy_candidate(x);
            let ghost before = out@;
            proof {
                assert(first_of_path(c, i as int)) by {
                    assert forall|m: int| 0 <= m < i implies c[m].path@ != c[i as int].path@ by {
                        if c[m].path@ == c[i as int].path@ {
                            let k = choose|k: int| 0 <= k < before.len() && before[k].path@ == c[m].path@;
                        }
                    }
                }
                if p < before.len() {
                    assert(!listed_before(before[p as int], c[i as int]));
                    lemma_listed_order(before[p as int], y, y);
                    assert(listed_before(y, before[p as int]));
                }
            }
            out.insert(p, y);
            proof {
                assert(out@ =~= before.insert(p as int, y));
                assert forall|a: int, b: int| 0 <= a < b < out@.len() implies listed_before(#[trigger] out@[a], #[trigger] out@[b]) by {
                    if b < p {
                        assert(out@[a] == before[a] && out@[b] == before[b]);
                    } else if b == p {
                        assert(out@[a] == before[a]);
                    } else if a < p {
                        assert(out@[a] == before[a] && out@[b] == before[b - 1]);
                        lemma_listed_order(before[a], before[p as int], before[b - 1]);
                        lemma_listed_order(before[a], y, before[p as int]);
                        if b - 1 > p {
                            lemma_listed_order(before[a], before[p as int], before[b - 1]);
                        }
                    } else if a == p {
                        assert(out@[b] == before[b - 1]);
                        if b - 1 > p {
                            lemma_listed_order(y, before[p as int], before[b - 1]);
                        }
                    } else {
                        assert(out@[a] == before[a - 1] && out@[b] == before[b - 1]);
                    }
                }
                assert forall|a: int, b: int| 0 <= a < b < out@.len() implies (#[trigger] out@[a]).path@ != (#[trigger] out@[b]).path@ by {
                    if b < p {
                        assert(out@[a] == before[a] && out@[b] == before[b]);
                    } else if b == p {
                        assert(out@[a] == before[a]);
                    } else if a < p {
                        assert(out@[a] == before[a] && out@[b] == before[b - 1]);
                    } else if a == p {
                        assert(out@[b] == before[b - 1]);
                    } else {
                        assert(out@[a] == before[a - 1] && out@[b] == before[b - 1]);
                    }
                }
                assert forall|a: int| 0 <= a < out@.len() implies taken_from(c, #[trigger] out@[a]) by {
                    if a < p {
                        assert(out@[a] == before[a]);
                    } else if a == p {
                        assert(cand_view(out@[a]) == cand_view(c[i as int]));
                    } else {
                        assert(out@[a] == before[a - 1]);
                    }
                }
                assert forall|j: int| 0 <= j < i + 1 implies lists_path(out@, #[trigger] c[j].path@) by {
                    if j < i {
                        let k = choose|k: int| 0 <= k < before.len() && before[k].path@ == c[j].path@;
                        if k < p {
                            assert(out@[k] == before[k]);
                        } else {
                            assert(out@[k + 1] == before[k]);
                        }
                    } else {
                        assert(out@[p as int].path@ == c[j].path@);
                    }
                }
                assert forall|a: int| 0 <= a < out@.len() implies exists|j: int| 0 <= j < i + 1 && (#[trigger] out@[a]).path@ == c[j].path@ by {
                    if a < p {
                        assert(out@[a] == before[a]);
                    } else if a == p {
                        assert(out@[a].path@ == c[i as int].path@);
                    } else {
                        assert(out@[a] == before[a - 1]);
                    }
                }
            }
        }
        i = i + 1;
    }
    out
}

} // verus!
