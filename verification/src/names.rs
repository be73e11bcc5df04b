//! File-name rules shared by the operations that place files: how a name
//! splits into stem and extension, how a clashing name is numbered, and how
//! names compare without regard to case.

use crate::text::{chars_of, concat, decimal, decimal_of, last_index, last_index_of, lemma_last_index_of, slice_of, string_of};
use vstd::prelude::*;

verus! {

/// Lower case of a string as `str::to_lowercase` of std computes it (full
/// Unicode case mapping, independent of any locale).
pub uninterp spec fn lowercase_of(s: Seq<char>) -> Seq<char>;

/// `str::to_lowercase` of std.
/// Claimed: the result is `lowercase_of` of the argument, a function of it alone.
#[verifier::external_body]
pub(crate) fn lowercase(s: &str) -> (r: String)
    ensures
        r@ == lowercase_of(s@),
{
    s.to_lowercase()
}

/// The lower case of a character sequence.
pub fn lowercase_chars(s: &[char]) -> (r: Vec<char>)
    ensures
        r@ == lowercase_of(s@),
{
    let t = string_of(s);
    let l = lowercase(t.as_str());
    chars_of(l.as_str())
}

/// A name that names a file: not empty, not `.` or `..`, without `/`.
pub open spec fn plain_name(n: Seq<char>) -> bool {
    n.len() > 0 && n != "."@ && n != ".."@ && !n.contains('/')
}

pub fn is_plain_name(n: &[char]) -> (r: bool)
    ensures
        r == plain_name(n@),
{
    if n.len() == 0 {
        return false;
    }
    let dot = chars_of(".");
    let dots = chars_of("..");
    if crate::text::chars_eq(n, dot.as_slice()) || crate::text::chars_eq(n, dots.as_slice()) {
        return false;
    }
    !crate::text::contains_char(n, '/')
}

/// Stem and extension of a file name as `Path::file_stem` and
/// `Path::extension` give them: the split is at the last `.`, unless that
/// `.` opens the name (a hidden file) or the name is `..`; then the whole
/// name is the stem and there is no extension.
pub open spec fn stem_ext(n: Seq<char>) -> (Seq<char>, Option<Seq<char>>) {
    let i = last_index_of(n, '.');
    if n == ".."@ || i <= 0 {
        (n, None)
    } else {
        (n.subrange(0, i), Some(n.subrange(i + 1, n.len() as int)))
    }
}

/// The split of `str::rsplit_once('.')`: before and after the last `.`.
pub open spec fn rsplit_dot(n: Seq<char>) -> Option<(Seq<char>, Seq<char>)> {
    let i = last_index_of(n, '.');
    if i < 0 {
        None
    } else {
        Some((n.subrange(0, i), n.subrange(i + 1, n.len() as int)))
    }
}

/// `stem (tag).ext`, or `stem (tag)` without an extension.
pub open spec fn numbered(stem: Seq<char>, tag: Seq<char>, ext: Option<Seq<char>>) -> Seq<char> {
    match ext {
        Some(e) => stem + " ("@ + tag + ")."@ + e,
        None => stem + " ("@ + tag + ")"@,
    }
}

pub fn stem_ext_chars(n: &[char]) -> (r: (Vec<char>, Option<Vec<char>>))
    ensures
        r.0@ == stem_ext(n@).0,
        match r.1 {
            Some(e) => stem_ext(n@).1 == Some(e@),
            None => stem_ext(n@).1 is None,
        },
{
    proof {
        lemma_last_index_of(n@, '.');
    }
    let dots = chars_of("..");
    if crate::text::chars_eq(n, dots.as_slice()) {
        return (slice_of(n, 0, n.len()), None);
    }
    match last_index(n, '.') {
        Some(i) => {
            if i == 0 {
                (slice_of(n, 0, n.len()), None)
            } else {
                assert(i < n.len());
                (slice_of(n, 0, i), Some(slice_of(n, i + 1, n.len())))
            }
        },
        None => (slice_of(n, 0, n.len()), None),
    }
}

pub fn rsplit_dot_chars(n: &[char]) -> (r: Option<(Vec<char>, Vec<char>)>)
    ensures
        match r {
            Some(p) => rsplit_dot(n@) == Some((p.0@, p.1@)),
            None => rsplit_dot(n@) is None,
        },
{
    proof {
        lemma_last_index_of(n@, '.');
    }
    match last_index(n, '.') {
        Some(i) => {
            assert(i < n.len());
            Some((slice_of(n, 0, i), slice_of(n, i + 1, n.len())))
        },
        None => None,
    }
}

pub fn numbered_chars(stem: &[char], tag: &[char], ext: &Option<Vec<char>>) -> (r: Vec<char>)
    ensures
        r@ == numbered(
            stem@,
            tag@,
            match ext {
                Some(e) => Some(e@),
                None => None,
            },
        ),
{
    let open = chars_of(" (");
    let a = concat(stem, open.as_slice());
    let b = concat(a.as_slice(), tag);
    match ext {
        Some(e) => {
            let close = chars_of(").");
            let c = concat(b.as_slice(), close.as_slice());
            concat(c.as_slice(), e.as_slice())
        },
        None => {
            let close = chars_of(")");
            concat(b.as_slice(), close.as_slice())
        },
    }
}

/// Whether `x` occurs in `v`.
pub open spec fn holds(v: Seq<Seq<char>>, x: Seq<char>) -> bool {
    exists|i: int| 0 <= i < v.len() && v[i] == x
}

pub fn holds_chars(v: &[String], x: &[char]) -> (r: bool)
    ensures
        r == holds(views(v@), x@),
{
    let ghost vs = views(v@);
    let mut i: usize = 0;
    while i < v.len()
        invariant
            i <= v@.len(),
            vs == views(v@),
            forall|k: int| 0 <= k < i ==> vs[k] != x@,
        decreases v.len() - i,
    {
        let c = chars_of(v[i].as_str());
        if crate::text::chars_eq(c.as_slice(), x) {
            assert(vs[i as int] == x@);
            return true;
        }
        i = i + 1;
    }
    false
}

/// The numbers tried for a free name, two to 9,999.
pub open spec fn last_number() -> int {
    10000
}

/// The views of a list of strings.
pub open spec fn views(v: Seq<String>) -> Seq<Seq<char>> {
    v.map_values(|s: String| s@)
}

/// The first number from `k` on, below 10,000, whose numbered name is not
/// taken (compared in lower case), or `None` when all are.
pub open spec fn first_untaken(
    stem: Seq<char>,
    ext: Option<Seq<char>>,
    taken: Seq<Seq<char>>,
    k: int,
) -> Option<int>
    decreases last_number() - k,
{
    if k >= last_number() {
        None
    } else if !holds(taken, lowercase_of(numbered(stem, decimal(k as nat), ext))) {
        Some(k)
    } else {
        first_untaken(stem, ext, taken, k + 1)
    }
}

/// A name in a folder that no entry there has, compared in lower case: the
/// wanted name when it is free (or when it names no file), else the first
/// free `stem (n).ext` for `n` from two to 9,999, else `stem (stamp).ext`.
pub open spec fn free_name_of(name: Seq<char>, taken: Seq<Seq<char>>, stamp: Seq<char>) -> Seq<char> {
    let (stem, ext) = stem_ext(name);
    if !plain_name(name) || !holds(taken, lowercase_of(name)) {
        name
    } else {
        match first_untaken(stem, ext, taken, 2) {
            Some(n) => numbered(stem, decimal(n as nat), ext),
            None => numbered(stem, stamp, ext),
        }
    }
}

/// Picks a name in a folder that none of `taken` has in lower case; `taken`
/// holds the lower-cased names of the folder's entries and `stamp` is the
/// tag used when every number is taken.
pub fn free_name(name: &str, taken: &[String], stamp: &str) -> (r: String)
    ensures
        r@ == free_name_of(name@, views(taken@), stamp@),
{
    let n = chars_of(name);
    if !is_plain_name(n.as_slice()) {
        return string_of(n.as_slice());
    }
    let low = lowercase_chars(n.as_slice());
    if !holds_chars(taken, low.as_slice()) {
        return string_of(n.as_slice());
    }
    let (stem, ext) = stem_ext_chars(n.as_slice());
    let ghost ev: Option<Seq<char>> = match &ext {
        Some(e) => Some(e@),
        None => None,
    };
    let mut k: u64 = 2;
    while k < 10000
        invariant
            2 <= k <= 10000,
            n@ == name@,
            plain_name(name@),
            holds(views(taken@), lowercase_of(name@)),
            stem@ == stem_ext(name@).0,
            ev == stem_ext(name@).1,
            ev == match ext {
                Some(e) => Some(e@),
                None => None::<Seq<char>>,
            },
            first_untaken(stem@, ev, views(taken@), 2) == first_untaken(stem@, ev, views(taken@), k as int),
        decreases 10000 - k,
    {
        let num = decimal_of(k);
        let cand = numbered_chars(stem.as_slice(), num.as_slice(), &ext);
        let cl = lowercase_chars(cand.as_slice());
        if !holds_chars(taken, cl.as_slice()) {
            return string_of(cand.as_slice());
        }
        k = k + 1;
    }
    let st = chars_of(stamp);
    let cand = numbered_chars(stem.as_slice(), st.as_slice(), &ext);
    string_of(cand.as_slice())
}

proof fn lemma_first_untaken_free(stem: Seq<char>, ext: Option<Seq<char>>, taken: Seq<Seq<char>>, k: int)
    ensures
        first_untaken(stem, ext, taken, k) matches Some(n) ==> k <= n < last_number() && !holds(
            taken,
            lowercase_of(numbered(stem, decimal(n as nat), ext)),
        ),
    decreases last_number() - k,
{
    if k < last_number() && holds(taken, lowercase_of(numbered(stem, decimal(k as nat), ext))) {
        lemma_first_untaken_free(stem, ext, taken, k + 1);
    }
}

/// A free name is free: for a plain name, the name picked is, in lower case,
/// none of the names already in the folder — unless every number from two
/// to 9,999 is taken, when the time stamp is relied on instead.
pub proof fn lemma_free_name_is_free(name: Seq<char>, taken: Seq<Seq<char>>, stamp: Seq<char>)
    requires
        plain_name(name),
        !holds(taken, lowercase_of(name)) || first_untaken(stem_ext(name).0, stem_ext(name).1, taken, 2) is Some,
    ensures
        !holds(taken, lowercase_of(free_name_of(name, taken, stamp))),
{
    lemma_first_untaken_free(stem_ext(name).0, stem_ext(name).1, taken, 2);
}

proof fn lemma_first_untaken_least(stem: Seq<char>, ext: Option<Seq<char>>, taken: Seq<Seq<char>>, k: int, m: int)
    requires
        k <= m,
        first_untaken(stem, ext, taken, k) matches Some(n) && m < n,
    ensures
        holds(taken, lowercase_of(numbered(stem, decimal(m as nat), ext))),
    decreases m - k,
{
    if k < m {
        lemma_first_untaken_least(stem, ext, taken, k + 1, m);
    }
}

/// The number a taken name gets is the least one free: when the wanted
/// plain name is taken and some number from two to 9,999 is free, the name
/// picked is `stem (n).ext` for a free `n` such that every number from two
/// up to `n` is taken.
pub proof fn lemma_free_name_least(name: Seq<char>, taken: Seq<Seq<char>>, stamp: Seq<char>)
    requires
        plain_name(name),
        holds(taken, lowercase_of(name)),
        first_untaken(stem_ext(name).0, stem_ext(name).1, taken, 2) is Some,
    ensures
        ({
            let n = first_untaken(stem_ext(name).0, stem_ext(name).1, taken, 2)->0;
            &&& 2 <= n < last_number()
            &&& free_name_of(name, taken, stamp) == numbered(stem_ext(name).0, decimal(n as nat), stem_ext(name).1)
            &&& !holds(taken, lowercase_of(free_name_of(name, taken, stamp)))
            &&& forall|m: int| 2 <= m < n ==> holds(
                taken,
                lowercase_of(#[trigger] numbered(stem_ext(name).0, decimal(m as nat), stem_ext(name).1)),
            )
        }),
{
    let (stem, ext) = stem_ext(name);
    lemma_first_untaken_free(stem, ext, taken, 2);
    let n = first_untaken(stem, ext, taken, 2)->0;
    assert forall|m: int| 2 <= m < n implies holds(taken, lowercase_of(#[trigger] numbered(stem, decimal(m as nat), ext))) by {
        lemma_first_untaken_least(stem, ext, taken, 2, m);
    }
}

/// The lower case of each name.
pub open spec fn lowered(v: Seq<String>) -> Seq<Seq<char>> {
    v.map_values(|e: String| lowercase_of(e@))
}

/// Picks a name in a folder that none of its `entries` has, compared in
/// lower case; `stamp` is the tag used when every number is taken.
pub fn free_name_in(name: &str, entries: &[String], stamp: &str) -> (r: String)
    ensures
        r@ == free_name_of(name@, lowered(entries@), stamp@),
{
    let mut low: Vec<String> = Vec::new();
    let mut i: usize = 0;
    while i < entries.len()
        invariant
            i <= entries@.len(),
            views(low@) == lowered(entries@.subrange(0, i as int)),
        decreases entries.len() - i,
    {
        let l = lowercase(entries[i].as_str());
        let ghost before = low@;
        low.push(l);
        assert(views(low@) =~= views(before).push(l@));
        assert(lowered(entries@.subrange(0, i + 1)) =~= lowered(entries@.subrange(0, i as int)).push(
            lowercase_of(entries@[i as int]@),
        ));
        i = i + 1;
    }
    assert(entries@.subrange(0, entries@.len() as int) =~= entries@);
    free_name(name, low.as_slice(), stamp)
}

/// A name with a tag before its extension, `stem (tag).ext`: the forms
/// tried in turn when the names of a folder cannot be listed.
pub fn numbered_name(name: &str, tag: &str) -> (r: String)
    ensures
        r@ == numbered(stem_ext(name@).0, tag@, stem_ext(name@).1),
{
    let n = chars_of(name);
    let (stem, ext) = stem_ext_chars(n.as_slice());
    string_of(numbered_chars(stem.as_slice(), chars_of(tag).as_slice(), &ext).as_slice())
}

} // verus!
