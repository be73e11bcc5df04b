//! Lexicographic order of texts by code point (the order `String` sorts in,
//! since UTF-8 preserves code point order) and sorted sets of texts.

use vstd::prelude::*;

verus! {

/// `a < b` as `str` orders them.
pub open spec fn lex_lt(a: Seq<char>, b: Seq<char>) -> bool
    decreases a.len(),
{
    if a.len() == 0 {
        b.len() > 0
    } else if b.len() == 0 {
        false
    } else if a[0] != b[0] {
        a[0] < b[0]
    } else {
        lex_lt(a.drop_first(), b.drop_first())
    }
}

pub proof fn lemma_lex_irreflexive(a: Seq<char>)
    ensures
        !lex_lt(a, a),
    decreases a.len(),
{
    if a.len() > 0 {
        lemma_lex_irreflexive(a.drop_first());
    }
}

pub proof fn lemma_lex_total(a: Seq<char>, b: Seq<char>)
    ensures
        a == b || lex_lt(a, b) || lex_lt(b, a),
        !(lex_lt(a, b) && lex_lt(b, a)),
    decreases a.len(),
{
    if a.len() > 0 && b.len() > 0 {
        if a[0] == b[0] {
            lemma_lex_total(a.drop_first(), b.drop_first());
            if a.drop_first() == b.drop_first() {
                assert(a =~= seq![a[0]] + a.drop_first());
                assert(b =~= seq![b[0]] + b.drop_first());
            }
        }
    } else if a.len() == 0 && b.len() == 0 {
        assert(a =~= b);
    }
}

pub proof fn lemma_lex_transitive(a: Seq<char>, b: Seq<char>, c: Seq<char>)
    requires
        lex_lt(a, b),
        lex_lt(b, c),
    ensures
        lex_lt(a, c),
    decreases a.len(),
{
    if a.len() > 0 && b.len() > 0 && c.len() > 0 {
        if a[0] == b[0] && b[0] == c[0] {
            lemma_lex_transitive(a.drop_first(), b.drop_first(), c.drop_first());
        }
    }
}

/// Compares two texts as `str` does.
pub fn lex_less(a: &[char], b: &[char]) -> (r: bool)
    ensures
        r == lex_lt(a@, b@),
{
    let mut i: usize = 0;
    assert(a@.subrange(0, a@.len() as int) =~= a@);
    assert(b@.subrange(0, b@.len() as int) =~= b@);
    assert(a@.subrange(0, 0) =~= b@.subrange(0, 0));
    while i < a.len() && i < b.len()
        invariant
            i <= a@.len(),
            i <= b@.len(),
            a@.subrange(0, i as int) == b@.subrange(0, i as int),
            lex_lt(a@, b@) == lex_lt(
                a@.subrange(i as int, a@.len() as int),
                b@.subrange(i as int, b@.len() as int),
            ),
        decreases a.len() - i,
    {
        let ghost ta = a@.subrange(i as int, a@.len() as int);
        let ghost tb = b@.subrange(i as int, b@.len() as int);
        if a[i] != b[i] {
            assert(ta[0] == a@[i as int] && tb[0] == b@[i as int]);
            return a[i] < b[i];
        }
        assert(ta.drop_first() =~= a@.subrange(i + 1, a@.len() as int));
        assert(tb.drop_first() =~= b@.subrange(i + 1, b@.len() as int));
        assert(a@.subrange(0, i + 1) =~= a@.subrange(0, i as int).push(a@[i as int]));
        assert(b@.subrange(0, i + 1) =~= b@.subrange(0, i as int).push(b@[i as int]));
        i = i + 1;
    }
    i == a.len() && i < b.len()
}

/// Strictly increasing, hence free of repeats.
pub open spec fn strictly_sorted(s: Seq<Seq<char>>) -> bool {
    forall|i: int, j: int| 0 <= i < j < s.len() ==> lex_lt(#[trigger] s[i], #[trigger] s[j])
}

pub open spec fn texts_of(v: Seq<Vec<char>>) -> Seq<Seq<char>> {
    v.map_values(|x: Vec<char>| x@)
}

/// Adds `x` to a strictly sorted list of texts, unless it is there.
pub fn insert_sorted(v: &mut Vec<Vec<char>>, x: Vec<char>)
    requires
        strictly_sorted(texts_of(old(v)@)),
    ensures
        strictly_sorted(texts_of(final(v)@)),
        texts_of(final(v)@).to_set() == texts_of(old(v)@).to_set().insert(x@),
{
    let ghost old_t = texts_of(v@);
    let mut i: usize = 0;
    while i < v.len() && lex_less(v[i].as_slice(), x.as_slice())
        invariant
            i <= v@.len(),
            texts_of(v@) == old_t,
            strictly_sorted(old_t),
            forall|k: int| 0 <= k < i ==> lex_lt(#[trigger] old_t[k], x@),
        decreases v.len() - i,
    {
        assert(old_t[i as int] == v@[i as int]@);
        i = i + 1;
    }
    if i < v.len() {
        assert(old_t[i as int] == v@[i as int]@);
        if crate::text::chars_eq(v[i].as_slice(), x.as_slice()) {
            proof {
                assert(old_t.contains(x@));
                assert(old_t.to_set().insert(x@) =~= old_t.to_set());
            }
            return;
        }
    }
    let ghost xv = x@;
    v.insert(i, x);
    proof {
        let t = texts_of(v@);
        assert(t =~= old_t.insert(i as int, xv));
        if i < old_t.len() {
            lemma_lex_total(old_t[i as int], xv);
        }
        assert forall|a: int, b: int| 0 <= a < b < t.len() implies lex_lt(
            #[trigger] t[a],
            #[trigger] t[b],
        ) by {
            if a < i && b < i {
                assert(t[a] == old_t[a] && t[b] == old_t[b]);
            } else if a < i && b == i {
            } else if a < i && b > i {
                assert(t[a] == old_t[a] && t[b] == old_t[b - 1]);
                if a < b - 1 {
                } else {
                }
            } else if a == i {
                assert(t[b] == old_t[b - 1]);
                if b - 1 > i {
                    lemma_lex_transitive(xv, old_t[i as int], old_t[b - 1]);
                }
            } else {
                assert(t[a] == old_t[a - 1] && t[b] == old_t[b - 1]);
            }
        }
        assert(t.to_set() =~= old_t.to_set().insert(xv)) by {
            assert forall|e: Seq<char>| t.to_set().contains(e) <==> old_t.to_set().insert(
                xv,
            ).contains(e) by {
                if t.contains(e) {
                    let k = choose|k: int| 0 <= k < t.len() && t[k] == e;
                    if k < i {
                        assert(old_t[k] == e);
                    } else if k > i {
                        assert(old_t[k - 1] == e);
                    }
                }
                if old_t.contains(e) {
                    let k = choose|k: int| 0 <= k < old_t.len() && old_t[k] == e;
                    if k < i {
                        assert(t[k] == e);
                    } else {
                        assert(t[k + 1] == e);
                    }
                }
                if e == xv {
                    assert(t[i as int] == e);
                }
            }
        }
    }
}


/// `a < b` between two characters of a path, where `/` comes before
/// everything else: comparing paths this way compares them part by part,
/// as `Path` does, when no part is empty.
pub open spec fn path_char_lt(a: char, b: char) -> bool {
    (a == '/' && b != '/') || (a != '/' && b != '/' && a < b)
}

/// `a < b` as `Path` orders paths without empty parts.
pub open spec fn path_lt(a: Seq<char>, b: Seq<char>) -> bool
    decreases a.len(),
{
    if a.len() == 0 {
        b.len() > 0
    } else if b.len() == 0 {
        false
    } else if a[0] != b[0] {
        path_char_lt(a[0], b[0])
    } else {
        path_lt(a.drop_first(), b.drop_first())
    }
}

pub proof fn lemma_path_order(a: Seq<char>, b: Seq<char>, c: Seq<char>)
    ensures
        !path_lt(a, a),
        a == b || path_lt(a, b) || path_lt(b, a),
        !(path_lt(a, b) && path_lt(b, a)),
        path_lt(a, b) && path_lt(b, c) ==> path_lt(a, c),
    decreases a.len(),
{
    if a.len() > 0 && b.len() > 0 && c.len() > 0 {
        lemma_path_order(a.drop_first(), b.drop_first(), c.drop_first());
        if a[0] == b[0] && a.drop_first() == b.drop_first() {
            assert(a =~= seq![a[0]] + a.drop_first());
            assert(b =~= seq![b[0]] + b.drop_first());
        }
    } else if a.len() > 0 && b.len() > 0 {
        lemma_path_order(a.drop_first(), b.drop_first(), b.drop_first());
        if a[0] == b[0] && a.drop_first() == b.drop_first() {
            assert(a =~= seq![a[0]] + a.drop_first());
            assert(b =~= seq![b[0]] + b.drop_first());
        }
    } else if a.len() > 0 {
        lemma_path_order(a.drop_first(), a.drop_first(), a.drop_first());
    } else if a.len() == 0 && b.len() == 0 {
        assert(a =~= b);
    }
}

/// Compares two paths as `Path` does.
pub fn path_less(a: &[char], b: &[char]) -> (r: bool)
    ensures
        r == path_lt(a@, b@),
{
    let mut i: usize = 0;
    assert(a@.subrange(0, a@.len() as int) =~= a@);
    assert(b@.subrange(0, b@.len() as int) =~= b@);
    while i < a.len() && i < b.len()
        invariant
            i <= a@.len(),
            i <= b@.len(),
            path_lt(a@, b@) == path_lt(
                a@.subrange(i as int, a@.len() as int),
                b@.subrange(i as int, b@.len() as int),
            ),
        decreases a.len() - i,
    {
        let ghost ta = a@.subrange(i as int, a@.len() as int);
        let ghost tb = b@.subrange(i as int, b@.len() as int);
        if a[i] != b[i] {
            assert(ta[0] == a@[i as int] && tb[0] == b@[i as int]);
            return (a[i] == '/' && b[i] != '/') || (a[i] != '/' && b[i] != '/' && a[i] < b[i]);
        }
        assert(ta.drop_first() =~= a@.subrange(i + 1, a@.len() as int));
        assert(tb.drop_first() =~= b@.subrange(i + 1, b@.len() as int));
        i = i + 1;
    }
    i == a.len() && i < b.len()
}

} // verus!
