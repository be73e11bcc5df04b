//! Text primitives over Unicode scalar values, stated on `Seq<char>`.

use vstd::prelude::*;
use vstd::string::*;

verus! {

/// Unicode `White_Space`: the characters `char::is_whitespace` accepts.
pub open spec fn is_ws(c: char) -> bool {
    let u = c as u32;
    ||| (0x09 <= u && u <= 0x0d)
    ||| u == 0x20
    ||| u == 0x85
    ||| u == 0xa0
    ||| u == 0x1680
    ||| (0x2000 <= u && u <= 0x200a)
    ||| u == 0x2028
    ||| u == 0x2029
    ||| u == 0x202f
    ||| u == 0x205f
    ||| u == 0x3000
}

pub fn is_ws_char(c: char) -> (b: bool)
    ensures
        b == is_ws(c),
{
    let u = c as u32;
    (0x09 <= u && u <= 0x0d) || u == 0x20 || u == 0x85 || u == 0xa0 || u == 0x1680 || (0x2000 <= u
        && u <= 0x200a) || u == 0x2028 || u == 0x2029 || u == 0x202f || u == 0x205f || u == 0x3000
}

pub open spec fn is_digit(c: char) -> bool {
    '0' <= c && c <= '9'
}

/// `char::to_ascii_lowercase`.
pub open spec fn ascii_lower(c: char) -> char {
    if 'A' <= c && c <= 'Z' {
        ((c as u32) + 32) as char
    } else {
        c
    }
}

pub open spec fn lower_ascii_seq(s: Seq<char>) -> Seq<char> {
    s.map_values(|c: char| ascii_lower(c))
}

/// Which characters a trim removes.
#[derive(Clone, Copy, PartialEq, Eq, Debug)]
pub enum Trim {
    /// Unicode white space (`str::trim`).
    Space,
    /// `' '`, `'_'`, `'-'`, `'.'`, `'~'`: what separates a date from a title.
    TitleLead,
    /// `'/'`.
    Slash,
    /// `'.'`.
    Dot,
}

pub open spec fn trimmed_by(t: Trim, c: char) -> bool {
    match t {
        Trim::Space => is_ws(c),
        Trim::TitleLead => c == ' ' || c == '_' || c == '-' || c == '.' || c == '~',
        Trim::Slash => c == '/',
        Trim::Dot => c == '.',
    }
}

pub fn is_trimmed_by(t: Trim, c: char) -> (b: bool)
    ensures
        b == trimmed_by(t, c),
{
    match t {
        Trim::Space => is_ws_char(c),
        Trim::TitleLead => c == ' ' || c == '_' || c == '-' || c == '.' || c == '~',
        Trim::Slash => c == '/',
        Trim::Dot => c == '.',
    }
}

/// `trim_start_matches`: drop leading characters the trim removes.
pub open spec fn trim_start(s: Seq<char>, t: Trim) -> Seq<char>
    decreases s.len(),
{
    if s.len() > 0 && trimmed_by(t, s[0]) {
        trim_start(s.drop_first(), t)
    } else {
        s
    }
}

/// `trim_end_matches`: drop trailing characters the trim removes.
pub open spec fn trim_end(s: Seq<char>, t: Trim) -> Seq<char>
    decreases s.len(),
{
    if s.len() > 0 && trimmed_by(t, s.last()) {
        trim_end(s.drop_last(), t)
    } else {
        s
    }
}

/// `trim_matches`: both ends.
pub open spec fn trim_both(s: Seq<char>, t: Trim) -> Seq<char> {
    trim_end(trim_start(s, t), t)
}

/// `str::trim`.
pub open spec fn trim(s: Seq<char>) -> Seq<char> {
    trim_both(s, Trim::Space)
}

pub open spec fn starts_with(s: Seq<char>, p: Seq<char>) -> bool {
    p.len() <= s.len() && s.subrange(0, p.len() as int) == p
}

pub open spec fn ends_with(s: Seq<char>, p: Seq<char>) -> bool {
    p.len() <= s.len() && s.subrange(s.len() - p.len(), s.len() as int) == p
}

/// Index of the last `c` in `s`, or -1.
pub open spec fn last_index_of(s: Seq<char>, c: char) -> int
    decreases s.len(),
{
    if s.len() == 0 {
        -1
    } else if s.last() == c {
        s.len() - 1
    } else {
        last_index_of(s.drop_last(), c)
    }
}

pub proof fn lemma_last_index_of(s: Seq<char>, c: char)
    ensures
        -1 <= last_index_of(s, c) < s.len(),
        last_index_of(s, c) >= 0 ==> s[last_index_of(s, c)] == c,
        forall|k: int| last_index_of(s, c) < k < s.len() ==> s[k] != c,
    decreases s.len(),
{
    if s.len() > 0 && s.last() != c {
        lemma_last_index_of(s.drop_last(), c);
        assert forall|k: int| last_index_of(s, c) < k < s.len() implies s[k] != c by {
            if k < s.len() - 1 {
                assert(s[k] == s.drop_last()[k]);
            }
        }
    }
}

/// The characters of a string slice, in order.
pub fn chars_of(s: &str) -> (v: Vec<char>)
    ensures
        v@ == s@,
{
    let n = s.unicode_len();
    let mut v: Vec<char> = Vec::new();
    let mut i: usize = 0;
    while i < n
        invariant
            n == s@.len(),
            i <= n,
            v@ == s@.subrange(0, i as int),
        decreases n - i,
    {
        let c = s.get_char(i);
        v.push(c);
        i = i + 1;
        assert(v@ =~= s@.subrange(0, i as int));
    }
    assert(v@ =~= s@);
    v
}

/// `String::from_iter` over characters, from std.
/// Claimed: the string holds exactly the given characters, in order.
#[verifier::external_body]
pub(crate) fn string_of(v: &[char]) -> (s: String)
    ensures
        s@ == v@,
{
    v.iter().collect()
}

/// Owned copy of `v[lo..hi]`.
pub fn slice_of(v: &[char], lo: usize, hi: usize) -> (r: Vec<char>)
    requires
        lo <= hi <= v@.len(),
    ensures
        r@ == v@.subrange(lo as int, hi as int),
{
    let mut r: Vec<char> = Vec::new();
    let mut i = lo;
    while i < hi
        invariant
            lo <= i <= hi <= v@.len(),
            r@ == v@.subrange(lo as int, i as int),
        decreases hi - i,
    {
        r.push(v[i]);
        i = i + 1;
        assert(r@ =~= v@.subrange(lo as int, i as int));
    }
    r
}

/// `a ++ b`.
pub fn concat(a: &[char], b: &[char]) -> (r: Vec<char>)
    ensures
        r@ == a@ + b@,
{
    let mut r = slice_of(a, 0, a.len());
    let mut i: usize = 0;
    while i < b.len()
        invariant
            i <= b@.len(),
            r@ == a@ + b@.subrange(0, i as int),
        decreases b.len() - i,
    {
        r.push(b[i]);
        i = i + 1;
        assert(r@ =~= a@ + b@.subrange(0, i as int));
    }
    assert(b@.subrange(0, b@.len() as int) =~= b@);
    r
}

pub fn chars_eq(a: &[char], b: &[char]) -> (r: bool)
    ensures
        r == (a@ == b@),
{
    if a.len() != b.len() {
        return false;
    }
    let mut i: usize = 0;
    while i < a.len()
        invariant
            a@.len() == b@.len(),
            i <= a@.len(),
            forall|k: int| 0 <= k < i ==> a@[k] == b@[k],
        decreases a.len() - i,
    {
        if a[i] != b[i] {
            return false;
        }
        i = i + 1;
    }
    assert(a@ =~= b@);
    true
}

/// Whether a string slice holds exactly the given characters.
pub fn str_is(lit: &str, v: &[char]) -> (r: bool)
    ensures
        r == (lit@ == v@),
{
    let l = chars_of(lit);
    chars_eq(l.as_slice(), v)
}

pub fn starts_with_chars(s: &[char], p: &[char]) -> (r: bool)
    ensures
        r == starts_with(s@, p@),
{
    if p.len() > s.len() {
        return false;
    }
    let head = slice_of(s, 0, p.len());
    chars_eq(head.as_slice(), p)
}

pub fn ends_with_chars(s: &[char], p: &[char]) -> (r: bool)
    ensures
        r == ends_with(s@, p@),
{
    if p.len() > s.len() {
        return false;
    }
    let tail = slice_of(s, s.len() - p.len(), s.len());
    chars_eq(tail.as_slice(), p)
}

pub fn contains_char(s: &[char], c: char) -> (r: bool)
    ensures
        r == s@.contains(c),
{
    let mut i: usize = 0;
    while i < s.len()
        invariant
            i <= s@.len(),
            forall|k: int| 0 <= k < i ==> s@[k] != c,
        decreases s.len() - i,
    {
        if s[i] == c {
            assert(s@[i as int] == c);
            return true;
        }
        i = i + 1;
    }
    false
}

pub fn last_index(s: &[char], c: char) -> (r: Option<usize>)
    ensures
        match r {
            Some(i) => i as int == last_index_of(s@, c),
            None => last_index_of(s@, c) == -1,
        },
{
    proof {
        lemma_last_index_of(s@, c);
    }
    let mut i = s.len();
    assert(s@.subrange(0, i as int) =~= s@);
    while i > 0
        invariant
            i <= s@.len(),
            last_index_of(s@, c) == last_index_of(s@.subrange(0, i as int), c),
        decreases i,
    {
        if s[i - 1] == c {
            return Some(i - 1);
        }
        assert(s@.subrange(0, i as int).drop_last() =~= s@.subrange(0, i - 1));
        i = i - 1;
    }
    None
}

proof fn lemma_trim_start_skip(s: Seq<char>, t: Trim, i: int)
    requires
        0 <= i < s.len(),
        trimmed_by(t, s[i]),
    ensures
        trim_start(s.subrange(i, s.len() as int), t) == trim_start(
            s.subrange(i + 1, s.len() as int),
            t,
        ),
{
    assert(s.subrange(i, s.len() as int).drop_first() =~= s.subrange(i + 1, s.len() as int));
}

proof fn lemma_trim_end_skip(s: Seq<char>, t: Trim, j: int)
    requires
        0 < j <= s.len(),
        trimmed_by(t, s[j - 1]),
    ensures
        trim_end(s.subrange(0, j), t) == trim_end(s.subrange(0, j - 1), t),
{
    assert(s.subrange(0, j).drop_last() =~= s.subrange(0, j - 1));
}

/// First index not removed by a leading trim.
pub fn trim_start_at(s: &[char], t: Trim) -> (i: usize)
    ensures
        i <= s@.len(),
        trim_start(s@, t) == s@.subrange(i as int, s@.len() as int),
{
    let mut i: usize = 0;
    assert(s@.subrange(0, s@.len() as int) =~= s@);
    while i < s.len() && is_trimmed_by(t, s[i])
        invariant
            i <= s@.len(),
            trim_start(s@, t) == trim_start(s@.subrange(i as int, s@.len() as int), t),
        decreases s.len() - i,
    {
        proof {
            lemma_trim_start_skip(s@, t, i as int);
        }
        i = i + 1;
    }
    i
}

/// End index after a trailing trim.
pub fn trim_end_at(s: &[char], t: Trim) -> (j: usize)
    ensures
        j <= s@.len(),
        trim_end(s@, t) == s@.subrange(0, j as int),
{
    let mut j: usize = s.len();
    assert(s@.subrange(0, s@.len() as int) =~= s@);
    while j > 0 && is_trimmed_by(t, s[j - 1])
        invariant
            j <= s@.len(),
            trim_end(s@, t) == trim_end(s@.subrange(0, j as int), t),
        decreases j,
    {
        proof {
            lemma_trim_end_skip(s@, t, j as int);
        }
        j = j - 1;
    }
    j
}

pub fn trim_start_chars(s: &[char], t: Trim) -> (r: Vec<char>)
    ensures
        r@ == trim_start(s@, t),
{
    let i = trim_start_at(s, t);
    slice_of(s, i, s.len())
}

pub fn trim_end_chars(s: &[char], t: Trim) -> (r: Vec<char>)
    ensures
        r@ == trim_end(s@, t),
{
    let j = trim_end_at(s, t);
    slice_of(s, 0, j)
}

pub fn trim_both_chars(s: &[char], t: Trim) -> (r: Vec<char>)
    ensures
        r@ == trim_both(s@, t),
{
    let a = trim_start_chars(s, t);
    trim_end_chars(a.as_slice(), t)
}

pub fn trim_chars(s: &[char]) -> (r: Vec<char>)
    ensures
        r@ == trim(s@),
{
    trim_both_chars(s, Trim::Space)
}

pub fn lower_ascii(s: &[char]) -> (r: Vec<char>)
    ensures
        r@ == lower_ascii_seq(s@),
{
    let mut r: Vec<char> = Vec::new();
    let mut i: usize = 0;
    while i < s.len()
        invariant
            i <= s@.len(),
            r@ == lower_ascii_seq(s@.subrange(0, i as int)),
        decreases s.len() - i,
    {
        let c = s[i];
        let l = if 'A' <= c && c <= 'Z' {
            proof {
                assert(c as u32 + 32 <= 'z' as u32);
            }
            char_from_u32_ascii((c as u32) + 32)
        } else {
            c
        };
        r.push(l);
        i = i + 1;
        assert(r@ =~= lower_ascii_seq(s@.subrange(0, i as int)));
    }
    assert(s@.subrange(0, s@.len() as int) =~= s@);
    r
}

/// An ASCII code point as a character.
fn char_from_u32_ascii(u: u32) -> (c: char)
    requires
        u < 128,
    ensures
        c == u as char,
{
    let b = u as u8;
    let c = b as char;
    assert(b as u32 == u);
    assert(c as u32 == b as u32);
    c
}

/// Decimal digits of a natural number, most significant first.
pub open spec fn decimal(n: nat) -> Seq<char>
    decreases n,
{
    if n < 10 {
        seq![digit_char(n)]
    } else {
        decimal(n / 10).push(digit_char(n % 10))
    }
}

pub open spec fn digit_char(d: nat) -> char {
    ((d + 48) as u32) as char
}

/// Value of a non-empty run of ASCII digits.
pub open spec fn digits_value(s: Seq<char>) -> nat
    decreases s.len(),
{
    if s.len() == 0 {
        0
    } else {
        digits_value(s.drop_last()) * 10 + ((s.last() as u32) - 48) as nat
    }
}

pub open spec fn all_digits(s: Seq<char>) -> bool {
    forall|k: int| 0 <= k < s.len() ==> is_digit(#[trigger] s[k])
}

fn digit_of(d: u64) -> (c: char)
    requires
        d < 10,
    ensures
        c == digit_char(d as nat),
{
    char_from_u32_ascii((d as u32) + 48)
}

/// `u64::to_string`.
pub fn decimal_of(n: u64) -> (r: Vec<char>)
    ensures
        r@ == decimal(n as nat),
    decreases n,
{
    if n < 10 {
        let mut r: Vec<char> = Vec::new();
        r.push(digit_of(n));
        assert(r@ =~= seq![digit_char(n as nat)]);
        r
    } else {
        let mut r = decimal_of(n / 10);
        r.push(digit_of(n % 10));
        r
    }
}

/// Decimal text of an integer, with `-` before a negative one.
pub open spec fn signed_decimal(i: int) -> Seq<char> {
    if i < 0 {
        "-"@ + decimal((-i) as nat)
    } else {
        decimal(i as nat)
    }
}

/// `i64::to_string`.
pub fn signed_decimal_of(i: i64) -> (r: Vec<char>)
    ensures
        r@ == signed_decimal(i as int),
{
    if i < 0 {
        let m: i128 = -(i as i128);
        let d = decimal_of(m as u64);
        let minus = chars_of("-");
        concat(minus.as_slice(), d.as_slice())
    } else {
        decimal_of(i as u64)
    }
}

/// Value of a run of ASCII digits, or `None` when it exceeds `u64::MAX`.
pub fn parse_digits(s: &[char]) -> (r: Option<u64>)
    requires
        all_digits(s@),
    ensures
        match r {
            Some(v) => v as nat == digits_value(s@),
            None => digits_value(s@) > u64::MAX,
        },
{
    let mut acc: u64 = 0;
    let mut i: usize = 0;
    while i < s.len()
        invariant
            i <= s@.len(),
            all_digits(s@),
            acc as nat == digits_value(s@.subrange(0, i as int)),
        decreases s.len() - i,
    {
        let d = (s[i] as u32 - 48) as u64;
        assert(s@.subrange(0, i + 1).drop_last() =~= s@.subrange(0, i as int));
        assert(is_digit(s@[i as int]));
        let next = match acc.checked_mul(10) {
            Some(m) => m.checked_add(d),
            None => None,
        };
        match next {
            Some(v) => {
                acc = v;
            },
            None => {
                proof {
                    lemma_digits_value_prefix(s@, i as int + 1);
                }
                return None;
            },
        }
        i = i + 1;
    }
    assert(s@.subrange(0, s@.len() as int) =~= s@);
    Some(acc)
}

/// A longer run of digits is never worth less than its prefix.
pub proof fn lemma_digits_value_prefix(s: Seq<char>, k: int)
    requires
        0 <= k <= s.len(),
        all_digits(s),
    ensures
        digits_value(s.subrange(0, k)) <= digits_value(s),
    decreases s.len() - k,
{
    if k < s.len() {
        lemma_digits_value_prefix(s, k + 1);
        assert(s.subrange(0, k + 1).drop_last() =~= s.subrange(0, k));
        let x = digits_value(s.subrange(0, k));
        let d = ((s.subrange(0, k + 1).last() as u32) - 48) as nat;
        assert(x <= x * 10 + d) by (nonlinear_arith);
        assert(digits_value(s.subrange(0, k + 1)) == x * 10 + d);
    } else {
        assert(s.subrange(0, k) =~= s);
    }
}

/// Bytes in the UTF-8 encoding of a character.
pub open spec fn utf8_width(c: char) -> nat {
    let u = c as u32;
    if u < 0x80 {
        1
    } else if u < 0x800 {
        2
    } else if u < 0x10000 {
        3
    } else {
        4
    }
}

pub fn utf8_width_of(c: char) -> (w: usize)
    ensures
        w == utf8_width(c),
{
    let u = c as u32;
    if u < 0x80 {
        1
    } else if u < 0x800 {
        2
    } else if u < 0x10000 {
        3
    } else {
        4
    }
}

/// `s.get(n..)`: what follows the first `n` bytes of the UTF-8 encoding,
/// when byte `n` starts a character (or ends the text).
pub open spec fn after_bytes(s: Seq<char>, n: nat) -> Option<Seq<char>>
    decreases s.len(),
{
    if n == 0 {
        Some(s)
    } else if s.len() == 0 || utf8_width(s[0]) > n {
        None
    } else {
        after_bytes(s.drop_first(), (n - utf8_width(s[0])) as nat)
    }
}

pub open spec fn prepend(p: Seq<char>, o: Option<Seq<char>>) -> Option<Seq<char>> {
    match o {
        Some(x) => Some(p + x),
        None => None,
    }
}

/// `s.get(..n)`: the characters whose encoding fills exactly the first `n` bytes.
pub open spec fn before_bytes(s: Seq<char>, n: nat) -> Option<Seq<char>>
    decreases s.len(),
{
    if n == 0 {
        Some(Seq::empty())
    } else if s.len() == 0 || utf8_width(s[0]) > n {
        None
    } else {
        prepend(seq![s[0]], before_bytes(s.drop_first(), (n - utf8_width(s[0])) as nat))
    }
}

/// `s.get(lo..hi)` by byte offsets.
pub open spec fn bytes_range(s: Seq<char>, lo: nat, hi: nat) -> Option<Seq<char>> {
    if hi < lo {
        None
    } else {
        match after_bytes(s, lo) {
            Some(r) => before_bytes(r, (hi - lo) as nat),
            None => None,
        }
    }
}

/// Character index at which the first `n` bytes end, as `s.get(n..)` finds it.
pub fn after_bytes_at(s: &[char], n: usize) -> (r: Option<usize>)
    ensures
        match r {
            Some(i) => i <= s@.len() && after_bytes(s@, n as nat) == Some(
                s@.subrange(i as int, s@.len() as int),
            ),
            None => after_bytes(s@, n as nat) is None,
        },
{
    let mut i: usize = 0;
    let mut rem = n;
    assert(s@.subrange(0, s@.len() as int) =~= s@);
    while rem > 0
        invariant
            i <= s@.len(),
            after_bytes(s@, n as nat) == after_bytes(
                s@.subrange(i as int, s@.len() as int),
                rem as nat,
            ),
        decreases s@.len() - i,
    {
        if i == s.len() {
            return None;
        }
        let w = utf8_width_of(s[i]);
        if w > rem {
            return None;
        }
        assert(s@.subrange(i as int, s@.len() as int).drop_first() =~= s@.subrange(
            i + 1,
            s@.len() as int,
        ));
        rem = rem - w;
        i = i + 1;
    }
    Some(i)
}

proof fn lemma_prepend_assoc(p: Seq<char>, q: Seq<char>, o: Option<Seq<char>>)
    ensures
        prepend(p, prepend(q, o)) == prepend(p + q, o),
{
    match o {
        Some(x) => {
            assert(p + (q + x) =~= (p + q) + x);
        },
        None => {},
    }
}

/// Character index at which exactly `n` bytes end, as `s.get(..n)` finds it.
pub fn before_bytes_at(s: &[char], n: usize) -> (r: Option<usize>)
    ensures
        match r {
            Some(j) => j <= s@.len() && before_bytes(s@, n as nat) == Some(
                s@.subrange(0, j as int),
            ),
            None => before_bytes(s@, n as nat) is None,
        },
{
    let mut i: usize = 0;
    let mut rem = n;
    assert(s@.subrange(0, s@.len() as int) =~= s@);
    assert(s@.subrange(0, 0) + s@ =~= s@);
    while rem > 0
        invariant
            i <= s@.len(),
            before_bytes(s@, n as nat) == prepend(
                s@.subrange(0, i as int),
                before_bytes(s@.subrange(i as int, s@.len() as int), rem as nat),
            ),
        decreases s@.len() - i,
    {
        if i == s.len() {
            return None;
        }
        let w = utf8_width_of(s[i]);
        if w > rem {
            return None;
        }
        let ghost rest = s@.subrange(i as int, s@.len() as int);
        assert(rest.drop_first() =~= s@.subrange(i + 1, s@.len() as int));
        proof {
            lemma_prepend_assoc(
                s@.subrange(0, i as int),
                seq![rest[0]],
                before_bytes(rest.drop_first(), (rem - w) as nat),
            );
            assert(s@.subrange(0, i as int) + seq![rest[0]] =~= s@.subrange(0, i + 1));
        }
        rem = rem - w;
        i = i + 1;
    }
    assert(s@.subrange(0, i as int) + Seq::<char>::empty() =~= s@.subrange(0, i as int));
    Some(i)
}

/// `s.get(lo..hi)`.
pub fn get_bytes(s: &[char], lo: usize, hi: usize) -> (r: Option<Vec<char>>)
    ensures
        match r {
            Some(v) => bytes_range(s@, lo as nat, hi as nat) == Some(v@),
            None => bytes_range(s@, lo as nat, hi as nat) is None,
        },
{
    if hi < lo {
        return None;
    }
    match after_bytes_at(s, lo) {
        None => None,
        Some(i) => {
            let rest = slice_of(s, i, s.len());
            match before_bytes_at(rest.as_slice(), hi - lo) {
                None => None,
                Some(j) => Some(slice_of(rest.as_slice(), 0, j)),
            }
        },
    }
}

/// `s.get(lo..)`.
pub fn get_bytes_from(s: &[char], lo: usize) -> (r: Option<Vec<char>>)
    ensures
        match r {
            Some(v) => after_bytes(s@, lo as nat) == Some(v@),
            None => after_bytes(s@, lo as nat) is None,
        },
{
    match after_bytes_at(s, lo) {
        None => None,
        Some(i) => Some(slice_of(s, i, s.len())),
    }
}

/// `str::split(c)`: the pieces between occurrences of `c`, empty ones included.
pub open spec fn split_on(s: Seq<char>, c: char) -> Seq<Seq<char>>
    decreases s.len(),
{
    if s.len() == 0 {
        seq![Seq::empty()]
    } else {
        let p = split_on(s.drop_last(), c);
        if s.last() == c {
            p.push(Seq::empty())
        } else {
            p.update(p.len() - 1, p.last().push(s.last()))
        }
    }
}

pub proof fn lemma_split_on_nonempty(s: Seq<char>, c: char)
    ensures
        split_on(s, c).len() >= 1,
    decreases s.len(),
{
    if s.len() > 0 {
        lemma_split_on_nonempty(s.drop_last(), c);
    }
}

/// The pieces of `s` between occurrences of `c`.
pub fn split_chars(s: &[char], c: char) -> (r: Vec<Vec<char>>)
    ensures
        r@.len() == split_on(s@, c).len(),
        forall|k: int| 0 <= k < r@.len() ==> #[trigger] r@[k]@ == split_on(s@, c)[k],
{
    let mut out: Vec<Vec<char>> = Vec::new();
    let mut cur: Vec<char> = Vec::new();
    let mut i: usize = 0;
    assert(s@.subrange(0, 0) =~= Seq::<char>::empty());
    while i < s.len()
        invariant
            i <= s@.len(),
            split_on(s@.subrange(0, i as int), c).len() == out@.len() + 1,
            forall|k: int|
                0 <= k < out@.len() ==> #[trigger] out@[k]@ == split_on(
                    s@.subrange(0, i as int),
                    c,
                )[k],
            cur@ == split_on(s@.subrange(0, i as int), c).last(),
        decreases s.len() - i,
    {
        let ghost pre = s@.subrange(0, i as int);
        assert(s@.subrange(0, i + 1).drop_last() =~= pre);
        proof {
            lemma_split_on_nonempty(pre, c);
        }
        if s[i] == c {
            out.push(cur);
            cur = Vec::new();
        } else {
            cur.push(s[i]);
        }
        i = i + 1;
    }
    assert(s@.subrange(0, s@.len() as int) =~= s@);
    out.push(cur);
    out
}

proof fn lemma_trim_start_first(s: Seq<char>, t: Trim)
    ensures
        trim_start(s, t).len() == 0 || !trimmed_by(t, trim_start(s, t)[0]),
    decreases s.len(),
{
    if s.len() > 0 && trimmed_by(t, s[0]) {
        lemma_trim_start_first(s.drop_first(), t);
    }
}

proof fn lemma_trim_end_prefix(s: Seq<char>, t: Trim)
    ensures
        trim_end(s, t).len() <= s.len(),
        trim_end(s, t) == s.subrange(0, trim_end(s, t).len() as int),
        trim_end(s, t).len() == 0 || !trimmed_by(t, trim_end(s, t).last()),
    decreases s.len(),
{
    if s.len() > 0 && trimmed_by(t, s.last()) {
        lemma_trim_end_prefix(s.drop_last(), t);
        let r = trim_end(s.drop_last(), t);
        assert(s.drop_last().subrange(0, r.len() as int) =~= s.subrange(0, r.len() as int));
    } else {
        assert(s.subrange(0, s.len() as int) =~= s);
    }
}

/// Trimming twice is trimming once.
pub proof fn lemma_trim_idempotent(s: Seq<char>)
    ensures
        trim(trim(s)) == trim(s),
{
    let a = trim_start(s, Trim::Space);
    lemma_trim_start_first(s, Trim::Space);
    lemma_trim_end_prefix(a, Trim::Space);
    let b = trim_end(a, Trim::Space);
    if b.len() > 0 {
        assert(b[0] == a[0]);
    }
    assert(trim_start(b, Trim::Space) == b);
    assert(trim_end(b, Trim::Space) == b);
}

} // verus!
