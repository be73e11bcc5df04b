//! Event names: a folder name split into date and title, day counters of a
//! trip, the words a title is made of, and whether one day follows another.

use crate::text::{
    all_digits, bytes_range, chars_of, concat, decimal, decimal_of, digits_value, ends_with,
    ends_with_chars, get_bytes, is_digit, is_ws, is_ws_char, parse_digits, slice_of, string_of,
    trim, trim_chars, trim_end, trim_end_chars, trim_start, trim_start_chars, Trim,
};
use crate::unicode::{nfc_chars, nfc_of};
use vstd::prelude::*;

verus! {

/// A proposed event name, why it is proposed, and how strongly.
#[derive(Debug, Clone, PartialEq, Eq)]
pub struct Suggestion {
    pub title: String,
    /// Why this name is proposed; shown small beside it.
    pub why: String,
    pub score: i32,
}

/// ASCII digits at `s[i..i + n]`.
pub open spec fn digits_at(s: Seq<char>, i: int, n: int) -> bool {
    &&& 0 <= i
    &&& i + n <= s.len()
    &&& forall|k: int| i <= k < i + n ==> is_digit(#[trigger] s[k])
}

pub open spec fn date_sep(c: char) -> bool {
    c == '-' || c == '.' || c == '_'
}

/// `YYYY-MM-DD`, `YYYY.MM.DD` or `YYYY_MM_DD` at the start.
pub open spec fn separated_date(s: Seq<char>) -> bool {
    &&& digits_at(s, 0, 4)
    &&& s.len() >= 10
    &&& date_sep(s[4])
    &&& s[7] == s[4]
    &&& digits_at(s, 5, 2)
    &&& digits_at(s, 8, 2)
}

/// What follows a date: separators then white space removed.
pub open spec fn title_after(rest: Seq<char>) -> Seq<char> {
    trim(trim_start(rest, Trim::TitleLead))
}

/// `(date as YYYY-MM-DD, title)` of a folder name; no date when the name
/// does not start with `YYYY?MM?DD` (one separator used twice) or `YYYYMMDD`.
pub open spec fn folder_parts(s: Seq<char>) -> (Option<Seq<char>>, Seq<char>) {
    if separated_date(s) {
        (
            Some(s.subrange(0, 4) + "-"@ + s.subrange(5, 7) + "-"@ + s.subrange(8, 10)),
            title_after(s.subrange(10, s.len() as int)),
        )
    } else if digits_at(s, 0, 8) {
        (
            Some(s.subrange(0, 4) + "-"@ + s.subrange(4, 6) + "-"@ + s.subrange(6, 8)),
            title_after(s.subrange(8, s.len() as int)),
        )
    } else {
        (None, trim(s))
    }
}

fn digits_at_exec(s: &[char], i: usize, n: usize) -> (r: bool)
    requires
        i + n <= usize::MAX,
    ensures
        r == digits_at(s@, i as int, n as int),
{
    if i + n > s.len() {
        return false;
    }
    let end = i + n;
    let mut k = i;
    while k < end
        invariant
            end == i + n,
            i <= k <= i + n <= s@.len(),
            forall|j: int| i <= j < k ==> is_digit(#[trigger] s@[j]),
        decreases end - k,
    {
        if !('0' <= s[k] && s[k] <= '9') {
            return false;
        }
        k = k + 1;
    }
    true
}

fn title_after_chars(rest: &[char]) -> (r: Vec<char>)
    ensures
        r@ == title_after(rest@),
{
    let a = trim_start_chars(rest, Trim::TitleLead);
    trim_chars(a.as_slice())
}

fn ymd(y: &[char], m: &[char], d: &[char]) -> (r: Vec<char>)
    ensures
        r@ == y@ + "-"@ + m@ + "-"@ + d@,
{
    let dash = chars_of("-");
    let a = concat(y, dash.as_slice());
    let b = concat(a.as_slice(), m);
    let c = concat(b.as_slice(), dash.as_slice());
    concat(c.as_slice(), d)
}

pub fn parse_folder_chars(s: &[char]) -> (r: (Option<Vec<char>>, Vec<char>))
    ensures
        r.1@ == folder_parts(s@).1,
        match r.0 {
            Some(d) => folder_parts(s@).0 == Some(d@),
            None => folder_parts(s@).0 is None,
        },
{
    if digits_at_exec(s, 0, 4) && s.len() >= 10 {
        let s1 = s[4];
        let s2 = s[7];
        if (s1 == '-' || s1 == '.' || s1 == '_') && s1 == s2 && digits_at_exec(s, 5, 2)
            && digits_at_exec(s, 8, 2) {
            let y = slice_of(s, 0, 4);
            let m = slice_of(s, 5, 7);
            let d = slice_of(s, 8, 10);
            let rest = slice_of(s, 10, s.len());
            return (
                Some(ymd(y.as_slice(), m.as_slice(), d.as_slice())),
                title_after_chars(rest.as_slice()),
            );
        }
    }
    if digits_at_exec(s, 0, 8) {
        let y = slice_of(s, 0, 4);
        let m = slice_of(s, 4, 6);
        let d = slice_of(s, 6, 8);
        let rest = slice_of(s, 8, s.len());
        return (
            Some(ymd(y.as_slice(), m.as_slice(), d.as_slice())),
            title_after_chars(rest.as_slice()),
        );
    }
    (None, trim_chars(s))
}

/// Splits a folder name into its date and title.
///
/// Forms in use: `2003-02-08 아버지 환갑잔치`, `2024.08.27 제주`,
/// `20240827_여행`, and the undated `황금부엉이`.
pub fn parse_folder(name: &str) -> (r: (Option<String>, String))
    ensures
        r.1@ == folder_parts(name@).1,
        match r.0 {
            Some(d) => folder_parts(name@).0 == Some(d@),
            None => folder_parts(name@).0 is None,
        },
{
    let s = chars_of(name);
    let (d, t) = parse_folder_chars(s.as_slice());
    let date = match d {
        Some(v) => Some(string_of(v.as_slice())),
        None => None,
    };
    (date, string_of(t.as_slice()))
}

/// Length of the run of ASCII digits that ends `s`.
pub open spec fn trailing_digits(s: Seq<char>) -> nat
    decreases s.len(),
{
    if s.len() > 0 && is_digit(s.last()) {
        trailing_digits(s.drop_last()) + 1
    } else {
        0
    }
}

proof fn lemma_trailing_digits(s: Seq<char>)
    ensures
        trailing_digits(s) <= s.len(),
        all_digits(s.subrange(s.len() - trailing_digits(s), s.len() as int)),
    decreases s.len(),
{
    if s.len() > 0 && is_digit(s.last()) {
        lemma_trailing_digits(s.drop_last());
        let k = trailing_digits(s);
        assert forall|j: int|
            0 <= j < k implies is_digit(
            #[trigger] s.subrange(s.len() - k, s.len() as int)[j],
        ) by {
            if j < k - 1 {
                assert(s.subrange(s.len() - k, s.len() as int)[j] == s.drop_last().subrange(
                    s.drop_last().len() - (k - 1),
                    s.drop_last().len() as int,
                )[j]);
            }
        }
    }
}

/// `(head, n)` for a title ending in `n일차` (day `n` of a trip): the title
/// without the counter, trimmed, and the counter (1 when it does not fit a
/// `u32`); else the title with trailing white space removed and no counter.
pub open spec fn day_suffix_of(title: Seq<char>) -> (Seq<char>, Option<u32>) {
    let t = trim_end(title, Trim::Space);
    if !ends_with(t, "일차"@) {
        (t, None)
    } else {
        let rest = t.subrange(0, t.len() - "일차"@.len());
        let k = trailing_digits(rest);
        if k == 0 {
            (t, None)
        } else {
            let v = digits_value(rest.subrange(rest.len() - k, rest.len() as int));
            (
                trim_end(rest.subrange(0, rest.len() - k), Trim::Space),
                Some(if v <= u32::MAX { v as u32 } else { 1u32 }),
            )
        }
    }
}

pub fn split_day_suffix_chars(title: &[char]) -> (r: (Vec<char>, Option<u32>))
    ensures
        r.0@ == day_suffix_of(title@).0,
        r.1 == day_suffix_of(title@).1,
{
    let t = trim_end_chars(title, Trim::Space);
    let suffix = chars_of("일차");
    if !ends_with_chars(t.as_slice(), suffix.as_slice()) {
        return (t, None);
    }
    let rest = slice_of(t.as_slice(), 0, t.len() - suffix.len());
    let mut j = rest.len();
    let ghost rs = rest@;
    assert(rs.subrange(0, rs.len() as int) =~= rs);
    while j > 0 && '0' <= rest[j - 1] && rest[j - 1] <= '9'
        invariant
            j <= rs.len(),
            rest@ == rs,
            trailing_digits(rs) == trailing_digits(rs.subrange(0, j as int)) + (rs.len() - j),
        decreases j,
    {
        assert(rs.subrange(0, j as int).drop_last() =~= rs.subrange(0, j - 1));
        j = j - 1;
    }
    assert(trailing_digits(rs.subrange(0, j as int)) == 0);
    if j == rest.len() {
        return (t, None);
    }
    proof {
        lemma_trailing_digits(rs);
    }
    let digits = slice_of(rest.as_slice(), j, rest.len());
    let n: u32 = match parse_digits(digits.as_slice()) {
        Some(v) => if v <= 0xffff_ffff {
            v as u32
        } else {
            1
        },
        None => 1,
    };
    let head_raw = slice_of(rest.as_slice(), 0, j);
    let head = trim_end_chars(head_raw.as_slice(), Trim::Space);
    (head, Some(n))
}

/// `거제통영 가족여행 2일차` → (`거제통영 가족여행`, 2).
pub fn split_day_suffix(title: &str) -> (r: (String, Option<u32>))
    ensures
        r.0@ == day_suffix_of(title@).0,
        r.1 == day_suffix_of(title@).1,
{
    let t = chars_of(title);
    let (h, n) = split_day_suffix_chars(t.as_slice());
    (string_of(h.as_slice()), n)
}

/// The title of the next day of a trip: `하와이` → `하와이 2일차`,
/// `하와이 2일차` → `하와이 3일차`; a title whose head is empty stays.
pub open spec fn next_day_of(title: Seq<char>) -> Seq<char> {
    let (head, n) = day_suffix_of(title);
    if head.len() == 0 {
        title
    } else {
        let k: nat = match n {
            Some(v) => v as nat,
            None => 1,
        };
        head + " "@ + decimal(k + 1) + "일차"@
    }
}

/// Adds one to the day counter, or starts one at day 2.
pub fn next_day(title: &str) -> (r: String)
    requires
        day_suffix_of(title@).1 != Some(u32::MAX),
    ensures
        r@ == next_day_of(title@),
{
    let t = chars_of(title);
    let (head, n) = split_day_suffix_chars(t.as_slice());
    if head.len() == 0 {
        return string_of(t.as_slice());
    }
    let k: u64 = match n {
        Some(v) => v as u64,
        None => 1,
    };
    let num = decimal_of(k + 1);
    let sp = chars_of(" ");
    let suffix = chars_of("일차");
    let a = concat(head.as_slice(), sp.as_slice());
    let b = concat(a.as_slice(), num.as_slice());
    let c = concat(b.as_slice(), suffix.as_slice());
    string_of(c.as_slice())
}

/// What separates words of a title.
pub open spec fn word_sep(c: char) -> bool {
    is_ws(c) || c == '-' || c == '_' || c == ',' || c == '(' || c == ')'
}

/// `str::split` on `word_sep`: the pieces between separators, empty ones included.
pub open spec fn split_words(s: Seq<char>) -> Seq<Seq<char>>
    decreases s.len(),
{
    if s.len() == 0 {
        seq![Seq::empty()]
    } else {
        let p = split_words(s.drop_last());
        if word_sep(s.last()) {
            p.push(Seq::empty())
        } else {
            p.update(p.len() - 1, p.last().push(s.last()))
        }
    }
}

proof fn lemma_split_words_nonempty(s: Seq<char>)
    ensures
        split_words(s).len() >= 1,
    decreases s.len(),
{
    if s.len() > 0 {
        lemma_split_words_nonempty(s.drop_last());
    }
}

/// A word worth counting: two or more characters, not all ASCII digits,
/// not a day counter.
pub open spec fn is_word(w: Seq<char>) -> bool {
    &&& w.len() >= 2
    &&& !all_digits(w)
    &&& !ends_with(w, "일차"@)
}

/// The words of pieces, trimmed, filtered and in NFC, in order.
pub open spec fn words_in(pieces: Seq<Seq<char>>) -> Seq<Seq<char>>
    decreases pieces.len(),
{
    if pieces.len() == 0 {
        Seq::empty()
    } else {
        let rest = words_in(pieces.drop_last());
        let w = trim(pieces.last());
        if is_word(w) {
            rest.push(nfc_of(w))
        } else {
            rest
        }
    }
}

pub open spec fn words_of(title: Seq<char>) -> Seq<Seq<char>> {
    words_in(split_words(title))
}

fn is_word_exec(w: &[char]) -> (r: bool)
    ensures
        r == is_word(w@),
{
    if w.len() < 2 {
        return false;
    }
    let mut all = true;
    let mut i: usize = 0;
    while i < w.len()
        invariant
            i <= w@.len(),
            all == (forall|k: int| 0 <= k < i ==> is_digit(#[trigger] w@[k])),
        decreases w.len() - i,
    {
        if !('0' <= w[i] && w[i] <= '9') {
            all = false;
        }
        i = i + 1;
    }
    let suffix = chars_of("일차");
    !all && !ends_with_chars(w, suffix.as_slice())
}

pub fn words_chars(s: &[char]) -> (r: Vec<Vec<char>>)
    ensures
        r@.len() == words_of(s@).len(),
        forall|k: int| 0 <= k < r@.len() ==> #[trigger] r@[k]@ == words_of(s@)[k],
{
    let mut out: Vec<Vec<char>> = Vec::new();
    let mut cur: Vec<char> = Vec::new();
    let mut i: usize = 0;
    let ghost mut done: Seq<Seq<char>> = Seq::empty();
    proof {
        assert(s@.subrange(0, 0) =~= Seq::<char>::empty());
    }
    while i < s.len()
        invariant
            i <= s@.len(),
            split_words(s@.subrange(0, i as int)) == done.push(cur@),
            out@.len() == words_in(done).len(),
            forall|k: int| 0 <= k < out@.len() ==> #[trigger] out@[k]@ == words_in(done)[k],
        decreases s.len() - i,
    {
        let c = s[i];
        let ghost pre = s@.subrange(0, i as int);
        assert(s@.subrange(0, i + 1).drop_last() =~= pre);
        assert(s@.subrange(0, i + 1).last() == c);
        if is_ws_char(c) || c == '-' || c == '_' || c == ',' || c == '(' || c == ')' {
            let w = trim_chars(cur.as_slice());
            let ghost old_done = done;
            proof {
                done = done.push(cur@);
                assert(done.drop_last() =~= old_done);
            }
            if is_word_exec(w.as_slice()) {
                out.push(nfc_chars(w.as_slice()));
            }
            cur = Vec::new();
            proof {
                assert(split_words(s@.subrange(0, i + 1)) =~= done.push(cur@));
            }
        } else {
            cur.push(c);
            proof {
                assert(split_words(s@.subrange(0, i + 1)) =~= done.push(cur@));
            }
        }
        i = i + 1;
    }
    assert(s@.subrange(0, s@.len() as int) =~= s@);
    let w = trim_chars(cur.as_slice());
    let ghost old_done = done;
    proof {
        done = done.push(cur@);
        assert(done.drop_last() =~= old_done);
    }
    if is_word_exec(w.as_slice()) {
        out.push(nfc_chars(w.as_slice()));
    }
    out
}

/// The words of a title; pieces too short, all digits, or day counters are dropped.
pub fn words(title: &str) -> (r: Vec<String>)
    ensures
        r@.len() == words_of(title@).len(),
        forall|k: int| 0 <= k < r@.len() ==> #[trigger] r@[k]@ == words_of(title@)[k],
{
    let s = chars_of(title);
    let ws = words_chars(s.as_slice());
    let mut out: Vec<String> = Vec::new();
    let mut i: usize = 0;
    while i < ws.len()
        invariant
            i <= ws@.len(),
            ws@.len() == words_of(title@).len(),
            forall|k: int| 0 <= k < ws@.len() ==> #[trigger] ws@[k]@ == words_of(title@)[k],
            out@.len() == i,
            forall|k: int| 0 <= k < i ==> #[trigger] out@[k]@ == words_of(title@)[k],
        decreases ws.len() - i,
    {
        out.push(string_of(ws[i].as_slice()));
        i = i + 1;
    }
    out
}

/// `i64::from_str`: an optional sign, then one or more ASCII digits, in range.
pub open spec fn parse_int(s: Seq<char>) -> Option<int> {
    if s.len() == 0 {
        None
    } else {
        let neg = s[0] == '-';
        let body = if s[0] == '-' || s[0] == '+' {
            s.drop_first()
        } else {
            s
        };
        if body.len() == 0 || !all_digits(body) {
            None
        } else {
            let v: int = if neg {
                -(digits_value(body) as int)
            } else {
                digits_value(body) as int
            };
            if i64::MIN <= v <= i64::MAX {
                Some(v)
            } else {
                None
            }
        }
    }
}

/// `s.get(lo..hi)?.parse::<i64>().ok()`.
pub open spec fn field(s: Seq<char>, lo: nat, hi: nat) -> Option<int> {
    match bytes_range(s, lo, hi) {
        Some(f) => parse_int(f),
        None => None,
    }
}

/// Days since 1970-01-01 of a proleptic Gregorian `(y, m, d)`.
pub open spec fn civil_days(y: int, m: int, d: int) -> int {
    let y2 = if m <= 2 {
        y - 1
    } else {
        y
    };
    let era = y2 / 400;
    let yoe = y2 - era * 400;
    let mp = (m + 9) % 12;
    let doy = (153 * mp + 2) / 5 + d - 1;
    let doe = yoe * 365 + yoe / 4 - yoe / 100 + doy;
    era * 146_097 + doe - 719_468
}

/// The day number of a `YYYY-MM-DD` text, read by byte fields `0..4`,
/// `5..7`, `8..10`; the separators are not looked at.
pub open spec fn day_number(s: Seq<char>) -> Option<int> {
    match (field(s, 0, 4), field(s, 5, 7), field(s, 8, 10)) {
        (Some(y), Some(m), Some(d)) => Some(civil_days(y, m, d)),
        _ => None,
    }
}

/// Whether `b` is the day after `a`.
pub open spec fn previous_day(a: Seq<char>, b: Seq<char>) -> bool {
    match (day_number(a), day_number(b)) {
        (Some(x), Some(y)) => (y as i128) - (x as i128) == 1,
        _ => false,
    }
}

/// Parses a field of at most four characters.
fn parse_small(f: &[char]) -> (r: Option<i64>)
    requires
        f@.len() <= 4,
    ensures
        match r {
            Some(v) => parse_int(f@) == Some(v as int) && -999 <= v <= 9999,
            None => parse_int(f@) is None,
        },
{
    if f.len() == 0 {
        return None;
    }
    let neg = f[0] == '-';
    let body = if f[0] == '-' || f[0] == '+' {
        slice_of(f, 1, f.len())
    } else {
        slice_of(f, 0, f.len())
    };
    proof {
        if f@[0] == '-' || f@[0] == '+' {
            assert(body@ =~= f@.drop_first());
        } else {
            assert(body@ =~= f@);
        }
    }
    assert(body@.len() <= 4);
    if body.len() == 0 {
        return None;
    }
    let mut i: usize = 0;
    while i < body.len()
        invariant
            i <= body@.len(),
            f@.len() > 0,
            (f@[0] == '-' || f@[0] == '+') ==> body@ == f@.drop_first(),
            !(f@[0] == '-' || f@[0] == '+') ==> body@ == f@,
            forall|k: int| 0 <= k < i ==> is_digit(#[trigger] body@[k]),
        decreases body.len() - i,
    {
        if !('0' <= body[i] && body[i] <= '9') {
            assert(!is_digit(body@[i as int]));
            assert(!all_digits(body@));
            return None;
        }
        i = i + 1;
    }
    assert(all_digits(body@));
    proof {
        lemma_small_digits(body@);
    }
    let v = match parse_digits(body.as_slice()) {
        Some(v) => v,
        None => {
            return None;
        },
    };
    if neg {
        Some(-(v as i64))
    } else {
        Some(v as i64)
    }
}

proof fn lemma_small_digits(s: Seq<char>)
    requires
        s.len() <= 4,
        all_digits(s),
    ensures
        digits_value(s) <= 9999,
        s.len() <= 3 ==> digits_value(s) <= 999,
        s.len() <= 2 ==> digits_value(s) <= 99,
        s.len() <= 1 ==> digits_value(s) <= 9,
    decreases s.len(),
{
    if s.len() > 0 {
        let p = s.drop_last();
        assert(all_digits(p)) by {
            assert forall|k: int| 0 <= k < p.len() implies is_digit(#[trigger] p[k]) by {
                assert(p[k] == s[k]);
            }
        }
        lemma_small_digits(p);
        assert(is_digit(s[s.len() - 1]));
        let x = digits_value(p);
        let d = ((s.last() as u32) - 48) as nat;
        assert(d <= 9);
        assert(digits_value(s) == x * 10 + d);
        if s.len() <= 1 {
            assert(x == 0);
        } else if s.len() <= 2 {
            assert(x * 10 + d <= 99) by (nonlinear_arith)
                requires
                    x <= 9,
                    d <= 9,
            ;
        } else if s.len() <= 3 {
            assert(x * 10 + d <= 999) by (nonlinear_arith)
                requires
                    x <= 99,
                    d <= 9,
            ;
        } else {
            assert(x * 10 + d <= 9999) by (nonlinear_arith)
                requires
                    x <= 999,
                    d <= 9,
            ;
        }
    }
}

fn field_exec(s: &[char], lo: usize, hi: usize) -> (r: Option<i64>)
    requires
        lo <= hi,
        hi - lo <= 4,
    ensures
        match r {
            Some(v) => field(s@, lo as nat, hi as nat) == Some(v as int) && -999 <= v <= 9999,
            None => field(s@, lo as nat, hi as nat) is None,
        },
{
    match get_bytes(s, lo, hi) {
        None => None,
        Some(f) => {
            proof {
                lemma_before_bytes_len(s@, lo as nat, hi as nat);
            }
            parse_small(f.as_slice())
        },
    }
}

/// A byte range never holds more characters than bytes.
proof fn lemma_before_bytes_len(s: Seq<char>, lo: nat, hi: nat)
    requires
        lo <= hi,
        bytes_range(s, lo, hi) is Some,
    ensures
        bytes_range(s, lo, hi)->0.len() <= hi - lo,
{
    let r = crate::text::after_bytes(s, lo)->0;
    lemma_before_len(r, (hi - lo) as nat);
}

proof fn lemma_before_len(s: Seq<char>, n: nat)
    requires
        crate::text::before_bytes(s, n) is Some,
    ensures
        crate::text::before_bytes(s, n)->0.len() <= n,
    decreases s.len(),
{
    if n > 0 {
        lemma_before_len(s.drop_first(), (n - crate::text::utf8_width(s[0])) as nat);
    }
}

fn day_number_exec(s: &[char]) -> (r: Option<i64>)
    ensures
        match r {
            Some(v) => day_number(s@) == Some(v as int),
            None => day_number(s@) is None,
        },
{
    let y = match field_exec(s, 0, 4) {
        Some(v) => v,
        None => return None,
    };
    let m = match field_exec(s, 5, 7) {
        Some(v) => v,
        None => return None,
    };
    let d = match field_exec(s, 8, 10) {
        Some(v) => v,
        None => return None,
    };
    proof {
        assert(-9 <= m <= 99 && -9 <= d <= 99) by {
            lemma_before_bytes_len(s@, 5, 7);
            lemma_before_bytes_len(s@, 8, 10);
            let fm = bytes_range(s@, 5, 7)->0;
            let fd = bytes_range(s@, 8, 10)->0;
            lemma_field_small(fm);
            lemma_field_small(fd);
        }
    }
    let y2 = if m <= 2 {
        y - 1
    } else {
        y
    };
    let era = if y2 >= 0 {
        y2 / 400
    } else {
        -((-y2 + 399) / 400)
    };
    proof {
        let yi = y2 as int;
        if y2 < 0 {
            let q = (-yi + 399) / 400;
            assert(q * 400 <= -yi + 399 < q * 400 + 400) by (nonlinear_arith)
                requires
                    q == (-yi + 399) / 400,
                    -yi + 399 >= 0,
            ;
            assert(yi == (-q) * 400 + (yi + q * 400));
            assert(0 <= yi + q * 400 < 400);
            vstd::arithmetic::div_mod::lemma_fundamental_div_mod_converse(yi, 400, -q, yi + q * 400);
        }
    }
    let yoe = y2 - era * 400;
    let mp = (m + 9) % 12;
    let doy = (153 * mp + 2) / 5 + d - 1;
    let doe = yoe * 365 + yoe / 4 - yoe / 100 + doy;
    let r = era * 146_097 + doe - 719_468;
    proof {
        assert(era as int == (y2 as int) / 400);
        vstd::arithmetic::div_mod::lemma_fundamental_div_mod(y2 as int, 400);
        assert(0 <= yoe < 400);
        assert(0 <= m + 9);
    }
    Some(r)
}

/// A field of at most two characters lies in `-9..=99`.
proof fn lemma_field_small(f: Seq<char>)
    requires
        f.len() <= 2,
        parse_int(f) is Some,
    ensures
        -9 <= parse_int(f)->0 <= 99,
{
    let body = if f[0] == '-' || f[0] == '+' {
        f.drop_first()
    } else {
        f
    };
    lemma_small_digits(body);
}

/// Whether `b` is the day after `a`, both read as `YYYY-MM-DD`.
pub fn is_previous_day(a: &str, b: &str) -> (r: bool)
    ensures
        r == previous_day(a@, b@),
{
    let sa = chars_of(a);
    let sb = chars_of(b);
    match (day_number_exec(sa.as_slice()), day_number_exec(sb.as_slice())) {
        (Some(x), Some(y)) => (y as i128) - (x as i128) == 1,
        _ => false,
    }
}


/// The view of a suggestion: title, reason and score.
pub open spec fn suggestion_view(s: Suggestion) -> (Seq<char>, Seq<char>, int) {
    (s.title@, s.why@, s.score as int)
}

/// Whether suggestion `j` is the one kept for its title: the title is not
/// empty, no suggestion with that title scores higher, and none with the
/// same score comes earlier.
pub open spec fn kept_best(all: Seq<Suggestion>, j: int) -> bool {
    &&& 0 <= j < all.len()
    &&& all[j].title@.len() > 0
    &&& forall|m: int|
        0 <= m < all.len() && #[trigger] all[m].title@ == all[j].title@ ==> all[m].score < all[j].score || (
        all[m].score == all[j].score && m >= j)
}

/// The ranking key of a suggestion: its title and score.
pub open spec fn rank_key(s: Suggestion) -> (Seq<char>, int) {
    (s.title@, s.score as int)
}

/// Whether `s` is a copy of a suggestion kept for its title.
pub open spec fn comes_from_best(all: Seq<Suggestion>, s: Suggestion) -> bool {
    exists|j: int| kept_best(all, j) && suggestion_view(s) == suggestion_view(all[j])
}

/// The ranking of suggestions: one per non-empty title (the best scoring,
/// the earliest on a tie), highest score first and then by title, at most
/// `limit` of them.
pub open spec fn ranked(all: Seq<Suggestion>, limit: nat, r: Seq<Suggestion>) -> bool {
    &&& r.len() <= limit
    &&& forall|i: int| 0 <= i < r.len() ==> comes_from_best(all, #[trigger] r[i])
    &&& forall|i: int, j: int| 0 <= i < j < r.len() ==> crate::top::ahead(rank_key(#[trigger] r[i]), rank_key(#[trigger] r[j]))
    &&& forall|j: int|
        #[trigger] kept_best(all, j) && !(exists|i: int| 0 <= i < r.len() && r[i].title@ == all[j].title@) ==> r.len()
            == limit && forall|i: int| 0 <= i < r.len() ==> crate::top::ahead(rank_key(r[i]), rank_key(all[j]))
}

fn copy_suggestion(s: &Suggestion) -> (r: Suggestion)
    ensures
        suggestion_view(r) == suggestion_view(*s),
{
    Suggestion {
        title: string_of(chars_of(s.title.as_str()).as_slice()),
        why: string_of(chars_of(s.why.as_str()).as_slice()),
        score: s.score,
    }
}

/// Gathers suggestions and orders them by score; a title appears once.
#[verifier::spinoff_prover]
#[verifier::rlimit(40)]
pub fn rank(all: Vec<Suggestion>, limit: usize) -> (r: Vec<Suggestion>)
    ensures
        ranked(all@, limit as nat, r@),
{
    let ghost a = all@;
    // the best suggestion of each title: its title, its score, where it is
    let mut pool: Vec<(Vec<char>, i64)> = Vec::new();
    let mut src: Vec<usize> = Vec::new();
    let mut i: usize = 0;
    while i < all.len()
        invariant
            a == all@,
            i <= a.len(),
            pool@.len() == src@.len(),
            crate::top::distinct_texts(crate::top::pool_view(pool@)),
            forall|p: int| 0 <= p < src@.len() ==> #[trigger] src@[p] < i,
            forall|p: int|
                0 <= p < pool@.len() ==> #[trigger] pool@[p].0@ == a[src@[p] as int].title@ && pool@[p].1 == a[src@[p] as int].score as i64,
            forall|p: int|
                0 <= p < src@.len() ==> a[#[trigger] src@[p] as int].title@.len() > 0 && forall|m: int|
                    0 <= m < i && #[trigger] a[m].title@ == a[src@[p] as int].title@ ==> a[m].score < a[src@[p] as int].score
                        || (a[m].score == a[src@[p] as int].score && m >= src@[p]),
            forall|m: int|
                0 <= m < i && #[trigger] a[m].title@.len() > 0 ==> exists|p: int| 0 <= p < src@.len() && pool@[p].0@ == a[m].title@,
        decreases a.len() - i,
    {
        let t = chars_of(all[i].title.as_str());
        let sc = all[i].score;
        if t.len() > 0 {
            let mut p: usize = 0;
            let mut at: Option<usize> = None;
            while p < pool.len()
                invariant
                    p <= pool@.len(),
                    a == all@,
                    i < a.len(),
                    t@ == a[i as int].title@,
                    at matches Some(w) ==> w < pool@.len() && pool@[w as int].0@ == t@,
                    at is None ==> forall|q: int| 0 <= q < p ==> pool@[q].0@ != t@,
                decreases pool.len() - p,
            {
                if at.is_none() && crate::text::chars_eq(pool[p].0.as_slice(), t.as_slice()) {
                    at = Some(p);
                }
                p = p + 1;
            }
            match at {
                Some(w) => {
                    if (sc as i64) > pool[w].1 {
                        let ghost old_pool = pool@;
                        let ghost old_src = src@;
                        let tc = chars_of(all[i].title.as_str());
                        pool.set(w, (tc, sc as i64));
                        src.set(w, i);
                        proof {
                            assert(crate::top::pool_view(pool@) =~= crate::top::pool_view(old_pool).update(
                                w as int,
                                (t@, sc as int),
                            ));
                            assert forall|x: int, y: int| 0 <= x < y < pool@.len() implies #[trigger] crate::top::pool_view(pool@)[x].0 != #[trigger] crate::top::pool_view(pool@)[y].0 by {
                                assert(crate::top::pool_view(old_pool)[x].0 == old_pool[x].0@);
                                assert(crate::top::pool_view(old_pool)[y].0 == old_pool[y].0@);
                            }
                            assert forall|q: int|
                                0 <= q < src@.len() implies a[#[trigger] src@[q] as int].title@.len() > 0 && forall|m: int|
                                    0 <= m < i + 1 && #[trigger] a[m].title@ == a[src@[q] as int].title@ ==> a[m].score
                                        < a[src@[q] as int].score || (a[m].score == a[src@[q] as int].score && m
                                        >= src@[q]) by {
                                if q == w as int {
                                    assert forall|m: int|
                                        0 <= m < i + 1 && #[trigger] a[m].title@ == a[i as int].title@ implies a[m].score
                                            < a[i as int].score || (a[m].score == a[i as int].score && m >= i) by {
                                        if m < i {
                                            assert(a[m].title@ == a[old_src[q] as int].title@);
                                        }
                                    }
                                } else {
                                    assert(src@[q] == old_src[q]);
                                    assert forall|m: int|
                                        0 <= m < i + 1 && #[trigger] a[m].title@ == a[src@[q] as int].title@ implies a[m].score
                                            < a[src@[q] as int].score || (a[m].score == a[src@[q] as int].score && m
                                            >= src@[q]) by {
                                        if m == i {
                                            assert(pool@[w as int].0@ == t@);
                                            assert(old_pool[q].0@ == a[old_src[q] as int].title@);
                                            assert(crate::top::pool_view(old_pool)[q].0 != crate::top::pool_view(old_pool)[w as int].0 || q == w);
                                        }
                                    }
                                }
                            }
                            assert forall|m: int|
                                0 <= m < i + 1 && #[trigger] a[m].title@.len() > 0 implies exists|p: int|
                                    0 <= p < src@.len() && pool@[p].0@ == a[m].title@ by {
                                if m < i {
                                    let p = choose|p: int| 0 <= p < old_src.len() && old_pool[p].0@ == a[m].title@;
                                    if p != w as int {
                                        assert(pool@[p] == old_pool[p]);
                                    } else {
                                        assert(pool@[p].0@ == t@);
                                    }
                                } else {
                                    assert(pool@[w as int].0@ == a[m].title@);
                                }
                            }
                        }
                    } else {
                        proof {
                            assert forall|q: int|
                                0 <= q < src@.len() implies a[#[trigger] src@[q] as int].title@.len() > 0 && forall|m: int|
                                    0 <= m < i + 1 && #[trigger] a[m].title@ == a[src@[q] as int].title@ ==> a[m].score
                                        < a[src@[q] as int].score || (a[m].score == a[src@[q] as int].score && m
                                        >= src@[q]) by {
                                assert forall|m: int|
                                    0 <= m < i + 1 && #[trigger] a[m].title@ == a[src@[q] as int].title@ implies a[m].score
                                        < a[src@[q] as int].score || (a[m].score == a[src@[q] as int].score && m
                                        >= src@[q]) by {
                                    if m == i && q != w as int {
                                        assert(crate::top::pool_view(pool@)[q].0 == pool@[q].0@);
                                        assert(crate::top::pool_view(pool@)[w as int].0 == pool@[w as int].0@);
                                        assert(crate::top::pool_view(pool@)[q].0 != crate::top::pool_view(pool@)[w as int].0 || q == w);
                                    }
                                }
                            }
                            assert forall|m: int|
                                0 <= m < i + 1 && #[trigger] a[m].title@.len() > 0 implies exists|p: int|
                                    0 <= p < src@.len() && pool@[p].0@ == a[m].title@ by {
                                if m == i {
                                    assert(pool@[w as int].0@ == a[m].title@);
                                }
                            }
                        }
                    }
                },
                None => {
                    let ghost old_pool = pool@;
                    let ghost old_src = src@;
                    let tc = chars_of(all[i].title.as_str());
                    pool.push((tc, sc as i64));
                    src.push(i);
                    proof {
                        assert(crate::top::pool_view(pool@) =~= crate::top::pool_view(old_pool).push((t@, sc as int)));
                        assert forall|x: int, y: int| 0 <= x < y < pool@.len() implies #[trigger] crate::top::pool_view(pool@)[x].0 != #[trigger] crate::top::pool_view(pool@)[y].0 by {
                            assert(crate::top::pool_view(pool@)[x].0 == pool@[x].0@);
                            assert(crate::top::pool_view(pool@)[y].0 == pool@[y].0@);
                            if y == old_pool.len() {
                                assert(old_pool[x].0@ != t@);
                            } else {
                                assert(crate::top::pool_view(old_pool)[x].0 == old_pool[x].0@);
                                assert(crate::top::pool_view(old_pool)[y].0 == old_pool[y].0@);
                            }
                        }
                        assert forall|q: int|
                            0 <= q < src@.len() implies a[#[trigger] src@[q] as int].title@.len() > 0 && forall|m: int|
                                0 <= m < i + 1 && #[trigger] a[m].title@ == a[src@[q] as int].title@ ==> a[m].score
                                    < a[src@[q] as int].score || (a[m].score == a[src@[q] as int].score && m >= src@[q]) by {
                            if q < old_src.len() {
                                assert(src@[q] == old_src[q]);
                                assert forall|m: int|
                                    0 <= m < i + 1 && #[trigger] a[m].title@ == a[src@[q] as int].title@ implies a[m].score
                                        < a[src@[q] as int].score || (a[m].score == a[src@[q] as int].score && m
                                        >= src@[q]) by {
                                    if m == i {
                                        assert(old_pool[q].0@ == a[old_src[q] as int].title@);
                                    }
                                }
                            } else {
                                assert forall|m: int|
                                    0 <= m < i + 1 && #[trigger] a[m].title@ == a[i as int].title@ implies a[m].score
                                        < a[i as int].score || (a[m].score == a[i as int].score && m >= i) by {
                                    if m < i {
                                        let p = choose|p: int| 0 <= p < old_src.len() && old_pool[p].0@ == a[m].title@;
                                    }
                                }
                            }
                        }
                        assert forall|m: int|
                            0 <= m < i + 1 && #[trigger] a[m].title@.len() > 0 implies exists|p: int|
                                0 <= p < src@.len() && pool@[p].0@ == a[m].title@ by {
                            if m < i {
                                let p = choose|p: int| 0 <= p < old_src.len() && old_pool[p].0@ == a[m].title@;
                                assert(pool@[p] == old_pool[p]);
                            } else {
                                assert(pool@[old_pool.len() as int].0@ == a[m].title@);
                            }
                        }
                    }
                },
            }
        }
        i = i + 1;
    }
    let ghost pv = crate::top::pool_view(pool@);
    proof {
        assert forall|p: int| 0 <= p < src@.len() implies #[trigger] kept_best(a, src@[p] as int) && pv[p]
            == rank_key(a[src@[p] as int]) by {
            assert(pv[p] == (pool@[p].0@, pool@[p].1 as int));
        }
    }
    let order = crate::top::top(pool.as_slice(), limit);
    let mut out: Vec<Suggestion> = Vec::new();
    let mut k: usize = 0;
    while k < order.len()
        invariant
            k <= order@.len(),
            a == all@,
            out@.len() == k,
            crate::top::is_top(pv, limit as int, order@),
            pv == crate::top::pool_view(pool@),
            pool@.len() == src@.len(),
            forall|q: int| 0 <= q < k ==> suggestion_view(#[trigger] out@[q]) == suggestion_view(a[src@[order@[q] as int] as int]),
            forall|p: int| 0 <= p < src@.len() ==> #[trigger] kept_best(a, src@[p] as int) && pv[p] == rank_key(a[src@[p] as int]),
            forall|p: int| 0 <= p < src@.len() ==> #[trigger] src@[p] < a.len(),
        decreases order.len() - k,
    {
        let w = order[k];
        assert(w < pool@.len());
        assert(kept_best(a, src@[w as int] as int));
        let sidx = src[w];
        let c = copy_suggestion(&all[sidx]);
        let ghost before = out@;
        out.push(c);
        assert(out@[k as int] == c);
        assert forall|q: int| 0 <= q < k + 1 implies suggestion_view(#[trigger] out@[q]) == suggestion_view(a[src@[order@[q] as int] as int]) by {
            if q < k {
                assert(out@[q] == before[q]);
            }
        }
        k = k + 1;
    }
    proof {
        let r = out@;
        assert forall|i: int| 0 <= i < r.len() implies comes_from_best(a, #[trigger] r[i]) by {
            let p = order@[i] as int;
            assert(kept_best(a, src@[p] as int));
            assert(suggestion_view(r[i]) == suggestion_view(a[src@[p] as int]));
        }
        assert forall|i: int, j: int| 0 <= i < j < r.len() implies crate::top::ahead(
            rank_key(#[trigger] r[i]),
            rank_key(#[trigger] r[j]),
        ) by {
            let p = order@[i] as int;
            let q = order@[j] as int;
            assert(kept_best(a, src@[p] as int));
            assert(kept_best(a, src@[q] as int));
            assert(rank_key(r[i]) == pv[p]);
            assert(rank_key(r[j]) == pv[q]);
        }
        assert forall|j: int|
            #[trigger] kept_best(a, j) && !(exists|i: int| 0 <= i < r.len() && r[i].title@ == a[j].title@) implies r.len()
                == limit && forall|i: int| 0 <= i < r.len() ==> crate::top::ahead(rank_key(r[i]), rank_key(a[j])) by {
            let p = choose|p: int| 0 <= p < src@.len() && pool@[p].0@ == a[j].title@;
            let s = src@[p] as int;
            assert(kept_best(a, s));
            assert(a[s].title@ == a[j].title@);
            assert(s == j);
            if order@.contains(p as usize) {
                let i = choose|i: int| 0 <= i < order@.len() && order@[i] == p as usize;
                assert(r[i].title@ == a[j].title@);
            }
            assert forall|i: int| 0 <= i < r.len() implies crate::top::ahead(rank_key(r[i]), rank_key(a[j])) by {
                let q = order@[i] as int;
                assert(kept_best(a, src@[q] as int));
                assert(rank_key(r[i]) == pv[q]);
                assert(pv[p] == rank_key(a[j]));
            }
        }
        }
    out
}


/// The nearby-place proposal of an earlier folder, when it and the chosen
/// photos lie within 3 km of each other: its score (90 less ten per km)
/// and its reason, which the distance is written into.
#[derive(Debug, Clone)]
pub struct Near {
    pub score: i32,
    pub why: String,
}

/// What is known of an earlier folder: the date and title of its name and
/// its nearby-place proposal, if any.
#[derive(Debug, Clone)]
pub struct KnownFolder {
    pub date: Option<String>,
    pub title: String,
    pub near: Option<Near>,
}

pub type SuggestionView = (Seq<char>, Seq<char>, int);

/// The month and day of a `YYYY-MM-DD` date: what follows its first five bytes.
pub open spec fn month_day(date: Seq<char>) -> Seq<char> {
    match crate::text::after_bytes(date, 5) {
        Some(x) => x,
        None => Seq::empty(),
    }
}

/// Whether an earlier folder's date falls on the same day of another year.
pub open spec fn same_day_other_year(d: Seq<char>, date: Seq<char>) -> bool {
    d != date && crate::text::after_bytes(d, 5) == Some(month_day(date))
}

/// The proposals an earlier folder with a title makes for photos of `date`:
/// its title again when its date falls on the same day of another year
/// (score 100); the next day of its trip when its date is the day before
/// (score 120); its title when it lies nearby.
pub open spec fn folder_candidates(date: Seq<char>, k: KnownFolder) -> Seq<SuggestionView> {
    if k.title@.len() == 0 {
        Seq::empty()
    } else {
        let dated = match k.date {
            Some(d) => (if same_day_other_year(d@, date) {
                seq![
                    (
                        k.title@,
                        match bytes_range(d@, 0, 4) {
                            Some(y) => y,
                            None => Seq::empty(),
                        } + "에도 이 이름을 썼습니다"@,
                        100int,
                    ),
                ]
            } else {
                Seq::empty()
            }) + (if previous_day(d@, date) {
                seq![(next_day_of(k.title@), "어제 「"@ + k.title@ + "」에서 이어집니다"@, 120int)]
            } else {
                Seq::empty()
            }),
            None => Seq::empty(),
        };
        dated + match k.near {
            Some(n) => seq![(k.title@, n.why@, n.score as int)],
            None => Seq::empty(),
        }
    }
}

/// The proposals of the first `n` folders, in order.
pub open spec fn candidates_of(date: Seq<char>, folders: Seq<KnownFolder>, n: int) -> Seq<SuggestionView>
    decreases n,
{
    if n <= 0 {
        Seq::empty()
    } else {
        candidates_of(date, folders, n - 1) + folder_candidates(date, folders[n - 1])
    }
}

/// The words of the titles of the dated folders among the first `n`: dated
/// folders are events a person named, unlike folders a tool made.
pub open spec fn dated_words(folders: Seq<KnownFolder>, n: int) -> Seq<Seq<char>>
    decreases n,
{
    if n <= 0 {
        Seq::empty()
    } else {
        dated_words(folders, n - 1) + if folders[n - 1].date is Some {
            words_of(folders[n - 1].title@)
        } else {
            Seq::empty()
        }
    }
}

/// The proposal of a word used `n` times.
pub open spec fn word_view(p: (Seq<char>, int)) -> SuggestionView {
    (p.0, decimal(p.1 as nat) + "번 쓴 낱말"@, 10int)
}

/// Whether a folder's proposals can be made: its year can be cut from a
/// date that falls on the same day, and its day counter can grow.
pub open spec fn proposable(date: Seq<char>, k: KnownFolder) -> bool {
    k.title@.len() > 0 ==> match k.date {
        Some(d) => (same_day_other_year(d@, date) ==> bytes_range(d@, 0, 4) is Some) && (previous_day(d@, date)
            ==> day_suffix_of(k.title@).1 != Some(u32::MAX)),
        None => true,
    }
}

/// The suggestions of `limit` names for photos taken first on `date`
/// (none without photos) from the folders named before: the proposals of
/// every folder, and the eight most used words of dated folders used three
/// times or more, ranked.
pub open spec fn suggest_holds(date: Option<Seq<char>>, folders: Seq<KnownFolder>, limit: nat, r: Seq<Suggestion>) -> bool {
    match date {
        None => r.len() == 0,
        Some(day) => exists|all: Seq<Suggestion>, wp: Seq<(Seq<char>, int)>|
            crate::top::common_hold(dated_words(folders, folders.len() as int), 3, 8, wp)
                && all.map_values(|s: Suggestion| suggestion_view(s)) == candidates_of(day, folders, folders.len() as int)
                + wp.map_values(|p: (Seq<char>, int)| word_view(p)) && ranked(all, limit, r),
    }
}

fn lit(s: &str) -> (r: String)
    ensures
        r@ == s@,
{
    string_of(chars_of(s).as_slice())
}

fn push_view(out: &mut Vec<Suggestion>, s: Suggestion, Ghost(v): Ghost<SuggestionView>)
    requires
        suggestion_view(s) == v,
    ensures
        final(out)@.map_values(|x: Suggestion| suggestion_view(x)) == old(out)@.map_values(|x: Suggestion| suggestion_view(x)).push(v),
{
    let ghost before = out@;
    out.push(s);
    assert(out@.map_values(|x: Suggestion| suggestion_view(x)) =~= before.map_values(|x: Suggestion| suggestion_view(x)).push(v));
}

/// Name suggestions for photos taken first on `date`, from the folders
/// named before.
pub fn suggest(date: Option<&str>, folders: &[KnownFolder], limit: usize) -> (r: Vec<Suggestion>)
    requires
        date matches Some(d) ==> forall|i: int| 0 <= i < folders@.len() ==> proposable(d@, #[trigger] folders@[i]),
        dated_words(folders@, folders@.len() as int).len() <= i32::MAX,
    ensures
        suggest_holds(
            match date {
                Some(d) => Some(d@),
                None => None,
            },
            folders@,
            limit as nat,
            r@,
        ),
{
    let day = match date {
        None => return Vec::new(),
        Some(d) => d,
    };
    let dc = chars_of(day);
    let md = match crate::text::get_bytes_from(dc.as_slice(), 5) {
        Some(x) => x,
        None => Vec::new(),
    };
    let mut all: Vec<Suggestion> = Vec::new();
    let mut i: usize = 0;
    while i < folders.len()
        invariant
            i <= folders@.len(),
            dc@ == day@,
            md@ == month_day(day@),
            forall|q: int| 0 <= q < folders@.len() ==> proposable(day@, #[trigger] folders@[q]),
            all@.map_values(|x: Suggestion| suggestion_view(x)) == candidates_of(day@, folders@, i as int),
        decreases folders.len() - i,
    {
        let k = &folders[i];
        let ghost before = all@.map_values(|x: Suggestion| suggestion_view(x));
        assert(proposable(day@, folders@[i as int]));
        let tc = chars_of(k.title.as_str());
        if tc.len() > 0 {
            match &k.date {
                Some(d) => {
                    let d_c = chars_of(d.as_str());
                    let same = !crate::text::chars_eq(d_c.as_slice(), dc.as_slice()) && match crate::text::get_bytes_from(d_c.as_slice(), 5) {
                        Some(x) => crate::text::chars_eq(x.as_slice(), md.as_slice()),
                        None => false,
                    };
                    if same {
                        let y = match get_bytes(d_c.as_slice(), 0, 4) {
                            Some(y) => y,
                            None => Vec::new(),
                        };
                        let tail = chars_of("에도 이 이름을 썼습니다");
                        let why = concat(y.as_slice(), tail.as_slice());
                        let ghost v = (k.title@, why@, 100int);
                        push_view(&mut all, Suggestion { title: lit(k.title.as_str()), why: string_of(why.as_slice()), score: 100 }, Ghost(v));
                    }
                    if is_previous_day(d.as_str(), day) {
                        let t = next_day(k.title.as_str());
                        let a = chars_of("어제 「");
                        let b = chars_of("」에서 이어집니다");
                        let w1 = concat(a.as_slice(), tc.as_slice());
                        let why = concat(w1.as_slice(), b.as_slice());
                        let ghost v = (next_day_of(k.title@), why@, 120int);
                        push_view(&mut all, Suggestion { title: t, why: string_of(why.as_slice()), score: 120 }, Ghost(v));
                    }
                },
                None => {},
            }
            match &k.near {
                Some(n) => {
                    let ghost v = (k.title@, n.why@, n.score as int);
                    push_view(&mut all, Suggestion { title: lit(k.title.as_str()), why: lit(n.why.as_str()), score: n.score }, Ghost(v));
                },
                None => {},
            }
        }
        proof {
            assert(all@.map_values(|x: Suggestion| suggestion_view(x)) =~= before + folder_candidates(day@, folders@[i as int]));
        }
        i = i + 1;
    }
    let mut keys: Vec<Vec<char>> = Vec::new();
    let mut j: usize = 0;
    while j < folders.len()
        invariant
            j <= folders@.len(),
            crate::order::texts_of(keys@) == dated_words(folders@, j as int),
        decreases folders.len() - j,
    {
        if folders[j].date.is_some() {
            let tc = chars_of(folders[j].title.as_str());
            let ws = words_chars(tc.as_slice());
            let ghost before = crate::order::texts_of(keys@);
            let mut q: usize = 0;
            while q < ws.len()
                invariant
                    q <= ws@.len(),
                    ws@.len() == words_of(folders@[j as int].title@).len(),
                    forall|x: int| 0 <= x < ws@.len() ==> #[trigger] ws@[x]@ == words_of(folders@[j as int].title@)[x],
                    crate::order::texts_of(keys@) == before + words_of(folders@[j as int].title@).subrange(0, q as int),
                decreases ws.len() - q,
            {
                let ghost b2 = crate::order::texts_of(keys@);
                let w = slice_of(ws[q].as_slice(), 0, ws[q].len());
                assert(w@ =~= ws@[q as int]@);
                keys.push(w);
                assert(crate::order::texts_of(keys@) =~= b2.push(ws@[q as int]@));
                q = q + 1;
                assert(words_of(folders@[j as int].title@).subrange(0, q as int) =~= words_of(folders@[j as int].title@).subrange(0, q - 1).push(words_of(folders@[j as int].title@)[q - 1]));
            }
            assert(words_of(folders@[j as int].title@).subrange(0, ws@.len() as int) =~= words_of(folders@[j as int].title@));
        }
        j = j + 1;
    }
    let common = crate::top::most_common(keys.as_slice(), 3, 8);
    let ghost cands = all@.map_values(|x: Suggestion| suggestion_view(x));
    let mut c: usize = 0;
    while c < common.len()
        invariant
            c <= common@.len(),
            forall|q: int| 0 <= q < common@.len() ==> 1 <= #[trigger] common@[q].1 <= keys@.len() <= i32::MAX,
            all@.map_values(|x: Suggestion| suggestion_view(x)) == cands + crate::top::pool_view(common@).subrange(0, c as int).map_values(|p: (Seq<char>, int)| word_view(p)),
        decreases common.len() - c,
    {
        let n = common[c].1;
        let num = decimal_of(n as u64);
        let tail = chars_of("번 쓴 낱말");
        let why = concat(num.as_slice(), tail.as_slice());
        let ghost v = word_view(crate::top::pool_view(common@)[c as int]);
        assert(crate::top::pool_view(common@)[c as int] == (common@[c as int].0@, common@[c as int].1 as int));
        let ghost before = all@.map_values(|x: Suggestion| suggestion_view(x));
        push_view(&mut all, Suggestion { title: string_of(common[c].0.as_slice()), why: string_of(why.as_slice()), score: 10 }, Ghost(v));
        c = c + 1;
        assert(crate::top::pool_view(common@).subrange(0, c as int) =~= crate::top::pool_view(common@).subrange(0, c - 1).push(crate::top::pool_view(common@)[c - 1]));
        assert(all@.map_values(|x: Suggestion| suggestion_view(x)) =~= cands + crate::top::pool_view(common@).subrange(0, c as int).map_values(|p: (Seq<char>, int)| word_view(p)));
    }
    assert(crate::top::pool_view(common@).subrange(0, common@.len() as int) =~= crate::top::pool_view(common@));
    let ghost all_v = all@;
    let r = rank(all, limit);
    proof {
        assert(crate::top::common_hold(dated_words(folders@, folders@.len() as int), 3, 8, crate::top::pool_view(common@)));
    }
    r
}

proof fn lemma_no_dated_words(folders: Seq<KnownFolder>, n: int)
    requires
        0 <= n <= folders.len(),
        forall|i: int| 0 <= i < folders.len() ==> (#[trigger] folders[i]).date is None,
    ensures
        dated_words(folders, n) == Seq::<Seq<char>>::empty(),
    decreases n,
{
    if n > 0 {
        lemma_no_dated_words(folders, n - 1);
        assert(folders[n - 1].date is None);
        assert(dated_words(folders, n) =~= dated_words(folders, n - 1));
    }
}

proof fn lemma_undated_candidates(day: Seq<char>, folders: Seq<KnownFolder>, n: int)
    requires
        0 <= n <= folders.len(),
        forall|i: int| 0 <= i < folders.len() ==> (#[trigger] folders[i]).date is None,
    ensures
        forall|x: SuggestionView| #[trigger] candidates_of(day, folders, n).contains(x) ==> exists|k: int|
            0 <= k < n && (#[trigger] folders[k]).near is Some && x == (folders[k].title@, folders[k].near->0.why@,
            folders[k].near->0.score as int),
    decreases n,
{
    if n > 0 {
        lemma_undated_candidates(day, folders, n - 1);
        let pre = candidates_of(day, folders, n - 1);
        let k = folders[n - 1];
        assert(k.date is None);
        let own = folder_candidates(day, k);
        assert forall|x: SuggestionView| #[trigger] candidates_of(day, folders, n).contains(x) implies exists|q: int|
            0 <= q < n && (#[trigger] folders[q]).near is Some && x == (folders[q].title@, folders[q].near->0.why@,
            folders[q].near->0.score as int) by {
            let c = candidates_of(day, folders, n);
            assert(c == pre + own);
            let idx = choose|idx: int| 0 <= idx < c.len() && c[idx] == x;
            if idx < pre.len() {
                assert(pre[idx] == x);
                assert(pre.contains(x));
            } else {
                assert(own[idx - pre.len()] == x);
                assert(own =~= (if k.title@.len() == 0 {
                    Seq::empty()
                } else {
                    match k.near {
                        Some(nn) => seq![(k.title@, nn.why@, nn.score as int)],
                        None => Seq::empty(),
                    }
                }));
                assert(folders[n - 1] == k);
            }
        }
    }
}

/// Whether a suggestion is one earlier folder's own nearby-place proposal:
/// that folder's title, with the proposal's reason and score.
pub open spec fn nearby_proposal(folders: Seq<KnownFolder>, s: Suggestion) -> bool {
    exists|k: int|
        0 <= k < folders.len() && (#[trigger] folders[k]).near is Some && s.title@ == folders[k].title@ && s.why@
            == folders[k].near->0.why@ && s.score == folders[k].near->0.score
}

/// Words are counted over dated folders only, since folders without a date
/// are the ones a tool made: when no earlier folder has a date, every
/// suggestion is one earlier folder's own nearby-place proposal (its title,
/// with that proposal's reason and score), and no word is suggested.
pub proof fn lemma_undated_folders_suggest_no_words(
    day: Seq<char>,
    folders: Seq<KnownFolder>,
    limit: nat,
    r: Seq<Suggestion>,
)
    requires
        forall|i: int| 0 <= i < folders.len() ==> (#[trigger] folders[i]).date is None,
        suggest_holds(Some(day), folders, limit, r),
    ensures
        forall|i: int| 0 <= i < r.len() ==> nearby_proposal(folders, #[trigger] r[i]),
{
    let n = folders.len() as int;
    let (all, wp) = choose|all: Seq<Suggestion>, wp: Seq<(Seq<char>, int)>|
        crate::top::common_hold(dated_words(folders, n), 3, 8, wp)
            && all.map_values(|s: Suggestion| suggestion_view(s)) == candidates_of(day, folders, n)
            + wp.map_values(|p: (Seq<char>, int)| word_view(p)) && ranked(all, limit, r);
    lemma_no_dated_words(folders, n);
    lemma_no_common_words(dated_words(folders, n), wp);
    let cands = candidates_of(day, folders, n);
    assert(wp.map_values(|p: (Seq<char>, int)| word_view(p)) =~= Seq::<SuggestionView>::empty());
    assert(cands + Seq::<SuggestionView>::empty() =~= cands);
    lemma_ranked_from(all, limit, r, cands);
    lemma_undated_candidates(day, folders, n);
    lemma_views_from_near(folders, r, cands);
}

proof fn lemma_views_from_near(folders: Seq<KnownFolder>, r: Seq<Suggestion>, cands: Seq<SuggestionView>)
    requires
        forall|i: int| 0 <= i < r.len() ==> cands.contains(suggestion_view(#[trigger] r[i])),
        forall|x: SuggestionView| #[trigger] cands.contains(x) ==> exists|k: int|
            0 <= k < folders.len() && (#[trigger] folders[k]).near is Some && x == (folders[k].title@,
            folders[k].near->0.why@, folders[k].near->0.score as int),
    ensures
        forall|i: int| 0 <= i < r.len() ==> nearby_proposal(folders, #[trigger] r[i]),
{
    assert forall|i: int| 0 <= i < r.len() implies nearby_proposal(folders, #[trigger] r[i]) by {
        let x = suggestion_view(r[i]);
        assert(cands.contains(x));
        let k = choose|k: int| 0 <= k < folders.len() && (#[trigger] folders[k]).near is Some && x == (
            folders[k].title@, folders[k].near->0.why@, folders[k].near->0.score as int);
        assert(folders[k].near is Some);
        assert(r[i].score == folders[k].near->0.score);
    }
}

proof fn lemma_no_common_words(keys: Seq<Seq<char>>, wp: Seq<(Seq<char>, int)>)
    requires
        keys.len() == 0,
        crate::top::common_hold(keys, 3, 8, wp),
    ensures
        wp.len() == 0,
{
    if wp.len() > 0 {
        assert(wp[0].1 >= 3);
        assert(keys.contains(wp[0].0));
    }
}

proof fn lemma_ranked_from(all: Seq<Suggestion>, limit: nat, r: Seq<Suggestion>, cands: Seq<SuggestionView>)
    requires
        ranked(all, limit, r),
        all.map_values(|s: Suggestion| suggestion_view(s)) == cands,
    ensures
        forall|i: int| 0 <= i < r.len() ==> cands.contains(suggestion_view(#[trigger] r[i])),
{
    assert forall|i: int| 0 <= i < r.len() implies cands.contains(suggestion_view(#[trigger] r[i])) by {
        assert(comes_from_best(all, r[i]));
        let j = choose|j: int| kept_best(all, j) && suggestion_view(r[i]) == suggestion_view(all[j]);
        assert(all.map_values(|s: Suggestion| suggestion_view(s))[j] == suggestion_view(all[j]));
        assert(cands[j] == suggestion_view(r[i]));
    }
}

proof fn lemma_prefix_candidates(day: Seq<char>, folders: Seq<KnownFolder>, f: KnownFolder, n: int)
    requires
        0 <= n <= folders.len(),
    ensures
        candidates_of(day, folders.push(f), n) == candidates_of(day, folders, n),
        dated_words(folders.push(f), n) == dated_words(folders, n),
    decreases n,
{
    if n > 0 {
        lemma_prefix_candidates(day, folders, f, n - 1);
        assert(folders.push(f)[n - 1] == folders[n - 1]);
    }
}

/// One more earlier folder without a date and without a nearby-place
/// proposal changes no suggestion: its title's words are not counted.
pub proof fn lemma_undated_folder_changes_nothing(
    date: Option<Seq<char>>,
    folders: Seq<KnownFolder>,
    f: KnownFolder,
    limit: nat,
    r: Seq<Suggestion>,
)
    requires
        f.date is None,
        f.near is None,
    ensures
        suggest_holds(date, folders.push(f), limit, r) == suggest_holds(date, folders, limit, r),
{
    let n = folders.len() as int;
    let g = folders.push(f);
    let m = g.len() as int;
    if let Some(day) = date {
        lemma_prefix_candidates(day, folders, f, n);
        assert(g[n] == f);
        assert(folder_candidates(day, f) =~= Seq::<SuggestionView>::empty());
        assert(candidates_of(day, g, m) =~= candidates_of(day, folders, n));
        assert(dated_words(g, m) =~= dated_words(folders, n));
        if suggest_holds(date, g, limit, r) {
            let (all, wp) = choose|all: Seq<Suggestion>, wp: Seq<(Seq<char>, int)>|
                crate::top::common_hold(dated_words(g, m), 3, 8, wp)
                    && all.map_values(|s: Suggestion| suggestion_view(s)) == candidates_of(day, g, m)
                    + wp.map_values(|p: (Seq<char>, int)| word_view(p)) && ranked(all, limit, r);
            assert(crate::top::common_hold(dated_words(folders, n), 3, 8, wp)
                && all.map_values(|s: Suggestion| suggestion_view(s)) == candidates_of(day, folders, n)
                + wp.map_values(|p: (Seq<char>, int)| word_view(p)) && ranked(all, limit, r));
        }
        if suggest_holds(date, folders, limit, r) {
            let (all, wp) = choose|all: Seq<Suggestion>, wp: Seq<(Seq<char>, int)>|
                crate::top::common_hold(dated_words(folders, n), 3, 8, wp)
                    && all.map_values(|s: Suggestion| suggestion_view(s)) == candidates_of(day, folders, n)
                    + wp.map_values(|p: (Seq<char>, int)| word_view(p)) && ranked(all, limit, r);
            assert(crate::top::common_hold(dated_words(g, m), 3, 8, wp)
                && all.map_values(|s: Suggestion| suggestion_view(s)) == candidates_of(day, g, m)
                + wp.map_values(|p: (Seq<char>, int)| word_view(p)) && ranked(all, limit, r));
        }
    }
}


/// A folder name has a date exactly when it starts with eight ASCII digits
/// or with `YYYY?MM?DD` using one of `-`, `.`, `_` twice; the date is then
/// ten characters, `YYYY-MM-DD`, with the name's year; without a date the
/// title is the whole name trimmed.
pub proof fn lemma_folder_date_shape(name: Seq<char>)
    ensures
        folder_parts(name).0 is Some <==> (digits_at(name, 0, 8) || separated_date(name)),
        folder_parts(name).0 matches Some(d) ==> d.len() == 10 && d.subrange(0, 4) == name.subrange(0, 4) && d[4]
            == '-' && d[7] == '-' && digits_at(d, 0, 4) && digits_at(d, 5, 2) && digits_at(d, 8, 2),
        folder_parts(name).0 is None ==> folder_parts(name).1 == trim(name),
        folder_parts(name).0 is Some ==> folder_parts(name).1 == trim(folder_parts(name).1),
{
    reveal_strlit("-");
    if separated_date(name) {
        crate::text::lemma_trim_idempotent(trim_start(name.subrange(10, name.len() as int), Trim::TitleLead));
    } else if digits_at(name, 0, 8) {
        crate::text::lemma_trim_idempotent(trim_start(name.subrange(8, name.len() as int), Trim::TitleLead));
    }
    if separated_date(name) || digits_at(name, 0, 8) {
        let d = folder_parts(name).0->0;
        assert(d.subrange(0, 4) =~= name.subrange(0, 4));
        assert forall|k: int| 0 <= k < 4 implies is_digit(#[trigger] d[k]) by {
            assert(d[k] == name[k]);
        }
        if separated_date(name) {
            assert forall|k: int| 5 <= k < 7 implies is_digit(#[trigger] d[k]) by {
                assert(d[k] == name[k]);
            }
            assert forall|k: int| 8 <= k < 10 implies is_digit(#[trigger] d[k]) by {
                assert(d[k] == name[k]);
            }
        } else {
            assert forall|k: int| 5 <= k < 7 implies is_digit(#[trigger] d[k]) by {
                assert(d[k] == name[k - 1]);
            }
            assert forall|k: int| 8 <= k < 10 implies is_digit(#[trigger] d[k]) by {
                assert(d[k] == name[k - 2]);
            }
        }
    }
}

/// A ranking holds each title once: its titles are non-empty and pairwise
/// different, scores never rise along it, each entry has the best score any
/// suggestion of its title has, and it is cut only at the limit.
pub proof fn lemma_ranking_titles_distinct(all: Seq<Suggestion>, limit: nat, r: Seq<Suggestion>)
    requires
        ranked(all, limit, r),
    ensures
        forall|i: int| 0 <= i < r.len() ==> (#[trigger] r[i]).title@.len() > 0,
        forall|i: int, j: int| 0 <= i < j < r.len() ==> (#[trigger] r[i]).title@ != (#[trigger] r[j]).title@,
        forall|i: int, j: int| 0 <= i < j < r.len() ==> (#[trigger] r[i]).score >= (#[trigger] r[j]).score,
        forall|i: int, m: int|
            0 <= i < r.len() && 0 <= m < all.len() && #[trigger] all[m].title@ == (#[trigger] r[i]).title@
                ==> all[m].score <= r[i].score,
        r.len() <= limit,
{
    assert forall|i: int| 0 <= i < r.len() implies (#[trigger] r[i]).title@.len() > 0 by {
        assert(comes_from_best(all, r[i]));
    }
    assert forall|i: int, m: int|
        0 <= i < r.len() && 0 <= m < all.len() && #[trigger] all[m].title@ == (#[trigger] r[i]).title@
            implies all[m].score <= r[i].score by {
        assert(comes_from_best(all, r[i]));
        let j = choose|j: int| kept_best(all, j) && suggestion_view(r[i]) == suggestion_view(all[j]);
        assert(all[m].title@ == all[j].title@);
    }
    assert forall|i: int, k: int| 0 <= i < k < r.len() implies (#[trigger] r[i]).title@ != (#[trigger] r[k]).title@ by {
        assert(crate::top::ahead(rank_key(r[i]), rank_key(r[k])));
        assert(comes_from_best(all, r[i]));
        assert(comes_from_best(all, r[k]));
        let a = choose|j: int| kept_best(all, j) && suggestion_view(r[i]) == suggestion_view(all[j]);
        let b = choose|j: int| kept_best(all, j) && suggestion_view(r[k]) == suggestion_view(all[j]);
        if r[i].title@ == r[k].title@ {
            assert(all[a].title@ == all[b].title@);
            assert(all[a].score == all[b].score);
            crate::top::lemma_ahead_strict(rank_key(r[i]), rank_key(r[k]), rank_key(r[k]));
            crate::order::lemma_lex_irreflexive(r[i].title@);
        }
    }
}

} // verus!
