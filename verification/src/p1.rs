//! Folder-name audit and event discovery: the rules that read names and
//! timestamps and propose, without writing anything.

use crate::naming::{folder_parts, parse_folder_chars, Suggestion};
use crate::offload::{strip_dir_prefix, strip_dir_prefix_chars};
use crate::organize::{event_folder_name_chars, event_folder_name_of};
use crate::text::{chars_eq, chars_of, string_of, trim_both, trim_both_chars, Trim};
use vstd::prelude::*;

verus! {

/// A folder whose dated name would be normalised.
#[derive(Debug, Clone)]
pub struct FolderAuditItem {
    pub source_dir: String,
    pub parent_dir: String,
    pub current_name: String,
    pub proposed_name: String,
    pub reason: String,
    pub file_count: i64,
    pub conflict: bool,
}

/// What applying an audit did.
#[derive(Debug, Clone, Default)]
pub struct FolderAuditOutcome {
    pub batch_id: i64,
    pub completed: usize,
    pub failed: usize,
    pub conflicts: usize,
    pub first_error: Option<String>,
}

/// One photo of the workbench, by the time it was taken.
#[derive(Debug, Clone)]
pub struct EventItem {
    pub id: i64,
    pub name: String,
    pub taken_at: i64,
}

/// A run of photos proposed as one event.
#[derive(Debug, Clone)]
pub struct EventCandidate {
    pub key: String,
    pub date: String,
    pub start_at: i64,
    pub end_at: i64,
    pub count: usize,
    pub items: Vec<EventItem>,
    pub suggestions: Vec<Suggestion>,
}

/// Whether chrono's `NaiveDate::parse_from_str(s, "%Y-%m-%d")` accepts the text:
/// a date that exists in the proleptic Gregorian calendar.
pub uninterp spec fn calendar_date(s: Seq<char>) -> bool;

/// `chrono::NaiveDate::parse_from_str` with the format `%Y-%m-%d`.
/// Claimed: the answer is `calendar_date` of the text, a function of the text alone.
#[verifier::external_body]
fn valid_date(value: &[char]) -> (r: bool)
    ensures
        r == calendar_date(value@),
{
    let text: String = value.iter().collect();
    chrono::NaiveDate::parse_from_str(&text, "%Y-%m-%d").is_ok()
}

/// Why a dated name is rewritten, by the separator after the year.
pub open spec fn reason_of(name: Seq<char>) -> Seq<char> {
    if name.len() > 4 && name[4] == '_' {
        "밑줄 날짜를 YYYY-MM-DD로 통일"@
    } else if name.len() > 4 && name[4] == '.' {
        "점 날짜를 YYYY-MM-DD로 통일"@
    } else {
        "붙어 있는 날짜를 YYYY-MM-DD로 통일"@
    }
}

/// The normalised name `YYYY-MM-DD title` and the reason, for a dated name
/// whose date exists and whose normalised form differs from it.
pub open spec fn normalized_of(name: Seq<char>) -> Option<(Seq<char>, Seq<char>)> {
    let (date, title) = folder_parts(name);
    match date {
        None => None,
        Some(d) => if !calendar_date(d) {
            None
        } else {
            let proposed = event_folder_name_of(d, title);
            if proposed == name {
                None
            } else {
                Some((proposed, reason_of(name)))
            }
        },
    }
}

/// Proposes `YYYY-MM-DD title` for a folder named with another date form.
pub fn normalized_folder_name(name: &str) -> (r: Option<(String, String)>)
    ensures
        match r {
            Some((p, why)) => normalized_of(name@) == Some((p@, why@)),
            None => normalized_of(name@) is None,
        },
{
    let n = chars_of(name);
    let (date, title) = parse_folder_chars(n.as_slice());
    let d = match date {
        None => return None,
        Some(d) => d,
    };
    if !valid_date(d.as_slice()) {
        return None;
    }
    let proposed = event_folder_name_chars(d.as_slice(), title.as_slice());
    if chars_eq(proposed.as_slice(), n.as_slice()) {
        return None;
    }
    let reason = if n.len() > 4 && n[4] == '_' {
        chars_of("밑줄 날짜를 YYYY-MM-DD로 통일")
    } else if n.len() > 4 && n[4] == '.' {
        chars_of("점 날짜를 YYYY-MM-DD로 통일")
    } else {
        chars_of("붙어 있는 날짜를 YYYY-MM-DD로 통일")
    };
    Some((string_of(proposed.as_slice()), string_of(reason.as_slice())))
}

/// A volume-relative path made relative to the library rooted at `root`:
/// the library itself is `""`, a path outside it has none.
pub open spec fn library_relative_of(root: Seq<char>, vol_rel: Seq<char>) -> Option<Seq<char>> {
    if root.len() == 0 {
        Some(trim_both(vol_rel, Trim::Slash))
    } else if vol_rel == root {
        Some(Seq::empty())
    } else {
        strip_dir_prefix(root, vol_rel)
    }
}

pub fn library_relative(library_root: &str, volume_relative: &str) -> (r: Option<String>)
    ensures
        match r {
            Some(v) => library_relative_of(library_root@, volume_relative@) == Some(v@),
            None => library_relative_of(library_root@, volume_relative@) is None,
        },
{
    let root = chars_of(library_root);
    let v = chars_of(volume_relative);
    if root.len() == 0 {
        let t = trim_both_chars(v.as_slice(), Trim::Slash);
        return Some(string_of(t.as_slice()));
    }
    if chars_eq(v.as_slice(), root.as_slice()) {
        return Some(String::new());
    }
    match strip_dir_prefix_chars(root.as_slice(), v.as_slice()) {
        Some(r) => Some(string_of(r.as_slice())),
        None => None,
    }
}

/// `x.clamp(lo, hi)`.
pub open spec fn clamp(x: int, lo: int, hi: int) -> int {
    if x < lo {
        lo
    } else if x > hi {
        hi
    } else {
        x
    }
}

/// Whether photo `i` opens a new event: more than `gap` seconds after the
/// one before, or on another local day.
pub open spec fn opens_event(taken: Seq<i64>, days: Seq<Seq<char>>, gap: int, i: int) -> bool {
    i == 0 || taken[i] - taken[i - 1] > gap || days[i] != days[i - 1]
}

/// The runs `[start, end)` that the first `n` photos (in time order) fall into.
pub open spec fn runs(taken: Seq<i64>, days: Seq<Seq<char>>, gap: int, n: nat) -> Seq<(int, int)>
    decreases n,
{
    if n == 0 {
        Seq::empty()
    } else {
        let b = runs(taken, days, gap, (n - 1) as nat);
        if opens_event(taken, days, gap, n - 1) || b.len() == 0 {
            b.push((n - 1, n as int))
        } else {
            b.update(b.len() - 1, (b.last().0, n as int))
        }
    }
}

/// The runs of at least `minimum` photos, in order.
pub open spec fn long_runs(r: Seq<(int, int)>, minimum: int) -> Seq<(int, int)>
    decreases r.len(),
{
    if r.len() == 0 {
        Seq::empty()
    } else {
        let rest = long_runs(r.drop_last(), minimum);
        if r.last().1 - r.last().0 >= minimum {
            rest.push(r.last())
        } else {
            rest
        }
    }
}

/// The events found among photos sorted by time: runs split at a gap longer
/// than `gap_minutes` (held to 30 minutes .. 48 hours) or at a change of
/// local day, kept when they hold `min_count` photos (held to 2 .. 5000).
pub open spec fn events_of(
    taken: Seq<i64>,
    days: Seq<Seq<char>>,
    gap_minutes: u32,
    min_count: usize,
) -> Seq<(int, int)> {
    let gap = clamp(gap_minutes as int, 30, 2880) * 60;
    let minimum = clamp(min_count as int, 2, 5000);
    long_runs(runs(taken, days, gap, taken.len()), minimum)
}

pub open spec fn day_views(days: Seq<String>) -> Seq<Seq<char>> {
    days.map_values(|d: String| d@)
}

proof fn lemma_runs_shape(taken: Seq<i64>, days: Seq<Seq<char>>, gap: int, n: nat)
    ensures
        n > 0 ==> runs(taken, days, gap, n).len() > 0 && runs(taken, days, gap, n).last().1 == n,
        forall|k: int|
            0 <= k < runs(taken, days, gap, n).len() ==> 0 <= (#[trigger] runs(
                taken,
                days,
                gap,
                n,
            )[k]).0 < runs(taken, days, gap, n)[k].1 <= n,
    decreases n,
{
    if n > 0 {
        lemma_runs_shape(taken, days, gap, (n - 1) as nat);
        let b = runs(taken, days, gap, (n - 1) as nat);
        let r = runs(taken, days, gap, n);
        assert forall|k: int| 0 <= k < r.len() implies 0 <= (#[trigger] r[k]).0 < r[k].1 <= n by {
            if k < b.len() && k != b.len() - 1 {
                assert(r[k] == b[k]);
            } else if k < b.len() {
                if !(opens_event(taken, days, gap, n - 1) || b.len() == 0) {
                    assert(r[k] == (b.last().0, n as int));
                }
            }
        }
    }
}

/// Splits photos sorted by time into events; each event is a range
/// `[start, end)` of positions. `days[i]` is the local day of photo `i`.
pub fn event_groups(taken: &[i64], days: &[String], gap_minutes: u32, min_count: usize) -> (r: Vec<
    (usize, usize),
>)
    requires
        days@.len() == taken@.len(),
    ensures
        r@.len() == events_of(taken@, day_views(days@), gap_minutes, min_count).len(),
        forall|k: int|
            0 <= k < r@.len() ==> (#[trigger] r@[k]).0 as int == events_of(
                taken@,
                day_views(days@),
                gap_minutes,
                min_count,
            )[k].0 && r@[k].1 as int == events_of(
                taken@,
                day_views(days@),
                gap_minutes,
                min_count,
            )[k].1,
{
    let g: u32 = if gap_minutes < 30 {
        30
    } else if gap_minutes > 48 * 60 {
        48 * 60
    } else {
        gap_minutes
    };
    let gap: i128 = (g as i128) * 60;
    let minimum: usize = if min_count < 2 {
        2
    } else if min_count > 5000 {
        5000
    } else {
        min_count
    };
    let ghost dv = day_views(days@);
    let ghost gs = gap as int;
    // All runs, built left to right.
    let mut bounds: Vec<(usize, usize)> = Vec::new();
    let mut i: usize = 0;
    while i < taken.len()
        invariant
            i <= taken@.len(),
            days@.len() == taken@.len(),
            dv == day_views(days@),
            gs == gap as int,
            bounds@.len() == runs(taken@, dv, gs, i as nat).len(),
            forall|k: int|
                0 <= k < bounds@.len() ==> (#[trigger] bounds@[k]).0 as int == runs(
                    taken@,
                    dv,
                    gs,
                    i as nat,
                )[k].0 && bounds@[k].1 as int == runs(taken@, dv, gs, i as nat)[k].1,
        decreases taken.len() - i,
    {
        proof {
            lemma_runs_shape(taken@, dv, gs, i as nat);
        }
        let opens = i == 0 || (taken[i] as i128) - (taken[i - 1] as i128) > gap || !(days[i]
            == days[i - 1]);
        proof {
            if i > 0 {
                assert(dv[i as int] == days@[i as int]@);
                assert(dv[i - 1] == days@[i - 1]@);
            }
        }
        if opens || bounds.len() == 0 {
            bounds.push((i, i + 1));
        } else {
            let last = bounds.len() - 1;
            let start = bounds[last].0;
            bounds.set(last, (start, i + 1));
        }
        i = i + 1;
    }
    // Keep the long ones.
    let ghost all = runs(taken@, dv, gs, taken@.len() as nat);
    let mut out: Vec<(usize, usize)> = Vec::new();
    let mut k: usize = 0;
    proof {
        lemma_runs_shape(taken@, dv, gs, taken@.len() as nat);
    }
    while k < bounds.len()
        invariant
            k <= bounds@.len(),
            bounds@.len() == all.len(),
            forall|j: int|
                0 <= j < bounds@.len() ==> (#[trigger] bounds@[j]).0 as int == all[j].0
                    && bounds@[j].1 as int == all[j].1,
            forall|j: int| 0 <= j < all.len() ==> 0 <= (#[trigger] all[j]).0 < all[j].1,
            out@.len() == long_runs(all.subrange(0, k as int), minimum as int).len(),
            forall|j: int|
                0 <= j < out@.len() ==> (#[trigger] out@[j]).0 as int == long_runs(
                    all.subrange(0, k as int),
                    minimum as int,
                )[j].0 && out@[j].1 as int == long_runs(
                    all.subrange(0, k as int),
                    minimum as int,
                )[j].1,
        decreases bounds.len() - k,
    {
        let (s, e) = bounds[k];
        assert(all.subrange(0, k + 1).drop_last() =~= all.subrange(0, k as int));
        assert(all.subrange(0, k + 1).last() == all[k as int]);
        assert(s < e);
        if e - s >= minimum {
            out.push((s, e));
        }
        k = k + 1;
    }
    assert(all.subrange(0, bounds@.len() as int) =~= all);
    out
}

} // verus!
