//! Where a chosen photo goes: event folder names and their place by area.

use crate::text::{
    bytes_range, chars_of, concat, get_bytes, string_of, trim, trim_both, trim_both_chars, trim_chars,
    Trim,
};
use crate::unicode::{nfc_chars, nfc_of};
use vstd::prelude::*;

verus! {

/// Where to move: a folder relative to a library's root.
pub struct Dest {
    pub library_id: i64,
    /// Relative to the library root; empty means the root itself.
    pub rel_dir: String,
}

/// `2024-08-27 거제통영 가족여행`: the date, a space and the trimmed title,
/// or the date alone when the title is blank.
pub open spec fn event_folder_name_of(date: Seq<char>, title: Seq<char>) -> Seq<char> {
    let t = trim(title);
    if t.len() == 0 {
        date
    } else {
        date + " "@ + t
    }
}

/// What a character becomes in a file name: separators turn to `'-'`,
/// control characters to `' '`.
pub open spec fn scrub(c: char) -> char {
    if c == '/' || c == '\\' || c == ':' {
        '-'
    } else if (c as u32) < 0x20 {
        ' '
    } else {
        c
    }
}

/// Scrubbed, trimmed of white space and of dots at either end, then in NFC.
pub open spec fn sanitized(name: Seq<char>) -> Seq<char> {
    nfc_of(trim(trim_both(trim(name.map_values(|c: char| scrub(c))), Trim::Dot)))
}

/// The first four bytes of a date as its year, else `"0000"`.
pub open spec fn year_of(date: Seq<char>) -> Seq<char> {
    match bytes_range(date, 0, 4) {
        Some(y) => y,
        None => "0000"@,
    }
}

/// `year/event name`, the shape of the shared NAS tree.
pub open spec fn event_rel_dir_of(date: Seq<char>, title: Seq<char>) -> Seq<char> {
    year_of(date) + "/"@ + sanitized(event_folder_name_of(date, title))
}

/// My Photos (area 1) is flat; every other area is split by year.
pub open spec fn event_rel_dir_for_of(area: i32, date: Seq<char>, title: Seq<char>) -> Seq<char> {
    if area == 1 {
        sanitized(event_folder_name_of(date, title))
    } else {
        event_rel_dir_of(date, title)
    }
}

/// Whether a transfer is a publication: every source in My Photos, going to Shared.
pub open spec fn publishes(source_areas: Seq<i32>, destination_area: i32) -> bool {
    source_areas == seq![1i32] && destination_area == 2
}

pub fn should_publish(source_areas: &[i32], destination_area: i32) -> (r: bool)
    ensures
        r == publishes(source_areas@, destination_area),
{
    let r = source_areas.len() == 1 && source_areas[0] == 1 && destination_area == 2;
    proof {
        if source_areas@.len() == 1 {
            if source_areas@[0] == 1 {
                assert(source_areas@ =~= seq![1i32]);
            }
        }
    }
    r
}

pub(crate) fn event_folder_name_chars(date: &[char], title: &[char]) -> (r: Vec<char>)
    ensures
        r@ == event_folder_name_of(date@, title@),
{
    let t = trim_chars(title);
    if t.len() == 0 {
        concat(date, &[])
    } else {
        let sp = chars_of(" ");
        let a = concat(date, sp.as_slice());
        concat(a.as_slice(), t.as_slice())
    }
}

/// The human-readable event folder name.
pub fn event_folder_name(date: &str, title: &str) -> (r: String)
    ensures
        r@ == event_folder_name_of(date@, title@),
{
    let d = chars_of(date);
    let t = chars_of(title);
    let r = event_folder_name_chars(d.as_slice(), t.as_slice());
    string_of(r.as_slice())
}

pub(crate) fn sanitize_chars(name: &[char]) -> (r: Vec<char>)
    ensures
        r@ == sanitized(name@),
{
    let mut m: Vec<char> = Vec::new();
    let mut i: usize = 0;
    while i < name.len()
        invariant
            i <= name@.len(),
            m@ == name@.subrange(0, i as int).map_values(|c: char| scrub(c)),
        decreases name.len() - i,
    {
        let c = name[i];
        let s = if c == '/' || c == '\\' || c == ':' {
            '-'
        } else if (c as u32) < 0x20 {
            ' '
        } else {
            c
        };
        m.push(s);
        i = i + 1;
        assert(m@ =~= name@.subrange(0, i as int).map_values(|c: char| scrub(c)));
    }
    assert(name@.subrange(0, name@.len() as int) =~= name@);
    let a = trim_chars(m.as_slice());
    let b = trim_both_chars(a.as_slice(), Trim::Dot);
    let c = trim_chars(b.as_slice());
    nfc_chars(c.as_slice())
}

/// A name safe for a folder: no path separators, no control characters,
/// no dots or blanks at the ends, in NFC.
pub fn sanitize(name: &str) -> (r: String)
    ensures
        r@ == sanitized(name@),
{
    let n = chars_of(name);
    let r = sanitize_chars(n.as_slice());
    string_of(r.as_slice())
}

pub(crate) fn event_rel_dir_chars(date: &[char], title: &[char]) -> (r: Vec<char>)
    ensures
        r@ == event_rel_dir_of(date@, title@),
{
    let year = match get_bytes(date, 0, 4) {
        Some(y) => y,
        None => chars_of("0000"),
    };
    let name = event_folder_name_chars(date, title);
    let clean = sanitize_chars(name.as_slice());
    let slash = chars_of("/");
    let a = concat(year.as_slice(), slash.as_slice());
    concat(a.as_slice(), clean.as_slice())
}

/// The destination folder `year/date title`, like the shared NAS tree.
pub fn event_rel_dir(date: &str, title: &str) -> (r: String)
    ensures
        r@ == event_rel_dir_of(date@, title@),
{
    let d = chars_of(date);
    let t = chars_of(title);
    let r = event_rel_dir_chars(d.as_slice(), t.as_slice());
    string_of(r.as_slice())
}

/// The destination folder shaped for the area it lands in.
pub fn event_rel_dir_for(area: i32, date: &str, title: &str) -> (r: String)
    ensures
        r@ == event_rel_dir_for_of(area, date@, title@),
{
    let d = chars_of(date);
    let t = chars_of(title);
    if area == 1 {
        let name = event_folder_name_chars(d.as_slice(), t.as_slice());
        let r = sanitize_chars(name.as_slice());
        string_of(r.as_slice())
    } else {
        let r = event_rel_dir_chars(d.as_slice(), t.as_slice());
        string_of(r.as_slice())
    }
}


/// Strictly increasing, hence free of repeats.
pub open spec fn increasing(s: Seq<i64>) -> bool {
    forall|i: int, j: int| 0 <= i < j < s.len() ==> s[i] < s[j]
}

/// The libraries some photos belong to, each once, in increasing order
/// (the folders a move empties lie in these).
pub fn libraries_of(library_ids: &[i64]) -> (r: Vec<i64>)
    ensures
        increasing(r@),
        r@.to_set() == library_ids@.to_set(),
{
    let mut out: Vec<i64> = Vec::new();
    let mut i: usize = 0;
    while i < library_ids.len()
        invariant
            i <= library_ids@.len(),
            increasing(out@),
            out@.to_set() == library_ids@.subrange(0, i as int).to_set(),
        decreases library_ids.len() - i,
    {
        let x = library_ids[i];
        let mut j: usize = 0;
        while j < out.len() && out[j] < x
            invariant
                j <= out@.len(),
                forall|k: int| 0 <= k < j ==> out@[k] < x,
            decreases out.len() - j,
        {
            j = j + 1;
        }
        let ghost before = out@;
        if j < out.len() && out[j] == x {
            proof {
                assert(library_ids@.subrange(0, i + 1) =~= library_ids@.subrange(0, i as int).push(x));
                assert(before[j as int] == x);
                library_ids@.subrange(0, i as int).lemma_push_to_set_commute(x);
                assert(before.to_set().insert(x) =~= before.to_set());
            }
        } else {
            out.insert(j, x);
            proof {
                assert(out@ =~= before.insert(j as int, x));
                assert(library_ids@.subrange(0, i + 1) =~= library_ids@.subrange(0, i as int).push(x));
                assert forall|a: int, b: int| 0 <= a < b < out@.len() implies out@[a] < out@[b] by {
                    if b < j {
                        assert(out@[a] == before[a] && out@[b] == before[b]);
                    } else if b == j {
                        assert(out@[a] == before[a]);
                    } else if a < j {
                        assert(out@[a] == before[a] && out@[b] == before[b - 1]);
                        assert(before[j as int] > x || before[j as int] == x || before[j as int] < x);
                    } else if a == j {
                        assert(out@[b] == before[b - 1]);
                        assert(before[j as int] >= x);
                    } else {
                        assert(out@[a] == before[a - 1] && out@[b] == before[b - 1]);
                    }
                }
                assert forall|e: i64| out@.to_set().contains(e) <==> before.to_set().insert(x).contains(e) by {
                    if out@.contains(e) {
                        let k = choose|k: int| 0 <= k < out@.len() && out@[k] == e;
                        if k < j {
                            assert(before[k] == e);
                        } else if k > j {
                            assert(before[k - 1] == e);
                        }
                    }
                    if before.contains(e) {
                        let k = choose|k: int| 0 <= k < before.len() && before[k] == e;
                        if k < j {
                            assert(out@[k] == e);
                        } else {
                            assert(out@[k + 1] == e);
                        }
                    }
                    if e == x {
                        assert(out@[j as int] == e);
                    }
                }
                library_ids@.subrange(0, i as int).lemma_push_to_set_commute(x);
                assert(out@.to_set() =~= library_ids@.subrange(0, i + 1).to_set());
            }
        }
        i = i + 1;
    }
    assert(library_ids@.subrange(0, library_ids@.len() as int) =~= library_ids@);
    out
}

/// A folder row of the catalogue.
#[derive(Debug, Clone, Copy, PartialEq, Eq, Structural)]
pub struct FolderRef {
    pub id: i64,
    pub library_id: i64,
}

/// Whether some file (its folder id given) lies in folder `id`.
pub open spec fn has_file(file_folders: Seq<i64>, id: i64) -> bool {
    exists|k: int| 0 <= k < file_folders.len() && file_folders[k] == id
}

/// The folder rows to forget after a move: those of the library that no
/// file (trashed ones included) points at, in catalogue order. Empty
/// folders stay on disk; the catalogue only stops showing them.
pub open spec fn forgotten_of(folders: Seq<FolderRef>, file_folders: Seq<i64>, library_id: i64) -> Seq<FolderRef> {
    folders.filter(|f: FolderRef| f.library_id == library_id && !has_file(file_folders, f.id))
}

pub fn forget_empty_folders(folders: &[FolderRef], file_folders: &[i64], library_id: i64) -> (r: Vec<FolderRef>)
    ensures
        r@ == forgotten_of(folders@, file_folders@, library_id),
{
    let mut out: Vec<FolderRef> = Vec::new();
    let mut i: usize = 0;
    while i < folders.len()
        invariant
            i <= folders@.len(),
            out@ == folders@.subrange(0, i as int).filter(
                |f: FolderRef| f.library_id == library_id && !has_file(file_folders@, f.id),
            ),
        decreases folders.len() - i,
    {
        let f = folders[i];
        let mut used = false;
        let mut k: usize = 0;
        while k < file_folders.len()
            invariant
                k <= file_folders@.len(),
                used == exists|m: int| 0 <= m < k && file_folders@[m] == f.id,
            decreases file_folders.len() - k,
        {
            if file_folders[k] == f.id {
                used = true;
            }
            k = k + 1;
        }
        proof {
            reveal(Seq::filter);
            assert(folders@.subrange(0, i + 1).drop_last() =~= folders@.subrange(0, i as int));
        }
        if f.library_id == library_id && !used {
            out.push(f);
        }
        i = i + 1;
    }
    assert(folders@.subrange(0, folders@.len() as int) =~= folders@);
    out
}

/// Why a move is refused as a whole: the destination library is not
/// registered, or its disk is not connected.
pub open spec fn destination_refusal_of(registered: bool, connected: bool) -> Option<Seq<char>> {
    if !registered {
        Some("등록되지 않은 라이브러리입니다"@)
    } else if !connected {
        Some("디스크가 연결되어 있지 않습니다"@)
    } else {
        None
    }
}

pub fn destination_refusal(registered: bool, connected: bool) -> (r: Option<String>)
    ensures
        match r {
            Some(m) => destination_refusal_of(registered, connected) == Some(m@),
            None => destination_refusal_of(registered, connected) is None,
        },
{
    if !registered {
        Some(string_of(chars_of("등록되지 않은 라이브러리입니다").as_slice()))
    } else if !connected {
        Some(string_of(chars_of("디스크가 연결되어 있지 않습니다").as_slice()))
    } else {
        None
    }
}

/// What the disk and the catalogue say of one photo before it moves.
#[derive(Debug, Clone, Copy, PartialEq, Eq, Structural)]
pub struct MoveFacts {
    /// The disk the photo lies on is connected.
    pub mounted: bool,
    /// The folder row the photo belongs to.
    pub folder_id: i64,
    /// The photo's path is already the path it would move to.
    pub at_destination: bool,
    /// Another photo of the destination folder has the name it would take.
    pub occupied: bool,
}

/// What happens to one photo of a move.
#[derive(Debug, Clone, Copy, PartialEq, Eq, Structural)]
pub enum MoveStep {
    /// Its disk is not connected: it fails.
    Unmounted,
    /// It already lies in the destination: it is left alone.
    InPlace,
    /// The catalogue already has a photo of that name there: it fails.
    Occupied,
    /// It moves.
    Move,
}

/// A photo already in the destination folder is left alone before any free
/// name is looked for, since its own file would make its name look taken.
pub open spec fn move_step_of(f: MoveFacts, dest_folder: i64) -> MoveStep {
    if !f.mounted {
        MoveStep::Unmounted
    } else if f.folder_id == dest_folder || f.at_destination {
        MoveStep::InPlace
    } else if f.occupied {
        MoveStep::Occupied
    } else {
        MoveStep::Move
    }
}

pub fn move_step(f: MoveFacts, dest_folder: i64) -> (r: MoveStep)
    ensures
        r == move_step_of(f, dest_folder),
{
    if !f.mounted {
        MoveStep::Unmounted
    } else if f.folder_id == dest_folder || f.at_destination {
        MoveStep::InPlace
    } else if f.occupied {
        MoveStep::Occupied
    } else {
        MoveStep::Move
    }
}

/// The reason a photo fails when its name is already recorded in the destination.
pub open spec fn occupied_message_of(name: Seq<char>) -> Seq<char> {
    "목적지 DB에 같은 이름 기록이 있습니다: "@ + name
}

pub fn occupied_message(name: &str) -> (r: String)
    ensures
        r@ == occupied_message_of(name@),
{
    string_of(concat(chars_of("목적지 DB에 같은 이름 기록이 있습니다: ").as_slice(), chars_of(name).as_slice()).as_slice())
}

/// The libraries whose folder counts a move changes: every library a photo
/// left and the one it arrived in, each once, in increasing order.
pub fn recounted_libraries(item_libraries: &[i64], dest_library: i64) -> (r: Vec<i64>)
    ensures
        increasing(r@),
        r@.to_set() == item_libraries@.to_set().insert(dest_library),
{
    let mut all: Vec<i64> = Vec::new();
    let mut i: usize = 0;
    while i < item_libraries.len()
        invariant
            i <= item_libraries@.len(),
            all@ == item_libraries@.subrange(0, i as int),
        decreases item_libraries.len() - i,
    {
        all.push(item_libraries[i]);
        i = i + 1;
    }
    assert(item_libraries@.subrange(0, item_libraries@.len() as int) =~= item_libraries@);
    let ghost before = all@;
    all.push(dest_library);
    proof {
        before.lemma_push_to_set_commute(dest_library);
    }
    libraries_of(all.as_slice())
}

/// A character a folder name may not hold: a path separator, `:`, or a control character.
pub open spec fn unsafe_in_name(c: char) -> bool {
    c == '/' || c == '\\' || c == ':' || (c as u32) < 0x20
}

/// No character of the text is unsafe in a name.
pub open spec fn safe_text(s: Seq<char>) -> bool {
    forall|i: int| 0 <= i < s.len() ==> !unsafe_in_name(#[trigger] s[i])
}

proof fn lemma_trim_start_safe(s: Seq<char>, t: Trim)
    requires
        safe_text(s),
    ensures
        safe_text(crate::text::trim_start(s, t)),
    decreases s.len(),
{
    if s.len() > 0 && crate::text::trimmed_by(t, s[0]) {
        assert forall|i: int| 0 <= i < s.drop_first().len() implies !unsafe_in_name(#[trigger] s.drop_first()[i]) by {
            assert(s.drop_first()[i] == s[i + 1]);
        }
        lemma_trim_start_safe(s.drop_first(), t);
    }
}

proof fn lemma_trim_end_safe(s: Seq<char>, t: Trim)
    requires
        safe_text(s),
    ensures
        safe_text(crate::text::trim_end(s, t)),
    decreases s.len(),
{
    if s.len() > 0 && crate::text::trimmed_by(t, s.last()) {
        assert forall|i: int| 0 <= i < s.drop_last().len() implies !unsafe_in_name(#[trigger] s.drop_last()[i]) by {
            assert(s.drop_last()[i] == s[i]);
        }
        lemma_trim_end_safe(s.drop_last(), t);
    }
}

/// Path separators never leak into a name: the text a folder name is
/// normalized from holds no `/`, `\`, `:` nor control character, whatever
/// the title typed. (The normalization to NFC is the outside crate's.)
pub proof fn lemma_scrubbed_name_is_safe(name: Seq<char>)
    ensures
        safe_text(trim(trim_both(trim(name.map_values(|c: char| scrub(c))), Trim::Dot))),
{
    let s0 = name.map_values(|c: char| scrub(c));
    assert forall|i: int| 0 <= i < s0.len() implies !unsafe_in_name(#[trigger] s0[i]) by {
        assert(s0[i] == scrub(name[i]));
    }
    lemma_trim_start_safe(s0, Trim::Space);
    lemma_trim_end_safe(crate::text::trim_start(s0, Trim::Space), Trim::Space);
    let s1 = trim(s0);
    lemma_trim_start_safe(s1, Trim::Dot);
    lemma_trim_end_safe(crate::text::trim_start(s1, Trim::Dot), Trim::Dot);
    let s2 = trim_both(s1, Trim::Dot);
    lemma_trim_start_safe(s2, Trim::Space);
    lemma_trim_end_safe(crate::text::trim_start(s2, Trim::Space), Trim::Space);
}

/// The decision on one photo of a move into a folder: see `move_step_of`;
/// `name` is the free name it would take there.
pub open spec fn move_decision_of(f: MoveFacts, dest_folder: i64, name: Seq<char>) -> (nat, Seq<char>, bool) {
    match move_step_of(f, dest_folder) {
        MoveStep::Unmounted => (2, "디스크가 연결되어 있지 않습니다"@, true),
        MoveStep::InPlace => (1, Seq::empty(), false),
        MoveStep::Occupied => (2, occupied_message_of(name), true),
        MoveStep::Move => (0, Seq::empty(), false),
    }
}

/// Plans moving the photos `ids` into the folder row `dest_folder`: for
/// each, what the disk and catalogue say (`facts`) and the free name it would
/// take (`names`). Gives the positions of the photos to move, in order, and
/// the outcome so far; `settle` counts the moves.
pub fn move_plan(batch_id: i64, ids: &[i64], facts: &[MoveFacts], dest_folder: i64, names: &[String]) -> (r: (
    Vec<usize>,
    crate::trash::Outcome,
))
    requires
        facts@.len() == ids@.len(),
        names@.len() == ids@.len(),
    ensures
        crate::trash::sifted(
            batch_id,
            ids@,
            Seq::new(ids@.len(), |k: int| move_decision_of(facts@[k], dest_folder, names@[k]@)),
            r.0@,
            r.1,
        ),
{
    let ghost want = Seq::new(ids@.len(), |k: int| move_decision_of(facts@[k], dest_folder, names@[k]@));
    let mut d: Vec<crate::trash::Decision> = Vec::new();
    let mut i: usize = 0;
    while i < ids.len()
        invariant
            i <= ids@.len(),
            facts@.len() == ids@.len(),
            names@.len() == ids@.len(),
            want == Seq::new(ids@.len(), |k: int| move_decision_of(facts@[k], dest_folder, names@[k]@)),
            crate::trash::decision_views(d@) == want.subrange(0, i as int),
        decreases ids.len() - i,
    {
        let x = match move_step(facts[i], dest_folder) {
            MoveStep::Unmounted => crate::trash::Decision::Refuse(
                string_of(chars_of("디스크가 연결되어 있지 않습니다").as_slice()),
                true,
            ),
            MoveStep::InPlace => crate::trash::Decision::Leave,
            MoveStep::Occupied => crate::trash::Decision::Refuse(occupied_message(names[i].as_str()), true),
            MoveStep::Move => crate::trash::Decision::Go,
        };
        let ghost before = d@;
        d.push(x);
        assert(crate::trash::decision_views(d@) =~= crate::trash::decision_views(before).push(
            crate::trash::decision_view(x),
        ));
        assert(crate::trash::decision_views(d@) =~= want.subrange(0, i + 1));
        i = i + 1;
    }
    assert(want.subrange(0, ids@.len() as int) =~= want);
    crate::trash::sift_new(batch_id, ids, d.as_slice())
}

} // verus!
