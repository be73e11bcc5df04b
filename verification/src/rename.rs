//! Renaming one file in place. A name that is taken is refused rather than
//! numbered: whoever renames a file wants that very name.

use crate::names::{lowercase_chars, lowercase_of, stem_ext, stem_ext_chars};
use crate::text::{chars_eq, chars_of, concat, contains_char, lower_ascii, lower_ascii_seq, str_is, string_of, trim, trim_chars};
use crate::unicode::{nfc_chars, nfc_of};
use vstd::prelude::*;

verus! {

/// Why a rename is refused.
#[derive(Debug, Clone, Copy, PartialEq, Eq, Structural)]
pub enum RenameError {
    /// The new name is empty.
    Empty,
    /// The new name holds `/` or is `.` or `..`.
    BadName,
    /// The file is not on the disk.
    Missing,
    /// Another file already has the new name.
    Taken,
}

/// The new name as given: trimmed and in NFC; refused when empty or unusable.
pub open spec fn clean_new_name_of(name: Seq<char>) -> Result<Seq<char>, RenameError> {
    let n = nfc_of(trim(name));
    if n.len() == 0 {
        Err(RenameError::Empty)
    } else if n.contains('/') || n == "."@ || n == ".."@ {
        Err(RenameError::BadName)
    } else {
        Ok(n)
    }
}

pub fn clean_new_name(name: &str) -> (r: Result<String, RenameError>)
    ensures
        match r {
            Ok(n) => clean_new_name_of(name@) == Ok::<Seq<char>, RenameError>(n@),
            Err(e) => clean_new_name_of(name@) == Err::<Seq<char>, RenameError>(e),
        },
{
    let v = chars_of(name);
    let t = trim_chars(v.as_slice());
    let n = nfc_chars(t.as_slice());
    if n.len() == 0 {
        return Err(RenameError::Empty);
    }
    if contains_char(n.as_slice(), '/') || str_is(".", n.as_slice()) || str_is("..", n.as_slice()) {
        return Err(RenameError::BadName);
    }
    Ok(string_of(n.as_slice()))
}

/// What a rename does.
#[derive(Debug, Clone, Copy, PartialEq, Eq, Structural)]
pub enum RenamePlan {
    /// The name does not change: nothing is done or journaled.
    Unchanged,
    /// Rename on disk and in the catalogue.
    Rename,
}

/// Whether two names are equal but for ASCII case (the same file on exFAT
/// and APFS by default).
pub open spec fn same_ignoring_ascii_case(a: Seq<char>, b: Seq<char>) -> bool {
    lower_ascii_seq(a) == lower_ascii_seq(b)
}

/// The decision on a rename from `old` to the cleaned `new`: nothing when
/// the name stays; refused when the file is gone, or when another file has
/// the new name (a change of ASCII case alone is allowed).
pub open spec fn rename_plan_of(old: Seq<char>, new: Seq<char>, from_exists: bool, to_exists: bool) -> Result<
    RenamePlan,
    RenameError,
> {
    if old == new {
        Ok(RenamePlan::Unchanged)
    } else if !from_exists {
        Err(RenameError::Missing)
    } else if to_exists && !same_ignoring_ascii_case(old, new) {
        Err(RenameError::Taken)
    } else {
        Ok(RenamePlan::Rename)
    }
}

pub fn rename_plan(old: &str, new: &str, from_exists: bool, to_exists: bool) -> (r: Result<RenamePlan, RenameError>)
    ensures
        r == rename_plan_of(old@, new@, from_exists, to_exists),
{
    let o = chars_of(old);
    let n = chars_of(new);
    if chars_eq(o.as_slice(), n.as_slice()) {
        return Ok(RenamePlan::Unchanged);
    }
    if !from_exists {
        return Err(RenameError::Missing);
    }
    let lo = lower_ascii(o.as_slice());
    let ln = lower_ascii(n.as_slice());
    if to_exists && !chars_eq(lo.as_slice(), ln.as_slice()) {
        return Err(RenameError::Taken);
    }
    Ok(RenamePlan::Rename)
}

/// The label of a rename batch: `old → new`.
pub open spec fn rename_label_of(old: Seq<char>, new: Seq<char>) -> Seq<char> {
    old + " → "@ + new
}

pub fn rename_label(old: &str, new: &str) -> (r: String)
    ensures
        r@ == rename_label_of(old@, new@),
{
    let o = chars_of(old);
    let arrow = chars_of(" → ");
    let n = chars_of(new);
    let a = concat(o.as_slice(), arrow.as_slice());
    let b = concat(a.as_slice(), n.as_slice());
    string_of(b.as_slice())
}

/// The extension the catalogue records for a name: its extension in lower case.
pub open spec fn recorded_ext_of(name: Seq<char>) -> Option<Seq<char>> {
    match stem_ext(name).1 {
        Some(e) => Some(lowercase_of(e)),
        None => None,
    }
}

pub fn recorded_ext(name: &str) -> (r: Option<String>)
    ensures
        match r {
            Some(e) => recorded_ext_of(name@) == Some(e@),
            None => recorded_ext_of(name@) is None,
        },
{
    let n = chars_of(name);
    let (_, ext) = stem_ext_chars(n.as_slice());
    match ext {
        Some(e) => {
            let l = lowercase_chars(e.as_slice());
            Some(string_of(l.as_slice()))
        },
        None => None,
    }
}

} // verus!
