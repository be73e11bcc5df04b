//! What a file is by its name, and which folders a walk leaves out.

use crate::text::{
    ascii_lower, chars_of, last_index, last_index_of, lemma_last_index_of, lower_ascii, lower_ascii_seq, slice_of,
    starts_with, starts_with_chars, str_is,
};
use vstd::prelude::*;

verus! {

/// The media kind stored with each file. In declaration order its
/// discriminant is 0, 1, 2, as the schema expects.
#[derive(Debug, Clone, Copy, PartialEq, Eq, Structural)]
pub enum Kind {
    Image,
    Video,
    /// RAW files are counted apart: they are kept as one local copy.
    Raw,
}

impl Kind {
    /// The value stored in the `kind` column.
    pub fn value(&self) -> (v: i32)
        ensures
            v == kind_value(*self),
    {
        match self {
            Kind::Image => 0,
            Kind::Video => 1,
            Kind::Raw => 2,
        }
    }
}

pub open spec fn kind_value(k: Kind) -> i32 {
    match k {
        Kind::Image => 0,
        Kind::Video => 1,
        Kind::Raw => 2,
    }
}

pub open spec fn is_image_ext(e: Seq<char>) -> bool {
    ||| e == "jpg"@
    ||| e == "jpeg"@
    ||| e == "png"@
    ||| e == "heic"@
    ||| e == "heif"@
    ||| e == "gif"@
    ||| e == "bmp"@
    ||| e == "tif"@
    ||| e == "tiff"@
    ||| e == "webp"@
    ||| e == "avif"@
    ||| e == "jxl"@
}

pub open spec fn is_raw_ext(e: Seq<char>) -> bool {
    ||| e == "cr2"@
    ||| e == "cr3"@
    ||| e == "nef"@
    ||| e == "nrw"@
    ||| e == "arw"@
    ||| e == "srf"@
    ||| e == "sr2"@
    ||| e == "dng"@
    ||| e == "orf"@
    ||| e == "rw2"@
    ||| e == "raf"@
    ||| e == "pef"@
    ||| e == "raw"@
    ||| e == "3fr"@
    ||| e == "erf"@
    ||| e == "kdc"@
    ||| e == "mos"@
    ||| e == "mrw"@
    ||| e == "x3f"@
}

pub open spec fn is_video_ext(e: Seq<char>) -> bool {
    ||| e == "mp4"@
    ||| e == "mov"@
    ||| e == "m4v"@
    ||| e == "avi"@
    ||| e == "mkv"@
    ||| e == "3gp"@
    ||| e == "mts"@
    ||| e == "m2ts"@
    ||| e == "wmv"@
    ||| e == "flv"@
    ||| e == "webm"@
    ||| e == "mpg"@
    ||| e == "mpeg"@
}

/// Folders a walk skips whole: NAS thumbnail caches and recycle bins, system
/// folders, this program's own cache, half-received transfers.
pub open spec fn is_skipped_name(n: Seq<char>) -> bool {
    ||| n == "@eaDir"@
    ||| n == "#recycle"@
    ||| n == "#trash"@
    ||| n == ".Spotlight-V100"@
    ||| n == ".fseventsd"@
    ||| n == ".TemporaryItems"@
    ||| n == ".DocumentRevisions-V100"@
    ||| n == ".Trashes"@
    ||| n == ".DS_Store"@
    ||| n == "$RECYCLE.BIN"@
    ||| n == "System Volume Information"@
    ||| n == ".acut"@
    ||| n == ".rsync-partial"@
}

/// The text after the last `'.'`, if there is a `'.'`.
pub open spec fn extension_of(name: Seq<char>) -> Option<Seq<char>> {
    let i = last_index_of(name, '.');
    if i < 0 {
        None
    } else {
        Some(name.subrange(i + 1, name.len() as int))
    }
}

/// The kind a file name gives: none for hidden names and resource forks
/// (they start with `'.'`), else by the lower-cased extension, RAW first.
pub open spec fn kind_of(name: Seq<char>) -> Option<Kind> {
    if name.len() > 0 && name[0] == '.' {
        None
    } else {
        match extension_of(name) {
            None => None,
            Some(e) => {
                let l = lower_ascii_seq(e);
                if is_raw_ext(l) {
                    Some(Kind::Raw)
                } else if is_image_ext(l) {
                    Some(Kind::Image)
                } else if is_video_ext(l) {
                    Some(Kind::Video)
                } else {
                    None
                }
            },
        }
    }
}

pub open spec fn skipped_dir(name: Seq<char>) -> bool {
    is_skipped_name(name) || starts_with(name, ".git"@)
}

fn image_ext(e: &[char]) -> (r: bool)
    ensures
        r == is_image_ext(e@),
{
    str_is("jpg", e) || str_is("jpeg", e) || str_is("png", e) || str_is("heic", e) || str_is("heif", e) || str_is("gif", e) || str_is("bmp", e) || str_is("tif", e) || str_is("tiff", e) || str_is("webp", e) || str_is("avif", e) || str_is("jxl", e)
}

fn raw_ext(e: &[char]) -> (r: bool)
    ensures
        r == is_raw_ext(e@),
{
    str_is("cr2", e) || str_is("cr3", e) || str_is("nef", e) || str_is("nrw", e) || str_is("arw", e) || str_is("srf", e) || str_is("sr2", e) || str_is("dng", e) || str_is("orf", e) || str_is("rw2", e) || str_is("raf", e) || str_is("pef", e) || str_is("raw", e) || str_is("3fr", e) || str_is("erf", e) || str_is("kdc", e) || str_is("mos", e) || str_is("mrw", e) || str_is("x3f", e)
}

fn video_ext(e: &[char]) -> (r: bool)
    ensures
        r == is_video_ext(e@),
{
    str_is("mp4", e) || str_is("mov", e) || str_is("m4v", e) || str_is("avi", e) || str_is("mkv", e) || str_is("3gp", e) || str_is("mts", e) || str_is("m2ts", e) || str_is("wmv", e) || str_is("flv", e) || str_is("webm", e) || str_is("mpg", e) || str_is("mpeg", e)
}

fn skipped_name(n: &[char]) -> (r: bool)
    ensures
        r == is_skipped_name(n@),
{
    str_is("@eaDir", n) || str_is("#recycle", n) || str_is("#trash", n) || str_is(".Spotlight-V100", n) || str_is(".fseventsd", n) || str_is(".TemporaryItems", n) || str_is(".DocumentRevisions-V100", n) || str_is(".Trashes", n) || str_is(".DS_Store", n) || str_is("$RECYCLE.BIN", n) || str_is("System Volume Information", n) || str_is(".acut", n) || str_is(".rsync-partial", n)
}

/// Whether a walk leaves this folder out entirely.
pub fn is_skipped_dir(name: &str) -> (r: bool)
    ensures
        r == skipped_dir(name@),
{
    let n = chars_of(name);
    let git = chars_of(".git");
    skipped_name(n.as_slice()) || starts_with_chars(n.as_slice(), git.as_slice())
}

/// The media kind of a file name, `None` when it is not media.
pub fn classify(name: &str) -> (r: Option<Kind>)
    ensures
        r == kind_of(name@),
{
    let n = chars_of(name);
    classify_chars(n.as_slice())
}

pub fn classify_chars(n: &[char]) -> (r: Option<Kind>)
    ensures
        r == kind_of(n@),
{
    if n.len() > 0 && n[0] == '.' {
        return None;
    }
    let i = match last_index(n, '.') {
        None => return None,
        Some(i) => i,
    };
    proof {
        lemma_last_index_of(n@, '.');
    }
    let e = slice_of(n, i + 1, n.len());
    let l = lower_ascii(e.as_slice());
    if raw_ext(l.as_slice()) {
        Some(Kind::Raw)
    } else if image_ext(l.as_slice()) {
        Some(Kind::Image)
    } else if video_ext(l.as_slice()) {
        Some(Kind::Video)
    } else {
        None
    }
}

/// The three lists of extensions share no entry.
proof fn lemma_extension_lists_apart(e: Seq<char>)
    ensures
        is_image_ext(e) ==> !is_raw_ext(e),
        is_video_ext(e) ==> !is_raw_ext(e) && !is_image_ext(e),
{
    reveal_strlit("cr2");
    reveal_strlit("cr3");
    reveal_strlit("nef");
    reveal_strlit("nrw");
    reveal_strlit("arw");
    reveal_strlit("srf");
    reveal_strlit("sr2");
    reveal_strlit("dng");
    reveal_strlit("orf");
    reveal_strlit("rw2");
    reveal_strlit("raf");
    reveal_strlit("pef");
    reveal_strlit("raw");
    reveal_strlit("3fr");
    reveal_strlit("erf");
    reveal_strlit("kdc");
    reveal_strlit("mos");
    reveal_strlit("mrw");
    reveal_strlit("x3f");
    reveal_strlit("jpg");
    reveal_strlit("jpeg");
    reveal_strlit("png");
    reveal_strlit("heic");
    reveal_strlit("heif");
    reveal_strlit("gif");
    reveal_strlit("bmp");
    reveal_strlit("tif");
    reveal_strlit("tiff");
    reveal_strlit("webp");
    reveal_strlit("avif");
    reveal_strlit("jxl");
    reveal_strlit("mp4");
    reveal_strlit("mov");
    reveal_strlit("m4v");
    reveal_strlit("avi");
    reveal_strlit("mkv");
    reveal_strlit("3gp");
    reveal_strlit("mts");
    reveal_strlit("m2ts");
    reveal_strlit("wmv");
    reveal_strlit("flv");
    reveal_strlit("webm");
    reveal_strlit("mpg");
    reveal_strlit("mpeg");
    if e == "jpg"@ {
        reveal_strlit("jpg");
        assert(e.len() == 3 && e[0] == 'j' && e[1] == 'p' && e[2] == 'g');
    }
    if e == "jpeg"@ {
        reveal_strlit("jpeg");
        assert(e.len() == 4 && e[0] == 'j' && e[1] == 'p' && e[2] == 'e' && e[3] == 'g');
    }
    if e == "png"@ {
        reveal_strlit("png");
        assert(e.len() == 3 && e[0] == 'p' && e[1] == 'n' && e[2] == 'g');
    }
    if e == "heic"@ {
        reveal_strlit("heic");
        assert(e.len() == 4 && e[0] == 'h' && e[1] == 'e' && e[2] == 'i' && e[3] == 'c');
    }
    if e == "heif"@ {
        reveal_strlit("heif");
        assert(e.len() == 4 && e[0] == 'h' && e[1] == 'e' && e[2] == 'i' && e[3] == 'f');
    }
    if e == "gif"@ {
        reveal_strlit("gif");
        assert(e.len() == 3 && e[0] == 'g' && e[1] == 'i' && e[2] == 'f');
    }
    if e == "bmp"@ {
        reveal_strlit("bmp");
        assert(e.len() == 3 && e[0] == 'b' && e[1] == 'm' && e[2] == 'p');
    }
    if e == "tif"@ {
        reveal_strlit("tif");
        assert(e.len() == 3 && e[0] == 't' && e[1] == 'i' && e[2] == 'f');
    }
    if e == "tiff"@ {
        reveal_strlit("tiff");
        assert(e.len() == 4 && e[0] == 't' && e[1] == 'i' && e[2] == 'f' && e[3] == 'f');
    }
    if e == "webp"@ {
        reveal_strlit("webp");
        assert(e.len() == 4 && e[0] == 'w' && e[1] == 'e' && e[2] == 'b' && e[3] == 'p');
    }
    if e == "avif"@ {
        reveal_strlit("avif");
        assert(e.len() == 4 && e[0] == 'a' && e[1] == 'v' && e[2] == 'i' && e[3] == 'f');
    }
    if e == "jxl"@ {
        reveal_strlit("jxl");
        assert(e.len() == 3 && e[0] == 'j' && e[1] == 'x' && e[2] == 'l');
    }
    if e == "mp4"@ {
        reveal_strlit("mp4");
        assert(e.len() == 3 && e[0] == 'm' && e[1] == 'p' && e[2] == '4');
    }
    if e == "mov"@ {
        reveal_strlit("mov");
        assert(e.len() == 3 && e[0] == 'm' && e[1] == 'o' && e[2] == 'v');
    }
    if e == "m4v"@ {
        reveal_strlit("m4v");
        assert(e.len() == 3 && e[0] == 'm' && e[1] == '4' && e[2] == 'v');
    }
    if e == "avi"@ {
        reveal_strlit("avi");
        assert(e.len() == 3 && e[0] == 'a' && e[1] == 'v' && e[2] == 'i');
    }
    if e == "mkv"@ {
        reveal_strlit("mkv");
        assert(e.len() == 3 && e[0] == 'm' && e[1] == 'k' && e[2] == 'v');
    }
    if e == "3gp"@ {
        reveal_strlit("3gp");
        assert(e.len() == 3 && e[0] == '3' && e[1] == 'g' && e[2] == 'p');
    }
    if e == "mts"@ {
        reveal_strlit("mts");
        assert(e.len() == 3 && e[0] == 'm' && e[1] == 't' && e[2] == 's');
    }
    if e == "m2ts"@ {
        reveal_strlit("m2ts");
        assert(e.len() == 4 && e[0] == 'm' && e[1] == '2' && e[2] == 't' && e[3] == 's');
    }
    if e == "wmv"@ {
        reveal_strlit("wmv");
        assert(e.len() == 3 && e[0] == 'w' && e[1] == 'm' && e[2] == 'v');
    }
    if e == "flv"@ {
        reveal_strlit("flv");
        assert(e.len() == 3 && e[0] == 'f' && e[1] == 'l' && e[2] == 'v');
    }
    if e == "webm"@ {
        reveal_strlit("webm");
        assert(e.len() == 4 && e[0] == 'w' && e[1] == 'e' && e[2] == 'b' && e[3] == 'm');
    }
    if e == "mpg"@ {
        reveal_strlit("mpg");
        assert(e.len() == 3 && e[0] == 'm' && e[1] == 'p' && e[2] == 'g');
    }
    if e == "mpeg"@ {
        reveal_strlit("mpeg");
        assert(e.len() == 4 && e[0] == 'm' && e[1] == 'p' && e[2] == 'e' && e[3] == 'g');
    }
}

proof fn lemma_extension_after_last_dot(stem: Seq<char>, ext: Seq<char>)
    requires
        !ext.contains('.'),
    ensures
        extension_of(stem + "."@ + ext) == Some(ext),
{
    reveal_strlit(".");
    let n = stem + "."@ + ext;
    lemma_last_index_of(n, '.');
    let i = last_index_of(n, '.');
    assert(n[stem.len() as int] == '.');
    if i > stem.len() {
        assert(ext[i - stem.len() - 1] == '.');
    }
    assert(i == stem.len());
    assert(n.subrange(i + 1, n.len() as int) =~= ext);
}

/// A file named `stem.ext`, whose name does not start with '.' and whose
/// `ext` (the text after the last '.') holds no further '.', is classified
/// by `ext` in ASCII lower case alone: a photo for jpg, jpeg, png, heic,
/// heif, gif, bmp, tif, tiff, webp, avif, jxl; e == "cr2"@ || e == "cr3"@ || e == "nef"@ || e == "nrw"@ || e == "arw"@ || e == "srf"@ || e == "sr2"@ || e == "dng"@ || e == "orf"@ || e == "rw2"@ || e == "raf"@ || e == "pef"@ || e == "raw"@ || e == "3fr"@ || e == "erf"@ || e == "kdc"@ || e == "mos"@ || e == "mrw"@ || e == "x3f"@ for cr2, cr3, nef, nrw,
/// arw, srf, sr2, dng, orf, rw2, raf, pef, raw, 3fr, erf, kdc, mos, mrw, x3f;
/// a video for mp4, mov, m4v, avi, mkv, 3gp, mts, m2ts, wmv, flv, webm, mpg,
/// mpeg; and not media for any other extension.
pub proof fn lemma_kind_by_extension(stem: Seq<char>, ext: Seq<char>)
    requires
        stem.len() > 0,
        stem[0] != '.',
        !ext.contains('.'),
    ensures
        ({
            let e = lower_ascii_seq(ext);
            e == "jpg"@ || e == "jpeg"@ || e == "png"@ || e == "heic"@ || e == "heif"@ || e == "gif"@ || e == "bmp"@ || e == "tif"@ || e == "tiff"@ || e == "webp"@ || e == "avif"@ || e == "jxl"@
        }) ==> kind_of(stem + "."@ + ext) == Some(Kind::Image),
        ({
            let e = lower_ascii_seq(ext);
            e == "cr2"@ || e == "cr3"@ || e == "nef"@ || e == "nrw"@ || e == "arw"@ || e == "srf"@ || e == "sr2"@ || e == "dng"@ || e == "orf"@ || e == "rw2"@ || e == "raf"@ || e == "pef"@ || e == "raw"@ || e == "3fr"@ || e == "erf"@ || e == "kdc"@ || e == "mos"@ || e == "mrw"@ || e == "x3f"@
        }) ==> kind_of(stem + "."@ + ext) == Some(Kind::Raw),
        ({
            let e = lower_ascii_seq(ext);
            e == "mp4"@ || e == "mov"@ || e == "m4v"@ || e == "avi"@ || e == "mkv"@ || e == "3gp"@ || e == "mts"@ || e == "m2ts"@ || e == "wmv"@ || e == "flv"@ || e == "webm"@ || e == "mpg"@ || e == "mpeg"@
        }) ==> kind_of(stem + "."@ + ext) == Some(Kind::Video),
        ({
            let e = lower_ascii_seq(ext);
            !(e == "jpg"@ || e == "jpeg"@ || e == "png"@ || e == "heic"@ || e == "heif"@ || e == "gif"@ || e == "bmp"@ || e == "tif"@ || e == "tiff"@ || e == "webp"@ || e == "avif"@ || e == "jxl"@)
                && !(e == "cr2"@ || e == "cr3"@ || e == "nef"@ || e == "nrw"@ || e == "arw"@ || e == "srf"@ || e == "sr2"@ || e == "dng"@ || e == "orf"@ || e == "rw2"@ || e == "raf"@ || e == "pef"@ || e == "raw"@ || e == "3fr"@ || e == "erf"@ || e == "kdc"@ || e == "mos"@ || e == "mrw"@ || e == "x3f"@)
                && !(e == "mp4"@ || e == "mov"@ || e == "m4v"@ || e == "avi"@ || e == "mkv"@ || e == "3gp"@ || e == "mts"@ || e == "m2ts"@ || e == "wmv"@ || e == "flv"@ || e == "webm"@ || e == "mpg"@ || e == "mpeg"@)
        }) ==> kind_of(stem + "."@ + ext) is None,
{
    lemma_extension_after_last_dot(stem, ext);
    lemma_extension_lists_apart(lower_ascii_seq(ext));
    let n = stem + "."@ + ext;
    assert(n[0] == stem[0]);
}

proof fn lemma_lower_keeps_dots(n: Seq<char>)
    ensures
        last_index_of(lower_ascii_seq(n), '.') == last_index_of(n, '.'),
    decreases n.len(),
{
    if n.len() > 0 {
        assert(lower_ascii_seq(n).drop_last() =~= lower_ascii_seq(n.drop_last()));
        assert(lower_ascii_seq(n).last() == ascii_lower(n.last()));
        lemma_lower_keeps_dots(n.drop_last());
    }
}

/// The case of a name's letters does not change its kind: a name and its
/// ASCII lower case are the same kind of file; and a name that starts with
/// `.` (hidden files, resource forks) is never media.
pub proof fn lemma_kind_ignores_case(name: Seq<char>)
    ensures
        kind_of(lower_ascii_seq(name)) == kind_of(name),
        name.len() > 0 && name[0] == '.' ==> kind_of(name) is None,
{
    let l = lower_ascii_seq(name);
    lemma_lower_keeps_dots(name);
    let i = last_index_of(name, '.');
    if i >= 0 {
        lemma_last_index_of(name, '.');
        let e = name.subrange(i + 1, name.len() as int);
        let le = l.subrange(i + 1, l.len() as int);
        assert(le =~= lower_ascii_seq(e));
        assert(lower_ascii_seq(le) =~= lower_ascii_seq(e)) by {
            assert forall|k: int| 0 <= k < le.len() implies #[trigger] lower_ascii_seq(le)[k] == lower_ascii_seq(e)[k] by {
                assert(ascii_lower(ascii_lower(e[k])) == ascii_lower(e[k]));
            }
        }
    }
    if name.len() > 0 {
        assert(l[0] == ascii_lower(name[0]));
    }
}

} // verus!
