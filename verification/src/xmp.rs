//! XMP sidecars: rating, pick flag, favorite and tags written next to a
//! photo as `name.ext.xmp`, marked as ours so foreign sidecars are left alone.

use crate::text::{chars_of, concat, string_of};
use vstd::prelude::*;

verus! {

/// What a sidecar export did.
#[derive(Debug, Clone, Default)]
pub struct XmpResult {
    pub written: usize,
    pub skipped: usize,
    pub failed: usize,
}

/// What a sidecar records about one photo.
pub struct Meta<'a> {
    pub rating: i32,
    /// 0 undecided, 1 kept, 2 rejected.
    pub culling_flag: i32,
    pub favorite: bool,
    pub tags: &'a [String],
}

/// The attribute that marks a sidecar as written by this program.
pub const MARK: &'static str = "acut:Sidecar=\"1\"";

/// The attribute that marks a sidecar as written by this program.
pub open spec fn mark() -> Seq<char> {
    "acut:Sidecar=\"1\""@
}

/// XML escaping of one character.
pub open spec fn esc_char(c: char) -> Seq<char> {
    if c == '&' {
        "&amp;"@
    } else if c == '<' {
        "&lt;"@
    } else if c == '>' {
        "&gt;"@
    } else if c == '"' {
        "&quot;"@
    } else {
        seq![c]
    }
}

/// `&`, `<`, `>` and `"` written as entities.
pub open spec fn escaped(s: Seq<char>) -> Seq<char>
    decreases s.len(),
{
    if s.len() == 0 {
        Seq::empty()
    } else {
        escaped(s.drop_last()) + esc_char(s.last())
    }
}

pub fn esc(s: &[char]) -> (r: Vec<char>)
    ensures
        r@ == escaped(s@),
{
    let amp = chars_of("&amp;");
    let lt = chars_of("&lt;");
    let gt = chars_of("&gt;");
    let quot = chars_of("&quot;");
    let mut r: Vec<char> = Vec::new();
    let mut i: usize = 0;
    assert(s@.subrange(0, 0) =~= Seq::<char>::empty());
    while i < s.len()
        invariant
            i <= s@.len(),
            amp@ == "&amp;"@,
            lt@ == "&lt;"@,
            gt@ == "&gt;"@,
            quot@ == "&quot;"@,
            r@ == escaped(s@.subrange(0, i as int)),
        decreases s.len() - i,
    {
        assert(s@.subrange(0, i + 1).drop_last() =~= s@.subrange(0, i as int));
        let c = s[i];
        if c == '&' {
            r = concat(r.as_slice(), amp.as_slice());
        } else if c == '<' {
            r = concat(r.as_slice(), lt.as_slice());
        } else if c == '>' {
            r = concat(r.as_slice(), gt.as_slice());
        } else if c == '"' {
            r = concat(r.as_slice(), quot.as_slice());
        } else {
            r.push(c);
            assert(r@ =~= escaped(s@.subrange(0, i as int)) + seq![c]);
        }
        i = i + 1;
    }
    assert(s@.subrange(0, s@.len() as int) =~= s@);
    r
}

/// One tag as a list item.
pub open spec fn tag_item(t: Seq<char>) -> Seq<char> {
    "     <rdf:li>"@ + escaped(t) + "</rdf:li>\n"@
}

pub open spec fn tag_items(tags: Seq<Seq<char>>) -> Seq<char>
    decreases tags.len(),
{
    if tags.len() == 0 {
        Seq::empty()
    } else {
        tag_items(tags.drop_last()) + tag_item(tags.last())
    }
}

/// The `dc:subject` bag, or nothing when there are no tags.
pub open spec fn subject(tags: Seq<Seq<char>>) -> Seq<char> {
    if tags.len() == 0 {
        Seq::empty()
    } else {
        "    <dc:subject>\n     <rdf:Bag>\n"@ + tag_items(tags) + "     </rdf:Bag>\n    </dc:subject>\n"@
    }
}

pub open spec fn flag_text(f: i32) -> Seq<char> {
    if f == 1 {
        "pick"@
    } else if f == 2 {
        "reject"@
    } else {
        "none"@
    }
}

/// The rating held to `0..=5`, as its digit.
pub open spec fn rating_text(r: i32) -> Seq<char> {
    let v: int = if r < 0 {
        0
    } else if r > 5 {
        5
    } else {
        r as int
    };
    seq![((v + 48) as u32) as char]
}

pub open spec fn head() -> Seq<char> {
    "<?xpacket begin=\"\u{FEFF}\" id=\"W5M0MpCehiHzreSzNTczkc9d\"?>\n<x:xmpmeta xmlns:x=\"adobe:ns:meta/\">\n<rdf:RDF xmlns:rdf=\"http://www.w3.org/1999/02/22-rdf-syntax-ns#\">\n<rdf:Description rdf:about=\"\"\nxmlns:xmp=\"http://ns.adobe.com/xap/1.0/\"\nxmlns:dc=\"http://purl.org/dc/elements/1.1/\"\nxmlns:acut=\"https://acut.media/ns/1.0/\"\nxmp:Rating=\""@
}

pub open spec fn tail() -> Seq<char> {
    "</rdf:Description>\n</rdf:RDF>\n</x:xmpmeta>\n<?xpacket end=\"w\"?>\n"@
}

/// The sidecar text for a photo's rating, flag, favorite mark and tags.
pub open spec fn rendered(rating: i32, flag: i32, favorite: bool, tags: Seq<Seq<char>>) -> Seq<
    char,
> {
    head() + rating_text(rating) + "\"\nacut:Flag=\""@ + flag_text(flag) + "\"\nacut:Favorite=\""@ + (
    if favorite {
        "true"@
    } else {
        "false"@
    }) + "\"\n"@ + mark() + ">\n"@ + subject(tags) + tail()
}

pub open spec fn tag_views(tags: Seq<String>) -> Seq<Seq<char>> {
    tags.map_values(|t: String| t@)
}

fn append_lit(r: Vec<char>, lit: &str) -> (out: Vec<char>)
    ensures
        out@ == r@ + lit@,
{
    let l = chars_of(lit);
    concat(r.as_slice(), l.as_slice())
}

fn subject_chars(tags: &[String]) -> (r: Vec<char>)
    ensures
        r@ == subject(tag_views(tags@)),
{
    if tags.len() == 0 {
        return Vec::new();
    }
    let ghost tv = tag_views(tags@);
    let mut items: Vec<char> = Vec::new();
    let mut i: usize = 0;
    assert(tv.subrange(0, 0) =~= Seq::<Seq<char>>::empty());
    while i < tags.len()
        invariant
            i <= tags@.len(),
            tv == tag_views(tags@),
            items@ == tag_items(tv.subrange(0, i as int)),
        decreases tags.len() - i,
    {
        assert(tv.subrange(0, i + 1).drop_last() =~= tv.subrange(0, i as int));
        assert(tv[i as int] == tags@[i as int]@);
        let t = chars_of(tags[i].as_str());
        let e = esc(t.as_slice());
        let a = append_lit(items, "     <rdf:li>");
        let b = concat(a.as_slice(), e.as_slice());
        items = append_lit(b, "</rdf:li>\n");
        assert(items@ =~= tag_items(tv.subrange(0, i as int)) + tag_item(tv[i as int]));
        i = i + 1;
    }
    assert(tv.subrange(0, tags@.len() as int) =~= tv);
    let open = chars_of("    <dc:subject>\n     <rdf:Bag>\n");
    let a = concat(open.as_slice(), items.as_slice());
    append_lit(a, "     </rdf:Bag>\n    </dc:subject>\n")
}

/// The sidecar text.
pub fn render(m: &Meta) -> (r: String)
    ensures
        r@ == rendered(m.rating, m.culling_flag, m.favorite, tag_views(m.tags@)),
{
    let rating: u32 = if m.rating < 0 {
        0
    } else if m.rating > 5 {
        5
    } else {
        m.rating as u32
    };
    let digit = crate::text::decimal_of(rating as u64);
    assert(digit@ =~= rating_text(m.rating));
    let flag = if m.culling_flag == 1 {
        "pick"
    } else if m.culling_flag == 2 {
        "reject"
    } else {
        "none"
    };
    let fav = if m.favorite {
        "true"
    } else {
        "false"
    };
    let r = chars_of("<?xpacket begin=\"\u{FEFF}\" id=\"W5M0MpCehiHzreSzNTczkc9d\"?>\n<x:xmpmeta xmlns:x=\"adobe:ns:meta/\">\n<rdf:RDF xmlns:rdf=\"http://www.w3.org/1999/02/22-rdf-syntax-ns#\">\n<rdf:Description rdf:about=\"\"\nxmlns:xmp=\"http://ns.adobe.com/xap/1.0/\"\nxmlns:dc=\"http://purl.org/dc/elements/1.1/\"\nxmlns:acut=\"https://acut.media/ns/1.0/\"\nxmp:Rating=\"");
    let r = concat(r.as_slice(), digit.as_slice());
    let r = append_lit(r, "\"\nacut:Flag=\"");
    let r = append_lit(r, flag);
    let r = append_lit(r, "\"\nacut:Favorite=\"");
    let r = append_lit(r, fav);
    let r = append_lit(r, "\"\n");
    let r = append_lit(r, "acut:Sidecar=\"1\"");
    let r = append_lit(r, ">\n");
    let tags = subject_chars(m.tags);
    let r = concat(r.as_slice(), tags.as_slice());
    let r = append_lit(r, "</rdf:Description>\n</rdf:RDF>\n</x:xmpmeta>\n<?xpacket end=\"w\"?>\n");
    string_of(r.as_slice())
}

/// The sidecar of a photo: its whole name followed by `.xmp`.
pub fn sidecar_path(photo: &str) -> (r: String)
    ensures
        r@ == photo@ + ".xmp"@,
{
    let p = chars_of(photo);
    let r = append_lit(p, ".xmp");
    string_of(r.as_slice())
}


/// Whether `t` occurs in `s`.
pub open spec fn occurs(s: Seq<char>, t: Seq<char>) -> bool {
    exists|i: int| 0 <= i && i + t.len() <= s.len() && #[trigger] s.subrange(i, i + t.len()) == t
}

pub fn occurs_in(s: &[char], t: &[char]) -> (r: bool)
    ensures
        r == occurs(s@, t@),
{
    if t.len() > s.len() {
        return false;
    }
    let sl = s.len();
    let last = sl - t.len();
    let mut i: usize = 0;
    loop
        invariant
            sl == s@.len(),
            t@.len() <= s@.len(),
            last == s@.len() - t@.len(),
            i <= last,
            forall|k: int| 0 <= k < i ==> #[trigger] s@.subrange(k, k + t@.len()) != t@,
        decreases last - i,
    {
        let part = crate::text::slice_of(s, i, i + t.len());
        if crate::text::chars_eq(part.as_slice(), t) {
            return true;
        }
        if i == last {
            return false;
        }
        i = i + 1;
    }
}

/// What writing a sidecar does, given what the file holds now.
#[derive(Debug, Clone, Copy, PartialEq, Eq, Structural)]
pub enum WritePlan {
    /// A sidecar another program wrote is there: left alone.
    Foreign,
    /// Ours is there with the same content: nothing to write.
    Unchanged,
    /// Write the new content.
    Write,
}

/// The plan for a sidecar: another program's is never overwritten; ours is
/// rewritten only when its content changes.
pub open spec fn write_plan_of(old: Option<Seq<char>>, body: Seq<char>) -> WritePlan {
    match old {
        Some(o) => if !occurs(o, mark()) {
            WritePlan::Foreign
        } else if o == body {
            WritePlan::Unchanged
        } else {
            WritePlan::Write
        },
        None => WritePlan::Write,
    }
}

pub fn write_plan(old: Option<&str>, body: &str) -> (r: WritePlan)
    ensures
        r == write_plan_of(
            match old {
                Some(o) => Some(o@),
                None => None,
            },
            body@,
        ),
{
    match old {
        None => WritePlan::Write,
        Some(o) => {
            let oc = chars_of(o);
            let m = chars_of(MARK);
            assert(m@ == mark());
            if !occurs_in(oc.as_slice(), m.as_slice()) {
                WritePlan::Foreign
            } else {
                let b = chars_of(body);
                if crate::text::chars_eq(oc.as_slice(), b.as_slice()) {
                    WritePlan::Unchanged
                } else {
                    WritePlan::Write
                }
            }
        },
    }
}

} // verus!
