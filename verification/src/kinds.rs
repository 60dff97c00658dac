//! File categories, their extensions, and extension matching on paths and URLs.
use vstd::prelude::*;

use crate::dedup::{dedup_first, lemma_dedup_first_contains};
use crate::text::{
    chars_ends_with, chars_of, ends_with, first_piece, split_on, str_to_lowercase, to_lowercase,
};

verus! {

/// File categories the user can request.
#[derive(Debug, Clone, Copy, PartialEq, Eq, Structural)]
pub enum FileKind {
    /// PDF documents (.pdf)
    Pdf,
    /// Text & document formats (.txt .md .epub .doc .docx .csv .rst)
    Text,
    /// Image formats (.jpg .jpeg .png .gif .svg .webp .bmp .ico)
    Img,
    /// Video formats (.mp4 .mkv .avi .mov .webm .flv .m4v)
    Video,
}

/// A file discovered from any source: repository tree, README, release or web page.
#[derive(Debug, Clone)]
pub struct FileSource {
    pub name: String,
    pub url: String,
}

impl View for FileSource {
    type V = (Seq<char>, Seq<char>);

    open spec fn view(&self) -> (Seq<char>, Seq<char>) {
        (self.name@, self.url@)
    }
}

/// The views of a list of files.
pub open spec fn sources_view(v: Seq<FileSource>) -> Seq<(Seq<char>, Seq<char>)> {
    v.map_values(|f: FileSource| f@)
}

/// The texts of a list of string slices.
pub open spec fn strs_view(v: Seq<&str>) -> Seq<Seq<char>> {
    v.map_values(|s: &str| s@)
}

impl FileKind {
    /// The extensions of this kind, lowercase and without the dot.
    pub open spec fn spec_extensions(self) -> Seq<Seq<char>> {
        match self {
            FileKind::Pdf => seq!["pdf"@],
            FileKind::Text => seq!["txt"@, "md"@, "epub"@, "doc"@, "docx"@, "csv"@, "rst"@],
            FileKind::Img => seq!["jpg"@, "jpeg"@, "png"@, "gif"@, "svg"@, "webp"@, "bmp"@, "ico"@],
            FileKind::Video => seq!["mp4"@, "mkv"@, "avi"@, "mov"@, "webm"@, "flv"@, "m4v"@],
        }
    }

    /// The extensions of this kind, lowercase and without the dot.
    pub fn extensions(&self) -> (r: &'static [&'static str])
        ensures
            strs_view(r@) == self.spec_extensions(),
    {
        let r: &'static [&'static str] = match self {
            FileKind::Pdf => &["pdf"],
            FileKind::Text => &["txt", "md", "epub", "doc", "docx", "csv", "rst"],
            FileKind::Img => &["jpg", "jpeg", "png", "gif", "svg", "webp", "bmp", "ico"],
            FileKind::Video => &["mp4", "mkv", "avi", "mov", "webm", "flv", "m4v"],
        };
        assert(strs_view(r@) =~= self.spec_extensions());
        r
    }

    /// A short human-readable name of this kind.
    pub open spec fn spec_label(self) -> Seq<char> {
        match self {
            FileKind::Pdf => "PDF"@,
            FileKind::Text => "text"@,
            FileKind::Img => "image"@,
            FileKind::Video => "video"@,
        }
    }

    /// A short human-readable name of this kind.
    pub fn label(&self) -> (r: &'static str)
        ensures
            r@ == self.spec_label(),
    {
        match self {
            FileKind::Pdf => "PDF",
            FileKind::Text => "text",
            FileKind::Img => "image",
            FileKind::Video => "video",
        }
    }
}

/// The extensions of every kind in `kinds`, in order.
pub open spec fn flat_extensions(kinds: Seq<FileKind>) -> Seq<Seq<char>>
    decreases kinds.len(),
{
    if kinds.len() == 0 {
        Seq::empty()
    } else {
        flat_extensions(kinds.drop_last()) + kinds.last().spec_extensions()
    }
}

fn contains_str(v: &Vec<&'static str>, e: &Vec<char>) -> (r: bool)
    ensures
        r == strs_view(v@).contains(e@),
{
    let mut i: usize = 0;
    while i < v.len()
        invariant
            i <= v.len(),
            forall|j: int| 0 <= j < i ==> strs_view(v@)[j] != e@,
        decreases v.len() - i,
    {
        if crate::text::chars_eq(&chars_of(v[i]), e) {
            assert(strs_view(v@)[i as int] == e@);
            return true;
        }
        i += 1;
    }
    proof {
        if strs_view(v@).contains(e@) {
            let j = choose|j: int| 0 <= j < strs_view(v@).len() && strs_view(v@)[j] == e@;
        }
    }
    false
}

/// The extensions of `kinds`, in order, each kept at its first occurrence
/// only.
pub fn all_extensions(kinds: &[FileKind]) -> (r: Vec<&'static str>)
    ensures
        strs_view(r@) == dedup_first(flat_extensions(kinds@)),
{
    let mut flat: Vec<&'static str> = Vec::new();
    let mut i: usize = 0;
    while i < kinds.len()
        invariant
            i <= kinds.len(),
            strs_view(flat@) == flat_extensions(kinds@.take(i as int)),
        decreases kinds.len() - i,
    {
        let ghost before = flat@;
        let e = kinds[i].extensions();
        let mut k: usize = 0;
        while k < e.len()
            invariant
                k <= e.len(),
                strs_view(flat@) == strs_view(before) + strs_view(e@).take(k as int),
            decreases e.len() - k,
        {
            let ghost f0 = flat@;
            flat.push(e[k]);
            assert(strs_view(flat@) =~= strs_view(f0).push(e[k as int]@));
            assert(strs_view(e@).take(k + 1) =~= strs_view(e@).take(k as int).push(e[k as int]@));
            k += 1;
        }
        assert(strs_view(e@).take(e.len() as int) =~= strs_view(e@));
        assert(kinds@.take(i + 1).drop_last() =~= kinds@.take(i as int));
        assert(strs_view(flat@) =~= strs_view(before) + kinds@[i as int].spec_extensions());
        i += 1;
    }
    assert(kinds@.take(kinds.len() as int) =~= kinds@);
    let mut out: Vec<&'static str> = Vec::new();
    let mut j: usize = 0;
    while j < flat.len()
        invariant
            j <= flat.len(),
            strs_view(out@) == dedup_first(strs_view(flat@).take(j as int)),
        decreases flat.len() - j,
    {
        let e = flat[j];
        let ec = chars_of(e);
        let ghost prev = strs_view(flat@).take(j as int);
        assert(strs_view(flat@).take(j + 1).drop_last() =~= prev);
        assert(strs_view(flat@).take(j + 1).last() == e@);
        if !contains_str(&out, &ec) {
            let ghost before = out@;
            out.push(e);
            assert(strs_view(out@) =~= strs_view(before).push(e@));
        }
        j += 1;
    }
    assert(strs_view(flat@).take(flat.len() as int) =~= strs_view(flat@));
    out
}

/// Every extension of every requested kind is in `all_extensions`, nothing
/// else is, and no extension occurs twice.
pub proof fn lemma_all_extensions_members(kinds: Seq<FileKind>)
    ensures
        forall|e: Seq<char>| dedup_first(flat_extensions(kinds)).contains(e) <==> flat_extensions(kinds).contains(e),
        forall|e: Seq<char>| #[trigger] flat_extensions(kinds).contains(e) <==> exists|i: int| 0 <= i < kinds.len() && #[trigger] kinds[i].spec_extensions().contains(e),
        dedup_first(flat_extensions(kinds)).no_duplicates(),
    decreases kinds.len(),
{
    lemma_dedup_first_contains(flat_extensions(kinds));
    if kinds.len() > 0 {
        let pre = kinds.drop_last();
        lemma_all_extensions_members(pre);
        let a = flat_extensions(pre);
        let b = kinds.last().spec_extensions();
        assert forall|e: Seq<char>| #[trigger] flat_extensions(kinds).contains(e) <==> exists|i: int| 0 <= i < kinds.len() && #[trigger] kinds[i].spec_extensions().contains(e) by {
            if (a + b).contains(e) {
                let k = choose|k: int| 0 <= k < (a + b).len() && (a + b)[k] == e;
                if k < a.len() {
                    assert(a[k] == e);
                    assert(a.contains(e));
                    let i = choose|i: int| 0 <= i < pre.len() && #[trigger] pre[i].spec_extensions().contains(e);
                    assert(kinds[i] == pre[i]);
                } else {
                    assert(b[k - a.len()] == e);
                    assert(kinds[kinds.len() - 1].spec_extensions().contains(e));
                }
            }
            if exists|i: int| 0 <= i < kinds.len() && #[trigger] kinds[i].spec_extensions().contains(e) {
                let i = choose|i: int| 0 <= i < kinds.len() && #[trigger] kinds[i].spec_extensions().contains(e);
                if i < kinds.len() - 1 {
                    assert(pre[i] == kinds[i]);
                    assert(a.contains(e));
                    let k = choose|k: int| 0 <= k < a.len() && a[k] == e;
                    assert((a + b)[k] == e);
                } else {
                    let k = choose|k: int| 0 <= k < b.len() && b[k] == e;
                    assert((a + b)[a.len() + k] == e);
                }
            }
        }
    }
}

/// Whether `path` names a file with one of `exts`: the lowercased text before
/// the first `?` ends with `.` followed by one of the extensions.
pub open spec fn matches_ext_spec(path: Seq<char>, exts: Seq<Seq<char>>) -> bool {
    let clean = split_on(str_to_lowercase(path), '?')[0];
    exists|i: int| 0 <= i < exts.len() && ends_with(clean, seq!['.'] + #[trigger] exts[i])
}

/// The lowercased part of a path before any query: what extensions are read from.
pub open spec fn path_before_query(path: Seq<char>) -> Seq<char> {
    split_on(str_to_lowercase(path), '?')[0]
}

/// A path matches a kind exactly when (ignoring case and any query) it ends
/// in one of the extensions the kind documents: `.pdf`; `.txt .md .epub
/// .doc .docx .csv .rst`; `.jpg .jpeg .png .gif .svg .webp .bmp .ico`;
/// `.mp4 .mkv .avi .mov .webm .flv .m4v`.
pub proof fn lemma_kinds_match_documented_extensions(path: Seq<char>)
    ensures
        matches_ext_spec(path, FileKind::Pdf.spec_extensions()) <==> ends_with(path_before_query(path), seq!['.'] + "pdf"@),
        matches_ext_spec(path, FileKind::Text.spec_extensions()) <==> {
            let c = path_before_query(path);
            ||| ends_with(c, seq!['.'] + "txt"@)
            ||| ends_with(c, seq!['.'] + "md"@)
            ||| ends_with(c, seq!['.'] + "epub"@)
            ||| ends_with(c, seq!['.'] + "doc"@)
            ||| ends_with(c, seq!['.'] + "docx"@)
            ||| ends_with(c, seq!['.'] + "csv"@)
            ||| ends_with(c, seq!['.'] + "rst"@)
        },
        matches_ext_spec(path, FileKind::Img.spec_extensions()) <==> {
            let c = path_before_query(path);
            ||| ends_with(c, seq!['.'] + "jpg"@)
            ||| ends_with(c, seq!['.'] + "jpeg"@)
            ||| ends_with(c, seq!['.'] + "png"@)
            ||| ends_with(c, seq!['.'] + "gif"@)
            ||| ends_with(c, seq!['.'] + "svg"@)
            ||| ends_with(c, seq!['.'] + "webp"@)
            ||| ends_with(c, seq!['.'] + "bmp"@)
            ||| ends_with(c, seq!['.'] + "ico"@)
        },
        matches_ext_spec(path, FileKind::Video.spec_extensions()) <==> {
            let c = path_before_query(path);
            ||| ends_with(c, seq!['.'] + "mp4"@)
            ||| ends_with(c, seq!['.'] + "mkv"@)
            ||| ends_with(c, seq!['.'] + "avi"@)
            ||| ends_with(c, seq!['.'] + "mov"@)
            ||| ends_with(c, seq!['.'] + "webm"@)
            ||| ends_with(c, seq!['.'] + "flv"@)
            ||| ends_with(c, seq!['.'] + "m4v"@)
        },
{
    let c = path_before_query(path);
    let e = FileKind::Pdf.spec_extensions();
    if ends_with(c, seq!['.'] + "pdf"@) {
        assert(ends_with(c, seq!['.'] + e[0]));
    }
    let e = FileKind::Text.spec_extensions();
    assert(e[0] == "txt"@ && e[1] == "md"@ && e[2] == "epub"@ && e[3] == "doc"@ && e[4] == "docx"@ && e[5] == "csv"@ && e[6] == "rst"@);
    if ends_with(c, seq!['.'] + "txt"@) { assert(ends_with(c, seq!['.'] + e[0])); }
    if ends_with(c, seq!['.'] + "md"@) { assert(ends_with(c, seq!['.'] + e[1])); }
    if ends_with(c, seq!['.'] + "epub"@) { assert(ends_with(c, seq!['.'] + e[2])); }
    if ends_with(c, seq!['.'] + "doc"@) { assert(ends_with(c, seq!['.'] + e[3])); }
    if ends_with(c, seq!['.'] + "docx"@) { assert(ends_with(c, seq!['.'] + e[4])); }
    if ends_with(c, seq!['.'] + "csv"@) { assert(ends_with(c, seq!['.'] + e[5])); }
    if ends_with(c, seq!['.'] + "rst"@) { assert(ends_with(c, seq!['.'] + e[6])); }
    let e = FileKind::Img.spec_extensions();
    assert(e[0] == "jpg"@ && e[1] == "jpeg"@ && e[2] == "png"@ && e[3] == "gif"@ && e[4] == "svg"@ && e[5] == "webp"@ && e[6] == "bmp"@ && e[7] == "ico"@);
    if ends_with(c, seq!['.'] + "jpg"@) { assert(ends_with(c, seq!['.'] + e[0])); }
    if ends_with(c, seq!['.'] + "jpeg"@) { assert(ends_with(c, seq!['.'] + e[1])); }
    if ends_with(c, seq!['.'] + "png"@) { assert(ends_with(c, seq!['.'] + e[2])); }
    if ends_with(c, seq!['.'] + "gif"@) { assert(ends_with(c, seq!['.'] + e[3])); }
    if ends_with(c, seq!['.'] + "svg"@) { assert(ends_with(c, seq!['.'] + e[4])); }
    if ends_with(c, seq!['.'] + "webp"@) { assert(ends_with(c, seq!['.'] + e[5])); }
    if ends_with(c, seq!['.'] + "bmp"@) { assert(ends_with(c, seq!['.'] + e[6])); }
    if ends_with(c, seq!['.'] + "ico"@) { assert(ends_with(c, seq!['.'] + e[7])); }
    let e = FileKind::Video.spec_extensions();
    assert(e[0] == "mp4"@ && e[1] == "mkv"@ && e[2] == "avi"@ && e[3] == "mov"@ && e[4] == "webm"@ && e[5] == "flv"@ && e[6] == "m4v"@);
    if ends_with(c, seq!['.'] + "mp4"@) { assert(ends_with(c, seq!['.'] + e[0])); }
    if ends_with(c, seq!['.'] + "mkv"@) { assert(ends_with(c, seq!['.'] + e[1])); }
    if ends_with(c, seq!['.'] + "avi"@) { assert(ends_with(c, seq!['.'] + e[2])); }
    if ends_with(c, seq!['.'] + "mov"@) { assert(ends_with(c, seq!['.'] + e[3])); }
    if ends_with(c, seq!['.'] + "webm"@) { assert(ends_with(c, seq!['.'] + e[4])); }
    if ends_with(c, seq!['.'] + "flv"@) { assert(ends_with(c, seq!['.'] + e[5])); }
    if ends_with(c, seq!['.'] + "m4v"@) { assert(ends_with(c, seq!['.'] + e[6])); }
}

/// Returns `true` if `path` (or a URL) ends with one of the supplied
/// extensions; the query string is ignored and case does not matter for the path.
pub fn matches_ext(path: &str, exts: &[&str]) -> (r: bool)
    ensures
        r == matches_ext_spec(path@, strs_view(exts@)),
{
    let lower = to_lowercase(path);
    let lc = chars_of(lower.as_str());
    let clean = first_piece(&lc, '?');
    let ghost ev = strs_view(exts@);
    let mut i: usize = 0;
    while i < exts.len()
        invariant
            i <= exts.len(),
            ev == strs_view(exts@),
            clean@ == split_on(str_to_lowercase(path@), '?')[0],
            forall|j: int| 0 <= j < i ==> !ends_with(clean@, seq!['.'] + #[trigger] ev[j]),
        decreases exts.len() - i,
    {
        let mut suffix: Vec<char> = Vec::new();
        suffix.push('.');
        let mut e = chars_of(exts[i]);
        suffix.append(&mut e);
        assert(suffix@ =~= seq!['.'] + ev[i as int]);
        if chars_ends_with(&clean, &suffix) {
            return true;
        }
        i += 1;
    }
    false
}

} // verus!
