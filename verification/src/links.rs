//! Finding file links in text and sitemaps, and deriving file names from URLs.
use vstd::prelude::*;

use percent_encoding::percent_decode_str;
use regex::Regex;

use crate::dedup::{fx_string_set, fx_strings_insert, fx_strings_with_capacity};
use crate::kinds::{sources_view, strs_view, FileSource};
use crate::text::{
    chars_of, first_piece, last_piece, split_on, string_of, trim_chars, trim_ws,
};

verus! {

// ---------------------------------------------------------------------------
// Outside calls
// ---------------------------------------------------------------------------

/// What `regex` finds: for every match of `pattern` in `text`, left to right
/// and without overlap (`Regex::captures_iter`), the text of capture group
/// `group`, or `None` where that group took no part; `None` as a whole when
/// `Regex::new` refuses the pattern.
pub uninterp spec fn regex_captures(pattern: Seq<char>, text: Seq<char>, group: usize) -> Option<Seq<Option<Seq<char>>>>;

/// `Regex::new` then `Regex::captures_iter`, reading capture group `group`
/// of each match. As the crate documents, group 0 is the whole match and
/// always takes part.
#[verifier::external_body]
fn regex_capture_group(pattern: &str, text: &str, group: usize) -> (r: Option<Vec<Option<String>>>)
    ensures
        r.deep_view() == regex_captures(pattern@, text@, group),
        group == 0 ==> (r matches Some(v) ==> forall|i: int| 0 <= i < v.len() ==> #[trigger] v@[i] is Some),
{
    let re = Regex::new(pattern).ok()?;
    Some(re.captures_iter(text).map(|c| c.get(group).map(|m| m.as_str().to_owned())).collect())
}

/// What `percent_decode_str(s).decode_utf8()` gives: the text with `%XX`
/// escapes decoded, or `None` when the decoded bytes are not UTF-8.
pub uninterp spec fn percent_decoded(s: Seq<char>) -> Option<Seq<char>>;

/// `percent_encoding::percent_decode_str` followed by `decode_utf8`.
#[verifier::external_body]
fn percent_decode_utf8(s: &str) -> (r: Option<String>)
    ensures
        r.deep_view() == percent_decoded(s@),
{
    percent_decode_str(s).decode_utf8().ok().map(|c| c.into_owned())
}

// ---------------------------------------------------------------------------
// File links in free text
// ---------------------------------------------------------------------------

/// `items` joined with `sep` between neighbours (`slice::join`).
pub open spec fn join_with(items: Seq<Seq<char>>, sep: Seq<char>) -> Seq<char>
    decreases items.len(),
{
    if items.len() == 0 {
        Seq::empty()
    } else if items.len() == 1 {
        items[0]
    } else {
        join_with(items.drop_last(), sep) + sep + items.last()
    }
}

/// The start of the file-link pattern, up to the extension alternatives.
pub open spec fn link_pattern_head() -> Seq<char> {
    "https?://[^\\s\\)\\]\"'>]+\\.(?i:"@
}

/// The end of the file-link pattern, after the extension alternatives.
pub open spec fn link_pattern_tail() -> Seq<char> {
    ")(?:[^\\s\\)\\]\"'>]*)"@
}

/// The pattern of an absolute http(s) URL whose path has one of `exts`
/// (case-insensitively), up to the next whitespace, bracket, quote or `>`.
pub open spec fn file_link_pattern(exts: Seq<Seq<char>>) -> Seq<char> {
    link_pattern_head() + join_with(exts, seq!['|']) + link_pattern_tail()
}

/// The file name shown for a link: the text after the last `/`, up to any `?`.
pub open spec fn link_name(url: Seq<char>) -> Seq<char> {
    split_on(split_on(url, '/').last(), '?')[0]
}

/// One step of turning matches into files: a URL seen before is dropped.
pub open spec fn links_from_matches(matches: Seq<Seq<char>>) -> Seq<(Seq<char>, Seq<char>)>
    decreases matches.len(),
{
    if matches.len() == 0 {
        Seq::empty()
    } else {
        let p = links_from_matches(matches.drop_last());
        if matches.drop_last().contains(matches.last()) {
            p
        } else {
            p.push((link_name(matches.last()), matches.last()))
        }
    }
}

fn join_exts(exts: &[&str]) -> (r: String)
    ensures
        r@ == join_with(strs_view(exts@), seq!['|']),
{
    let mut out = String::new();
    let ghost ev = strs_view(exts@);
    let mut i: usize = 0;
    while i < exts.len()
        invariant
            i <= exts.len(),
            ev == strs_view(exts@),
            out@ == join_with(ev.take(i as int), seq!['|']),
        decreases exts.len() - i,
    {
        assert(ev.take(i + 1).drop_last() =~= ev.take(i as int));
        assert(ev.take(i + 1).last() == exts@[i as int]@);
        if i > 0 {
            crate::text::push_char(&mut out, '|');
            out.append(exts[i]);
        } else {
            assert(ev.take(1)[0] == exts@[0]@);
            assert(ev.take(0) =~= Seq::<Seq<char>>::empty());
            out.append(exts[i]);
        }
        i += 1;
    }
    assert(ev.take(exts.len() as int) =~= ev);
    out
}

/// The name and URL of each distinct match, in order of first appearance.
pub fn file_links_from_matches(matches: Vec<String>) -> (r: Vec<FileSource>)
    ensures
        sources_view(r@) == links_from_matches(crate::dedup::strings_view(matches@)),
{
    let ghost mv = crate::dedup::strings_view(matches@);
    let mut seen = fx_strings_with_capacity(matches.len());
    let mut out: Vec<FileSource> = Vec::new();
    let mut i: usize = 0;
    while i < matches.len()
        invariant
            i <= matches.len(),
            mv == crate::dedup::strings_view(matches@),
            sources_view(out@) == links_from_matches(mv.take(i as int)),
            fx_string_set(seen) == mv.take(i as int).to_set(),
        decreases matches.len() - i,
    {
        let url = matches[i].clone();
        proof {
            assert(mv.take(i + 1).drop_last() =~= mv.take(i as int));
            assert(mv.take(i + 1).last() == url@);
            crate::dedup::lemma_take_push_to_set(mv, i as int);
        }
        let fresh = fx_strings_insert(&mut seen, url.clone());
        if fresh {
            let uc = chars_of(url.as_str());
            let last = last_piece(&uc, '/');
            let name = string_of(&first_piece(&last, '?'));
            let ghost before = out@;
            out.push(FileSource { name, url });
            assert(sources_view(out@) =~= sources_view(before).push((link_name(mv[i as int]), mv[i as int])));
        }
        i += 1;
    }
    assert(mv.take(matches.len() as int) =~= mv);
    out
}

fn link_pattern(exts: &[&str]) -> (r: String)
    ensures
        r@ == file_link_pattern(strs_view(exts@)),
{
    let mut pattern = String::from_str("https?://[^\\s\\)\\]\"'>]+\\.(?i:");
    let alts = join_exts(exts);
    pattern.append(alts.as_str());
    pattern.append(")(?:[^\\s\\)\\]\"'>]*)");
    pattern
}

/// Whether the file-link pattern built from `exts` is accepted by the regex
/// engine, so that `extract_file_links` may be called.
pub fn file_link_pattern_accepted(text: &str, exts: &[&str]) -> (r: bool)
    ensures
        r == regex_captures(file_link_pattern(strs_view(exts@)), text@, 0) is Some,
{
    let pattern = link_pattern(exts);
    regex_capture_group(pattern.as_str(), text, 0).is_some()
}

/// The files linked from `text` whose extension is one of `exts`, or `None`
/// when the pattern built from `exts` is not a valid regular expression.
pub fn try_extract_file_links(text: &str, exts: &[&str]) -> (r: Option<Vec<FileSource>>)
    ensures
        match regex_captures(file_link_pattern(strs_view(exts@)), text@, 0) {
            Some(caps) => r matches Some(v) && sources_view(v@) == links_from_matches(
                caps.map_values(|c: Option<Seq<char>>| c->0),
            ),
            None => r is None,
        },
{
    if file_link_pattern_accepted(text, exts) {
        Some(extract_file_links(text, exts))
    } else {
        None
    }
}

fn file_links_or_none(text: &str, exts: &[&str]) -> (r: Option<Vec<FileSource>>)
    ensures
        match regex_captures(file_link_pattern(strs_view(exts@)), text@, 0) {
            Some(caps) => r matches Some(v) && sources_view(v@) == links_from_matches(
                caps.map_values(|c: Option<Seq<char>>| c->0),
            ),
            None => r is None,
        },
{
    let pattern = link_pattern(exts);
    let caps = match regex_capture_group(pattern.as_str(), text, 0) {
        Some(c) => c,
        None => return None,
    };
    let ghost cv = caps.deep_view();
    let mut matches: Vec<String> = Vec::new();
    let mut i: usize = 0;
    while i < caps.len()
        invariant
            i <= caps.len(),
            cv == caps.deep_view(),
            forall|k: int| 0 <= k < caps.len() ==> #[trigger] caps@[k] is Some,
            crate::dedup::strings_view(matches@) == cv.take(i as int).map_values(|c: Option<Seq<char>>| c->0),
        decreases caps.len() - i,
    {
        assert(caps@[i as int] is Some);
        match &caps[i] {
            Some(m) => {
                let ghost before = matches@;
                matches.push(m.clone());
                assert(crate::dedup::strings_view(matches@) =~= crate::dedup::strings_view(before).push(m@));
                assert(cv.take(i + 1).map_values(|c: Option<Seq<char>>| c->0) =~= cv.take(i as int).map_values(
                    |c: Option<Seq<char>>| c->0,
                ).push(m@));
            },
            None => {},
        }
        i += 1;
    }
    assert(cv.take(caps.len() as int) =~= cv);
    Some(file_links_from_matches(matches))
}

/// The files linked from `text` whose extension is one of `exts` (matched
/// case-insensitively): each distinct absolute http(s) URL once, in order of
/// first appearance, named by its last path segment without the query.
///
/// The extensions are placed into a regular expression as they are, so they
/// must make a valid one.
pub fn extract_file_links(text: &str, exts: &[&str]) -> (r: Vec<FileSource>)
    requires
        regex_captures(file_link_pattern(strs_view(exts@)), text@, 0) is Some,
    ensures
        sources_view(r@) == links_from_matches(
            regex_captures(file_link_pattern(strs_view(exts@)), text@, 0)->0.map_values(|c: Option<Seq<char>>| c->0),
        ),
{
    match file_links_or_none(text, exts) {
        Some(v) => v,
        None => Vec::new(),
    }
}

// ---------------------------------------------------------------------------
// Sitemaps
// ---------------------------------------------------------------------------

/// The pattern of a `<loc>` entry holding an http(s) URL.
pub open spec fn loc_pattern() -> Seq<char> {
    "<loc>\\s*(https?://[^\\s<]+)\\s*</loc>"@
}

/// The URLs captured from `<loc>` entries, trimmed, skipping entries where the
/// URL group took no part.
pub open spec fn locs_from_captures(caps: Seq<Option<Seq<char>>>) -> Seq<Seq<char>>
    decreases caps.len(),
{
    if caps.len() == 0 {
        Seq::empty()
    } else {
        let p = locs_from_captures(caps.drop_last());
        match caps.last() {
            Some(u) => p.push(trim_ws(u)),
            None => p,
        }
    }
}

/// Extracts all `<loc>` URL values from a sitemap XML body, in order; `None`
/// only if the `<loc>` pattern itself is refused by the regex engine.
pub fn parse_sitemap_locs(xml: &str) -> (r: Option<Vec<String>>)
    ensures
        match regex_captures(loc_pattern(), xml@, 1) {
            Some(caps) => r matches Some(v) && crate::dedup::strings_view(v@) == locs_from_captures(caps),
            None => r is None,
        },
{
    let caps = match regex_capture_group("<loc>\\s*(https?://[^\\s<]+)\\s*</loc>", xml, 1) {
        Some(c) => c,
        None => return None,
    };
    let ghost cv = caps.deep_view();
    let mut out: Vec<String> = Vec::new();
    let mut i: usize = 0;
    while i < caps.len()
        invariant
            i <= caps.len(),
            cv == caps.deep_view(),
            crate::dedup::strings_view(out@) == locs_from_captures(cv.take(i as int)),
        decreases caps.len() - i,
    {
        assert(cv.take(i + 1).drop_last() =~= cv.take(i as int));
        match &caps[i] {
            Some(m) => {
                let t = string_of(&trim_chars(&chars_of(m.as_str())));
                let ghost before = out@;
                out.push(t);
                assert(crate::dedup::strings_view(out@) =~= crate::dedup::strings_view(before).push(t@));
            },
            None => {},
        }
        i += 1;
    }
    assert(cv.take(caps.len() as int) =~= cv);
    Some(out)
}

// ---------------------------------------------------------------------------
// URL utilities
// ---------------------------------------------------------------------------

/// `url` without its fragment: the text before the first `#`.
pub open spec fn without_fragment(url: Seq<char>) -> Seq<char> {
    split_on(url, '#')[0]
}

/// Removes the fragment (`#section`) from a URL string.
pub fn strip_fragment(url: &str) -> (r: String)
    ensures
        r@ == without_fragment(url@),
{
    string_of(&first_piece(&chars_of(url), '#'))
}

/// `s` with every path separator (`/` or a backslash) replaced by `_`.
pub open spec fn without_separators(s: Seq<char>) -> Seq<char> {
    s.map_values(|c: char| if c == '/' || c == '\\' { '_' } else { c })
}

/// The file name derived from a URL: the last path segment, with the query
/// string removed and percent-escapes decoded (left as is when they do not
/// decode to UTF-8), and any path separator the decoding produced replaced
/// by `_`; `unknown` when that leaves nothing, `.` or `..`. The name is
/// always a single plain component, so a file saved under it stays in the
/// output directory.
pub open spec fn clean_name(url: Seq<char>) -> Seq<char> {
    let raw = split_on(split_on(url, '?')[0], '/').last();
    let decoded = match percent_decoded(raw) {
        Some(d) => d,
        None => raw,
    };
    let safe = without_separators(decoded);
    if safe.len() == 0 || safe == seq!['.'] || safe == seq!['.', '.'] {
        "unknown"@
    } else {
        safe
    }
}

/// A derived file name is one plain path component: not empty, not `.` or
/// `..`, and without `/` or a backslash.
pub proof fn lemma_clean_name_is_plain(url: Seq<char>)
    ensures
        clean_name(url).len() > 0,
        clean_name(url) != seq!['.'],
        clean_name(url) != seq!['.', '.'],
        !clean_name(url).contains('/'),
        !clean_name(url).contains('\\'),
{
    reveal_strlit("unknown");
    let n = clean_name(url);
    assert forall|i: int| 0 <= i < n.len() implies #[trigger] n[i] != '/' && n[i] != '\\' by {
    }
    if n == seq!['.'] {
        assert(n[0] == 'u');
    }
    if n == seq!['.', '.'] {
        assert(n[0] == 'u');
    }
}

/// Derives a clean filename from a URL (see `clean_name`).
pub fn clean_filename(url: &str) -> (r: String)
    ensures
        r@ == clean_name(url@),
{
    let path_part = first_piece(&chars_of(url), '?');
    let raw = string_of(&last_piece(&path_part, '/'));
    let decoded = match percent_decode_utf8(raw.as_str()) {
        Some(d) => d,
        None => raw,
    };
    let d = chars_of(decoded.as_str());
    let mut safe: Vec<char> = Vec::new();
    let mut i: usize = 0;
    while i < d.len()
        invariant
            i <= d.len(),
            safe@ == without_separators(d@.take(i as int)),
        decreases d.len() - i,
    {
        let c = d[i];
        let ghost before = safe@;
        if c == '/' || c == '\\' {
            safe.push('_');
        } else {
            safe.push(c);
        }
        assert(without_separators(d@.take(i + 1)) =~= without_separators(d@.take(i as int)).push(safe@.last()));
        i += 1;
    }
    assert(d@.take(d.len() as int) =~= d@);
    let n = safe.len();
    let dot_only = (n == 1 && safe[0] == '.') || (n == 2 && safe[0] == '.' && safe[1] == '.');
    proof {
        if n == 1 && safe@ == seq!['.'] {
            assert(safe[0] == '.');
        }
        if n == 2 && safe@ == seq!['.', '.'] {
            assert(safe[0] == '.' && safe[1] == '.');
        }
        if dot_only && n == 1 {
            assert(safe@ =~= seq!['.']);
        }
        if dot_only && n == 2 {
            assert(safe@ =~= seq!['.', '.']);
        }
    }
    if n == 0 || dot_only {
        String::from_str("unknown")
    } else {
        string_of(&safe)
    }
}

} // verus!
