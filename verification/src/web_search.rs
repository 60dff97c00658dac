//! Searches for PDF documents on DuckDuckGo, Google Scholar and GitHub:
//! request URLs and the reading of each answer.
use vstd::prelude::*;

use percent_encoding::{percent_decode_str, utf8_percent_encode, NON_ALPHANUMERIC};

use crate::find::{results_view, FindResult, FindView};
use crate::github::TreeEntry;
use crate::html::{concat_text, html_items, items_view, join_text, node_text, select_items, HtmlItemView};
use crate::links::join_with;
use crate::text::{
    char_is_alphanumeric, chars_contains, chars_ends_with, chars_of, contains_run, ends_with, find_chars,
    copy_range, first_occurrence, first_piece, occurs_at, is_alphanumeric, last_piece, push_char, split_on, str_to_lowercase, string_of,
    to_lowercase, trim_chars, trim_ws,
};

verus! {

// ---------------------------------------------------------------------------
// Outside calls
// ---------------------------------------------------------------------------

/// What `utf8_percent_encode(s, NON_ALPHANUMERIC)` makes of `s`.
pub uninterp spec fn percent_encoded(s: Seq<char>) -> Seq<char>;

/// What `percent_decode_str(s).decode_utf8_lossy()` makes of `s`.
pub uninterp spec fn percent_decoded_lossy(s: Seq<char>) -> Seq<char>;

/// `percent_encoding::utf8_percent_encode` with the `NON_ALPHANUMERIC` set.
#[verifier::external_body]
fn percent_encode(s: &str) -> (r: String)
    ensures
        r@ == percent_encoded(s@),
{
    utf8_percent_encode(s, NON_ALPHANUMERIC).to_string()
}

/// `percent_encoding::percent_decode_str` followed by `decode_utf8_lossy`.
#[verifier::external_body]
fn percent_decode_lossy(s: &str) -> (r: String)
    ensures
        r@ == percent_decoded_lossy(s@),
{
    percent_decode_str(s).decode_utf8_lossy().into_owned()
}

// ---------------------------------------------------------------------------
// Shared pieces
// ---------------------------------------------------------------------------

/// The character that `c` becomes in a result filename: itself when
/// alphanumeric or a space, `_` otherwise.
pub open spec fn title_char(c: char) -> char {
    if !char_is_alphanumeric(c) && c != ' ' {
        '_'
    } else {
        c
    }
}

/// The PDF filename for a result title.
pub open spec fn pdf_filename(title: Seq<char>) -> Seq<char> {
    title.map_values(|c: char| title_char(c)) + ".pdf"@
}

fn pdf_filename_exec(title: &String) -> (r: String)
    ensures
        r@ == pdf_filename(title@),
{
    let t = chars_of(title.as_str());
    let ghost m = title@.map_values(|c: char| title_char(c));
    let mut out = String::new();
    let mut i: usize = 0;
    while i < t.len()
        invariant
            i <= t.len(),
            t@ == title@,
            m == title@.map_values(|c: char| title_char(c)),
            out@ == m.take(i as int),
        decreases t.len() - i,
    {
        let c = t[i];
        let d = if !is_alphanumeric(c) && c != ' ' { '_' } else { c };
        push_char(&mut out, d);
        assert(m.take(i + 1) =~= m.take(i as int).push(d));
        i += 1;
    }
    assert(m.take(t.len() as int) =~= m);
    out.append(".pdf");
    out
}

/// The title of a result: the text nodes of `node` joined with spaces and
/// trimmed, or `fallback` when there is no such element.
pub open spec fn title_or(node: Option<(Option<Seq<char>>, Seq<Seq<char>>)>, fallback: Seq<char>) -> Seq<char> {
    match node {
        Some(n) => trim_ws(join_with(n.1, seq![' '])),
        None => fallback,
    }
}

fn title_or_exec(node: &Option<crate::html::HtmlNode>, fallback: &str) -> (r: String)
    ensures
        r@ == title_or(
            match node {
                Some(n) => Some(n@),
                None => None,
            },
            fallback@,
        ),
{
    match node {
        Some(n) => string_of(&trim_chars(&chars_of(join_text(&n.text).as_str()))),
        None => String::from_str(fallback),
    }
}

fn pdf_result(source: &'static str, title: String, url: String) -> (r: FindResult)
    ensures
        r@ == (source@, title@, url@, Some("pdf"@), pdf_filename(title@)),
{
    let filename = pdf_filename_exec(&title);
    FindResult { source, title, url, format: Some(String::from_str("pdf")), filename }
}

// ---------------------------------------------------------------------------
// DuckDuckGo
// ---------------------------------------------------------------------------

/// The request URL of a DuckDuckGo search for PDF files about `query`.
pub open spec fn ddg_request(query: Seq<char>) -> Seq<char> {
    "https://html.duckduckgo.com/html/?q="@ + percent_encoded(query + " filetype:pdf"@)
}

/// The request URL of a DuckDuckGo search for PDF files about `query`.
pub fn ddg_search_url(query: &str) -> (r: String)
    ensures
        r@ == ddg_request(query@),
{
    let mut q = String::from_str(query);
    q.append(" filetype:pdf");
    let mut u = String::from_str("https://html.duckduckgo.com/html/?q=");
    u.append(percent_encode(q.as_str()).as_str());
    u
}

/// The address a DuckDuckGo result link leads to: for a redirect link, the
/// `uddg=` argument (up to the next `&`, percent-decoded); otherwise the link itself.
pub open spec fn ddg_target(href: Seq<char>) -> Seq<char> {
    match first_occurrence(href, "uddg="@) {
        Some(i) => {
            let rest = href.skip(i + 5);
            let piece = match first_occurrence(rest, "uddg="@) {
                Some(j) => rest.take(j),
                None => rest,
            };
            percent_decoded_lossy(split_on(piece, '&')[0])
        },
        None => href,
    }
}

/// The address a DuckDuckGo result link leads to (see `ddg_target`).
pub fn ddg_target_url(href: &str) -> (r: String)
    ensures
        r@ == ddg_target(href@),
{
    let h = chars_of(href);
    let pat = chars_of("uddg=");
    proof {
        reveal_strlit("uddg=");
    }
    assert(pat@.len() == 5);
    match find_chars(&h, &pat) {
        Some(i) => {
            assert(occurs_at(h@, pat@, i as int));
            let n = h.len();
            assert(i + 5 <= n);
            let start: usize = i + 5;
            let rest = copy_range(&h, start, n);
            assert(rest@ =~= h@.skip(start as int));
            let piece: Vec<char> = match find_chars(&rest, &pat) {
                Some(j) => {
                    let p = copy_range(&rest, 0, j);
                    assert(p@ =~= rest@.take(j as int));
                    p
                },
                None => rest,
            };
            let arg = string_of(&first_piece(&piece, '&'));
            percent_decode_lossy(arg.as_str())
        },
        None => String::from_str(href),
    }
}

/// The selectors of a DuckDuckGo result, its link and its title.
pub open spec fn ddg_selectors() -> (Seq<char>, Seq<char>, Seq<Seq<char>>) {
    (".result"@, "href"@, seq![".result__url"@, ".result__title"@])
}

/// The result for one DuckDuckGo result element: kept when its link leads to
/// a `.pdf` address (ignoring case); titled by its title element or
/// `DuckDuckGo PDF`.
pub open spec fn ddg_result(item: HtmlItemView) -> Option<FindView> {
    match item.1[0] {
        Some(link) => match link.0 {
            Some(href) => {
                let target = ddg_target(href);
                if ends_with(str_to_lowercase(target), ".pdf"@) {
                    let title = title_or(item.1[1], "DuckDuckGo PDF"@);
                    Some(("duckduckgo.com"@, title, target, Some("pdf"@), pdf_filename(title)))
                } else {
                    None
                }
            },
            None => None,
        },
        None => None,
    }
}

/// The results of a DuckDuckGo answer page, in order.
pub open spec fn ddg_results_spec(items: Seq<HtmlItemView>) -> Seq<FindView>
    decreases items.len(),
{
    if items.len() == 0 {
        Seq::empty()
    } else {
        let p = ddg_results_spec(items.drop_last());
        match ddg_result(items.last()) {
            Some(r) => p.push(r),
            None => p,
        }
    }
}

fn ddg_result_exec(item: &crate::html::HtmlItem) -> (r: Option<FindResult>)
    requires
        item.inner.len() == 2,
    ensures
        match r {
            Some(v) => ddg_result(item@) == Some(v@),
            None => ddg_result(item@) is None,
        },
{
    let link = match &item.inner[0] {
        Some(l) => l,
        None => return None,
    };
    let href = match &link.attr {
        Some(h) => h,
        None => return None,
    };
    let target = ddg_target_url(href.as_str());
    let lower = chars_of(to_lowercase(target.as_str()).as_str());
    if !chars_ends_with(&lower, &chars_of(".pdf")) {
        return None;
    }
    let title = title_or_exec(&item.inner[1], "DuckDuckGo PDF");
    Some(pdf_result("duckduckgo.com", title, target))
}

/// Reads the PDF results of a DuckDuckGo answer page (see `ddg_result`).
pub fn parse_ddg_results(html: &str) -> (r: Vec<FindResult>)
    ensures
        results_view(r@) == match html_items(html@, ddg_selectors().0, ddg_selectors().1, ddg_selectors().2) {
            Some(items) => ddg_results_spec(items),
            None => Seq::empty(),
        },
{
    let inner: Vec<&str> = vec![".result__url", ".result__title"];
    assert(crate::html::selectors_view(inner@) =~= ddg_selectors().2);
    let items = match select_items(html, ".result", "href", inner.as_slice()) {
        Some(v) => v,
        None => return Vec::new(),
    };
    let ghost iv = items_view(items@);
    let mut out: Vec<FindResult> = Vec::new();
    let mut i: usize = 0;
    while i < items.len()
        invariant
            i <= items.len(),
            iv == items_view(items@),
            forall|k: int| 0 <= k < items.len() ==> (#[trigger] items@[k]).inner.len() == 2,
            results_view(out@) == ddg_results_spec(iv.take(i as int)),
        decreases items.len() - i,
    {
        assert(iv.take(i + 1).drop_last() =~= iv.take(i as int));
        assert(iv.take(i + 1).last() == items@[i as int]@);
        match ddg_result_exec(&items[i]) {
            Some(r) => {
                let ghost before = out@;
                out.push(r);
                assert(results_view(out@) =~= results_view(before).push(r@));
            },
            None => {},
        }
        i += 1;
    }
    assert(iv.take(items.len() as int) =~= iv);
    out
}

// ---------------------------------------------------------------------------
// Google Scholar
// ---------------------------------------------------------------------------

/// The request URL of a Google Scholar search for `query`.
pub open spec fn scholar_request(query: Seq<char>) -> Seq<char> {
    "https://scholar.google.com/scholar?q="@ + percent_encoded(query)
}

/// The request URL of a Google Scholar search for `query`.
pub fn scholar_search_url(query: &str) -> (r: String)
    ensures
        r@ == scholar_request(query@),
{
    let mut u = String::from_str("https://scholar.google.com/scholar?q=");
    u.append(percent_encode(query).as_str());
    u
}

/// The selectors of a Google Scholar row, its PDF link and its title link.
pub open spec fn scholar_selectors() -> (Seq<char>, Seq<char>, Seq<Seq<char>>) {
    (".gs_r.gs_or.gs_scl"@, "href"@, seq![".gs_or_ggsm a"@, ".gs_rt a"@])
}

/// The result for one Google Scholar row: kept when it has a side link whose
/// address ends in `.pdf` (ignoring case) or whose text says `[PDF]`; titled
/// by its title link or `Google Scholar PDF`.
pub open spec fn scholar_result(item: HtmlItemView) -> Option<FindView> {
    match item.1[0] {
        Some(link) => match link.0 {
            Some(href) => if ends_with(str_to_lowercase(href), ".pdf"@) || contains_run(node_text(link.1), "[PDF]"@) {
                let title = title_or(item.1[1], "Google Scholar PDF"@);
                Some(("scholar.google.com"@, title, href, Some("pdf"@), pdf_filename(title)))
            } else {
                None
            },
            None => None,
        },
        None => None,
    }
}

/// The results of a Google Scholar answer page, in order.
pub open spec fn scholar_results_spec(items: Seq<HtmlItemView>) -> Seq<FindView>
    decreases items.len(),
{
    if items.len() == 0 {
        Seq::empty()
    } else {
        let p = scholar_results_spec(items.drop_last());
        match scholar_result(items.last()) {
            Some(r) => p.push(r),
            None => p,
        }
    }
}

fn scholar_result_exec(item: &crate::html::HtmlItem) -> (r: Option<FindResult>)
    requires
        item.inner.len() == 2,
    ensures
        match r {
            Some(v) => scholar_result(item@) == Some(v@),
            None => scholar_result(item@) is None,
        },
{
    let link = match &item.inner[0] {
        Some(l) => l,
        None => return None,
    };
    let href = match &link.attr {
        Some(h) => h,
        None => return None,
    };
    let lower = chars_of(to_lowercase(href.as_str()).as_str());
    let is_pdf = chars_ends_with(&lower, &chars_of(".pdf"))
        || chars_contains(&chars_of(concat_text(&link.text).as_str()), &chars_of("[PDF]"));
    if !is_pdf {
        return None;
    }
    let title = title_or_exec(&item.inner[1], "Google Scholar PDF");
    Some(pdf_result("scholar.google.com", title, href.clone()))
}

/// Reads the PDF results of a Google Scholar answer page (see `scholar_result`).
pub fn parse_scholar_results(html: &str) -> (r: Vec<FindResult>)
    ensures
        results_view(r@) == match html_items(html@, scholar_selectors().0, scholar_selectors().1, scholar_selectors().2) {
            Some(items) => scholar_results_spec(items),
            None => Seq::empty(),
        },
{
    let inner: Vec<&str> = vec![".gs_or_ggsm a", ".gs_rt a"];
    assert(crate::html::selectors_view(inner@) =~= scholar_selectors().2);
    let items = match select_items(html, ".gs_r.gs_or.gs_scl", "href", inner.as_slice()) {
        Some(v) => v,
        None => return Vec::new(),
    };
    let ghost iv = items_view(items@);
    let mut out: Vec<FindResult> = Vec::new();
    let mut i: usize = 0;
    while i < items.len()
        invariant
            i <= items.len(),
            iv == items_view(items@),
            forall|k: int| 0 <= k < items.len() ==> (#[trigger] items@[k]).inner.len() == 2,
            results_view(out@) == scholar_results_spec(iv.take(i as int)),
        decreases items.len() - i,
    {
        assert(iv.take(i + 1).drop_last() =~= iv.take(i as int));
        assert(iv.take(i + 1).last() == items@[i as int]@);
        match scholar_result_exec(&items[i]) {
            Some(r) => {
                let ghost before = out@;
                out.push(r);
                assert(results_view(out@) =~= results_view(before).push(r@));
            },
            None => {},
        }
        i += 1;
    }
    assert(iv.take(items.len() as int) =~= iv);
    out
}

// ---------------------------------------------------------------------------
// GitHub repository search
// ---------------------------------------------------------------------------

/// The request URL of a GitHub repository search for `query` (3 repositories).
pub open spec fn github_search_request(query: Seq<char>) -> Seq<char> {
    "https://api.github.com/search/repositories?q="@ + percent_encoded(query) + "&per_page=3"@
}

/// The request URL of a GitHub repository search for `query`.
pub fn github_search_url(query: &str) -> (r: String)
    ensures
        r@ == github_search_request(query@),
{
    let mut u = String::from_str("https://api.github.com/search/repositories?q=");
    u.append(percent_encode(query).as_str());
    u.append("&per_page=3");
    u
}

/// The request URL of the full tree of repository `full_name` at `branch`.
pub open spec fn github_tree_request(full_name: Seq<char>, branch: Seq<char>) -> Seq<char> {
    "https://api.github.com/repos/"@ + full_name + "/git/trees/"@ + branch + "?recursive=1"@
}

/// The request URL of the full tree of repository `full_name` at `branch`.
pub fn github_tree_url(full_name: &str, branch: &str) -> (r: String)
    ensures
        r@ == github_tree_request(full_name@, branch@),
{
    let mut u = String::from_str("https://api.github.com/repos/");
    u.append(full_name);
    u.append("/git/trees/");
    u.append(branch);
    u.append("?recursive=1");
    u
}

/// The result for a tree entry of a found repository: kept for a file whose
/// path ends in `.pdf` (ignoring case), named by its last path segment.
pub open spec fn repo_pdf_result(full_name: Seq<char>, branch: Seq<char>, path: Seq<char>, kind: Seq<char>) -> Option<FindView> {
    if kind == "blob"@ && ends_with(str_to_lowercase(path), ".pdf"@) {
        let filename = split_on(path, '/').last();
        Some(
            (
                "github.com"@,
                full_name + " - "@ + filename,
                "https://raw.githubusercontent.com/"@ + full_name + seq!['/'] + branch + seq!['/'] + path,
                Some("pdf"@),
                filename,
            ),
        )
    } else {
        None
    }
}

/// The results for the tree of a found repository, in order.
pub open spec fn repo_pdf_results_spec(full_name: Seq<char>, branch: Seq<char>, entries: Seq<TreeEntry>) -> Seq<FindView>
    decreases entries.len(),
{
    if entries.len() == 0 {
        Seq::empty()
    } else {
        let p = repo_pdf_results_spec(full_name, branch, entries.drop_last());
        match repo_pdf_result(full_name, branch, entries.last().path@, entries.last().kind@) {
            Some(r) => p.push(r),
            None => p,
        }
    }
}

/// The PDF files in the tree of a found repository (see `repo_pdf_result`).
pub fn repo_pdf_results(full_name: &str, branch: &str, entries: &Vec<TreeEntry>) -> (r: Vec<FindResult>)
    ensures
        results_view(r@) == repo_pdf_results_spec(full_name@, branch@, entries@),
{
    let mut out: Vec<FindResult> = Vec::new();
    let blob = chars_of("blob");
    let pdf = chars_of(".pdf");
    let mut i: usize = 0;
    while i < entries.len()
        invariant
            i <= entries.len(),
            blob@ == "blob"@,
            pdf@ == ".pdf"@,
            results_view(out@) == repo_pdf_results_spec(full_name@, branch@, entries@.take(i as int)),
        decreases entries.len() - i,
    {
        let e = &entries[i];
        assert(entries@.take(i + 1).drop_last() =~= entries@.take(i as int));
        assert(entries@.take(i + 1).last() == *e);
        let lower = chars_of(to_lowercase(e.path.as_str()).as_str());
        if crate::text::chars_eq(&chars_of(e.kind.as_str()), &blob) && chars_ends_with(&lower, &pdf) {
            let filename = string_of(&last_piece(&chars_of(e.path.as_str()), '/'));
            let mut title = String::from_str(full_name);
            title.append(" - ");
            title.append(filename.as_str());
            let mut url = String::from_str("https://raw.githubusercontent.com/");
            url.append(full_name);
            push_char(&mut url, '/');
            url.append(branch);
            push_char(&mut url, '/');
            url.append(e.path.as_str());
            let r = FindResult { source: "github.com", title, url, format: Some(String::from_str("pdf")), filename };
            assert(r@.2 =~= "https://raw.githubusercontent.com/"@ + full_name@ + seq!['/'] + branch@ + seq!['/'] + e.path@);
            let ghost before = out@;
            out.push(r);
            assert(results_view(out@) =~= results_view(before).push(r@));
        }
        i += 1;
    }
    assert(entries@.take(entries.len() as int) =~= entries@);
    out
}

} // verus!
