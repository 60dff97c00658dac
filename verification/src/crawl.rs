//! Web mode: the links a page offers, sitemap discovery, and the decisions of
//! a breadth-first crawl (which pages to fetch next, which files were found).
//! Fetching pages is left to the caller, which hands each page back.
use vstd::prelude::*;

use rustc_hash::FxHashSet;

use crate::dedup::{
    dedup_first, fresh_in_order, fx_string_set, fx_strings_contains, fx_strings_insert, fx_strings_with_capacity,
    lemma_take_push_to_set, strings_view,
};
use crate::github::source_urls;
use crate::html::{html_items, items_view, select_items, HtmlItem, HtmlItemView};
use crate::kinds::{matches_ext, matches_ext_spec, sources_view, strs_view, FileSource};
use crate::links::{clean_filename, clean_name, strip_fragment, without_fragment};
use crate::parsing::{join_url, parse_url, url_join_parts, url_parse_parts, ParsedUrl, UrlParts};
use crate::text::{chars_contains, chars_of, chars_starts_with, contains_run, starts_with};

verus! {

// ---------------------------------------------------------------------------
// Links on a page
// ---------------------------------------------------------------------------

/// The selector of links, whose `href` is read.
pub open spec fn link_selector() -> Seq<char> {
    "a[href]"@
}

/// The selector of embedded media, whose `src` is read.
pub open spec fn media_selector() -> Seq<char> {
    "source[src], img[src], video[src]"@
}

/// The file URL a reference stands for: resolved against `base`, kept when
/// its path has one of `exts`, with the fragment removed.
pub open spec fn file_url_of(base: Seq<char>, raw: Seq<char>, exts: Seq<Seq<char>>) -> Option<Seq<char>> {
    match url_join_parts(base, raw) {
        Some(abs) => if matches_ext_spec(abs.3, exts) {
            Some(without_fragment(abs.0))
        } else {
            None
        },
        None => None,
    }
}

/// The file URLs of the matched elements, in order.
pub open spec fn items_file_urls(base: Seq<char>, items: Seq<HtmlItemView>, exts: Seq<Seq<char>>) -> Seq<Seq<char>>
    decreases items.len(),
{
    if items.len() == 0 {
        Seq::empty()
    } else {
        let p = items_file_urls(base, items.drop_last(), exts);
        match items.last().0 {
            Some(raw) => match file_url_of(base, raw, exts) {
                Some(u) => p.push(u),
                None => p,
            },
            None => p,
        }
    }
}

/// The distinct file URLs a page links to or embeds: links first, then media,
/// in document order; `None` when the page cannot be read with the selectors.
pub open spec fn page_file_urls(html: Seq<char>, base: Seq<char>, exts: Seq<Seq<char>>) -> Option<Seq<Seq<char>>> {
    match (
        html_items(html, link_selector(), "href"@, Seq::empty()),
        html_items(html, media_selector(), "src"@, Seq::empty()),
    ) {
        (Some(a), Some(m)) => Some(dedup_first(items_file_urls(base, a, exts) + items_file_urls(base, m, exts))),
        _ => None,
    }
}

/// The file for a URL: named by `clean_name`.
pub open spec fn file_for_url(u: Seq<char>) -> (Seq<char>, Seq<char>) {
    (clean_name(u), u)
}

fn items_file_urls_exec(base: &str, items: &Vec<HtmlItem>, exts: &[&str], out: &mut Vec<String>)
    ensures
        strings_view(final(out)@) == strings_view(old(out)@) + items_file_urls(base@, items_view(items@), strs_view(exts@)),
{
    let ghost iv = items_view(items@);
    let ghost start = strings_view(out@);
    let mut i: usize = 0;
    while i < items.len()
        invariant
            i <= items.len(),
            iv == items_view(items@),
            strings_view(out@) == start + items_file_urls(base@, iv.take(i as int), strs_view(exts@)),
        decreases items.len() - i,
    {
        assert(iv.take(i + 1).drop_last() =~= iv.take(i as int));
        assert(iv.take(i + 1).last() == items@[i as int]@);
        match &items[i].attr {
            Some(raw) => {
                match join_url(base, raw.as_str()) {
                    Some(abs) => {
                        if matches_ext(abs.path.as_str(), exts) {
                            let u = strip_fragment(abs.serialization.as_str());
                            let ghost before = strings_view(out@);
                            out.push(u);
                            assert(strings_view(out@) =~= before.push(u@));
                        }
                    },
                    None => {},
                }
            },
            None => {},
        }
        i += 1;
    }
    assert(iv.take(items.len() as int) =~= iv);
    assert(strings_view(out@) =~= start + items_file_urls(base@, iv, strs_view(exts@)));
}

/// Keeps the first occurrence of each string.
fn dedup_urls(v: Vec<String>) -> (r: Vec<String>)
    ensures
        strings_view(r@) == dedup_first(strings_view(v@)),
{
    crate::dedup::dedup_strings(v)
}

/// The files a page links to (`<a href>`) or embeds (`<source src>`,
/// `<img src>`, `<video src>`) whose resolved path has one of `exts`: each
/// distinct URL once, fragment removed, named from the URL; `None` when the
/// page cannot be read with the selectors.
pub fn page_file_links(html: &str, base: &str, exts: &[&str]) -> (r: Option<Vec<FileSource>>)
    ensures
        match page_file_urls(html@, base@, strs_view(exts@)) {
            Some(us) => r matches Some(v) && sources_view(v@) == us.map_values(|u: Seq<char>| file_for_url(u)),
            None => r is None,
        },
{
    let none: Vec<&str> = Vec::new();
    assert(crate::html::selectors_view(none@) =~= Seq::<Seq<char>>::empty());
    let links = match select_items(html, "a[href]", "href", none.as_slice()) {
        Some(v) => v,
        None => return None,
    };
    let media = match select_items(html, "source[src], img[src], video[src]", "src", none.as_slice()) {
        Some(v) => v,
        None => return None,
    };
    let mut cands: Vec<String> = Vec::new();
    items_file_urls_exec(base, &links, exts, &mut cands);
    items_file_urls_exec(base, &media, exts, &mut cands);
    let urls = dedup_urls(cands);
    let ghost uv = strings_view(urls@);
    let mut out: Vec<FileSource> = Vec::new();
    let mut i: usize = 0;
    while i < urls.len()
        invariant
            i <= urls.len(),
            uv == strings_view(urls@),
            sources_view(out@) == uv.take(i as int).map_values(|u: Seq<char>| file_for_url(u)),
        decreases urls.len() - i,
    {
        let u = urls[i].clone();
        let name = clean_filename(u.as_str());
        let ghost before = sources_view(out@);
        out.push(FileSource { name, url: u });
        assert(sources_view(out@) =~= before.push(file_for_url(uv[i as int])));
        assert(uv.take(i + 1).map_values(|u: Seq<char>| file_for_url(u)) =~= uv.take(i as int).map_values(
            |u: Seq<char>| file_for_url(u),
        ).push(file_for_url(uv[i as int])));
        i += 1;
    }
    assert(uv.take(urls.len() as int) =~= uv);
    Some(out)
}

/// The origin of a URL: scheme, `://` and host (empty when there is none).
pub open spec fn origin_of(parts: UrlParts) -> Seq<char> {
    parts.1 + "://"@ + match parts.2 {
        Some(h) => h,
        None => Seq::empty(),
    }
}

/// Whether a reference is one that is never followed: `mailto:`,
/// `javascript:`, `tel:` or an in-page anchor.
pub open spec fn unfollowable(raw: Seq<char>) -> bool {
    starts_with(raw, "mailto:"@) || starts_with(raw, "javascript:"@) || starts_with(raw, "tel:"@) || starts_with(
        raw,
        "#"@,
    )
}

/// Whether two URLs have the same origin: scheme, host and port.
pub open spec fn same_origin(a: UrlParts, b: UrlParts) -> bool {
    a.1 == b.1 && a.2 == b.2 && a.4 == b.4
}

/// The page URL a link leads to, when it is followed: resolved against
/// `base`, fragment removed, on the origin of `site`, and not a file with
/// one of `exts`.
pub open spec fn page_url_of(base: Seq<char>, site: UrlParts, raw: Seq<char>, exts: Seq<Seq<char>>) -> Option<Seq<char>> {
    if unfollowable(raw) {
        None
    } else {
        match url_join_parts(base, raw) {
            Some(abs) => {
                if !same_origin(abs, site) || matches_ext_spec(abs.3, exts) {
                    None
                } else {
                    Some(without_fragment(abs.0))
                }
            },
            None => None,
        }
    }
}

/// The page URLs the matched links lead to, in order.
pub open spec fn items_page_urls(base: Seq<char>, site: UrlParts, items: Seq<HtmlItemView>, exts: Seq<Seq<char>>) -> Seq<Seq<char>>
    decreases items.len(),
{
    if items.len() == 0 {
        Seq::empty()
    } else {
        let p = items_page_urls(base, site, items.drop_last(), exts);
        match items.last().0 {
            Some(raw) => match page_url_of(base, site, raw, exts) {
                Some(u) => p.push(u),
                None => p,
            },
            None => p,
        }
    }
}

/// The distinct same-origin pages a page links to, in document order;
/// `None` when the page cannot be read with the link selector.
pub open spec fn page_internal_urls(html: Seq<char>, base: Seq<char>, parts: UrlParts, exts: Seq<Seq<char>>) -> Option<Seq<Seq<char>>> {
    match html_items(html, link_selector(), "href"@, Seq::empty()) {
        Some(a) => Some(dedup_first(items_page_urls(base, parts, a, exts))),
        None => None,
    }
}

fn origin_exec(u: &ParsedUrl) -> (r: Vec<char>)
    ensures
        r@ == origin_of(u@),
{
    let mut o = u.scheme.clone();
    o.append("://");
    match &u.host {
        Some(h) => o.append(h.as_str()),
        None => {},
    }
    chars_of(o.as_str())
}

fn unfollowable_exec(raw: &Vec<char>) -> (r: bool)
    ensures
        r == unfollowable(raw@),
{
    chars_starts_with(raw, &chars_of("mailto:")) || chars_starts_with(raw, &chars_of("javascript:"))
        || chars_starts_with(raw, &chars_of("tel:")) || chars_starts_with(raw, &chars_of("#"))
}

fn same_origin_exec(a: &ParsedUrl, b: &ParsedUrl) -> (r: bool)
    ensures
        r == same_origin(a@, b@),
{
    let hosts = match (&a.host, &b.host) {
        (Some(x), Some(y)) => crate::text::chars_eq(&chars_of(x.as_str()), &chars_of(y.as_str())),
        (None, None) => true,
        _ => false,
    };
    crate::text::chars_eq(&chars_of(a.scheme.as_str()), &chars_of(b.scheme.as_str())) && hosts && a.port == b.port
}

/// The same-origin page links of a page (`<a href>` only), for the next
/// crawl level: anchors and `mailto:`, `javascript:`, `tel:` links skipped,
/// fragments removed, files with one of `exts` left out, each page once.
pub fn page_internal_links(html: &str, base: &str, parts: &ParsedUrl, exts: &[&str]) -> (r: Option<Vec<String>>)
    ensures
        match page_internal_urls(html@, base@, parts@, strs_view(exts@)) {
            Some(us) => r matches Some(v) && strings_view(v@) == us,
            None => r is None,
        },
{
    let none: Vec<&str> = Vec::new();
    assert(crate::html::selectors_view(none@) =~= Seq::<Seq<char>>::empty());
    let links = match select_items(html, "a[href]", "href", none.as_slice()) {
        Some(v) => v,
        None => return None,
    };
    let ghost iv = items_view(links@);
    let mut cands: Vec<String> = Vec::new();
    let mut i: usize = 0;
    while i < links.len()
        invariant
            i <= links.len(),
            iv == items_view(links@),
            strings_view(cands@) == items_page_urls(base@, parts@, iv.take(i as int), strs_view(exts@)),
        decreases links.len() - i,
    {
        assert(iv.take(i + 1).drop_last() =~= iv.take(i as int));
        assert(iv.take(i + 1).last() == links@[i as int]@);
        match &links[i].attr {
            Some(raw) => {
                let rc = chars_of(raw.as_str());
                if !unfollowable_exec(&rc) {
                    match join_url(base, raw.as_str()) {
                        Some(abs) => {
                            let u = strip_fragment(abs.serialization.as_str());
                            if same_origin_exec(&abs, parts) && !matches_ext(abs.path.as_str(), exts) {
                                let ghost before = strings_view(cands@);
                                cands.push(u);
                                assert(strings_view(cands@) =~= before.push(u@));
                            }
                        },
                        None => {},
                    }
                }
            },
            None => {},
        }
        i += 1;
    }
    assert(iv.take(links.len() as int) =~= iv);
    Some(dedup_urls(cands))
}

proof fn lemma_items_page_urls_on_origin(base: Seq<char>, site: UrlParts, items: Seq<HtmlItemView>, exts: Seq<Seq<char>>)
    ensures
        forall|u: Seq<char>|
            #[trigger] items_page_urls(base, site, items, exts).contains(u) ==> exists|raw: Seq<char>|
                #[trigger] url_join_parts(base, raw) matches Some(abs) && same_origin(abs, site) && u == without_fragment(abs.0),
    decreases items.len(),
{
    if items.len() > 0 {
        let p = items_page_urls(base, site, items.drop_last(), exts);
        lemma_items_page_urls_on_origin(base, site, items.drop_last(), exts);
        if let Some(raw) = items.last().0 {
            if let Some(u) = page_url_of(base, site, raw, exts) {
                assert forall|w: Seq<char>| #[trigger] p.push(u).contains(w) implies exists|raw: Seq<char>|
                    #[trigger] url_join_parts(base, raw) matches Some(abs) && same_origin(abs, site) && w == without_fragment(abs.0) by {
                    let k = choose|k: int| 0 <= k < p.push(u).len() && p.push(u)[k] == w;
                    if k < p.len() {
                        assert(p[k] == w);
                        assert(p.contains(w));
                    } else {
                        assert(url_join_parts(base, raw) matches Some(abs) && same_origin(abs, site) && w == without_fragment(abs.0));
                    }
                }
            }
        }
    }
}

/// A crawl stays on the site: every page that a page links to, as followed,
/// is a link of it resolved to a URL with the page's scheme, host and port.
pub proof fn lemma_internal_links_same_origin(html: Seq<char>, base: Seq<char>, parts: UrlParts, exts: Seq<Seq<char>>)
    ensures
        page_internal_urls(html, base, parts, exts) matches Some(us) ==> forall|u: Seq<char>|
            #[trigger] us.contains(u) ==> exists|raw: Seq<char>|
                #[trigger] url_join_parts(base, raw) matches Some(abs) && same_origin(abs, parts) && u == without_fragment(abs.0),
{
    if let Some(a) = html_items(html, link_selector(), "href"@, Seq::empty()) {
        let all = items_page_urls(base, parts, a, exts);
        lemma_items_page_urls_on_origin(base, parts, a, exts);
        crate::dedup::lemma_dedup_first_contains(all);
        assert forall|u: Seq<char>| #[trigger] dedup_first(all).contains(u) implies exists|raw: Seq<char>|
            #[trigger] url_join_parts(base, raw) matches Some(abs) && same_origin(abs, parts) && u == without_fragment(abs.0) by {
            assert(all.contains(u));
        }
    }
}

// ---------------------------------------------------------------------------
// Sitemaps
// ---------------------------------------------------------------------------

/// The sitemap locations tried for a site: `/sitemap.xml` and
/// `/sitemap_index.xml` at its origin.
pub open spec fn sitemap_candidate_urls(parts: UrlParts) -> Seq<Seq<char>> {
    seq![origin_of(parts) + "/sitemap.xml"@, origin_of(parts) + "/sitemap_index.xml"@]
}

/// The sitemap locations tried for the site of `base`.
pub fn sitemap_candidates(base: &ParsedUrl) -> (r: Vec<String>)
    ensures
        strings_view(r@) == sitemap_candidate_urls(base@),
{
    let o = crate::text::string_of(&origin_exec(base));
    let mut a = o.clone();
    a.append("/sitemap.xml");
    let mut b = o;
    b.append("/sitemap_index.xml");
    let r = vec![a, b];
    assert(strings_view(r@) =~= sitemap_candidate_urls(base@));
    r
}

/// The start of a web crawl at `page_url`: the URL is parsed (its error is
/// handed back) and the sitemap locations of its site are listed.
pub fn sitemap_urls_for(page_url: &str) -> (r: Result<Vec<String>, url::ParseError>)
    ensures
        match r {
            Ok(v) => url_parse_parts(page_url@) matches Some(p) && strings_view(v@) == sitemap_candidate_urls(p),
            Err(_) => url_parse_parts(page_url@) is None,
        },
{
    match parse_url(page_url) {
        Ok(base) => Ok(sitemap_candidates(&base)),
        Err(e) => Err(e),
    }
}

/// Whether a sitemap body is an index of further sitemaps.
pub open spec fn is_sitemap_index_spec(xml: Seq<char>) -> bool {
    contains_run(xml, "<sitemapindex"@) || contains_run(xml, "<sitemap>"@)
}

/// What makes a sitemap body an index: every index has a `<sitemap` tag
/// opening at some position, followed by `>` or by `index`; and a body with
/// a `<sitemap>` or `<sitemapindex` tag anywhere is an index. A plain
/// `<urlset>`, whose namespace merely mentions "sitemaps", is none.
pub proof fn lemma_sitemap_index_by_tags(xml: Seq<char>)
    ensures
        is_sitemap_index_spec(xml) ==> exists|i: int|
            0 <= i && i + 9 <= xml.len() && #[trigger] xml.subrange(i, i + 8) == "<sitemap"@ && (xml[i + 8] == '>'
                || xml[i + 8] == 'i'),
        forall|i: int| 0 <= i && i + 9 <= xml.len() && #[trigger] xml.subrange(i, i + 9) == "<sitemap>"@ ==> is_sitemap_index_spec(xml),
        forall|i: int| 0 <= i && i + 13 <= xml.len() && #[trigger] xml.subrange(i, i + 13) == "<sitemapindex"@ ==> is_sitemap_index_spec(xml),
{
    reveal_strlit("<sitemap");
    reveal_strlit("<sitemap>");
    reveal_strlit("<sitemapindex");
    assert("<sitemap>"@.len() == 9 && "<sitemapindex"@.len() == 13);
    assert forall|i: int| 0 <= i && i + 9 <= xml.len() && #[trigger] xml.subrange(i, i + 9) == "<sitemap>"@ implies is_sitemap_index_spec(xml) by {
        assert(xml.subrange(i, i + "<sitemap>"@.len()) == "<sitemap>"@);
    }
    assert forall|i: int| 0 <= i && i + 13 <= xml.len() && #[trigger] xml.subrange(i, i + 13) == "<sitemapindex"@ implies is_sitemap_index_spec(xml) by {
        assert(xml.subrange(i, i + "<sitemapindex"@.len()) == "<sitemapindex"@);
    }
    if is_sitemap_index_spec(xml) {
        if contains_run(xml, "<sitemapindex"@) {
            let i = choose|i: int| 0 <= i <= xml.len() - 13 && #[trigger] xml.subrange(i, i + 13) == "<sitemapindex"@;
            assert(xml.subrange(i, i + 8) =~= xml.subrange(i, i + 13).subrange(0, 8));
            assert(xml[i + 8] == xml.subrange(i, i + 13)[8]);
        } else {
            let i = choose|i: int| 0 <= i <= xml.len() - 9 && #[trigger] xml.subrange(i, i + 9) == "<sitemap>"@;
            assert(xml.subrange(i, i + 8) =~= xml.subrange(i, i + 9).subrange(0, 8));
            assert(xml[i + 8] == xml.subrange(i, i + 9)[8]);
        }
    }
}

/// Whether a sitemap body is an index of further sitemaps (it mentions
/// `<sitemapindex` or `<sitemap>`).
pub fn is_sitemap_index(xml: &str) -> (r: bool)
    ensures
        r == is_sitemap_index_spec(xml@),
{
    let x = chars_of(xml);
    chars_contains(&x, &chars_of("<sitemapindex")) || chars_contains(&x, &chars_of("<sitemap>"))
}

/// The files listed in sitemaps: the locations with one of `exts`, each
/// distinct location once, in order, named from the URL.
pub open spec fn sitemap_files_spec(locs: Seq<Seq<char>>, exts: Seq<Seq<char>>) -> Seq<(Seq<char>, Seq<char>)> {
    dedup_first(locs.filter(|l: Seq<char>| matches_ext_spec(l, exts))).map_values(|u: Seq<char>| file_for_url(u))
}

/// The files among sitemap locations (see `sitemap_files_spec`).
pub fn sitemap_file_sources(locs: Vec<String>, exts: &[&str]) -> (r: Vec<FileSource>)
    ensures
        sources_view(r@) == sitemap_files_spec(strings_view(locs@), strs_view(exts@)),
{
    let ghost lv = strings_view(locs@);
    let ghost ev = strs_view(exts@);
    let mut kept: Vec<String> = Vec::new();
    let mut i: usize = 0;
    while i < locs.len()
        invariant
            i <= locs.len(),
            lv == strings_view(locs@),
            ev == strs_view(exts@),
            strings_view(kept@) == lv.take(i as int).filter(|l: Seq<char>| matches_ext_spec(l, ev)),
        decreases locs.len() - i,
    {
        assert(lv.take(i + 1).drop_last() =~= lv.take(i as int));
        assert(lv.take(i + 1).last() == locs@[i as int]@);
        reveal(Seq::filter);
        if matches_ext(locs[i].as_str(), exts) {
            let ghost before = strings_view(kept@);
            kept.push(locs[i].clone());
            assert(strings_view(kept@) =~= before.push(locs@[i as int]@));
        }
        i += 1;
    }
    assert(lv.take(locs.len() as int) =~= lv);
    let urls = dedup_urls(kept);
    let ghost uv = strings_view(urls@);
    let mut out: Vec<FileSource> = Vec::new();
    let mut j: usize = 0;
    while j < urls.len()
        invariant
            j <= urls.len(),
            uv == strings_view(urls@),
            sources_view(out@) == uv.take(j as int).map_values(|u: Seq<char>| file_for_url(u)),
        decreases urls.len() - j,
    {
        let u = urls[j].clone();
        let name = clean_filename(u.as_str());
        let ghost before = sources_view(out@);
        out.push(FileSource { name, url: u });
        assert(sources_view(out@) =~= before.push(file_for_url(uv[j as int])));
        assert(uv.take(j + 1).map_values(|u: Seq<char>| file_for_url(u)) =~= uv.take(j as int).map_values(
            |u: Seq<char>| file_for_url(u),
        ).push(file_for_url(uv[j as int])));
        j += 1;
    }
    assert(uv.take(urls.len() as int) =~= uv);
    out
}

// ---------------------------------------------------------------------------
// The crawl
// ---------------------------------------------------------------------------

/// `cands` kept where their URL is neither in `seen` nor the URL of a file
/// kept earlier, in order.
pub open spec fn fresh_files(seen: Set<Seq<char>>, cands: Seq<(Seq<char>, Seq<char>)>) -> Seq<(Seq<char>, Seq<char>)>
    decreases cands.len(),
{
    if cands.len() == 0 {
        Seq::empty()
    } else {
        let p = fresh_files(seen, cands.drop_last());
        if seen.contains(cands.last().1) || source_urls(p).contains(cands.last().1) {
            p
        } else {
            p.push(cands.last())
        }
    }
}

/// The pages of `links` (fragment removed) not in `visited`, in order.
pub open spec fn unvisited(visited: Set<Seq<char>>, links: Seq<Seq<char>>) -> Seq<Seq<char>>
    decreases links.len(),
{
    if links.len() == 0 {
        Seq::empty()
    } else {
        let p = unvisited(visited, links.drop_last());
        let c = without_fragment(links.last());
        if visited.contains(c) {
            p
        } else {
            p.push(c)
        }
    }
}

/// The state of a breadth-first crawl: the files found so far (one per URL),
/// the pages already fetched, the pages waiting for the next level, and the
/// current level out of at most `max_depth + 1`.
pub struct Crawl {
    files: Vec<FileSource>,
    file_urls: FxHashSet<String>,
    pages: FxHashSet<String>,
    frontier: Vec<String>,
    depth: usize,
    max_depth: usize,
    exhausted: bool,
}

proof fn lemma_urls_concat(a: Seq<(Seq<char>, Seq<char>)>, b: Seq<(Seq<char>, Seq<char>)>)
    ensures
        source_urls(a + b) == source_urls(a) + source_urls(b),
{
    assert(source_urls(a + b) =~= source_urls(a) + source_urls(b));
}

proof fn lemma_contains_concat<A>(a: Seq<A>, b: Seq<A>, x: A)
    ensures
        (a + b).contains(x) <==> a.contains(x) || b.contains(x),
{
    if (a + b).contains(x) {
        let k = choose|k: int| 0 <= k < (a + b).len() && (a + b)[k] == x;
        if k < a.len() {
            assert(a[k] == x);
        } else {
            assert(b[k - a.len()] == x);
        }
    }
    if a.contains(x) {
        let k = choose|k: int| 0 <= k < a.len() && a[k] == x;
        assert((a + b)[k] == x);
    }
    if b.contains(x) {
        let k = choose|k: int| 0 <= k < b.len() && b[k] == x;
        assert((a + b)[a.len() + k] == x);
    }
}

proof fn lemma_push_no_duplicates<A>(s: Seq<A>, x: A)
    requires
        s.no_duplicates(),
        !s.contains(x),
    ensures
        s.push(x).no_duplicates(),
{
    let t = s.push(x);
    assert forall|i: int, j: int| 0 <= i < t.len() && 0 <= j < t.len() && i != j implies t[i] != t[j] by {
        if i < s.len() && j < s.len() {
            assert(t[i] == s[i] && t[j] == s[j]);
        } else if i < s.len() {
            assert(t[i] == s[i]);
            assert(t[j] == x);
        } else if j < s.len() {
            assert(t[j] == s[j]);
            assert(t[i] == x);
        }
    }
}

impl Crawl {
    /// The files found so far, in order of discovery.
    pub closed spec fn files_view(&self) -> Seq<(Seq<char>, Seq<char>)> {
        sources_view(self.files@)
    }

    /// The pages fetched so far (or handed out for fetching).
    pub closed spec fn visited(&self) -> Set<Seq<char>> {
        fx_string_set(self.pages)
    }

    /// The pages waiting for the next level.
    pub closed spec fn frontier_view(&self) -> Seq<Seq<char>> {
        strings_view(self.frontier@)
    }

    /// The current level: 0 for the start page, up to `max_level() + 1` once
    /// every level has been crawled.
    pub closed spec fn level(&self) -> nat {
        if self.exhausted {
            self.max_depth as nat + 1
        } else {
            self.depth as nat
        }
    }

    /// The deepest level whose links are followed.
    pub closed spec fn max_level(&self) -> nat {
        self.max_depth as nat
    }

    /// The state's invariant: the set of file URLs is exactly the URLs of the
    /// files found, which are distinct, and the level is in range.
    pub closed spec fn wf(&self) -> bool {
        &&& fx_string_set(self.file_urls) == source_urls(self.files_view()).to_set()
        &&& source_urls(self.files_view()).no_duplicates()
        &&& self.depth <= self.max_depth
    }

    /// In a well-formed crawl no two files share a URL.
    pub proof fn lemma_files_unique(&self)
        requires
            self.wf(),
        ensures
            source_urls(self.files_view()).no_duplicates(),
    {
    }

    fn add_files(&mut self, cands: Vec<FileSource>)
        requires
            old(self).wf(),
        ensures
            final(self).wf(),
            final(self).files_view() == old(self).files_view() + fresh_files(
                source_urls(old(self).files_view()).to_set(),
                sources_view(cands@),
            ),
            final(self).visited() == old(self).visited(),
            final(self).frontier_view() == old(self).frontier_view(),
            final(self).level() == old(self).level(),
            final(self).max_level() == old(self).max_level(),
    {
        let ghost start = self.files_view();
        let ghost seen0 = source_urls(start).to_set();
        let ghost cv = sources_view(cands@);
        let n = cands.len();
        for f in it: cands
            invariant
                it.seq() == cands@,
                cv == sources_view(cands@),
                n == cands@.len(),
                seen0 == source_urls(start).to_set(),
                self.wf(),
                self.files_view() == start + fresh_files(seen0, cv.take(it.index() as int)),
                self.visited() == old(self).visited(),
                self.frontier_view() == old(self).frontier_view(),
                self.level() == old(self).level(),
                self.max_level() == old(self).max_level(),
        {
            let ghost i = it.index() as int;
            let ghost p = fresh_files(seen0, cv.take(i));
            proof {
                assert(cv.take(i + 1).drop_last() =~= cv.take(i));
                assert(cv.take(i + 1).last() == f@);
                lemma_urls_concat(start, p);
                lemma_contains_concat(source_urls(start), source_urls(p), f.url@);
            }
            if !fx_strings_contains(&self.file_urls, &f.url) {
                fx_strings_insert(&mut self.file_urls, f.url.clone());
                let ghost before = self.files_view();
                self.files.push(f);
                proof {
                    assert(self.files_view() =~= before.push(f@));
                    assert(source_urls(before.push(f@)) =~= source_urls(before).push(f.url@));
                    lemma_push_no_duplicates(source_urls(before), f.url@);
                    assert(start + p.push(f@) =~= (start + p).push(f@));
                    assert(fx_string_set(self.file_urls) =~= source_urls(self.files_view()).to_set()) by {
                        assert forall|u: Seq<char>| fx_string_set(self.file_urls).contains(u) <==> source_urls(self.files_view()).contains(u) by {
                            lemma_contains_concat(source_urls(before), seq![f.url@], u);
                            assert(source_urls(before).push(f.url@) =~= source_urls(before) + seq![f.url@]);
                            if u == f.url@ {
                                assert(seq![f.url@][0] == u);
                            }
                            if seq![f.url@].contains(u) {
                                let k = choose|k: int| 0 <= k < 1 && seq![f.url@][k] == u;
                            }
                        }
                    }
                }
            }
        }
        proof {
            assert(cv.take(n as int) =~= cv);
        }
    }

    /// Starts a crawl at `page_url` (fragment removed) that follows links down
    /// to `max_depth` levels, with the files already found in sitemaps.
    pub fn new(page_url: &str, max_depth: usize, sitemap_files: Vec<FileSource>) -> (r: Crawl)
        ensures
            r.wf(),
            r.files_view() == fresh_files(Set::empty(), sources_view(sitemap_files@)),
            r.visited() == Set::<Seq<char>>::empty(),
            r.frontier_view() == seq![without_fragment(page_url@)],
            r.level() == 0,
            r.max_level() == max_depth,
    {
        let seed = strip_fragment(page_url);
        let mut c = Crawl {
            files: Vec::new(),
            file_urls: fx_strings_with_capacity(0),
            pages: fx_strings_with_capacity(0),
            frontier: vec![seed],
            depth: 0,
            max_depth,
            exhausted: false,
        };
        proof {
            assert(c.files_view() =~= Seq::<(Seq<char>, Seq<char>)>::empty());
            assert(source_urls(c.files_view()) =~= Seq::<Seq<char>>::empty());
            assert(source_urls(c.files_view()).to_set() =~= Set::<Seq<char>>::empty());
            assert(c.frontier_view() =~= seq![without_fragment(page_url@)]);
        }
        c.add_files(sitemap_files);
        proof {
            assert(Seq::<(Seq<char>, Seq<char>)>::empty() + fresh_files(Set::empty(), sources_view(sitemap_files@))
                =~= fresh_files(Set::empty(), sources_view(sitemap_files@)));
        }
        c
    }

    /// The pages to fetch for the current level: the waiting pages not fetched
    /// before, each once, in order. They count as fetched from now on and the
    /// waiting list is emptied. `None` when the crawl is over: every level was
    /// crawled, nothing waits, or everything waiting was fetched before.
    pub fn next_batch(&mut self) -> (r: Option<Vec<String>>)
        requires
            old(self).wf(),
        ensures
            final(self).wf(),
            final(self).files_view() == old(self).files_view(),
            final(self).level() == old(self).level(),
            final(self).max_level() == old(self).max_level(),
            old(self).level() > old(self).max_level() || old(self).frontier_view().len() == 0 ==> {
                &&& r is None
                &&& final(self).visited() == old(self).visited()
                &&& final(self).frontier_view() == old(self).frontier_view()
            },
            old(self).level() <= old(self).max_level() && old(self).frontier_view().len() > 0 ==> {
                let fresh = fresh_in_order(old(self).visited(), old(self).frontier_view());
                &&& final(self).visited() == old(self).visited().union(old(self).frontier_view().to_set())
                &&& final(self).frontier_view().len() == 0
                &&& (fresh.len() == 0 ==> r is None)
                &&& (fresh.len() > 0 ==> (r matches Some(v) && strings_view(v@) == fresh))
            },
            r matches Some(v) ==> {
                &&& strings_view(v@).no_duplicates()
                &&& forall|i: int| 0 <= i < v.len() ==> !old(self).visited().contains(#[trigger] strings_view(v@)[i])
            },
    {
        if self.exhausted || self.frontier.len() == 0 {
            return None;
        }
        let ghost vis0 = self.visited();
        let ghost fr = self.frontier_view();
        let mut frontier: Vec<String> = Vec::new();
        std::mem::swap(&mut frontier, &mut self.frontier);
        let mut to_fetch: Vec<String> = Vec::new();
        let n = frontier.len();
        for u in it: frontier
            invariant
                it.seq() == frontier@,
                fr == strings_view(frontier@),
                n == frontier@.len(),
                self.wf(),
                self.files_view() == old(self).files_view(),
                self.level() == old(self).level(),
                self.max_level() == old(self).max_level(),
                self.frontier_view().len() == 0,
                !self.exhausted,
                self.visited() == vis0.union(fr.take(it.index() as int).to_set()),
                strings_view(to_fetch@) == fresh_in_order(vis0, fr.take(it.index() as int)),
        {
            let ghost i = it.index() as int;
            let ghost p = fresh_in_order(vis0, fr.take(i));
            proof {
                assert(fr.take(i + 1).drop_last() =~= fr.take(i));
                assert(fr.take(i + 1).last() == u@);
                lemma_take_push_to_set(fr, i);
                crate::dedup::lemma_fresh_in_order(vis0, fr.take(i));
            }
            let fresh = fx_strings_insert(&mut self.pages, u.clone());
            proof {
                assert(self.visited() =~= vis0.union(fr.take(i + 1).to_set()));
            }
            if fresh {
                let ghost before = strings_view(to_fetch@);
                to_fetch.push(u);
                assert(strings_view(to_fetch@) =~= before.push(fr[i]));
            }
        }
        proof {
            assert(fr.take(n as int) =~= fr);
            crate::dedup::lemma_fresh_in_order(vis0, fr);
            let fv = strings_view(to_fetch@);
            assert forall|i: int| 0 <= i < to_fetch.len() implies !vis0.contains(#[trigger] strings_view(to_fetch@)[i]) by {
                assert(fv.contains(fv[i]));
            }
        }
        if to_fetch.len() == 0 {
            None
        } else {
            Some(to_fetch)
        }
    }

    /// Records a fetched page: its files are added (URLs not found before, in
    /// order) and, below the deepest level, its same-origin links not fetched
    /// before wait for the next level. An empty page, or one whose URL does
    /// not parse, changes nothing. Returns `false`, changing nothing, when the
    /// page cannot be read with the link selectors.
    pub fn record_page(&mut self, url: &str, html: &str, exts: &[&str]) -> (r: bool)
        requires
            old(self).wf(),
        ensures
            final(self).wf(),
            final(self).visited() == old(self).visited(),
            final(self).level() == old(self).level(),
            final(self).max_level() == old(self).max_level(),
            html@.len() == 0 || url_parse_parts(url@) is None ==> {
                &&& r
                &&& final(self).files_view() == old(self).files_view()
                &&& final(self).frontier_view() == old(self).frontier_view()
            },
            html@.len() > 0 ==> (url_parse_parts(url@) matches Some(parts) ==> match (
                page_file_urls(html@, url@, strs_view(exts@)),
                page_internal_urls(html@, url@, parts, strs_view(exts@)),
            ) {
                (Some(fu), Some(iu)) => {
                    &&& r
                    &&& final(self).files_view() == old(self).files_view() + fresh_files(
                        source_urls(old(self).files_view()).to_set(),
                        fu.map_values(|u: Seq<char>| file_for_url(u)),
                    )
                    &&& final(self).frontier_view() == if old(self).level() < old(self).max_level() {
                        old(self).frontier_view() + unvisited(old(self).visited(), iu)
                    } else {
                        old(self).frontier_view()
                    }
                },
                _ => {
                    &&& !r
                    &&& final(self).files_view() == old(self).files_view()
                    &&& final(self).frontier_view() == old(self).frontier_view()
                },
            }),
    {
        if chars_of(html).len() == 0 {
            return true;
        }
        let parts = match parse_url(url) {
            Ok(p) => p,
            Err(_) => return true,
        };
        let found = match page_file_links(html, url, exts) {
            Some(v) => v,
            None => return false,
        };
        let links = match page_internal_links(html, url, &parts, exts) {
            Some(v) => v,
            None => return false,
        };
        self.add_files(found);
        let ghost files1 = self.files_view();
        if !self.exhausted && self.depth < self.max_depth {
            let ghost f0 = self.frontier_view();
            let ghost lv = strings_view(links@);
            let mut i: usize = 0;
            while i < links.len()
                invariant
                    i <= links.len(),
                    lv == strings_view(links@),
                    self.wf(),
                    self.files_view() == files1,
                    self.visited() == old(self).visited(),
                    self.level() == old(self).level(),
                    self.max_level() == old(self).max_level(),
                    self.frontier_view() == f0 + unvisited(old(self).visited(), lv.take(i as int)),
                decreases links.len() - i,
            {
                assert(lv.take(i + 1).drop_last() =~= lv.take(i as int));
                assert(lv.take(i + 1).last() == links@[i as int]@);
                let clean = strip_fragment(links[i].as_str());
                if !fx_strings_contains(&self.pages, &clean) {
                    let ghost before = self.frontier_view();
                    self.frontier.push(clean);
                    assert(self.frontier_view() =~= before.push(without_fragment(lv[i as int])));
                }
                i += 1;
            }
            assert(lv.take(links.len() as int) =~= lv);
        }
        true
    }

    /// Moves on to the next level (at most one past the deepest).
    pub fn finish_level(&mut self)
        requires
            old(self).wf(),
        ensures
            final(self).wf(),
            final(self).files_view() == old(self).files_view(),
            final(self).visited() == old(self).visited(),
            final(self).frontier_view() == old(self).frontier_view(),
            final(self).max_level() == old(self).max_level(),
            final(self).level() == if old(self).level() <= old(self).max_level() {
                old(self).level() + 1
            } else {
                old(self).level()
            },
    {
        if !self.exhausted {
            if self.depth < self.max_depth {
                self.depth = self.depth + 1;
            } else {
                self.exhausted = true;
            }
        }
    }

    /// The files found, each URL once, in order of discovery.
    pub fn into_files(self) -> (r: Vec<FileSource>)
        requires
            self.wf(),
        ensures
            sources_view(r@) == self.files_view(),
            source_urls(sources_view(r@)).no_duplicates(),
    {
        self.files
    }
}

} // verus!
