//! The free-book search engine: request URLs for each source, turning each
//! source's answer into results, and merging the results of all sources.
use vstd::prelude::*;

use crate::dedup::{
    first_by_key, fx_string_set, fx_strings_insert, fx_strings_with_capacity, lemma_first_by_key, lemma_take_push_to_set,
};
use crate::html::{concat_text, html_items, items_view, node_text, select_items, HtmlItemView};
use crate::parsing::{pairs_view, url_with_query, url_with_query_pairs};
use crate::slug::{slug, slug_of};
use crate::text::{
    chars_contains, chars_of, chars_starts_with, contains_run, push_char, starts_with, str_to_lowercase,
    string_of, to_lowercase, trim_chars, trim_ws,
};
use crate::validation::Source;

verus! {

/// A single search result returned by any source.
#[derive(Debug, Clone)]
pub struct FindResult {
    /// The source that produced this result (e.g. `archive.org`).
    pub source: &'static str,
    /// Human-readable title of the book or document.
    pub title: String,
    /// Direct download or landing-page URL.
    pub url: String,
    /// File format hint if known (e.g. `pdf`).
    pub format: Option<String>,
    /// Suggested local filename derived from the title and format.
    pub filename: String,
}

/// The view of a result: source, title, URL, format and filename.
pub type FindView = (Seq<char>, Seq<char>, Seq<char>, Option<Seq<char>>, Seq<char>);

impl View for FindResult {
    type V = FindView;

    open spec fn view(&self) -> FindView {
        (self.source@, self.title@, self.url@, self.format.deep_view(), self.filename@)
    }
}

/// The views of a list of results.
pub open spec fn results_view(v: Seq<FindResult>) -> Seq<FindView> {
    v.map_values(|r: FindResult| r@)
}

/// The filename suggested for a title and an extension.
pub open spec fn suggested_filename(title: Seq<char>, ext: Seq<char>) -> Seq<char> {
    slug_of(title) + seq!['.'] + ext
}

fn filename_for(title: &str, ext: &str) -> (r: String)
    ensures
        r@ == suggested_filename(title@, ext@),
{
    let mut f = slug(title);
    push_char(&mut f, '.');
    f.append(ext);
    f
}

// ---------------------------------------------------------------------------
// Internet Archive
// ---------------------------------------------------------------------------

/// One document of an Internet Archive search answer.
#[derive(Debug, Clone)]
pub struct ArchiveDoc {
    pub identifier: String,
    pub title: String,
}

/// The request URL of an Internet Archive search for `query`.
pub open spec fn archive_search_request(query: Seq<char>) -> Option<Seq<char>> {
    url_with_query(
        "https://archive.org/advancedsearch.php"@,
        seq![
            ("q"@, "title:("@ + query + ") AND mediatype:texts"@),
            ("fl[]"@, "identifier,title"@),
            ("output"@, "json"@),
            ("rows"@, "8"@),
        ],
    )
}

/// The request URL of an Internet Archive search for `query`: texts whose
/// title matches, identifier and title fields, JSON, at most 8 rows.
pub fn archive_search_url(query: &str) -> (r: Option<String>)
    ensures
        r.deep_view() == archive_search_request(query@),
{
    let mut q = String::from_str("title:(");
    q.append(query);
    q.append(") AND mediatype:texts");
    let pairs = vec![
        (String::from_str("q"), q),
        (String::from_str("fl[]"), String::from_str("identifier,title")),
        (String::from_str("output"), String::from_str("json")),
        (String::from_str("rows"), String::from_str("8")),
    ];
    assert(pairs_view(pairs@) =~= seq![
        ("q"@, "title:("@ + query@ + ") AND mediatype:texts"@),
        ("fl[]"@, "identifier,title"@),
        ("output"@, "json"@),
        ("rows"@, "8"@),
    ]);
    proof {
        reveal_strlit("https://archive.org/advancedsearch.php");
    }
    assert(!"https://archive.org/advancedsearch.php"@.contains('#'));
    url_with_query_pairs("https://archive.org/advancedsearch.php", &pairs)
}

/// The result for one Internet Archive document: the title (the identifier
/// when the title is empty), the item's PDF download URL, and a PDF filename.
pub open spec fn archive_result(identifier: Seq<char>, title: Seq<char>) -> FindView {
    let t = if title.len() == 0 { identifier } else { title };
    (
        "archive.org"@,
        t,
        "https://archive.org/download/"@ + identifier + seq!['/'] + identifier + ".pdf"@,
        Some("pdf"@),
        suggested_filename(t, "pdf"@),
    )
}

/// The number of Internet Archive results kept at most.
pub const ARCHIVE_MAX_RESULTS: usize = 8;

/// The results for an Internet Archive answer, one per document for its
/// first eight documents, in order.
pub fn archive_results(docs: Vec<ArchiveDoc>) -> (r: Vec<FindResult>)
    ensures
        results_view(r@) == docs@.take(
            if docs.len() < ARCHIVE_MAX_RESULTS { docs.len() as int } else { ARCHIVE_MAX_RESULTS as int },
        ).map_values(|d: ArchiveDoc| archive_result(d.identifier@, d.title@)),
        r.len() <= ARCHIVE_MAX_RESULTS,
{
    let n = if docs.len() < ARCHIVE_MAX_RESULTS { docs.len() } else { ARCHIVE_MAX_RESULTS };
    let mut out: Vec<FindResult> = Vec::new();
    let mut i: usize = 0;
    while i < n
        invariant
            i <= n,
            n <= docs.len(),
            results_view(out@) == docs@.take(i as int).map_values(|d: ArchiveDoc| archive_result(d.identifier@, d.title@)),
        decreases docs.len() - i,
    {
        let d = &docs[i];
        let title = if chars_of(d.title.as_str()).len() == 0 { d.identifier.clone() } else { d.title.clone() };
        let mut url = String::from_str("https://archive.org/download/");
        url.append(d.identifier.as_str());
        push_char(&mut url, '/');
        url.append(d.identifier.as_str());
        url.append(".pdf");
        assert(url@ =~= "https://archive.org/download/"@ + d.identifier@ + seq!['/'] + d.identifier@ + ".pdf"@);
        let filename = filename_for(title.as_str(), "pdf");
        let r = FindResult { source: "archive.org", title, url, format: Some(String::from_str("pdf")), filename };
        assert(r@ == archive_result(d.identifier@, d.title@));
        let ghost before = out@;
        out.push(r);
        assert(results_view(out@) =~= results_view(before).push(archive_result(d.identifier@, d.title@)));
        assert(docs@.take(i + 1).map_values(|d: ArchiveDoc| archive_result(d.identifier@, d.title@)) =~= docs@.take(
            i as int,
        ).map_values(|d: ArchiveDoc| archive_result(d.identifier@, d.title@)).push(archive_result(d.identifier@, d.title@)));
        i += 1;
    }
    out
}

// ---------------------------------------------------------------------------
// Open Library
// ---------------------------------------------------------------------------

/// One document of an Open Library search answer.
#[derive(Debug, Clone)]
pub struct OpenLibraryDoc {
    pub title: String,
    /// Internet Archive identifiers of the book's scans.
    pub ia: Vec<String>,
}

/// The request URL of an Open Library search for `query`.
pub open spec fn openlibrary_search_request(query: Seq<char>) -> Option<Seq<char>> {
    url_with_query(
        "https://openlibrary.org/search.json"@,
        seq![("title"@, query), ("limit"@, "6"@), ("has_fulltext"@, "true"@)],
    )
}

/// The request URL of an Open Library search for `query`: by title, at most
/// 6 documents, only those with full text.
pub fn openlibrary_search_url(query: &str) -> (r: Option<String>)
    ensures
        r.deep_view() == openlibrary_search_request(query@),
{
    let pairs = vec![
        (String::from_str("title"), String::from_str(query)),
        (String::from_str("limit"), String::from_str("6")),
        (String::from_str("has_fulltext"), String::from_str("true")),
    ];
    assert(pairs_view(pairs@) =~= seq![("title"@, query@), ("limit"@, "6"@), ("has_fulltext"@, "true"@)]);
    proof {
        reveal_strlit("https://openlibrary.org/search.json");
    }
    assert(!"https://openlibrary.org/search.json"@.contains('#'));
    url_with_query_pairs("https://openlibrary.org/search.json", &pairs)
}

/// The results for an Open Library answer: one per document that has an
/// Internet Archive identifier, downloading the first one as PDF.
pub open spec fn openlibrary_results_spec(docs: Seq<OpenLibraryDoc>) -> Seq<FindView>
    decreases docs.len(),
{
    if docs.len() == 0 {
        Seq::empty()
    } else {
        let p = openlibrary_results_spec(docs.drop_last());
        let d = docs.last();
        if d.ia@.len() > 0 {
            let ia = d.ia@[0]@;
            p.push(
                (
                    "openlibrary.org"@,
                    d.title@,
                    "https://archive.org/download/"@ + ia + seq!['/'] + ia + ".pdf"@,
                    Some("pdf"@),
                    suggested_filename(d.title@, "pdf"@),
                ),
            )
        } else {
            p
        }
    }
}

/// Every Open Library result comes from one document that has a scan: it
/// carries that document's title, and downloads the PDF of its first scan.
pub proof fn lemma_openlibrary_result_from_document(docs: Seq<OpenLibraryDoc>)
    ensures
        forall|i: int| 0 <= i < openlibrary_results_spec(docs).len() ==> exists|j: int|
            0 <= j < docs.len() && docs[j].ia@.len() > 0
                && (#[trigger] openlibrary_results_spec(docs)[i]).1 == docs[j].title@
                && openlibrary_results_spec(docs)[i].2 == "https://archive.org/download/"@ + docs[j].ia@[0]@
                + seq!['/'] + docs[j].ia@[0]@ + ".pdf"@,
    decreases docs.len(),
{
    if docs.len() > 0 {
        let q = docs.drop_last();
        lemma_openlibrary_result_from_document(q);
        let p = openlibrary_results_spec(q);
        let r = openlibrary_results_spec(docs);
        assert forall|i: int| 0 <= i < r.len() implies exists|j: int|
            0 <= j < docs.len() && docs[j].ia@.len() > 0 && (#[trigger] r[i]).1 == docs[j].title@ && r[i].2
                == "https://archive.org/download/"@ + docs[j].ia@[0]@ + seq!['/'] + docs[j].ia@[0]@ + ".pdf"@ by {
            if i < p.len() {
                assert(r[i] == p[i]);
                let j = choose|j: int|
                    0 <= j < q.len() && q[j].ia@.len() > 0 && (#[trigger] p[i]).1 == q[j].title@ && p[i].2
                        == "https://archive.org/download/"@ + q[j].ia@[0]@ + seq!['/'] + q[j].ia@[0]@ + ".pdf"@;
                assert(docs[j] == q[j]);
            } else {
                let j = docs.len() - 1;
                assert(docs[j] == docs.last());
            }
        }
    }
}

/// The results for an Open Library answer (see `openlibrary_results_spec`).
pub fn openlibrary_results(docs: Vec<OpenLibraryDoc>) -> (r: Vec<FindResult>)
    ensures
        results_view(r@) == openlibrary_results_spec(docs@),
{
    let mut out: Vec<FindResult> = Vec::new();
    let mut i: usize = 0;
    while i < docs.len()
        invariant
            i <= docs.len(),
            results_view(out@) == openlibrary_results_spec(docs@.take(i as int)),
        decreases docs.len() - i,
    {
        let d = &docs[i];
        assert(docs@.take(i + 1).drop_last() =~= docs@.take(i as int));
        assert(docs@.take(i + 1).last() == *d);
        if d.ia.len() > 0 {
            let ia = &d.ia[0];
            let mut url = String::from_str("https://archive.org/download/");
            url.append(ia.as_str());
            push_char(&mut url, '/');
            url.append(ia.as_str());
            url.append(".pdf");
            assert(url@ =~= "https://archive.org/download/"@ + d.ia@[0]@ + seq!['/'] + d.ia@[0]@ + ".pdf"@);
            let filename = filename_for(d.title.as_str(), "pdf");
            let r = FindResult {
                source: "openlibrary.org",
                title: d.title.clone(),
                url,
                format: Some(String::from_str("pdf")),
                filename,
            };
            let ghost before = out@;
            out.push(r);
            assert(results_view(out@) =~= results_view(before).push(r@));
        }
        i += 1;
    }
    assert(docs@.take(docs.len() as int) =~= docs@);
    out
}

// ---------------------------------------------------------------------------
// Project Gutenberg
// ---------------------------------------------------------------------------

/// One book of a Gutendex answer.
#[derive(Debug, Clone)]
pub struct GutenbergBook {
    pub title: String,
    /// Author names, in order.
    pub authors: Vec<String>,
    /// Download URLs by MIME type, one pair per type.
    pub formats: Vec<(String, String)>,
}

/// The request URL of a Gutendex search for `query`.
pub open spec fn gutenberg_search_request(query: Seq<char>) -> Option<Seq<char>> {
    url_with_query("https://gutendex.com/books"@, seq![("search"@, query)])
}

/// The request URL of a Gutendex search for `query`.
pub fn gutenberg_search_url(query: &str) -> (r: Option<String>)
    ensures
        r.deep_view() == gutenberg_search_request(query@),
{
    let pairs = vec![(String::from_str("search"), String::from_str(query))];
    assert(pairs_view(pairs@) =~= seq![("search"@, query@)]);
    proof {
        reveal_strlit("https://gutendex.com/books");
    }
    assert(!"https://gutendex.com/books"@.contains('#'));
    url_with_query_pairs("https://gutendex.com/books", &pairs)
}

/// MIME types to probe, in order of preference, with the extension each gives.
pub open spec fn format_priority() -> Seq<(Seq<char>, Seq<char>)> {
    seq![
        ("application/pdf"@, "pdf"@),
        ("text/plain; charset=utf-8"@, "txt"@),
        ("text/plain"@, "txt"@),
        ("text/html; charset=utf-8"@, "html"@),
        ("text/html"@, "html"@),
    ]
}

/// The value of the first pair of `pairs` whose key is `key`.
pub open spec fn lookup(pairs: Seq<(Seq<char>, Seq<char>)>, key: Seq<char>) -> Option<Seq<char>>
    decreases pairs.len(),
{
    if pairs.len() == 0 {
        None
    } else if pairs[0].0 == key {
        Some(pairs[0].1)
    } else {
        lookup(pairs.drop_first(), key)
    }
}

/// The keys of a list of pairs.
pub open spec fn pair_keys(pairs: Seq<(Seq<char>, Seq<char>)>) -> Seq<Seq<char>> {
    pairs.map_values(|p: (Seq<char>, Seq<char>)| p.0)
}

impl GutenbergBook {
    /// The formats are a map: each MIME type is offered once.
    pub open spec fn wf(self) -> bool {
        pair_keys(pairs_view(self.formats@)).no_duplicates()
    }
}

/// With each key once, `lookup` reads the pairs as a map: a key gives the
/// value paired with it, and a key that is absent gives nothing, whatever
/// the order of the pairs.
pub proof fn lemma_lookup_as_map(pairs: Seq<(Seq<char>, Seq<char>)>, key: Seq<char>)
    requires
        pair_keys(pairs).no_duplicates(),
    ensures
        forall|v: Seq<char>| pairs.contains((key, v)) ==> lookup(pairs, key) == Some(v),
        !pair_keys(pairs).contains(key) ==> lookup(pairs, key) is None,
    decreases pairs.len(),
{
    if pairs.len() > 0 {
        let rest = pairs.drop_first();
        assert(pair_keys(rest) =~= pair_keys(pairs).drop_first());
        assert(pair_keys(rest).no_duplicates()) by {
            assert forall|i: int, j: int| 0 <= i < j < pair_keys(rest).len() implies pair_keys(rest)[i] != pair_keys(rest)[j] by {
                assert(pair_keys(rest)[i] == pair_keys(pairs)[i + 1]);
                assert(pair_keys(rest)[j] == pair_keys(pairs)[j + 1]);
            }
        }
        lemma_lookup_as_map(rest, key);
        assert forall|v: Seq<char>| pairs.contains((key, v)) implies lookup(pairs, key) == Some(v) by {
            let k = choose|k: int| 0 <= k < pairs.len() && pairs[k] == (key, v);
            if k == 0 {
            } else {
                assert(pair_keys(pairs)[k] == key);
                assert(pair_keys(pairs)[0] != pair_keys(pairs)[k]);
                assert(rest[k - 1] == (key, v));
                assert(rest.contains((key, v)));
            }
        }
        if !pair_keys(pairs).contains(key) {
            assert(pair_keys(pairs)[0] == pairs[0].0);
            assert forall|i: int| 0 <= i < pair_keys(rest).len() implies pair_keys(rest)[i] != key by {
                assert(pair_keys(rest)[i] == pair_keys(pairs)[i + 1]);
            }
        }
    }
}

/// The download URL and extension of the most preferred format offered.
pub open spec fn best_format_from(formats: Seq<(Seq<char>, Seq<char>)>, prio: Seq<(Seq<char>, Seq<char>)>) -> Option<(Seq<char>, Seq<char>)>
    decreases prio.len(),
{
    if prio.len() == 0 {
        None
    } else {
        match lookup(formats, prio[0].0) {
            Some(url) => Some((url, prio[0].1)),
            None => best_format_from(formats, prio.drop_first()),
        }
    }
}

/// The result for one book: title and first author (`Unknown` without one),
/// the best available format's URL, and a filename for the title; none when
/// no preferred format is offered.
pub open spec fn gutenberg_result(b: GutenbergBook) -> Option<FindView> {
    match best_format_from(pairs_view(b.formats@), format_priority()) {
        Some((url, ext)) => {
            let author = if b.authors@.len() > 0 { b.authors@[0]@ } else { "Unknown"@ };
            Some(("gutenberg.org"@, b.title@ + " — "@ + author, url, Some(ext), suggested_filename(b.title@, ext)))
        },
        None => None,
    }
}

/// The results for a Gutendex answer, in order, skipping books without a usable format.
pub open spec fn gutenberg_results_spec(books: Seq<GutenbergBook>) -> Seq<FindView>
    decreases books.len(),
{
    if books.len() == 0 {
        Seq::empty()
    } else {
        let p = gutenberg_results_spec(books.drop_last());
        match gutenberg_result(books.last()) {
            Some(r) => p.push(r),
            None => p,
        }
    }
}

fn lookup_exec(pairs: &Vec<(String, String)>, key: &str) -> (r: Option<String>)
    ensures
        r.deep_view() == lookup(pairs_view(pairs@), key@),
{
    let k = chars_of(key);
    let ghost pv = pairs_view(pairs@);
    assert(pv.skip(0) =~= pv);
    let mut i: usize = 0;
    while i < pairs.len()
        invariant
            i <= pairs.len(),
            k@ == key@,
            pv == pairs_view(pairs@),
            lookup(pv, key@) == lookup(pv.skip(i as int), key@),
        decreases pairs.len() - i,
    {
        let ghost rest = pv.skip(i as int);
        assert(rest[0] == (pairs@[i as int].0@, pairs@[i as int].1@));
        assert(rest.drop_first() =~= pv.skip(i + 1));
        if crate::text::chars_eq(&chars_of(pairs[i].0.as_str()), &k) {
            return Some(pairs[i].1.clone());
        }
        i += 1;
    }
    assert(pv.skip(pairs.len() as int).len() == 0);
    None
}

fn best_format(formats: &Vec<(String, String)>) -> (r: Option<(String, &'static str)>)
    ensures
        match r {
            Some((u, e)) => best_format_from(pairs_view(formats@), format_priority()) == Some((u@, e@)),
            None => best_format_from(pairs_view(formats@), format_priority()) is None,
        },
{
    let prio: Vec<(&'static str, &'static str)> = vec![
        ("application/pdf", "pdf"),
        ("text/plain; charset=utf-8", "txt"),
        ("text/plain", "txt"),
        ("text/html; charset=utf-8", "html"),
        ("text/html", "html"),
    ];
    let ghost pr = prio@.map_values(|p: (&str, &str)| (p.0@, p.1@));
    assert(pr =~= format_priority());
    assert(pr.skip(0) =~= pr);
    let mut i: usize = 0;
    while i < prio.len()
        invariant
            i <= prio.len(),
            pr == prio@.map_values(|p: (&str, &str)| (p.0@, p.1@)),
            pr == format_priority(),
            best_format_from(pairs_view(formats@), pr) == best_format_from(pairs_view(formats@), pr.skip(i as int)),
        decreases prio.len() - i,
    {
        let (mime, ext) = prio[i];
        assert(pr.skip(i as int)[0] == (mime@, ext@));
        assert(pr.skip(i as int).drop_first() =~= pr.skip(i + 1));
        match lookup_exec(formats, mime) {
            Some(url) => {
                return Some((url, ext));
            },
            None => {},
        }
        i += 1;
    }
    assert(pr.skip(prio.len() as int).len() == 0);
    None
}

/// Every Gutenberg result comes from one book: its title is the book's
/// title, ` — `, and the book's first author (`Unknown` without one).
pub proof fn lemma_gutenberg_title_first_author(books: Seq<GutenbergBook>)
    ensures
        forall|i: int| 0 <= i < gutenberg_results_spec(books).len() ==> exists|j: int|
            0 <= j < books.len() && (#[trigger] gutenberg_results_spec(books)[i]).1 == books[j].title@ + " — "@ + (
            if books[j].authors@.len() > 0 {
                books[j].authors@[0]@
            } else {
                "Unknown"@
            }) && gutenberg_results_spec(books)[i].0 == "gutenberg.org"@,
    decreases books.len(),
{
    if books.len() > 0 {
        let q = books.drop_last();
        lemma_gutenberg_title_first_author(q);
        let p = gutenberg_results_spec(q);
        let r = gutenberg_results_spec(books);
        assert forall|i: int| 0 <= i < r.len() implies exists|j: int|
            0 <= j < books.len() && (#[trigger] r[i]).1 == books[j].title@ + " — "@ + (if books[j].authors@.len() > 0 {
                books[j].authors@[0]@
            } else {
                "Unknown"@
            }) && r[i].0 == "gutenberg.org"@ by {
            if i < p.len() {
                assert(r[i] == p[i]);
                let j = choose|j: int|
                    0 <= j < q.len() && (#[trigger] p[i]).1 == q[j].title@ + " — "@ + (if q[j].authors@.len() > 0 {
                        q[j].authors@[0]@
                    } else {
                        "Unknown"@
                    }) && p[i].0 == "gutenberg.org"@;
                assert(books[j] == q[j]);
            } else {
                let j = books.len() - 1;
                assert(books[j] == books.last());
            }
        }
    }
}

/// The results for a Gutendex answer (see `gutenberg_results_spec`).
pub fn gutenberg_results(books: Vec<GutenbergBook>) -> (r: Vec<FindResult>)
    requires
        forall|i: int| 0 <= i < books.len() ==> (#[trigger] books@[i]).wf(),
    ensures
        results_view(r@) == gutenberg_results_spec(books@),
{
    let mut out: Vec<FindResult> = Vec::new();
    let mut i: usize = 0;
    while i < books.len()
        invariant
            i <= books.len(),
            results_view(out@) == gutenberg_results_spec(books@.take(i as int)),
        decreases books.len() - i,
    {
        let b = &books[i];
        assert(books@.take(i + 1).drop_last() =~= books@.take(i as int));
        assert(books@.take(i + 1).last() == *b);
        match best_format(&b.formats) {
            Some((url, ext)) => {
                let mut title = b.title.clone();
                title.append(" — ");
                if b.authors.len() > 0 {
                    title.append(b.authors[0].as_str());
                } else {
                    title.append("Unknown");
                }
                let filename = filename_for(b.title.as_str(), ext);
                let r = FindResult {
                    source: "gutenberg.org",
                    title,
                    url,
                    format: Some(String::from_str(ext)),
                    filename,
                };
                let ghost before = out@;
                out.push(r);
                assert(results_view(out@) =~= results_view(before).push(r@));
            },
            None => {},
        }
        i += 1;
    }
    assert(books@.take(books.len() as int) =~= books@);
    out
}

// ---------------------------------------------------------------------------
// Anna's Archive
// ---------------------------------------------------------------------------

/// The request URL of an Anna's Archive search for `query`.
pub open spec fn annas_search_request(query: Seq<char>) -> Option<Seq<char>> {
    url_with_query("https://annas-archive.org/search"@, seq![("q"@, query)])
}

/// The request URL of an Anna's Archive search for `query`.
pub fn annas_search_url(query: &str) -> (r: Option<String>)
    ensures
        r.deep_view() == annas_search_request(query@),
{
    let pairs = vec![(String::from_str("q"), String::from_str(query))];
    assert(pairs_view(pairs@) =~= seq![("q"@, query@)]);
    proof {
        reveal_strlit("https://annas-archive.org/search");
    }
    assert(!"https://annas-archive.org/search"@.contains('#'));
    url_with_query_pairs("https://annas-archive.org/search", &pairs)
}

/// The formats recognised in a result's metadata line, in order of preference.
pub open spec fn known_formats() -> Seq<Seq<char>> {
    seq!["pdf"@, "epub"@, "mobi"@, "djvu"@, "txt"@]
}

/// The first of `formats` that occurs in `text`.
pub open spec fn first_format_in(text: Seq<char>, formats: Seq<Seq<char>>) -> Option<Seq<char>>
    decreases formats.len(),
{
    if formats.len() == 0 {
        None
    } else if contains_run(text, formats[0]) {
        Some(formats[0])
    } else {
        first_format_in(text, formats.drop_first())
    }
}

/// The result for one search-result element of Anna's Archive, when it has a
/// link and a non-empty title.
pub open spec fn annas_result(item: HtmlItemView) -> Option<FindView> {
    match item.0 {
        None => None,
        Some(href) => {
            let title = match item.1[0] {
                Some(n) => trim_ws(node_text(n.1)),
                None => Seq::empty(),
            };
            if title.len() == 0 {
                None
            } else {
                let format = match item.1[1] {
                    Some(n) => first_format_in(str_to_lowercase(node_text(n.1)), known_formats()),
                    None => None,
                };
                let url = if starts_with(href, "http"@) { href } else { "https://annas-archive.org"@ + href };
                let ext = match format {
                    Some(f) => f,
                    None => "pdf"@,
                };
                Some(("annas-archive.org"@, title, url, format, suggested_filename(title, ext)))
            }
        },
    }
}

/// The results for the result elements of an Anna's Archive page, in order.
pub open spec fn annas_results_spec(items: Seq<HtmlItemView>) -> Seq<FindView>
    decreases items.len(),
{
    if items.len() == 0 {
        Seq::empty()
    } else {
        let p = annas_results_spec(items.drop_last());
        match annas_result(items.last()) {
            Some(r) => p.push(r),
            None => p,
        }
    }
}

/// The selectors of a result element, its title and its metadata line.
pub open spec fn annas_selectors() -> (Seq<char>, Seq<char>, Seq<Seq<char>>) {
    ("a.js-vim-focus"@, "href"@, seq![".line-clamp-2"@, ".text-sm.text-gray-500"@])
}

/// The results of an Anna's Archive search page: the first five result
/// elements, each kept when it has a link and a non-empty title.
pub open spec fn annas_page_results(html: Seq<char>) -> Seq<FindView> {
    match html_items(html, annas_selectors().0, annas_selectors().1, annas_selectors().2) {
        Some(items) => annas_results_spec(items.take(if items.len() < 5 { items.len() as int } else { 5 })),
        None => Seq::empty(),
    }
}

fn first_known_format(meta: &String) -> (r: Option<&'static str>)
    ensures
        r.deep_view() == first_format_in(str_to_lowercase(meta@), known_formats()),
{
    let text = chars_of(to_lowercase(meta.as_str()).as_str());
    let fmts: Vec<&'static str> = vec!["pdf", "epub", "mobi", "djvu", "txt"];
    let ghost fv = fmts@.map_values(|s: &str| s@);
    assert(fv =~= known_formats());
    assert(fv.skip(0) =~= fv);
    let mut i: usize = 0;
    while i < fmts.len()
        invariant
            i <= fmts.len(),
            fv == fmts@.map_values(|s: &str| s@),
            fv == known_formats(),
            text@ == str_to_lowercase(meta@),
            first_format_in(text@, fv) == first_format_in(text@, fv.skip(i as int)),
        decreases fmts.len() - i,
    {
        assert(fv.skip(i as int)[0] == fmts@[i as int]@);
        assert(fv.skip(i as int).drop_first() =~= fv.skip(i + 1));
        if chars_contains(&text, &chars_of(fmts[i])) {
            return Some(fmts[i]);
        }
        i += 1;
    }
    assert(fv.skip(fmts.len() as int).len() == 0);
    None
}

fn annas_result_exec(item: &crate::html::HtmlItem) -> (r: Option<FindResult>)
    requires
        item.inner.len() == 2,
    ensures
        match r {
            Some(v) => annas_result(item@) == Some(v@),
            None => annas_result(item@) is None,
        },
{
    let href = match &item.attr {
        Some(h) => h,
        None => return None,
    };
    let title = match &item.inner[0] {
        Some(n) => string_of(&trim_chars(&chars_of(concat_text(&n.text).as_str()))),
        None => String::new(),
    };
    if chars_of(title.as_str()).len() == 0 {
        return None;
    }
    let format: Option<&'static str> = match &item.inner[1] {
        Some(n) => first_known_format(&concat_text(&n.text)),
        None => None,
    };
    let mut http: Vec<char> = Vec::new();
    http.push('h');
    http.push('t');
    http.push('t');
    http.push('p');
    assert(http@ =~= "http"@) by {
        reveal_strlit("http");
    }
    let url = if chars_starts_with(&chars_of(href.as_str()), &http) {
        href.clone()
    } else {
        let mut u = String::from_str("https://annas-archive.org");
        u.append(href.as_str());
        u
    };
    let ext: &str = match format {
        Some(f) => f,
        None => "pdf",
    };
    let filename = filename_for(title.as_str(), ext);
    let fmt = match format {
        Some(f) => Some(String::from_str(f)),
        None => None,
    };
    Some(FindResult { source: "annas-archive.org", title, url, format: fmt, filename })
}

/// Parses the results of an Anna's Archive search page: the first five
/// result elements (`a.js-vim-focus`), each kept when it has a link and a
/// non-empty title. The format is the first of pdf, epub, mobi, djvu and
/// txt named in the metadata line; relative links are made absolute.
pub fn parse_results(html: &str) -> (r: Vec<FindResult>)
    ensures
        results_view(r@) == annas_page_results(html@),
{
    let inner: Vec<&str> = vec![".line-clamp-2", ".text-sm.text-gray-500"];
    assert(crate::html::selectors_view(inner@) =~= annas_selectors().2);
    let items = match select_items(html, "a.js-vim-focus", "href", inner.as_slice()) {
        Some(v) => v,
        None => return Vec::new(),
    };
    let ghost iv = items_view(items@);
    let n: usize = if items.len() < 5 { items.len() } else { 5 };
    let mut out: Vec<FindResult> = Vec::new();
    let mut i: usize = 0;
    while i < n
        invariant
            i <= n <= items.len(),
            iv == items_view(items@),
            forall|k: int| 0 <= k < items.len() ==> (#[trigger] items@[k]).inner.len() == 2,
            results_view(out@) == annas_results_spec(iv.take(i as int)),
        decreases n - i,
    {
        assert(iv.take(i + 1).drop_last() =~= iv.take(i as int));
        assert(iv.take(i + 1).last() == items@[i as int]@);
        match annas_result_exec(&items[i]) {
            Some(r) => {
                let ghost before = out@;
                out.push(r);
                assert(results_view(out@) =~= results_view(before).push(r@));
            },
            None => {},
        }
        i += 1;
    }
    out
}

// ---------------------------------------------------------------------------
// All sources together
// ---------------------------------------------------------------------------

/// Whether `source` is queried under the optional `--source` restriction.
pub fn source_enabled(filter: Option<Source>, source: Source) -> (r: bool)
    ensures
        r == match filter {
            Some(f) => f == source,
            None => true,
        },
{
    match filter {
        Some(f) => f == source,
        None => true,
    }
}

/// The URL of each result.
pub open spec fn result_urls(s: Seq<FindView>) -> Seq<Seq<char>> {
    s.map_values(|r: FindView| r.2)
}

/// The results of `s` whose URL did not occur earlier, in order.
pub open spec fn unique_results(s: Seq<FindView>) -> Seq<FindView> {
    first_by_key(s, result_urls(s))
}

/// Keeps the first result for each URL, in order.
pub fn dedup_results_by_url(results: Vec<FindResult>) -> (r: Vec<FindResult>)
    ensures
        results_view(r@) == unique_results(results_view(results@)),
{
    let ghost rv = results_view(results@);
    let ghost urls = rv.map_values(|r: FindView| r.2);
    let mut seen = fx_strings_with_capacity(results.len());
    let mut out: Vec<FindResult> = Vec::new();
    let n = results.len();
    for f in it: results
        invariant
            it.seq() == results@,
            rv == results_view(results@),
            urls == rv.map_values(|r: FindView| r.2),
            n == results@.len(),
            results_view(out@) == first_by_key(rv.take(it.index() as int), urls.take(it.index() as int)),
            fx_string_set(seen) == urls.take(it.index() as int).to_set(),
    {
        let ghost i = it.index() as int;
        proof {
            assert(rv.take(i + 1).drop_last() =~= rv.take(i));
            assert(urls.take(i + 1).take(i) =~= urls.take(i));
            assert(urls[i] == f.url@);
            assert(rv[i] == f@);
            lemma_take_push_to_set(urls, i);
        }
        let fresh = fx_strings_insert(&mut seen, f.url.clone());
        if fresh {
            let ghost before = out@;
            out.push(f);
            assert(results_view(out@) =~= results_view(before).push(rv[i]));
        }
    }
    proof {
        assert(rv.take(n as int) =~= rv);
        assert(urls.take(n as int) =~= urls);
    }
    out
}

/// Results deduplicated by URL: no two share a URL, each is one of `s`, and
/// every URL of `s` is kept.
pub proof fn lemma_unique_results(s: Seq<FindView>)
    ensures
        result_urls(unique_results(s)).no_duplicates(),
        forall|r: FindView| unique_results(s).contains(r) ==> s.contains(r),
        forall|u: Seq<char>| result_urls(unique_results(s)).contains(u) <==> result_urls(s).contains(u),
{
    let key = |r: FindView| r.2;
    lemma_first_by_key(s, result_urls(s), key);
    assert(result_urls(unique_results(s)) =~= unique_results(s).map_values(key));
}

/// The results of the four sources (Internet Archive, Open Library,
/// Gutenberg, Anna's Archive) in that order, keeping the first result for each URL.
pub fn merge_results(
    archive: Vec<FindResult>,
    openlibrary: Vec<FindResult>,
    gutenberg: Vec<FindResult>,
    annas: Vec<FindResult>,
) -> (r: Vec<FindResult>)
    ensures
        results_view(r@) == unique_results(
            results_view(archive@) + results_view(openlibrary@) + results_view(gutenberg@) + results_view(annas@),
        ),
{
    let mut all = archive;
    let mut b = openlibrary;
    let mut c = gutenberg;
    let mut d = annas;
    let ghost (a0, b0, c0, d0) = (results_view(all@), results_view(b@), results_view(c@), results_view(d@));
    all.append(&mut b);
    all.append(&mut c);
    all.append(&mut d);
    assert(results_view(all@) =~= a0 + b0 + c0 + d0);
    dedup_results_by_url(all)
}

} // verus!
