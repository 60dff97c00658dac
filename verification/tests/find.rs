use marcopolo::find::{
    annas_search_url, archive_results, archive_search_url, gutenberg_results, gutenberg_search_url, merge_results,
    openlibrary_results, openlibrary_search_url, parse_results, source_enabled, ArchiveDoc, FindResult,
    GutenbergBook, OpenLibraryDoc,
};
use marcopolo::validation::Source;

/// Minimal fixture HTML that matches the selectors used in parse_results.
const FIXTURE: &str = r#"
<html><body>
    <a class="js-vim-focus" href="/md5/abc123">
        <div class="line-clamp-2">Clean Code</div>
        <div class="text-sm text-gray-500">PDF, 3.5 MB, English</div>
    </a>
    <a class="js-vim-focus" href="/md5/def456">
        <div class="line-clamp-2">The Pragmatic Programmer</div>
        <div class="text-sm text-gray-500">EPUB, 1.2 MB, English</div>
    </a>
    <!-- item without title should be skipped -->
    <a class="js-vim-focus" href="/md5/bad000">
        <div class="line-clamp-2"></div>
    </a>
</body></html>
"#;

#[test]
fn parses_two_results() {
    let results = parse_results(FIXTURE);
    assert_eq!(results.len(), 2);
}

#[test]
fn first_result_title() {
    let results = parse_results(FIXTURE);
    assert_eq!(results[0].title, "Clean Code");
}

#[test]
fn first_result_format_pdf() {
    let results = parse_results(FIXTURE);
    assert_eq!(results[0].format, Some("pdf".to_owned()));
}

#[test]
fn second_result_format_epub() {
    let results = parse_results(FIXTURE);
    assert_eq!(results[1].format, Some("epub".to_owned()));
}

#[test]
fn url_prefixed_with_base() {
    let results = parse_results(FIXTURE);
    assert!(results[0].url.starts_with("https://annas-archive.org"));
}

#[test]
fn skips_empty_title_item() {
    let results = parse_results(FIXTURE);
    assert!(!results.iter().any(|r| r.title.is_empty()));
}

#[test]
fn empty_html_returns_empty_vec() {
    assert!(parse_results("<html></html>").is_empty());
}

#[test]
fn annas_details_of_results() {
    let results = parse_results(FIXTURE);
    assert_eq!(results[0].url, "https://annas-archive.org/md5/abc123");
    assert_eq!(results[0].filename, "Clean_Code.pdf");
    assert_eq!(results[1].filename, "The_Pragmatic_Programmer.epub");
    assert_eq!(results[0].source, "annas-archive.org");
}

#[test]
fn annas_only_first_five_elements_and_absolute_links() {
    let mut html = String::from("<html><body>");
    html.push_str(r#"<a class="js-vim-focus" href="https://mirror.org/x"><div class="line-clamp-2"> T0 </div></a>"#);
    for i in 1..7 {
        html.push_str(&format!(r#"<a class="js-vim-focus" href="/md5/{i}"><div class="line-clamp-2">T{i}</div></a>"#));
    }
    html.push_str("</body></html>");
    let results = parse_results(&html);
    assert_eq!(results.len(), 5);
    assert_eq!(results[0].url, "https://mirror.org/x");
    assert_eq!(results[0].title, "T0");
    assert_eq!(results[0].format, None);
    assert_eq!(results[0].filename, "T0.pdf");
    assert_eq!(results[4].title, "T4");
}

#[test]
fn archive_results_built() {
    let r = archive_results(vec![
        ArchiveDoc { identifier: "cleancode".into(), title: "Clean Code".into() },
        ArchiveDoc { identifier: "untitled01".into(), title: "".into() },
    ]);
    assert_eq!(r[0].url, "https://archive.org/download/cleancode/cleancode.pdf");
    assert_eq!(r[0].filename, "Clean_Code.pdf");
    assert_eq!(r[0].format.as_deref(), Some("pdf"));
    assert_eq!(r[1].title, "untitled01");
    assert_eq!(r[1].source, "archive.org");
}

#[test]
fn openlibrary_results_need_ia() {
    let r = openlibrary_results(vec![
        OpenLibraryDoc { title: "No Scan".into(), ia: vec![] },
        OpenLibraryDoc { title: "SICP".into(), ia: vec!["sicp00".into(), "sicp01".into()] },
    ]);
    assert_eq!(r.len(), 1);
    assert_eq!(r[0].url, "https://archive.org/download/sicp00/sicp00.pdf");
    assert_eq!(r[0].source, "openlibrary.org");
}

#[test]
fn gutenberg_prefers_pdf_then_text() {
    let r = gutenberg_results(vec![
        GutenbergBook {
            title: "Moby Dick".into(),
            authors: vec!["Melville, Herman".into()],
            formats: vec![
                ("text/html".into(), "https://g/h".into()),
                ("text/plain".into(), "https://g/t".into()),
            ],
        },
        GutenbergBook { title: "Nothing".into(), authors: vec![], formats: vec![("image/jpeg".into(), "https://g/j".into())] },
        GutenbergBook { title: "Anon".into(), authors: vec![], formats: vec![("application/pdf".into(), "https://g/p".into())] },
    ]);
    assert_eq!(r.len(), 2);
    assert_eq!(r[0].url, "https://g/t");
    assert_eq!(r[0].format.as_deref(), Some("txt"));
    assert_eq!(r[0].title, "Moby Dick — Melville, Herman");
    assert_eq!(r[0].filename, "Moby_Dick.txt");
    assert_eq!(r[1].title, "Anon — Unknown");
    assert_eq!(r[1].format.as_deref(), Some("pdf"));
}

#[test]
fn search_urls_are_encoded() {
    assert_eq!(
        gutenberg_search_url("moby dick").as_deref(),
        Some("https://gutendex.com/books?search=moby+dick")
    );
    assert_eq!(annas_search_url("C++").as_deref(), Some("https://annas-archive.org/search?q=C%2B%2B"));
    assert_eq!(
        openlibrary_search_url("sicp").as_deref(),
        Some("https://openlibrary.org/search.json?title=sicp&limit=6&has_fulltext=true")
    );
    assert_eq!(
        archive_search_url("x").as_deref(),
        Some("https://archive.org/advancedsearch.php?q=title%3A%28x%29+AND+mediatype%3Atexts&fl%5B%5D=identifier%2Ctitle&output=json&rows=8")
    );
}

fn res(source: &'static str, url: &str) -> FindResult {
    FindResult { source, title: url.to_string(), url: url.to_string(), format: None, filename: String::new() }
}

#[test]
fn merge_results_dedups_by_url_in_source_order() {
    let m = merge_results(
        vec![res("archive.org", "u1")],
        vec![res("openlibrary.org", "u1"), res("openlibrary.org", "u2")],
        vec![],
        vec![res("annas-archive.org", "u2"), res("annas-archive.org", "u3")],
    );
    let got: Vec<(&str, &str)> = m.iter().map(|r| (r.source, r.url.as_str())).collect();
    assert_eq!(got, vec![("archive.org", "u1"), ("openlibrary.org", "u2"), ("annas-archive.org", "u3")]);
}

#[test]
fn source_filter() {
    assert!(source_enabled(None, Source::Annas));
    assert!(source_enabled(Some(Source::Annas), Source::Annas));
    assert!(!source_enabled(Some(Source::Archive), Source::Annas));
}

#[test]
fn archive_keeps_at_most_eight() {
    let docs: Vec<ArchiveDoc> =
        (0..9).map(|i| ArchiveDoc { identifier: format!("id{i}"), title: format!("T{i}") }).collect();
    let r = archive_results(docs);
    assert_eq!(r.len(), 8);
    assert_eq!(r[7].url, "https://archive.org/download/id7/id7.pdf");
}
