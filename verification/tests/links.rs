use marcopolo::links::{clean_filename, extract_file_links, parse_sitemap_locs, strip_fragment, try_extract_file_links};

#[test]
fn extract_links_from_readme_text() {
    let text = "See [book](https://example.com/books/Clean%20Code.PDF?raw=1) and \
                https://example.com/books/other.pdf, plus https://example.com/books/Clean%20Code.PDF?raw=1 again \
                and https://example.com/page.html";
    let found = extract_file_links(text, &["pdf"]);
    assert_eq!(found.len(), 2);
    assert_eq!(found[0].url, "https://example.com/books/Clean%20Code.PDF?raw=1");
    assert_eq!(found[0].name, "Clean%20Code.PDF");
    assert_eq!(found[1].url, "https://example.com/books/other.pdf,");
    assert_eq!(found[1].name, "other.pdf,");
}

#[test]
fn extract_links_several_extensions() {
    let found = extract_file_links("http://a.b/x.png \"http://a.b/y.jpg\"", &["jpg", "png"]);
    let urls: Vec<&str> = found.iter().map(|f| f.url.as_str()).collect();
    assert_eq!(urls, vec!["http://a.b/x.png", "http://a.b/y.jpg"]);
}

#[test]
fn extract_links_invalid_pattern_is_reported() {
    assert!(try_extract_file_links("http://a.b/x.pdf", &["("]).is_none());
    assert_eq!(try_extract_file_links("no links here", &["pdf"]).map(|v| v.len()), Some(0));
}

#[test]
fn sitemap_locs_are_extracted_and_trimmed() {
    let xml = "<urlset><url><loc> https://s.org/a.pdf </loc></url>\
               <url><loc>https://s.org/b.html</loc></url><loc>ftp://s.org/c</loc></urlset>";
    assert_eq!(
        parse_sitemap_locs(xml),
        Some(vec!["https://s.org/a.pdf".to_string(), "https://s.org/b.html".to_string()])
    );
    assert_eq!(parse_sitemap_locs(""), Some(vec![]));
}

#[test]
fn strip_fragment_cases() {
    assert_eq!(strip_fragment("https://a.b/p#sec"), "https://a.b/p");
    assert_eq!(strip_fragment("https://a.b/p"), "https://a.b/p");
    assert_eq!(strip_fragment("#x#y"), "");
}

#[test]
fn clean_filename_cases() {
    assert_eq!(clean_filename("https://a.b/dir/My%20Book.pdf?x=1"), "My Book.pdf");
    assert_eq!(clean_filename("https://a.b/dir/"), "unknown");
    assert_eq!(clean_filename("https://a.b/%FF.pdf"), "%FF.pdf");
    assert_eq!(clean_filename("plain"), "plain");
}

#[test]
fn clean_filename_never_leaves_the_directory() {
    assert_eq!(clean_filename("https://a.org/My%20Book.pdf?x=1"), "My Book.pdf");
    assert_eq!(clean_filename("https://a.org/dir/"), "unknown");
    assert_eq!(clean_filename("https://a.org/..%2F..%2Fx.pdf"), ".._.._x.pdf");
    assert_eq!(clean_filename("https://a.org/a%5Cb.pdf"), "a_b.pdf");
    assert_eq!(clean_filename("https://a.org/%2E%2E"), "unknown");
    assert_eq!(clean_filename("https://a.org/x/."), "unknown");
}
