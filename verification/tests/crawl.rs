use marcopolo::crawl::{
    is_sitemap_index, page_file_links, page_internal_links, sitemap_candidates, sitemap_file_sources, sitemap_urls_for,
    Crawl,
};
use marcopolo::kinds::FileSource;
use marcopolo::parsing::ParsedUrl;

fn parts(serialization: &str, host: &str, path: &str) -> ParsedUrl {
    ParsedUrl {
        serialization: serialization.to_string(),
        scheme: "https".to_string(),
        host: Some(host.to_string()),
        path: path.to_string(),
        port: None,
    }
}

const PAGE: &str = r##"<html><body>
<a href="/files/A%20Book.pdf#p2">a</a>
<a href="https://other.org/b.pdf">b</a>
<a href="/files/A%20Book.pdf">again</a>
<a href="about.html#team">about</a>
<a href="mailto:me@site.org">mail</a>
<a href="#top">top</a>
<a href="https://other.org/page">external</a>
<img src="img/logo.png">
<video src="/v/clip.mp4"></video>
</body></html>"##;

#[test]
fn page_files_resolved_and_deduplicated() {
    let files = page_file_links(PAGE, "https://site.org/docs/index.html", &["pdf", "png"]).unwrap();
    let got: Vec<(&str, &str)> = files.iter().map(|f| (f.name.as_str(), f.url.as_str())).collect();
    assert_eq!(
        got,
        vec![
            ("A Book.pdf", "https://site.org/files/A%20Book.pdf"),
            ("b.pdf", "https://other.org/b.pdf"),
            ("logo.png", "https://site.org/docs/img/logo.png"),
        ]
    );
}

#[test]
fn page_internal_links_same_origin_pages_only() {
    let base = "https://site.org/docs/index.html";
    let p = parts(base, "site.org", "/docs/index.html");
    let links = page_internal_links(PAGE, base, &p, &["pdf"]).unwrap();
    assert_eq!(links, vec!["https://site.org/docs/about.html".to_string()]);
}

#[test]
fn sitemap_helpers() {
    let p = parts("https://site.org/a/b?c", "site.org", "/a/b");
    assert_eq!(
        sitemap_candidates(&p),
        vec!["https://site.org/sitemap.xml".to_string(), "https://site.org/sitemap_index.xml".to_string()]
    );
    assert_eq!(
        sitemap_urls_for("https://site.org/a/b?c").unwrap(),
        vec!["https://site.org/sitemap.xml".to_string(), "https://site.org/sitemap_index.xml".to_string()]
    );
    assert!(sitemap_urls_for("not a url").is_err());
    assert!(is_sitemap_index("<sitemapindex><sitemap><loc>x</loc></sitemap></sitemapindex>"));
    assert!(!is_sitemap_index("<urlset></urlset>"));
    let files = sitemap_file_sources(
        vec!["https://s/a.pdf".into(), "https://s/b.html".into(), "https://s/a.pdf".into(), "https://s/c%20d.PDF".into()],
        &["pdf"],
    );
    let got: Vec<(&str, &str)> = files.iter().map(|f| (f.name.as_str(), f.url.as_str())).collect();
    assert_eq!(got, vec![("a.pdf", "https://s/a.pdf"), ("c d.PDF", "https://s/c%20d.PDF")]);
}

#[test]
fn crawl_visits_each_page_once_and_respects_depth() {
    let sitemap = vec![FileSource { name: "x.pdf".into(), url: "https://site.org/x.pdf".into() }];
    let mut c = Crawl::new("https://site.org/#intro", 1, sitemap);
    let batch = c.next_batch().unwrap();
    assert_eq!(batch, vec!["https://site.org/".to_string()]);
    let home = r#"<a href="/x.pdf">x</a><a href="/y.pdf">y</a><a href="/p1">p1</a><a href="/p1#s">p1 again</a><a href="/">home</a>"#;
    assert!(c.record_page("https://site.org/", home, &["pdf"]));
    c.finish_level();
    let batch = c.next_batch().unwrap();
    assert_eq!(batch, vec!["https://site.org/p1".to_string()]);
    let p1 = r#"<a href="/z.pdf">z</a><a href="/p2">p2</a>"#;
    assert!(c.record_page("https://site.org/p1", p1, &["pdf"]));
    c.finish_level();
    assert!(c.next_batch().is_none());
    let files = c.into_files();
    let urls: Vec<&str> = files.iter().map(|f| f.url.as_str()).collect();
    assert_eq!(urls, vec!["https://site.org/x.pdf", "https://site.org/y.pdf", "https://site.org/z.pdf"]);
}

#[test]
fn crawl_depth_zero_fetches_only_start_page() {
    let mut c = Crawl::new("https://site.org/start", 0, vec![]);
    assert_eq!(c.next_batch().unwrap().len(), 1);
    assert!(c.record_page("https://site.org/start", r#"<a href="/next">n</a>"#, &["pdf"]));
    assert!(c.record_page("https://site.org/broken", "", &["pdf"]));
    c.finish_level();
    assert!(c.next_batch().is_none());
    assert!(c.into_files().is_empty());
}

#[test]
fn internal_links_need_the_same_host_and_port() {
    let base = "https://example.com/";
    let p = parts(base, "example.com", "/");
    let html = r#"<a href="https://example.com.evil.org/p">x</a>
<a href="https://example.com:8443/q">y</a>
<a href="http://example.com/r">z</a>
<a href="https://example.com:443/s">w</a>"#;
    let links = page_internal_links(html, base, &p, &["pdf"]).unwrap();
    assert_eq!(links, vec!["https://example.com/s".to_string()]);
}
