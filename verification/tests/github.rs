use marcopolo::github::{
    decode_content, merge_github_sources, parse_github_url, readme_file_sources, release_file_sources,
    tree_file_sources, GithubUrlError, Release, ReleaseAsset, TreeEntry,
};
use marcopolo::kinds::FileSource;

fn fs(name: &str, url: &str) -> FileSource {
    FileSource { name: name.to_string(), url: url.to_string() }
}

#[test]
fn github_url_owner_and_repo() {
    let (o, r, s) = parse_github_url("https://github.com/owner/repo?tab=readme-ov-file#top").unwrap();
    assert_eq!((o.as_str(), r.as_str(), s), ("owner", "repo", None));
}

#[test]
fn github_url_subdirectory() {
    let (o, r, s) = parse_github_url("https://github.com/o/r/tree/main/docs/papers/").unwrap();
    assert_eq!(o, "o");
    assert_eq!(r, "r");
    assert_eq!(s, Some("docs/papers".to_string()));
    let (_, _, s) = parse_github_url("https://github.com/o/r/tree/main").unwrap();
    assert_eq!(s, None);
    let (_, _, s) = parse_github_url("https://github.com/o/r/blob/main/x").unwrap();
    assert_eq!(s, None);
}

#[test]
fn github_url_errors() {
    assert!(matches!(parse_github_url("https://github.com/owner"), Err(GithubUrlError::NotARepository)));
    assert!(matches!(parse_github_url("github.com/owner/repo"), Err(GithubUrlError::InvalidUrl(_))));
    assert!(matches!(parse_github_url("mailto:a@github.com"), Err(GithubUrlError::NoPathSegments)));
}

#[test]
fn tree_sources_filtered_and_named() {
    let entries = vec![
        TreeEntry { path: "docs/a.pdf".into(), kind: "blob".into() },
        TreeEntry { path: "docs/sub".into(), kind: "tree".into() },
        TreeEntry { path: "other/b.PDF".into(), kind: "blob".into() },
        TreeEntry { path: "docs/c.txt".into(), kind: "blob".into() },
        TreeEntry { path: "docsx/d.pdf".into(), kind: "blob".into() },
    ];
    let all = tree_file_sources("o", "r", "main", &entries, &["pdf"], None);
    assert_eq!(all.len(), 3);
    assert_eq!(all[0].name, "a.pdf");
    assert_eq!(all[0].url, "https://raw.githubusercontent.com/o/r/main/docs/a.pdf");
    assert_eq!(all[1].name, "b.PDF");
    let scoped = tree_file_sources("o", "r", "main", &entries, &["pdf"], Some("docs"));
    assert_eq!(scoped.len(), 1);
    assert_eq!(scoped[0].url, "https://raw.githubusercontent.com/o/r/main/docs/a.pdf");
}

#[test]
fn release_sources_filtered() {
    let releases = vec![
        Release { assets: vec![
            ReleaseAsset { name: "book.pdf".into(), browser_download_url: "https://d/1".into() },
            ReleaseAsset { name: "src.zip".into(), browser_download_url: "https://d/2".into() },
        ] },
        Release { assets: vec![ReleaseAsset { name: "notes.PDF".into(), browser_download_url: "https://d/3".into() }] },
    ];
    let got = release_file_sources(&releases, &["pdf"]);
    assert_eq!(got.len(), 2);
    assert_eq!(got[0].url, "https://d/1");
    assert_eq!(got[1].name, "notes.PDF");
}

#[test]
fn content_decoding() {
    assert_eq!(decode_content("aGVs\nbG8=\n", "base64"), "hello");
    assert_eq!(decode_content("aGVsbG8=", "utf-8"), "");
    assert_eq!(decode_content("!!!", "base64"), "");
}

#[test]
fn merge_keeps_first_per_url() {
    let merged = merge_github_sources(
        vec![fs("a", "u1"), fs("b", "u2")],
        vec![fs("c", "u2"), fs("d", "u3")],
        vec![fs("e", "u1"), fs("f", "u4")],
    );
    let names: Vec<&str> = merged.iter().map(|f| f.name.as_str()).collect();
    assert_eq!(names, vec!["a", "b", "d", "f"]);
}

#[test]
fn readme_links_merged() {
    let got = readme_file_sources("https://x.org/a.pdf https://x.org/b.pdf", "https://x.org/b.pdf https://x.org/c.pdf", &["pdf"]).unwrap();
    let urls: Vec<&str> = got.iter().map(|f| f.url.as_str()).collect();
    assert_eq!(urls, vec!["https://x.org/a.pdf", "https://x.org/b.pdf", "https://x.org/c.pdf"]);
}
