use marcopolo::github::TreeEntry;
use marcopolo::web_search::{
    ddg_search_url, ddg_target_url, github_search_url, github_tree_url, parse_ddg_results, parse_scholar_results,
    repo_pdf_results, scholar_search_url,
};

#[test]
fn ddg_request_and_redirect_target() {
    assert_eq!(ddg_search_url("deep learning"), "https://html.duckduckgo.com/html/?q=deep%20learning%20filetype%3Apdf");
    assert_eq!(
        ddg_target_url("//duckduckgo.com/l/?uddg=https%3A%2F%2Fx.org%2Fa%20b.pdf&rut=abc"),
        "https://x.org/a b.pdf"
    );
    assert_eq!(ddg_target_url("https://x.org/plain.pdf"), "https://x.org/plain.pdf");
}

#[test]
fn ddg_results_keep_pdf_links() {
    let html = r#"<div class="result"><a class="result__title">Deep <b>Learning</b> Book</a>
        <a class="result__url" href="//duckduckgo.com/l/?uddg=https%3A%2F%2Fx.org%2Fdl.PDF&rut=1">x.org</a></div>
        <div class="result"><a class="result__url" href="https://y.org/page.html">y</a></div>
        <div class="result"><a class="result__url" href="https://z.org/z.pdf">z</a></div>"#;
    let r = parse_ddg_results(html);
    assert_eq!(r.len(), 2);
    assert_eq!(r[0].url, "https://x.org/dl.PDF");
    assert_eq!(r[0].title, "Deep  Learning  Book");
    assert_eq!(r[0].filename, "Deep  Learning  Book.pdf");
    assert_eq!(r[1].title, "DuckDuckGo PDF");
    assert_eq!(r[1].source, "duckduckgo.com");
}

#[test]
fn scholar_results() {
    assert_eq!(scholar_search_url("a b"), "https://scholar.google.com/scholar?q=a%20b");
    let html = r#"<div class="gs_r gs_or gs_scl"><div class="gs_or_ggsm"><a href="https://u.edu/p">[PDF] u.edu</a></div>
        <h3 class="gs_rt"><a href="x">Attention: all you need</a></h3></div>
        <div class="gs_r gs_or gs_scl"><div class="gs_or_ggsm"><a href="https://v.edu/q">[HTML]</a></div></div>"#;
    let r = parse_scholar_results(html);
    assert_eq!(r.len(), 1);
    assert_eq!(r[0].url, "https://u.edu/p");
    assert_eq!(r[0].title, "Attention: all you need");
    assert_eq!(r[0].filename, "Attention_ all you need.pdf");
}

#[test]
fn github_search_results() {
    assert_eq!(github_search_url("ml books"), "https://api.github.com/search/repositories?q=ml%20books&per_page=3");
    assert_eq!(github_tree_url("o/r", "main"), "https://api.github.com/repos/o/r/git/trees/main?recursive=1");
    let entries = vec![
        TreeEntry { path: "books/Intro.PDF".into(), kind: "blob".into() },
        TreeEntry { path: "books".into(), kind: "tree".into() },
        TreeEntry { path: "notes.md".into(), kind: "blob".into() },
    ];
    let r = repo_pdf_results("o/r", "main", &entries);
    assert_eq!(r.len(), 1);
    assert_eq!(r[0].title, "o/r - Intro.PDF");
    assert_eq!(r[0].url, "https://raw.githubusercontent.com/o/r/main/books/Intro.PDF");
    assert_eq!(r[0].filename, "Intro.PDF");
}
