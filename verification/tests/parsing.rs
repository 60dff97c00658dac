use marcopolo::parsing::{extension_from_url, filename_from_url};

#[test]
fn filename_basic() {
    assert_eq!(
        filename_from_url("https://archive.org/download/foo/bar.pdf"),
        Some("bar.pdf".to_owned())
    );
}

#[test]
fn filename_strips_query() {
    assert_eq!(
        filename_from_url("https://example.com/file.pdf?token=abc"),
        Some("file.pdf".to_owned())
    );
}

#[test]
fn filename_no_path() {
    assert_eq!(filename_from_url("https://example.com/"), None);
}

#[test]
fn filename_deep_path() {
    assert_eq!(
        filename_from_url("https://example.com/a/b/c/document.epub"),
        Some("document.epub".to_owned())
    );
}

#[test]
fn extension_pdf() {
    assert_eq!(
        extension_from_url("https://archive.org/download/x/x.PDF"),
        Some("pdf".to_owned())
    );
}

#[test]
fn extension_none_when_no_ext() {
    assert_eq!(extension_from_url("https://example.com/readme"), None);
}

#[test]
fn filename_trailing_slash_uses_last_nonempty_segment() {
    assert_eq!(filename_from_url("https://example.com/docs/"), Some("docs".to_owned()));
}

#[test]
fn filename_unparsable_url() {
    assert_eq!(filename_from_url("not a url"), None);
    assert_eq!(filename_from_url("mailto:someone@example.com"), None);
}

#[test]
fn extension_dotfile_has_none() {
    assert_eq!(extension_from_url("https://example.com/.bashrc"), None);
}

#[test]
fn extension_last_dot_wins() {
    assert_eq!(extension_from_url("https://example.com/a.tar.GZ"), Some("gz".to_owned()));
    assert_eq!(extension_from_url("https://example.com/a."), Some("".to_owned()));
}
