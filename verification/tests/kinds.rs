use marcopolo::kinds::{all_extensions, matches_ext, FileKind};

#[test]
fn kind_extensions_and_labels() {
    assert_eq!(FileKind::Pdf.extensions(), &["pdf"]);
    assert_eq!(FileKind::Text.extensions(), &["txt", "md", "epub", "doc", "docx", "csv", "rst"]);
    assert_eq!(FileKind::Img.extensions().len(), 8);
    assert_eq!(FileKind::Video.extensions()[6], "m4v");
    assert_eq!(FileKind::Pdf.label(), "PDF");
    assert_eq!(FileKind::Img.label(), "image");
}

#[test]
fn all_extensions_flattens_in_order() {
    let e = all_extensions(&[FileKind::Pdf, FileKind::Video]);
    assert_eq!(e, vec!["pdf", "mp4", "mkv", "avi", "mov", "webm", "flv", "m4v"]);
}

#[test]
fn all_extensions_keeps_each_extension_once() {
    assert_eq!(all_extensions(&[FileKind::Pdf, FileKind::Pdf]), vec!["pdf"]);
    assert_eq!(
        all_extensions(&[FileKind::Pdf, FileKind::Text, FileKind::Pdf]),
        vec!["pdf", "txt", "md", "epub", "doc", "docx", "csv", "rst"]
    );
    assert_eq!(all_extensions(&[FileKind::Text, FileKind::Text]).len(), 7);
    assert_eq!(all_extensions(&[FileKind::Img]), FileKind::Img.extensions().to_vec());
}

#[test]
fn all_extensions_empty() {
    assert!(all_extensions(&[]).is_empty());
}

#[test]
fn matches_ext_ignores_case_and_query() {
    assert!(matches_ext("https://x.org/Book.PDF?dl=1", &["pdf"]));
    assert!(matches_ext("dir/a.tar.gz", &["zip", "gz"]));
    assert!(!matches_ext("https://x.org/pdf", &["pdf"]));
    assert!(!matches_ext("https://x.org/a.pdf.html", &["pdf"]));
    assert!(!matches_ext("a.pdf", &[]));
    assert!(!matches_ext("https://x.org/?f=a.pdf", &["pdf"]));
}
