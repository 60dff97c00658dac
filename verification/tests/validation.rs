use marcopolo::validation::{is_supported_extension, is_valid_query, validate_source, Source, SupportedExtension};

#[test]
fn supported_ext_pdf() {
    assert!(is_supported_extension("pdf"));
    assert!(is_supported_extension("PDF"));
}

#[test]
fn unsupported_ext_mp4() {
    assert!(!is_supported_extension("mp4"));
}

#[test]
fn validate_known_source() {
    assert!(validate_source("archive").is_ok());
    assert!(validate_source("OPENLIBRARY").is_ok());
    assert!(validate_source("gutenberg").is_ok());
    assert!(validate_source("annas").is_ok());
}

#[test]
fn validate_unknown_source_errors() {
    let err = validate_source("libgen").unwrap_err();
    assert!(err.contains("archive"));
}

#[test]
fn valid_query_nonempty() {
    assert!(is_valid_query("Clean Code"));
}

#[test]
fn invalid_query_empty() {
    assert!(!is_valid_query(""));
    assert!(!is_valid_query("   "));
}

#[test]
fn unknown_source_message_exact() {
    assert_eq!(
        validate_source("libgen").unwrap_err(),
        "Unknown source \"libgen\" — valid choices: archive, openlibrary, gutenberg, annas"
    );
}

#[test]
fn validate_only_find_sources() {
    assert_eq!(
        validate_source("GitHub").unwrap_err(),
        "Unknown source \"GitHub\" — valid choices: archive, openlibrary, gutenberg, annas"
    );
    assert!(validate_source("googlescholar").is_err());
    assert!(validate_source("duckduckgo").is_err());
    assert!(validate_source(" archive").is_err());
    assert!(validate_source("Annas").is_ok());
}

#[test]
fn extension_names_and_lookup() {
    assert_eq!(SupportedExtension::from_name("DjVu"), Some(SupportedExtension::Djvu));
    assert_eq!(SupportedExtension::from_name("epubx"), None);
    assert_eq!(SupportedExtension::Mobi.name(), "mobi");
    for e in ["pdf", "epub", "txt", "mobi", "djvu"] {
        assert!(is_supported_extension(e));
    }
}

#[test]
fn source_names_round_trip() {
    for s in Source::all() {
        assert_eq!(Source::from_name(s.name()), Some(s));
        assert_eq!(Source::from_name(&s.name().to_uppercase()), Some(s));
    }
    assert_eq!(Source::all().len(), 7);
}

#[test]
fn query_with_unicode_whitespace_only_is_invalid() {
    assert!(!is_valid_query("\u{3000}\t\n"));
    assert!(is_valid_query("\u{3000}x"));
}

#[test]
fn blank_queries_agree_with_std_whitespace() {
    for c in (0u32..=0x10FFFF).filter_map(char::from_u32) {
        let mut s = String::new();
        s.push(c);
        assert_eq!(is_valid_query(&s), !c.is_whitespace(), "{:?}", c);
    }
}
