use marcopolo::kinds::FileSource;
use marcopolo::session::{filter_by_keyword, is_github_url, prompt_step, select_all, PromptOutcome};

#[test]
fn github_mode_detection() {
    assert!(is_github_url("https://github.com/a/b"));
    assert!(!is_github_url("https://gitlab.com/a/b"));
}

#[test]
fn keyword_filter_ignores_case() {
    let files = vec![
        FileSource { name: "Attention_Transformer.pdf".into(), url: "u1".into() },
        FileSource { name: "cnn.pdf".into(), url: "u2".into() },
        FileSource { name: "TRANSFORMERS.PDF".into(), url: "u3".into() },
    ];
    let kept = filter_by_keyword(files, "Transformer");
    let urls: Vec<&str> = kept.iter().map(|f| f.url.as_str()).collect();
    assert_eq!(urls, vec!["u1", "u3"]);
}

#[test]
fn get_selects_everything() {
    assert_eq!(select_all(3), vec![0, 1, 2]);
    assert!(select_all(0).is_empty());
}

#[test]
fn prompt_outcomes() {
    assert!(matches!(prompt_step(" Q ", 3, 0), PromptOutcome::Quit));
    assert!(matches!(prompt_step("quit", 3, 0), PromptOutcome::Quit));
    assert!(matches!(prompt_step("   ", 3, 0), PromptOutcome::Quit));
    match prompt_step("2,3", 3, 0) {
        PromptOutcome::Chosen(v) => assert_eq!(v, vec![1, 2]),
        _ => panic!("expected a selection"),
    }
    assert!(matches!(prompt_step("9", 3, 0), PromptOutcome::AskAgain(1)));
    assert!(matches!(prompt_step("9", 3, 1), PromptOutcome::GiveUp));
}
