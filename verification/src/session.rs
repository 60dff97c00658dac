//! The decisions of a command-line session: which mode a URL selects, the
//! `--filter` keyword, and the interactive selection prompt.
use vstd::prelude::*;

use crate::kinds::{sources_view, FileSource};
use crate::selection::{parse_selection, selection};
use crate::text::{
    chars_contains, chars_of, contains_run, str_to_lowercase, string_of, to_lowercase, trim_chars, trim_ws,
};

verus! {

/// Whether a URL is handled in GitHub mode: it mentions `github.com`.
pub fn is_github_url(url: &str) -> (r: bool)
    ensures
        r == contains_run(url@, "github.com"@),
{
    chars_contains(&chars_of(url), &chars_of("github.com"))
}

/// Whether a file's name contains the keyword, ignoring case.
pub open spec fn name_matches(name: Seq<char>, keyword: Seq<char>) -> bool {
    contains_run(str_to_lowercase(name), str_to_lowercase(keyword))
}

/// Keeps the files whose name contains `keyword`, ignoring case, in order.
pub fn filter_by_keyword(files: Vec<FileSource>, keyword: &str) -> (r: Vec<FileSource>)
    ensures
        sources_view(r@) == sources_view(files@).filter(|f: (Seq<char>, Seq<char>)| name_matches(f.0, keyword@)),
{
    let kw = chars_of(to_lowercase(keyword).as_str());
    let ghost fv = sources_view(files@);
    let ghost pred = |f: (Seq<char>, Seq<char>)| name_matches(f.0, keyword@);
    let mut out: Vec<FileSource> = Vec::new();
    let n = files.len();
    for f in it: files
        invariant
            it.seq() == files@,
            fv == sources_view(files@),
            n == files@.len(),
            kw@ == str_to_lowercase(keyword@),
            pred == (|f: (Seq<char>, Seq<char>)| name_matches(f.0, keyword@)),
            sources_view(out@) == fv.take(it.index() as int).filter(pred),
    {
        let ghost i = it.index() as int;
        proof {
            assert(fv.take(i + 1).drop_last() =~= fv.take(i));
            assert(fv.take(i + 1).last() == f@);
            reveal(Seq::filter);
        }
        let name = chars_of(to_lowercase(f.name.as_str()).as_str());
        if chars_contains(&name, &kw) {
            let ghost before = sources_view(out@);
            out.push(f);
            assert(sources_view(out@) =~= before.push(fv[i]));
        }
    }
    proof {
        assert(fv.take(n as int) =~= fv);
    }
    out
}

/// Every index `0..count`: what `--get` downloads.
pub fn select_all(count: usize) -> (r: Vec<usize>)
    ensures
        r@ == Seq::new(count as nat, |i: int| i as usize),
{
    let mut out: Vec<usize> = Vec::new();
    let mut i: usize = 0;
    while i < count
        invariant
            i <= count,
            out@ =~= Seq::new(i as nat, |j: int| j as usize),
        decreases count - i,
    {
        out.push(i);
        i += 1;
    }
    out
}

/// The outcome of one answer to the selection prompt.
#[derive(Debug)]
pub enum PromptOutcome {
    /// `q`, `quit` or an empty answer: stop without downloading.
    Quit,
    /// The answer selected these 0-based indices.
    Chosen(Vec<usize>),
    /// Nothing valid was entered; ask again, with this many failed answers so far.
    AskAgain(usize),
    /// Nothing valid was entered for the second time (the one re-prompt was
    /// used): stop without downloading.
    GiveUp,
}

/// The answer as the prompt compares it: trimmed and lowercased.
pub open spec fn normalized_answer(raw: Seq<char>) -> Seq<char> {
    str_to_lowercase(trim_ws(raw))
}

/// Whether a normalized answer asks to quit.
pub open spec fn is_quit(t: Seq<char>) -> bool {
    t == "q"@ || t == "quit"@ || t.len() == 0
}

/// Decides what an answer to the selection prompt means, after `failed`
/// earlier answers selected nothing: quitting, a selection of `count` items,
/// one more try after the first answer that selected nothing, or giving up
/// after the second.
pub fn prompt_step(raw: &str, count: usize, failed: usize) -> (r: PromptOutcome)
    requires
        failed < usize::MAX,
    ensures
        is_quit(normalized_answer(raw@)) ==> r is Quit,
        !is_quit(normalized_answer(raw@)) ==> {
            let sel = selection(normalized_answer(raw@), count as nat);
            &&& sel.len() > 0 ==> (r matches PromptOutcome::Chosen(v) && v@ == sel)
            &&& sel.len() == 0 && failed + 1 >= 2 ==> r is GiveUp
            &&& sel.len() == 0 && failed + 1 < 2 ==> r == PromptOutcome::AskAgain((failed + 1) as usize)
        },
{
    let trimmed = string_of(&trim_chars(&chars_of(raw)));
    let t = to_lowercase(trimmed.as_str());
    let tc = chars_of(t.as_str());
    let q = crate::text::chars_eq(&tc, &chars_of("q"));
    let quit = crate::text::chars_eq(&tc, &chars_of("quit"));
    if q || quit || tc.len() == 0 {
        return PromptOutcome::Quit;
    }
    let sel = parse_selection(t.as_str(), count);
    if sel.len() > 0 {
        return PromptOutcome::Chosen(sel);
    }
    let attempts = failed + 1;
    if attempts >= 2 {
        PromptOutcome::GiveUp
    } else {
        PromptOutcome::AskAgain(attempts)
    }
}

} // verus!
