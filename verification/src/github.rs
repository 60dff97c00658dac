//! GitHub mode: repository URLs, tree and release listings, README contents,
//! and merging what the three sources found.
use vstd::prelude::*;

use base64::engine::general_purpose::STANDARD as B64;
use base64::Engine;
use url::ParseError;

use crate::dedup::{
    first_by_key, fx_string_set, fx_strings_insert, fx_strings_with_capacity, lemma_first_by_key, lemma_take_push_to_set,
};
use crate::kinds::{matches_ext, matches_ext_spec, sources_view, strs_view, FileSource};
use crate::links::{file_link_pattern, links_from_matches, regex_captures, try_extract_file_links};
use crate::parsing::{parse_url, path_file_name, path_segments, url_parse_parts, url_path_segments};
use crate::text::{
    chars_eq, chars_of, chars_starts_with, first_piece, push_char, split_on, starts_with, string_of,
};

verus! {

// ---------------------------------------------------------------------------
// Repository URLs
// ---------------------------------------------------------------------------

/// Why a URL could not be read as a GitHub repository URL.
#[derive(Debug)]
pub enum GithubUrlError {
    /// The URL does not parse.
    InvalidUrl(ParseError),
    /// The URL has no path segments (it cannot be a base).
    NoPathSegments,
    /// The path has fewer than two non-empty segments (owner and repository).
    NotARepository,
}

impl GithubUrlError {
    /// A message for the user; for an unparsable URL the parser's own wording
    /// is added by the caller.
    pub fn message(&self) -> (r: &'static str)
        ensures
            r@ == match self {
                GithubUrlError::InvalidUrl(_) => "invalid URL"@,
                GithubUrlError::NoPathSegments => "URL has no path segments"@,
                GithubUrlError::NotARepository => "Expected https://github.com/<owner>/<repo>"@,
            },
    {
        match self {
            GithubUrlError::InvalidUrl(_) => "invalid URL",
            GithubUrlError::NoPathSegments => "URL has no path segments",
            GithubUrlError::NotARepository => "Expected https://github.com/<owner>/<repo>",
        }
    }
}

/// `raw` without its query string and fragment.
pub open spec fn without_query_and_fragment(raw: Seq<char>) -> Seq<char> {
    split_on(split_on(raw, '?')[0], '#')[0]
}

/// Whether a segment is non-empty.
pub open spec fn is_nonempty(s: Seq<char>) -> bool {
    s.len() > 0
}

/// The segments after the fifth one joined with `/`, when the third is `tree`.
pub open spec fn repo_subpath(segs: Seq<Seq<char>>) -> Option<Seq<char>> {
    if segs.len() > 4 && segs[2] == "tree"@ {
        Some(crate::links::join_with(segs.skip(4), seq!['/']))
    } else {
        None
    }
}

/// A `.../tree/<branch>/<dir>...` URL scopes the scan to the directory: when
/// the third of the path segments is `tree` and at least one segment follows
/// the branch, the subpath is every segment after the branch, joined with
/// `/` (a single directory when there is just one); any other URL scans the
/// whole repository.
pub proof fn lemma_subpath_after_branch(segs: Seq<Seq<char>>)
    ensures
        segs.len() >= 5 && segs[2] == "tree"@ ==> repo_subpath(segs) == Some(
            crate::links::join_with(segs.subrange(4, segs.len() as int), seq!['/']),
        ),
        segs.len() == 5 && segs[2] == "tree"@ ==> repo_subpath(segs) == Some(segs[4]),
        segs.len() < 5 || segs[2] != "tree"@ ==> repo_subpath(segs) is None,
{
    if segs.len() >= 5 {
        assert(segs.skip(4) =~= segs.subrange(4, segs.len() as int));
        if segs.len() == 5 {
            assert(segs.skip(4).len() == 1 && segs.skip(4)[0] == segs[4]);
        }
    }
}

/// The non-empty path segments of the URL `raw` once query and fragment are
/// removed; `None` when it does not parse or has no path segments.
pub open spec fn repo_segments(raw: Seq<char>) -> Option<Seq<Seq<char>>> {
    match url_parse_parts(without_query_and_fragment(raw)) {
        Some(parts) => match path_segments(parts.3) {
            Some(segs) => Some(segs.filter(|s: Seq<char>| is_nonempty(s))),
            None => None,
        },
        None => None,
    }
}

fn nonempty_segments(segs: &Vec<Vec<char>>) -> (r: Vec<Vec<char>>)
    ensures
        r.deep_view() == segs.deep_view().filter(|s: Seq<char>| is_nonempty(s)),
{
    let ghost d = segs.deep_view();
    let mut out: Vec<Vec<char>> = Vec::new();
    let mut i: usize = 0;
    while i < segs.len()
        invariant
            i <= segs.len(),
            d == segs.deep_view(),
            out.deep_view() == d.take(i as int).filter(|s: Seq<char>| is_nonempty(s)),
        decreases segs.len() - i,
    {
        assert(d.take(i + 1).drop_last() =~= d.take(i as int));
        assert(d.take(i + 1).last() == segs@[i as int]@);
        reveal(Seq::filter);
        if segs[i].len() > 0 {
            let ghost before = out.deep_view();
            let s = segs[i].clone();
            out.push(s);
            assert(out.deep_view() =~= before.push(segs@[i as int]@));
        }
        i += 1;
    }
    assert(d.take(segs.len() as int) =~= d);
    out
}

fn join_segments_from(segs: &Vec<Vec<char>>, from: usize) -> (r: String)
    requires
        from < segs.len(),
    ensures
        r@ == crate::links::join_with(segs.deep_view().skip(from as int), seq!['/']),
{
    let ghost d = segs.deep_view().skip(from as int);
    let mut out = String::new();
    let mut i: usize = from;
    while i < segs.len()
        invariant
            from <= i <= segs.len(),
            d == segs.deep_view().skip(from as int),
            out@ == crate::links::join_with(d.take(i - from), seq!['/']),
        decreases segs.len() - i,
    {
        assert(d.take(i - from + 1).drop_last() =~= d.take(i - from));
        assert(d.take(i - from + 1).last() == segs@[i as int]@);
        if i > from {
            push_char(&mut out, '/');
        } else {
            assert(d.take(0) =~= Seq::<Seq<char>>::empty());
        }
        let piece = string_of(&segs[i]);
        out.append(piece.as_str());
        proof {
            if i == from {
                assert(d.take(1)[0] == segs@[i as int]@);
                assert(out@ =~= segs@[i as int]@);
            }
        }
        i += 1;
    }
    assert(d.take(segs.len() - from) =~= d);
    out
}

/// Splits a GitHub URL into owner, repository and, for `.../tree/<branch>/<dir>`
/// URLs, the directory inside the repository. Query string and fragment are
/// ignored.
pub fn parse_github_url(raw: &str) -> (r: Result<(String, String, Option<String>), GithubUrlError>)
    ensures
        match r {
            Ok((owner, repo, sub)) => repo_segments(raw@) matches Some(segs) && segs.len() >= 2
                && owner@ == segs[0] && repo@ == segs[1] && match sub {
                Some(s) => repo_subpath(segs) == Some(s@),
                None => repo_subpath(segs) is None,
            },
            Err(GithubUrlError::InvalidUrl(_)) => url_parse_parts(without_query_and_fragment(raw@)) is None,
            Err(GithubUrlError::NoPathSegments) => url_parse_parts(without_query_and_fragment(raw@)) matches Some(
                parts,
            ) && path_segments(parts.3) is None,
            Err(GithubUrlError::NotARepository) => repo_segments(raw@) matches Some(segs) && segs.len() < 2,
        },
{
    let c = chars_of(raw);
    let no_query = first_piece(&c, '?');
    let no_frag = string_of(&first_piece(&no_query, '#'));
    let parsed = match parse_url(no_frag.as_str()) {
        Ok(u) => u,
        Err(e) => return Err(GithubUrlError::InvalidUrl(e)),
    };
    let all = match url_path_segments(&parsed) {
        Some(s) => s,
        None => return Err(GithubUrlError::NoPathSegments),
    };
    let segs = nonempty_segments(&all);
    let ghost sv = segs.deep_view();
    if segs.len() < 2 {
        return Err(GithubUrlError::NotARepository);
    }
    assert(sv[0] == segs@[0]@ && sv[1] == segs@[1]@);
    let owner = string_of(&segs[0]);
    let repo = string_of(&segs[1]);
    let is_tree = segs.len() > 4 && {
        let mut t: Vec<char> = Vec::new();
        t.push('t');
        t.push('r');
        t.push('e');
        t.push('e');
        assert(t@ =~= "tree"@) by {
            reveal_strlit("tree");
        }
        assert(sv[2] == segs@[2]@);
        chars_eq(&segs[2], &t)
    };
    let sub = if is_tree {
        Some(join_segments_from(&segs, 4))
    } else {
        None
    };
    Ok((owner, repo, sub))
}

// ---------------------------------------------------------------------------
// Repository tree
// ---------------------------------------------------------------------------

/// One entry of a repository tree listing.
#[derive(Debug, Clone)]
pub struct TreeEntry {
    /// The entry's path inside the repository.
    pub path: String,
    /// The entry's type (`blob` for files).
    pub kind: String,
}

/// Whether a tree entry is offered: a file (`blob`), under `subpath/` when a
/// subdirectory is given, with one of `exts`.
pub open spec fn tree_entry_selected(path: Seq<char>, kind: Seq<char>, exts: Seq<Seq<char>>, subpath: Option<Seq<char>>) -> bool {
    &&& kind == "blob"@
    &&& match subpath {
        Some(sp) => starts_with(path, sp.push('/')),
        None => true,
    }
    &&& matches_ext_spec(path, exts)
}

/// The raw-content URL of `path` in a repository at `branch`.
pub open spec fn raw_file_url(owner: Seq<char>, repo: Seq<char>, branch: Seq<char>, path: Seq<char>) -> Seq<char> {
    "https://raw.githubusercontent.com/"@ + owner + seq!['/'] + repo + seq!['/'] + branch + seq!['/'] + path
}

/// The file name of a tree path: `Path::file_name`, or the whole path when there is none.
pub open spec fn tree_file_name(path: Seq<char>) -> Seq<char> {
    match path_file_name(path) {
        Some(n) => n,
        None => path,
    }
}

/// The files offered from a tree listing, in listing order.
pub open spec fn tree_sources(
    owner: Seq<char>,
    repo: Seq<char>,
    branch: Seq<char>,
    entries: Seq<TreeEntry>,
    exts: Seq<Seq<char>>,
    subpath: Option<Seq<char>>,
) -> Seq<(Seq<char>, Seq<char>)>
    decreases entries.len(),
{
    if entries.len() == 0 {
        Seq::empty()
    } else {
        let p = tree_sources(owner, repo, branch, entries.drop_last(), exts, subpath);
        let e = entries.last();
        if tree_entry_selected(e.path@, e.kind@, exts, subpath) {
            p.push((tree_file_name(e.path@), raw_file_url(owner, repo, branch, e.path@)))
        } else {
            p
        }
    }
}

fn is_blob(kind: &String) -> (r: bool)
    ensures
        r == (kind@ == "blob"@),
{
    let k = chars_of(kind.as_str());
    let mut b: Vec<char> = Vec::new();
    b.push('b');
    b.push('l');
    b.push('o');
    b.push('b');
    assert(b@ =~= "blob"@) by {
        reveal_strlit("blob");
    }
    chars_eq(&k, &b)
}

fn tree_name(path: &String) -> (r: String)
    ensures
        r@ == tree_file_name(path@),
{
    let p = chars_of(path.as_str());
    match crate::parsing::path_file_name_exec(&p) {
        Some(n) => string_of(&n),
        None => path.clone(),
    }
}

/// The files to fetch from a repository tree listing: blobs with one of
/// `exts` (inside `subpath` when given), each with its raw-content URL and file name.
pub fn tree_file_sources(
    owner: &str,
    repo: &str,
    branch: &str,
    entries: &Vec<TreeEntry>,
    exts: &[&str],
    subpath: Option<&str>,
) -> (r: Vec<FileSource>)
    ensures
        sources_view(r@) == tree_sources(
            owner@,
            repo@,
            branch@,
            entries@,
            strs_view(exts@),
            match subpath {
                Some(s) => Some(s@),
                None => None,
            },
        ),
{
    let ghost sp = match subpath {
        Some(s) => Some(s@),
        None => None,
    };
    let prefix: Option<Vec<char>> = match subpath {
        Some(s) => {
            let mut p = chars_of(s);
            p.push('/');
            Some(p)
        },
        None => None,
    };
    let mut out: Vec<FileSource> = Vec::new();
    let mut i: usize = 0;
    while i < entries.len()
        invariant
            i <= entries.len(),
            sp == match subpath {
                Some(s) => Some(s@),
                None => None::<Seq<char>>,
            },
            match prefix {
                Some(p) => sp matches Some(s) && p@ == s.push('/'),
                None => sp is None,
            },
            sources_view(out@) == tree_sources(owner@, repo@, branch@, entries@.take(i as int), strs_view(exts@), sp),
        decreases entries.len() - i,
    {
        let e = &entries[i];
        assert(entries@.take(i + 1).drop_last() =~= entries@.take(i as int));
        assert(entries@.take(i + 1).last() == *e);
        let in_scope = match &prefix {
            Some(p) => chars_starts_with(&chars_of(e.path.as_str()), p),
            None => true,
        };
        if is_blob(&e.kind) && in_scope && matches_ext(e.path.as_str(), exts) {
            let mut url = String::from_str("https://raw.githubusercontent.com/");
            url.append(owner);
            push_char(&mut url, '/');
            url.append(repo);
            push_char(&mut url, '/');
            url.append(branch);
            push_char(&mut url, '/');
            url.append(e.path.as_str());
            assert(url@ =~= raw_file_url(owner@, repo@, branch@, e.path@));
            let name = tree_name(&e.path);
            let ghost before = out@;
            out.push(FileSource { name, url });
            assert(sources_view(out@) =~= sources_view(before).push((tree_file_name(e.path@), raw_file_url(owner@, repo@, branch@, e.path@))));
        }
        i += 1;
    }
    assert(entries@.take(entries.len() as int) =~= entries@);
    out
}

// ---------------------------------------------------------------------------
// Releases
// ---------------------------------------------------------------------------

/// A downloadable asset of a release.
#[derive(Debug, Clone)]
pub struct ReleaseAsset {
    pub name: String,
    pub browser_download_url: String,
}

/// A release and its assets.
#[derive(Debug, Clone)]
pub struct Release {
    pub assets: Vec<ReleaseAsset>,
}

/// The assets of `releases`, release by release, as (name, URL) pairs.
pub open spec fn release_assets(releases: Seq<Release>) -> Seq<(Seq<char>, Seq<char>)>
    decreases releases.len(),
{
    if releases.len() == 0 {
        Seq::empty()
    } else {
        release_assets(releases.drop_last()) + releases.last().assets@.map_values(
            |a: ReleaseAsset| (a.name@, a.browser_download_url@),
        )
    }
}

/// The release assets whose name has one of `exts`, in order.
pub open spec fn release_sources(releases: Seq<Release>, exts: Seq<Seq<char>>) -> Seq<(Seq<char>, Seq<char>)> {
    release_assets(releases).filter(|a: (Seq<char>, Seq<char>)| matches_ext_spec(a.0, exts))
}

/// The files to fetch from a repository's releases: every asset whose name
/// has one of `exts`, with its download URL.
pub fn release_file_sources(releases: &Vec<Release>, exts: &[&str]) -> (r: Vec<FileSource>)
    ensures
        sources_view(r@) == release_sources(releases@, strs_view(exts@)),
{
    let ghost ev = strs_view(exts@);
    let ghost pred = |a: (Seq<char>, Seq<char>)| matches_ext_spec(a.0, ev);
    let mut out: Vec<FileSource> = Vec::new();
    let mut i: usize = 0;
    while i < releases.len()
        invariant
            i <= releases.len(),
            ev == strs_view(exts@),
            pred == (|a: (Seq<char>, Seq<char>)| matches_ext_spec(a.0, ev)),
            sources_view(out@) == release_assets(releases@.take(i as int)).filter(pred),
        decreases releases.len() - i,
    {
        let assets = &releases[i].assets;
        let ghost base = release_assets(releases@.take(i as int));
        let ghost av = assets@.map_values(|a: ReleaseAsset| (a.name@, a.browser_download_url@));
        assert(releases@.take(i + 1).drop_last() =~= releases@.take(i as int));
        let mut j: usize = 0;
        while j < assets.len()
            invariant
                j <= assets.len(),
                ev == strs_view(exts@),
                pred == (|a: (Seq<char>, Seq<char>)| matches_ext_spec(a.0, ev)),
                av == assets@.map_values(|a: ReleaseAsset| (a.name@, a.browser_download_url@)),
                sources_view(out@) == (base + av.take(j as int)).filter(pred),
            decreases assets.len() - j,
        {
            let a = &assets[j];
            assert((base + av.take(j + 1)).drop_last() =~= base + av.take(j as int));
            assert((base + av.take(j + 1)).last() == (a.name@, a.browser_download_url@));
            reveal(Seq::filter);
            if matches_ext(a.name.as_str(), exts) {
                let ghost before = out@;
                out.push(FileSource { name: a.name.clone(), url: a.browser_download_url.clone() });
                assert(sources_view(out@) =~= sources_view(before).push((a.name@, a.browser_download_url@)));
            }
            j += 1;
        }
        assert(av.take(assets.len() as int) =~= av);
        i += 1;
    }
    assert(releases@.take(releases.len() as int) =~= releases@);
    out
}

// ---------------------------------------------------------------------------
// README contents
// ---------------------------------------------------------------------------

/// What the standard base64 engine decodes `s` to (`Engine::decode` on
/// `general_purpose::STANDARD`), or `None` when it refuses the input.
pub uninterp spec fn base64_decoded(s: Seq<char>) -> Option<Seq<u8>>;

/// What `String::from_utf8_lossy` makes of `bytes`.
pub uninterp spec fn utf8_lossy(bytes: Seq<u8>) -> Seq<char>;

/// `Engine::decode` of the standard base64 engine.
#[verifier::external_body]
fn base64_decode(s: &str) -> (r: Option<Vec<u8>>)
    ensures
        match r {
            Some(b) => base64_decoded(s@) == Some(b@),
            None => base64_decoded(s@) is None,
        },
{
    B64.decode(s).ok()
}

/// `String::from_utf8_lossy`, owned.
#[verifier::external_body]
fn from_utf8_lossy(bytes: &Vec<u8>) -> (r: String)
    ensures
        r@ == utf8_lossy(bytes@),
{
    String::from_utf8_lossy(bytes).into_owned()
}

/// The text of a file as the contents API delivers it: base64 (line breaks
/// ignored) decoded and read as UTF-8 with replacement characters; empty for
/// another encoding or undecodable content.
pub open spec fn content_text(content: Seq<char>, encoding: Seq<char>) -> Seq<char> {
    if encoding != "base64"@ {
        Seq::empty()
    } else {
        match base64_decoded(content.filter(|c: char| c != '\n')) {
            Some(b) => utf8_lossy(b),
            None => Seq::empty(),
        }
    }
}

/// Decodes file contents delivered by the GitHub contents API.
pub fn decode_content(content: &str, encoding: &str) -> (r: String)
    ensures
        r@ == content_text(content@, encoding@),
{
    let enc = chars_of(encoding);
    let mut b64: Vec<char> = Vec::new();
    b64.push('b');
    b64.push('a');
    b64.push('s');
    b64.push('e');
    b64.push('6');
    b64.push('4');
    assert(b64@ =~= "base64"@) by {
        reveal_strlit("base64");
    }
    if !chars_eq(&enc, &b64) {
        return String::new();
    }
    let c = chars_of(content);
    let mut kept: Vec<char> = Vec::new();
    let mut i: usize = 0;
    while i < c.len()
        invariant
            i <= c.len(),
            c@ == content@,
            kept@ == c@.take(i as int).filter(|ch: char| ch != '\n'),
        decreases c.len() - i,
    {
        assert(c@.take(i + 1).drop_last() =~= c@.take(i as int));
        reveal(Seq::filter);
        if c[i] != '\n' {
            kept.push(c[i]);
        }
        i += 1;
    }
    assert(c@.take(c.len() as int) =~= c@);
    let s = string_of(&kept);
    match base64_decode(s.as_str()) {
        Some(bytes) => from_utf8_lossy(&bytes),
        None => String::new(),
    }
}

// ---------------------------------------------------------------------------
// Merging by URL
// ---------------------------------------------------------------------------

/// The URL of each file.
pub open spec fn source_urls(s: Seq<(Seq<char>, Seq<char>)>) -> Seq<Seq<char>> {
    s.map_values(|f: (Seq<char>, Seq<char>)| f.1)
}

/// The files of `s` whose URL did not occur earlier, in order.
pub open spec fn unique_by_url(s: Seq<(Seq<char>, Seq<char>)>) -> Seq<(Seq<char>, Seq<char>)> {
    first_by_key(s, source_urls(s))
}

/// Keeps the first file for each URL, in order.
pub fn dedup_sources_by_url(files: Vec<FileSource>) -> (r: Vec<FileSource>)
    ensures
        sources_view(r@) == unique_by_url(sources_view(files@)),
{
    let ghost fv = sources_view(files@);
    let ghost urls = source_urls(fv);
    let mut seen = fx_strings_with_capacity(files.len());
    let mut out: Vec<FileSource> = Vec::new();
    let n = files.len();
    for f in it: files
        invariant
            it.seq() == files@,
            fv == sources_view(files@),
            urls == source_urls(fv),
            n == files@.len(),
            sources_view(out@) == first_by_key(fv.take(it.index() as int), urls.take(it.index() as int)),
            fx_string_set(seen) == urls.take(it.index() as int).to_set(),
    {
        let ghost i = it.index() as int;
        proof {
            assert(fv.take(i + 1).drop_last() =~= fv.take(i));
            assert(urls.take(i + 1).take(i) =~= urls.take(i));
            assert(urls[i] == f.url@);
            assert(fv[i] == f@);
            lemma_take_push_to_set(urls, i);
        }
        let fresh = fx_strings_insert(&mut seen, f.url.clone());
        if fresh {
            let ghost before = out@;
            out.push(f);
            assert(sources_view(out@) =~= sources_view(before).push(fv[i]));
        }
    }
    proof {
        assert(fv.take(n as int) =~= fv);
        assert(urls.take(n as int) =~= urls);
    }
    out
}

/// The files found by the three GitHub sources (tree, README, releases),
/// in that order, keeping the first file for each URL.
pub fn merge_github_sources(tree: Vec<FileSource>, readme: Vec<FileSource>, releases: Vec<FileSource>) -> (r: Vec<FileSource>)
    ensures
        sources_view(r@) == unique_by_url(sources_view(tree@) + sources_view(readme@) + sources_view(releases@)),
{
    let mut all = tree;
    let mut b = readme;
    let mut c = releases;
    let ghost t0 = sources_view(all@);
    let ghost r0 = sources_view(b@);
    let ghost c0 = sources_view(c@);
    all.append(&mut b);
    all.append(&mut c);
    assert(sources_view(all@) =~= t0 + r0 + c0);
    dedup_sources_by_url(all)
}

/// Files deduplicated by URL: no two share a URL, each is one of `s`, and
/// every URL of `s` is kept.
pub proof fn lemma_unique_by_url(s: Seq<(Seq<char>, Seq<char>)>)
    ensures
        source_urls(unique_by_url(s)).no_duplicates(),
        forall|f: (Seq<char>, Seq<char>)| unique_by_url(s).contains(f) ==> s.contains(f),
        forall|u: Seq<char>| source_urls(unique_by_url(s)).contains(u) <==> source_urls(s).contains(u),
{
    let key = |f: (Seq<char>, Seq<char>)| f.1;
    lemma_first_by_key(s, source_urls(s), key);
    assert(source_urls(unique_by_url(s)) =~= unique_by_url(s).map_values(key));
}

/// The files linked from the repository README and, for a subdirectory, its
/// README: each text's links in order, keeping the first file for each URL;
/// `None` when the link pattern built from `exts` is refused.
pub fn readme_file_sources(root_text: &str, sub_text: &str, exts: &[&str]) -> (r: Option<Vec<FileSource>>)
    ensures
        match (
            regex_captures(file_link_pattern(strs_view(exts@)), root_text@, 0),
            regex_captures(file_link_pattern(strs_view(exts@)), sub_text@, 0),
        ) {
            (Some(a), Some(b)) => r matches Some(v) && sources_view(v@) == unique_by_url(
                links_from_matches(a.map_values(|c: Option<Seq<char>>| c->0)) + links_from_matches(
                    b.map_values(|c: Option<Seq<char>>| c->0),
                ),
            ),
            _ => r is None,
        },
{
    let mut a = match try_extract_file_links(root_text, exts) {
        Some(v) => v,
        None => return None,
    };
    let mut b = match try_extract_file_links(sub_text, exts) {
        Some(v) => v,
        None => return None,
    };
    let ghost a0 = sources_view(a@);
    let ghost b0 = sources_view(b@);
    a.append(&mut b);
    assert(sources_view(a@) =~= a0 + b0);
    Some(dedup_sources_by_url(a))
}

} // verus!
