//! URL and filename parsing: the parts of a URL, its path segments, and the
//! file name and extension it points at.
use vstd::prelude::*;

use url::{ParseError, Url};

use crate::text::{chars_of, split_chars, split_on, str_to_lowercase, string_of, to_lowercase};

verus! {

#[verifier::external_type_specification]
#[verifier::external_body]
pub struct ExUrlParseError(ParseError);

/// The parts of a parsed URL that the library reads, as plain strings.
#[derive(Debug, Clone)]
pub struct ParsedUrl {
    /// The whole URL, serialized (`Url::as_str`).
    pub serialization: String,
    /// The scheme, e.g. `https` (`Url::scheme`).
    pub scheme: String,
    /// The host, when there is one (`Url::host_str`).
    pub host: Option<String>,
    /// The percent-encoded path (`Url::path`).
    pub path: String,
    /// The port, when one other than the scheme's default is given (`Url::port`).
    pub port: Option<u16>,
}

/// The view of a parsed URL: serialization, scheme, host, path and port.
pub type UrlParts = (Seq<char>, Seq<char>, Option<Seq<char>>, Seq<char>, Option<u16>);

impl View for ParsedUrl {
    type V = UrlParts;

    open spec fn view(&self) -> UrlParts {
        (
            self.serialization@,
            self.scheme@,
            match self.host {
                Some(h) => Some(h@),
                None => None,
            },
            self.path@,
            self.port,
        )
    }
}

/// What `Url::parse` makes of `raw`: its parts, or `None` when it is refused.
pub uninterp spec fn url_parse_parts(raw: Seq<char>) -> Option<UrlParts>;

/// What `Url::join` makes of the reference `input` against the URL that
/// `Url::parse` makes of `base`: its parts, or `None` when either step fails.
pub uninterp spec fn url_join_parts(base: Seq<char>, input: Seq<char>) -> Option<UrlParts>;

/// `Url::parse`, with the resulting URL read into plain strings. The error
/// value is handed back as the crate gives it; nothing is stated of it
/// beyond that parsing failed.
#[verifier::external_body]
pub(crate) fn parse_url(raw: &str) -> (r: Result<ParsedUrl, ParseError>)
    ensures
        match r {
            Ok(u) => url_parse_parts(raw@) == Some(u@),
            Err(_) => url_parse_parts(raw@) is None,
        },
{
    let u = Url::parse(raw)?;
    Ok(ParsedUrl {
        serialization: u.as_str().to_owned(),
        scheme: u.scheme().to_owned(),
        host: u.host_str().map(|h| h.to_owned()),
        path: u.path().to_owned(),
        port: u.port(),
    })
}

/// `Url::parse` of `base` followed by `Url::join` with `input`, the result
/// read into plain strings; `None` when either step fails.
#[verifier::external_body]
pub(crate) fn join_url(base: &str, input: &str) -> (r: Option<ParsedUrl>)
    ensures
        match r {
            Some(u) => url_join_parts(base@, input@) == Some(u@),
            None => url_join_parts(base@, input@) is None,
        },
{
    let u = Url::parse(base).ok()?.join(input).ok()?;
    Some(ParsedUrl {
        serialization: u.as_str().to_owned(),
        scheme: u.scheme().to_owned(),
        host: u.host_str().map(|h| h.to_owned()),
        path: u.path().to_owned(),
        port: u.port(),
    })
}

/// The URL that `Url::parse` makes of `base`, with each of `pairs` appended
/// to its query in order (`form_urlencoded` encoding), serialized; `None`
/// when `base` does not parse.
pub uninterp spec fn url_with_query(base: Seq<char>, pairs: Seq<(Seq<char>, Seq<char>)>) -> Option<Seq<char>>;

/// The texts of a list of key/value pairs.
pub open spec fn pairs_view(v: Seq<(String, String)>) -> Seq<(Seq<char>, Seq<char>)> {
    v.map_values(|p: (String, String)| (p.0@, p.1@))
}

/// `Url::parse` of `base`, then `query_pairs_mut().append_pair` for each
/// pair, serialized. The base has no fragment: putting a fragment back after
/// each change of the query panics once the URL outgrows a `u32` length.
#[verifier::external_body]
pub(crate) fn url_with_query_pairs(base: &str, pairs: &Vec<(String, String)>) -> (r: Option<String>)
    requires
        !base@.contains('#'),
    ensures
        r.deep_view() == url_with_query(base@, pairs_view(pairs@)),
{
    let mut u = Url::parse(base).ok()?;
    for (k, v) in pairs.iter() {
        u.query_pairs_mut().append_pair(k, v);
    }
    Some(u.into())
}

/// The path segments of a URL path (`Url::path_segments`): the pieces after
/// the leading `/`, or `None` when the path does not start with `/`.
pub open spec fn path_segments(path: Seq<char>) -> Option<Seq<Seq<char>>> {
    if path.len() > 0 && path[0] == '/' {
        Some(split_on(path.drop_first(), '/'))
    } else {
        None
    }
}

/// The path segments of `u`.
pub fn url_path_segments(u: &ParsedUrl) -> (r: Option<Vec<Vec<char>>>)
    ensures
        match r {
            Some(v) => path_segments(u.path@) == Some(v.deep_view()),
            None => path_segments(u.path@) is None,
        },
{
    let p = chars_of(u.path.as_str());
    if p.len() > 0 && p[0] == '/' {
        let mut rest: Vec<char> = Vec::new();
        let mut i: usize = 1;
        while i < p.len()
            invariant
                1 <= i <= p.len(),
                rest@ == p@.subrange(1, i as int),
            decreases p.len() - i,
        {
            rest.push(p[i]);
            assert(p@.subrange(1, i + 1) =~= p@.subrange(1, i as int).push(p@[i as int]));
            i += 1;
        }
        assert(rest@ =~= p@.drop_first());
        Some(split_chars(&rest, '/'))
    } else {
        None
    }
}

/// The last non-empty element of `segs`.
pub open spec fn last_nonempty(segs: Seq<Seq<char>>) -> Option<Seq<char>>
    decreases segs.len(),
{
    if segs.len() == 0 {
        None
    } else if segs.last().len() > 0 {
        Some(segs.last())
    } else {
        last_nonempty(segs.drop_last())
    }
}

fn last_nonempty_exec(segs: &Vec<Vec<char>>) -> (r: Option<Vec<char>>)
    ensures
        match r {
            Some(v) => last_nonempty(segs.deep_view()) == Some(v@),
            None => last_nonempty(segs.deep_view()) is None,
        },
{
    let ghost d = segs.deep_view();
    let mut i: usize = segs.len();
    assert(d.take(i as int) =~= d);
    while i > 0 && segs[i - 1].len() == 0
        invariant
            i <= segs.len(),
            d == segs.deep_view(),
            last_nonempty(d) == last_nonempty(d.take(i as int)),
        decreases i,
    {
        assert(d.take(i as int).last() == segs@[i - 1]@);
        assert(d.take(i as int).drop_last() =~= d.take(i - 1));
        i -= 1;
    }
    if i == 0 {
        assert(d.take(0) =~= Seq::<Seq<char>>::empty());
        None
    } else {
        assert(d.take(i as int).last() == segs@[i - 1]@);
        Some(segs[i - 1].clone())
    }
}

/// The file name a URL points at: the last non-empty path segment, when the
/// URL parses and has path segments.
pub open spec fn url_filename(raw: Seq<char>) -> Option<Seq<char>> {
    match url_parse_parts(raw) {
        Some(parts) => match path_segments(parts.3) {
            Some(segs) => last_nonempty(segs),
            None => None,
        },
        None => None,
    }
}

/// Extracts the last path segment of a URL as a filename. Query strings and
/// fragments play no part; `None` when the URL does not parse or has no
/// non-empty segment (e.g. a bare domain).
pub fn filename_from_url(raw: &str) -> (r: Option<String>)
    ensures
        match r {
            Some(s) => url_filename(raw@) == Some(s@),
            None => url_filename(raw@) is None,
        },
{
    let parsed = match parse_url(raw) {
        Ok(u) => u,
        Err(_) => return None,
    };
    let segs = match url_path_segments(&parsed) {
        Some(s) => s,
        None => return None,
    };
    match last_nonempty_exec(&segs) {
        Some(v) => Some(string_of(&v)),
        None => None,
    }
}

/// The last path component that is neither empty nor `.` (`Path::components`
/// skips those).
pub open spec fn last_component(pieces: Seq<Seq<char>>) -> Option<Seq<char>>
    decreases pieces.len(),
{
    if pieces.len() == 0 {
        None
    } else if pieces.last().len() == 0 || pieces.last() == seq!['.'] {
        last_component(pieces.drop_last())
    } else {
        Some(pieces.last())
    }
}

/// The file name of a path (`Path::file_name`): its last component, unless
/// that is `..` or there is none.
pub open spec fn path_file_name(p: Seq<char>) -> Option<Seq<char>> {
    match last_component(split_on(p, '/')) {
        Some(c) => if c == seq!['.', '.'] {
            None
        } else {
            Some(c)
        },
        None => None,
    }
}

/// The position of the last `c` in `s`.
pub open spec fn last_index_of(s: Seq<char>, c: char) -> Option<int>
    decreases s.len(),
{
    if s.len() == 0 {
        None
    } else if s.last() == c {
        Some(s.len() - 1)
    } else {
        last_index_of(s.drop_last(), c)
    }
}

/// The extension of a file name (`Path::extension`): the text after the last
/// `.`, unless there is no `.`, the only `.` starts the name, or the name is `..`.
pub open spec fn file_extension(f: Seq<char>) -> Option<Seq<char>> {
    if f == seq!['.', '.'] {
        None
    } else {
        match last_index_of(f, '.') {
            Some(k) => if k > 0 {
                Some(f.skip(k + 1))
            } else {
                None
            },
            None => None,
        }
    }
}

/// The lowercase extension of the file a URL points at.
pub open spec fn url_extension(raw: Seq<char>) -> Option<Seq<char>> {
    match url_filename(raw) {
        Some(name) => match path_file_name(name) {
            Some(f) => match file_extension(f) {
                Some(e) => Some(str_to_lowercase(e)),
                None => None,
            },
            None => None,
        },
        None => None,
    }
}

fn is_dot_dot(v: &Vec<char>) -> (r: bool)
    ensures
        r == (v@ == seq!['.', '.']),
{
    let r = v.len() == 2 && v[0] == '.' && v[1] == '.';
    if r {
        assert(v@ =~= seq!['.', '.']);
    }
    proof {
        if v@ == seq!['.', '.'] {
            assert(v@[0] == '.' && v@[1] == '.');
        }
    }
    r
}

pub(crate) fn path_file_name_exec(p: &Vec<char>) -> (r: Option<Vec<char>>)
    ensures
        match r {
            Some(v) => path_file_name(p@) == Some(v@),
            None => path_file_name(p@) is None,
        },
{
    let pieces = split_chars(p, '/');
    let ghost d = pieces.deep_view();
    let mut i: usize = pieces.len();
    assert(d.take(i as int) =~= d);
    while i > 0 && (pieces[i - 1].len() == 0 || (pieces[i - 1].len() == 1 && pieces[i - 1][0] == '.'))
        invariant
            i <= pieces.len(),
            d == pieces.deep_view(),
            last_component(d) == last_component(d.take(i as int)),
        decreases i,
    {
        assert(d.take(i as int).last() == pieces@[i - 1]@);
        assert(d.take(i as int).drop_last() =~= d.take(i - 1));
        proof {
            if pieces@[i - 1]@.len() == 1 {
                assert(pieces@[i - 1]@ =~= seq!['.']);
            }
        }
        i -= 1;
    }
    if i == 0 {
        assert(d.take(0) =~= Seq::<Seq<char>>::empty());
        return None;
    }
    assert(d.take(i as int).last() == pieces@[i - 1]@);
    assert(d.take(i as int).drop_last() =~= d.take(i - 1));
    proof {
        if pieces@[i - 1]@ == seq!['.'] {
            assert(pieces@[i - 1]@[0] == '.');
        }
    }
    let c = pieces[i - 1].clone();
    if is_dot_dot(&c) {
        None
    } else {
        Some(c)
    }
}

fn file_extension_exec(f: &Vec<char>) -> (r: Option<Vec<char>>)
    ensures
        match r {
            Some(v) => file_extension(f@) == Some(v@),
            None => file_extension(f@) is None,
        },
{
    if is_dot_dot(f) {
        return None;
    }
    let mut i: usize = f.len();
    assert(f@.take(i as int) =~= f@);
    while i > 0 && f[i - 1] != '.'
        invariant
            i <= f.len(),
            last_index_of(f@, '.') == last_index_of(f@.take(i as int), '.'),
        decreases i,
    {
        assert(f@.take(i as int).drop_last() =~= f@.take(i - 1));
        i -= 1;
    }
    if i == 0 {
        assert(f@.take(0) =~= Seq::<char>::empty());
        return None;
    }
    let k = i - 1;
    assert(last_index_of(f@.take(i as int), '.') == Some(k as int));
    if k == 0 {
        return None;
    }
    let mut out: Vec<char> = Vec::new();
    let mut j = i;
    while j < f.len()
        invariant
            i <= j <= f.len(),
            out@ == f@.subrange(i as int, j as int),
        decreases f.len() - j,
    {
        out.push(f[j]);
        assert(f@.subrange(i as int, j + 1) =~= f@.subrange(i as int, j as int).push(f@[j as int]));
        j += 1;
    }
    assert(out@ =~= f@.skip(i as int));
    Some(out)
}

proof fn lemma_after_last_index(s: Seq<char>, c: char)
    ensures
        last_index_of(s, c) matches Some(k) ==> 0 <= k < s.len() && s[k] == c && !s.skip(k + 1).contains(c),
        last_index_of(s, c) is None ==> !s.contains(c),
    decreases s.len(),
{
    if s.len() > 0 {
        lemma_after_last_index(s.drop_last(), c);
        if s.last() != c {
            if let Some(k) = last_index_of(s, c) {
                assert forall|i: int| 0 <= i < s.skip(k + 1).len() implies #[trigger] s.skip(k + 1)[i] != c by {
                    if k + 1 + i < s.len() - 1 {
                        assert(s.skip(k + 1)[i] == s.drop_last().skip(k + 1)[i]);
                    }
                }
            } else {
                assert forall|i: int| 0 <= i < s.len() implies #[trigger] s[i] != c by {
                    if i < s.len() - 1 {
                        assert(s[i] == s.drop_last()[i]);
                    }
                }
            }
        }
    }
}

/// The extension of a URL is the lowercase form of the text after the last
/// `.` of its file name, and that text holds no `.`.
pub proof fn lemma_extension_after_last_dot(raw: Seq<char>)
    ensures
        url_extension(raw) matches Some(e) ==> exists|x: Seq<char>| #[trigger] str_to_lowercase(x) == e && !x.contains('.'),
{
    if let Some(name) = url_filename(raw) {
        if let Some(f) = path_file_name(name) {
            if let Some(x) = file_extension(f) {
                lemma_after_last_index(f, '.');
                assert(!x.contains('.'));
                assert(str_to_lowercase(x) == str_to_lowercase(x));
            }
        }
    }
}

/// Guesses the file extension from a URL path: lowercase, without the dot;
/// `None` when no extension can be determined.
pub fn extension_from_url(raw: &str) -> (r: Option<String>)
    ensures
        match r {
            Some(s) => url_extension(raw@) == Some(s@),
            None => url_extension(raw@) is None,
        },
{
    let name = match filename_from_url(raw) {
        Some(n) => n,
        None => return None,
    };
    let nc = chars_of(name.as_str());
    let f = match path_file_name_exec(&nc) {
        Some(f) => f,
        None => return None,
    };
    let e = match file_extension_exec(&f) {
        Some(e) => e,
        None => return None,
    };
    let es = string_of(&e);
    Some(to_lowercase(es.as_str()))
}

} // verus!
