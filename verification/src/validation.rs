//! Input validation for command-line arguments and search queries.
use vstd::prelude::*;

use crate::text::{all_whitespace, chars_of, lemma_trim_empty_iff_all_whitespace, trim_chars, trim_ws};

verus! {

/// Supported file extensions for the `find` subcommand.
#[derive(Debug, Clone, Copy, PartialEq, Eq, Structural)]
pub enum SupportedExtension {
    Pdf,
    Epub,
    Txt,
    Mobi,
    Djvu,
}

/// Supported source identifiers for `--source`.
#[derive(Debug, Clone, Copy, PartialEq, Eq, Structural)]
pub enum Source {
    Archive,
    Openlibrary,
    Gutenberg,
    Annas,
    Github,
    Googlescholar,
    Duckduckgo,
}

/// The code of the ASCII lowercase form of `c`.
pub open spec fn ascii_lower(c: char) -> u32 {
    if 'A' <= c <= 'Z' {
        ((c as u32) + 32) as u32
    } else {
        c as u32
    }
}

/// Whether `a` and `b` are equal when ASCII letters are compared without case
/// (`str::eq_ignore_ascii_case`).
pub open spec fn eq_ignore_ascii_case(a: Seq<char>, b: Seq<char>) -> bool {
    a.len() == b.len() && forall|k: int| 0 <= k < a.len() ==> #[trigger] ascii_lower(a[k]) == ascii_lower(b[k])
}

fn ascii_lower_exec(c: char) -> (r: u32)
    ensures
        r == ascii_lower(c),
{
    if 'A' <= c && c <= 'Z' {
        (c as u32) + 32
    } else {
        c as u32
    }
}

/// Whether `a` equals `name` ignoring ASCII case.
fn eq_ignore_ascii_case_exec(a: &Vec<char>, name: &str) -> (r: bool)
    ensures
        r == eq_ignore_ascii_case(a@, name@),
{
    let b = chars_of(name);
    if a.len() != b.len() {
        return false;
    }
    let mut i: usize = 0;
    while i < a.len()
        invariant
            a.len() == b.len(),
            b@ == name@,
            i <= a.len(),
            forall|k: int| 0 <= k < i ==> #[trigger] ascii_lower(a@[k]) == ascii_lower(b@[k]),
        decreases a.len() - i,
    {
        if ascii_lower_exec(a[i]) != ascii_lower_exec(b[i]) {
            return false;
        }
        i += 1;
    }
    true
}

impl SupportedExtension {
    /// The extension's name, as given on the command line.
    pub open spec fn spec_name(self) -> Seq<char> {
        match self {
            SupportedExtension::Pdf => "pdf"@,
            SupportedExtension::Epub => "epub"@,
            SupportedExtension::Txt => "txt"@,
            SupportedExtension::Mobi => "mobi"@,
            SupportedExtension::Djvu => "djvu"@,
        }
    }

    /// The extension's name (`pdf`, `epub`, ...).
    pub fn name(&self) -> (r: &'static str)
        ensures
            r@ == self.spec_name(),
    {
        match self {
            SupportedExtension::Pdf => "pdf",
            SupportedExtension::Epub => "epub",
            SupportedExtension::Txt => "txt",
            SupportedExtension::Mobi => "mobi",
            SupportedExtension::Djvu => "djvu",
        }
    }

    /// Every extension, in declaration order.
    pub open spec fn spec_all() -> Seq<SupportedExtension> {
        seq![
            SupportedExtension::Pdf,
            SupportedExtension::Epub,
            SupportedExtension::Txt,
            SupportedExtension::Mobi,
            SupportedExtension::Djvu,
        ]
    }

    /// The first extension whose name equals `s` ignoring ASCII case.
    pub open spec fn spec_from_name(s: Seq<char>) -> Option<SupportedExtension> {
        let all = Self::spec_all();
        if exists|i: int| 0 <= i < all.len() && eq_ignore_ascii_case(all[i].spec_name(), s) {
            let i = choose|i: int|
                0 <= i < all.len() && eq_ignore_ascii_case(all[i].spec_name(), s) && forall|j: int|
                    0 <= j < i ==> !eq_ignore_ascii_case(#[trigger] all[j].spec_name(), s);
            Some(all[i])
        } else {
            None
        }
    }

    /// Looks up an extension by name, ignoring ASCII case.
    pub fn from_name(s: &str) -> (r: Option<SupportedExtension>)
        ensures
            r == Self::spec_from_name(s@),
    {
        let c = chars_of(s);
        let all = [
            SupportedExtension::Pdf,
            SupportedExtension::Epub,
            SupportedExtension::Txt,
            SupportedExtension::Mobi,
            SupportedExtension::Djvu,
        ];
        let ghost spec_all = Self::spec_all();
        assert(all@ =~= spec_all);
        let mut i: usize = 0;
        while i < 5
            invariant
                i <= 5,
                all@ == spec_all,
                spec_all == Self::spec_all(),
                c@ == s@,
                forall|j: int| 0 <= j < i ==> !eq_ignore_ascii_case(#[trigger] spec_all[j].spec_name(), s@),
            decreases 5 - i,
        {
            let e = all[i];
            if eq_ignore_ascii_case_exec(&c, e.name()) {
                proof {
                    let k = choose|k: int|
                        0 <= k < spec_all.len() && eq_ignore_ascii_case(spec_all[k].spec_name(), s@)
                            && forall|j: int| 0 <= j < k ==> !eq_ignore_ascii_case(#[trigger] spec_all[j].spec_name(), s@);
                    assert(eq_ignore_ascii_case(spec_all[i as int].spec_name(), s@)) by {
                        assert forall|m: int| 0 <= m < s@.len() implies #[trigger] ascii_lower(spec_all[i as int].spec_name()[m]) == ascii_lower(s@[m]) by {
                            assert(ascii_lower(c@[m]) == ascii_lower(e.spec_name()[m]));
                        }
                    }
                    if k < i {
                    } else if k > i {
                        assert(!eq_ignore_ascii_case(spec_all[i as int].spec_name(), s@));
                    }
                }
                return Some(e);
            }
            proof {
                assert(!eq_ignore_ascii_case(spec_all[i as int].spec_name(), s@)) by {
                    if eq_ignore_ascii_case(spec_all[i as int].spec_name(), s@) {
                        assert forall|m: int| 0 <= m < c@.len() implies #[trigger] ascii_lower(c@[m]) == ascii_lower(e.spec_name()[m]) by {
                            assert(ascii_lower(spec_all[i as int].spec_name()[m]) == ascii_lower(s@[m]));
                        }
                    }
                }
            }
            i += 1;
        }
        None
    }
}

impl Source {
    /// The source's identifier, as given to `--source`.
    pub open spec fn spec_name(self) -> Seq<char> {
        match self {
            Source::Archive => "archive"@,
            Source::Openlibrary => "openlibrary"@,
            Source::Gutenberg => "gutenberg"@,
            Source::Annas => "annas"@,
            Source::Github => "github"@,
            Source::Googlescholar => "googlescholar"@,
            Source::Duckduckgo => "duckduckgo"@,
        }
    }

    /// The source's identifier (`archive`, `openlibrary`, ...).
    pub fn name(&self) -> (r: &'static str)
        ensures
            r@ == self.spec_name(),
    {
        match self {
            Source::Archive => "archive",
            Source::Openlibrary => "openlibrary",
            Source::Gutenberg => "gutenberg",
            Source::Annas => "annas",
            Source::Github => "github",
            Source::Googlescholar => "googlescholar",
            Source::Duckduckgo => "duckduckgo",
        }
    }

    /// Every source, in declaration order.
    pub open spec fn spec_all() -> Seq<Source> {
        seq![
            Source::Archive,
            Source::Openlibrary,
            Source::Gutenberg,
            Source::Annas,
            Source::Github,
            Source::Googlescholar,
            Source::Duckduckgo,
        ]
    }

    /// Every source, in declaration order.
    pub fn all() -> (r: Vec<Source>)
        ensures
            r@ == Self::spec_all(),
    {
        let r = vec![
            Source::Archive,
            Source::Openlibrary,
            Source::Gutenberg,
            Source::Annas,
            Source::Github,
            Source::Googlescholar,
            Source::Duckduckgo,
        ];
        assert(r@ =~= Self::spec_all());
        r
    }

    /// The first source whose name equals `s` ignoring ASCII case.
    pub open spec fn spec_from_name(s: Seq<char>) -> Option<Source> {
        let all = Self::spec_all();
        if exists|i: int| 0 <= i < all.len() && eq_ignore_ascii_case(all[i].spec_name(), s) {
            let i = choose|i: int|
                0 <= i < all.len() && eq_ignore_ascii_case(all[i].spec_name(), s) && forall|j: int|
                    0 <= j < i ==> !eq_ignore_ascii_case(#[trigger] all[j].spec_name(), s);
            Some(all[i])
        } else {
            None
        }
    }

    /// Looks up a source by identifier, ignoring ASCII case.
    pub fn from_name(s: &str) -> (r: Option<Source>)
        ensures
            r == Self::spec_from_name(s@),
    {
        let c = chars_of(s);
        let all = Self::all();
        let ghost spec_all = Self::spec_all();
        let mut i: usize = 0;
        while i < all.len()
            invariant
                i <= all.len(),
                all@ == spec_all,
                spec_all == Self::spec_all(),
                c@ == s@,
                forall|j: int| 0 <= j < i ==> !eq_ignore_ascii_case(#[trigger] spec_all[j].spec_name(), s@),
            decreases all.len() - i,
        {
            let e = all[i];
            if eq_ignore_ascii_case_exec(&c, e.name()) {
                proof {
                    let k = choose|k: int|
                        0 <= k < spec_all.len() && eq_ignore_ascii_case(spec_all[k].spec_name(), s@)
                            && forall|j: int| 0 <= j < k ==> !eq_ignore_ascii_case(#[trigger] spec_all[j].spec_name(), s@);
                    assert(eq_ignore_ascii_case(spec_all[i as int].spec_name(), s@)) by {
                        assert forall|m: int| 0 <= m < s@.len() implies #[trigger] ascii_lower(spec_all[i as int].spec_name()[m]) == ascii_lower(s@[m]) by {
                            assert(ascii_lower(c@[m]) == ascii_lower(e.spec_name()[m]));
                        }
                    }
                    if k < i {
                    } else if k > i {
                        assert(!eq_ignore_ascii_case(spec_all[i as int].spec_name(), s@));
                    }
                }
                return Some(e);
            }
            proof {
                assert(!eq_ignore_ascii_case(spec_all[i as int].spec_name(), s@)) by {
                    if eq_ignore_ascii_case(spec_all[i as int].spec_name(), s@) {
                        assert forall|m: int| 0 <= m < c@.len() implies #[trigger] ascii_lower(c@[m]) == ascii_lower(e.spec_name()[m]) by {
                            assert(ascii_lower(spec_all[i as int].spec_name()[m]) == ascii_lower(s@[m]));
                        }
                    }
                }
            }
            i += 1;
        }
        None
    }
}

/// The message given for a `--source` value that names no source.
pub open spec fn unknown_source_message(source: Seq<char>) -> Seq<char> {
    "Unknown source \""@ + source + "\" — valid choices: archive, openlibrary, gutenberg, annas"@
}

/// Whether `ext` names a supported extension, ignoring ASCII case.
pub fn is_supported_extension(ext: &str) -> (r: bool)
    ensures
        r == SupportedExtension::spec_from_name(ext@) is Some,
{
    SupportedExtension::from_name(ext).is_some()
}

/// Whether `--source` may name a value: one of the four sources that `find`
/// queries (archive, openlibrary, gutenberg, annas).
pub open spec fn is_find_source(s: Source) -> bool {
    s == Source::Archive || s == Source::Openlibrary || s == Source::Gutenberg || s == Source::Annas
}

/// Whether `--source` accepts `source`: it names, ignoring ASCII case, one of
/// the sources that `find` queries.
pub open spec fn accepted_source(source: Seq<char>) -> bool {
    Source::spec_from_name(source) matches Some(s) && is_find_source(s)
}

/// Checks a `--source` value: `Ok` when it names one of the sources `find`
/// queries (archive, openlibrary, gutenberg, annas; ignoring ASCII case),
/// otherwise an error message that lists the valid choices.
pub fn validate_source(source: &str) -> (r: Result<(), String>)
    ensures
        accepted_source(source@) ==> r is Ok,
        !accepted_source(source@) ==> (r matches Err(msg) && msg@ == unknown_source_message(source@)),
{
    let ok = match Source::from_name(source) {
        Some(Source::Archive) | Some(Source::Openlibrary) | Some(Source::Gutenberg) | Some(Source::Annas) => true,
        _ => false,
    };
    if ok {
        Ok(())
    } else {
        let mut msg = String::from_str("Unknown source \"");
        msg.append(source);
        msg.append("\" — valid choices: archive, openlibrary, gutenberg, annas");
        Err(msg)
    }
}

/// Whether a search query has something besides whitespace.
pub fn is_valid_query(query: &str) -> (r: bool)
    ensures
        r == (trim_ws(query@).len() > 0),
        r == !all_whitespace(query@),
{
    proof {
        lemma_trim_empty_iff_all_whitespace(query@);
    }
    let c = chars_of(query);
    trim_chars(&c).len() > 0
}

} // verus!
