//! Download requests: the parsed source locator and the file name derived
//! from it.

use vstd::prelude::*;
use vstd::string::*;
use crate::transfer::TransferError;

verus! {

/// A parsed source locator, held as the plain text that the rest of the
/// library reads.
#[derive(Clone, Debug)]
pub struct Source {
    /// The normalised serialisation of the locator.
    pub href: String,
    /// Its path component.
    pub path: String,
}

/// What `url::Url::parse` yields for a text, as (serialisation, path).
pub uninterp spec fn parsed_url(raw: Seq<char>) -> Option<(Seq<char>, Seq<char>)>;

pub open spec fn parse_view(r: Result<Source, String>) -> Option<(Seq<char>, Seq<char>)> {
    match r {
        Ok(s) => Some((s.href@, s.path@)),
        Err(_) => None,
    }
}

/// Relies on `url::Url::parse`, keeping `Url::as_str` and `Url::path` of
/// the result; on failure the parse error's message.
#[verifier::external_body]
fn parse_url(raw: &str) -> (r: Result<Source, String>)
    ensures
        parse_view(r) == parsed_url(raw@),
{
    match url::Url::parse(raw) {
        Ok(u) => Ok(Source { href: u.as_str().to_string(), path: u.path().to_string() }),
        Err(e) => Err(e.to_string()),
    }
}

/// Start of the last `/`-separated segment of `p`.
pub open spec fn segment_start(p: Seq<char>) -> nat
    decreases p.len(),
{
    if p.len() == 0 {
        0
    } else if p.last() == '/' {
        p.len()
    } else {
        segment_start(p.drop_last())
    }
}

/// `p` without its trailing `/` characters.
pub open spec fn trim_slashes(p: Seq<char>) -> Seq<char>
    decreases p.len(),
{
    if p.len() > 0 && p.last() == '/' {
        trim_slashes(p.drop_last())
    } else {
        p
    }
}

/// The last non-empty segment among those that `Url::path_segments` gives
/// for a path that starts with `/`; `None` when every segment is empty or
/// the path does not start with `/`.
pub open spec fn last_nonempty_segment(path: Seq<char>) -> Option<Seq<char>> {
    let t = trim_slashes(path);
    if path.len() > 0 && path[0] == '/' && t.len() > 0 {
        Some(t.subrange(segment_start(t) as int, t.len() as int))
    } else {
        None
    }
}

pub open spec fn default_name() -> Seq<char> {
    seq!['d', 'o', 'w', 'n', 'l', 'o', 'a', 'd']
}

/// The file name for a path: its last non-empty segment, else `download`.
pub open spec fn file_name_for(path: Seq<char>) -> Seq<char> {
    match last_nonempty_segment(path) {
        Some(s) => s,
        None => default_name(),
    }
}

proof fn lemma_segment_start_prefix(p: Seq<char>, i: int)
    requires
        0 <= i <= p.len(),
        forall|j: int| i <= j < p.len() ==> p[j] != '/',
    ensures
        segment_start(p) == segment_start(p.subrange(0, i)),
    decreases p.len() - i,
{
    if i < p.len() {
        lemma_segment_start_prefix(p, i + 1);
        let q = p.subrange(0, i + 1);
        assert(q.drop_last() =~= p.subrange(0, i));
    } else {
        assert(p.subrange(0, i) =~= p);
    }
}

/// The file name that a download of `path` is saved under.
pub fn file_name_from_path(path: &str) -> (r: String)
    ensures
        r@ == file_name_for(path@),
{
    proof {
        reveal_strlit("download");
    }
    let n = path.unicode_len();
    if n == 0 || path.get_char(0) != '/' {
        return String::from_str("download");
    }
    let mut e: usize = n;
    assert(path@.subrange(0, n as int) =~= path@);
    while e > 0 && path.get_char(e - 1) == '/'
        invariant
            0 <= e <= n,
            n == path@.len(),
            trim_slashes(path@) == trim_slashes(path@.subrange(0, e as int)),
        decreases e,
    {
        assert(path@.subrange(0, e as int).drop_last() =~= path@.subrange(0, e - 1));
        e = e - 1;
    }
    if e == 0 {
        assert(trim_slashes(path@) =~= Seq::<char>::empty());
        return String::from_str("download");
    }
    let ghost t = path@.subrange(0, e as int);
    assert(trim_slashes(path@) == t);
    let mut i: usize = e;
    while i > 0 && path.get_char(i - 1) != '/'
        invariant
            0 <= i <= e,
            e <= n,
            n == path@.len(),
            t == path@.subrange(0, e as int),
            forall|j: int| i <= j < e ==> path@[j] != '/',
        decreases i,
    {
        i = i - 1;
    }
    proof {
        lemma_segment_start_prefix(t, i as int);
        if i > 0 {
            let q = t.subrange(0, i as int);
            assert(q.drop_last() =~= t.subrange(0, i - 1));
            assert(q.last() == '/');
            assert(segment_start(q) == i);
        } else {
            assert(path@[0] == '/');
            assert(false);
        }
        assert(t.subrange(i as int, e as int) =~= path@.subrange(i as int, e as int));
    }
    String::from_str(path.substring_char(i, e))
}

impl Source {
    /// Parses a source locator; a text that does not parse is refused as
    /// an invalid source before any network activity.
    pub fn parse(raw: &str) -> (r: Result<Source, TransferError>)
        ensures
            r is Ok <==> parsed_url(raw@) is Some,
            r matches Ok(s) ==> parsed_url(raw@) == Some((s.href@, s.path@)),
            r matches Err(e) ==> (e matches TransferError::InvalidSource { source, .. } && source@
                == raw@),
    {
        match parse_url(raw) {
            Ok(s) => Ok(s),
            Err(message) => Err(TransferError::InvalidSource { source: String::from_str(raw), message }),
        }
    }
}

/// The file name that a download of `url` is saved under: the last
/// non-empty path segment, else `download`.
pub fn file_name_from_url(url: &Source) -> (r: String)
    ensures
        r@ == file_name_for(url.path@),
{
    file_name_from_path(url.path.as_str())
}

} // verus!
