//! Output path resolution: where a download is written, without silently
//! replacing a file that is already there unless that is asked for.

use vstd::prelude::*;
use vstd::string::*;

verus! {

/// How many numbered alternatives are probed before giving up.
pub const MAX_PROBES: u32 = 9999;

/// What `Path::file_stem` yields for a name.
pub uninterp spec fn stem_of(name: Seq<char>) -> Option<Seq<char>>;

/// What `Path::extension` yields for a name.
pub uninterp spec fn extension_of(name: Seq<char>) -> Option<Seq<char>>;

/// What `Path::join` yields for a directory and a name.
pub uninterp spec fn joined(dir: Seq<char>, name: Seq<char>) -> Seq<char>;

pub open spec fn opt_view(o: Option<String>) -> Option<Seq<char>> {
    match o {
        Some(s) => Some(s@),
        None => None,
    }
}

/// A single file name: not empty, not `.` or `..`, and free of the
/// characters that a path can treat as separators or a prefix.
pub open spec fn plain_file_name(n: Seq<char>) -> bool {
    &&& n.len() > 0
    &&& n != seq!['.']
    &&& n != seq!['.', '.']
    &&& forall|i: int| 0 <= i < n.len() ==> n[i] != '/' && n[i] != '\\' && n[i] != ':'
}

/// Index of the final `.` in `n`, or -1 when there is none.
pub open spec fn last_dot(n: Seq<char>) -> int
    decreases n.len(),
{
    if n.len() == 0 {
        -1
    } else if n.last() == '.' {
        n.len() - 1
    } else {
        last_dot(n.drop_last())
    }
}

/// The stem of a plain file name: the part before the final `.`, or the
/// whole name when it has no `.` past its first character.
pub open spec fn plain_stem(n: Seq<char>) -> Seq<char> {
    if last_dot(n) >= 1 {
        n.subrange(0, last_dot(n))
    } else {
        n
    }
}

/// The extension of a plain file name: the part after the final `.`,
/// absent when it has no `.` past its first character.
pub open spec fn plain_extension(n: Seq<char>) -> Option<Seq<char>> {
    if last_dot(n) >= 1 {
        Some(n.subrange(last_dot(n) + 1, n.len() as int))
    } else {
        None
    }
}

/// Relies on `std::path::Path::file_stem`, taken as UTF-8 text: the stem
/// depends on the name alone, and for a single plain name it is the part
/// before the final `.` (the whole name when there is no `.` after its
/// first character), as std documents.
#[verifier::external_body]
fn file_stem(name: &str) -> (r: Option<String>)
    ensures
        opt_view(r) == stem_of(name@),
        plain_file_name(name@) ==> opt_view(r) == Some(plain_stem(name@)),
{
    std::path::Path::new(name).file_stem().and_then(|s| s.to_str()).map(|s| s.to_string())
}

/// Relies on `std::path::Path::extension`, taken as UTF-8 text: the
/// extension depends on the name alone, and for a single plain name it is
/// the part after the final `.` (none when there is no `.` after its first
/// character), as std documents.
#[verifier::external_body]
fn file_extension(name: &str) -> (r: Option<String>)
    ensures
        opt_view(r) == extension_of(name@),
        plain_file_name(name@) ==> opt_view(r) == plain_extension(name@),
{
    std::path::Path::new(name).extension().and_then(|s| s.to_str()).map(|s| s.to_string())
}

/// Relies on `std::path::Path::join`, taken back as text: on the platform
/// built for, the joined path depends on the directory and the name alone.
#[verifier::external_body]
fn join_path(dir: &str, name: &str) -> (r: String)
    ensures
        r@ == joined(dir@, name@),
{
    std::path::Path::new(dir).join(name).to_string_lossy().into_owned()
}

pub open spec fn digit_char(d: nat) -> char {
    if d == 0 { '0' }
    else if d == 1 { '1' }
    else if d == 2 { '2' }
    else if d == 3 { '3' }
    else if d == 4 { '4' }
    else if d == 5 { '5' }
    else if d == 6 { '6' }
    else if d == 7 { '7' }
    else if d == 8 { '8' }
    else { '9' }
}

/// Decimal notation of a natural number, without leading zeros.
pub open spec fn decimal(n: nat) -> Seq<char>
    decreases n,
{
    if n < 10 {
        seq![digit_char(n)]
    } else {
        decimal(n / 10).push(digit_char(n % 10))
    }
}

fn digit_str(d: u32) -> (r: &'static str)
    requires
        d < 10,
    ensures
        r@ == seq![digit_char(d as nat)],
{
    proof {
        reveal_strlit("0");
        reveal_strlit("1");
        reveal_strlit("2");
        reveal_strlit("3");
        reveal_strlit("4");
        reveal_strlit("5");
        reveal_strlit("6");
        reveal_strlit("7");
        reveal_strlit("8");
        reveal_strlit("9");
    }
    let r = if d == 0 { "0" }
    else if d == 1 { "1" }
    else if d == 2 { "2" }
    else if d == 3 { "3" }
    else if d == 4 { "4" }
    else if d == 5 { "5" }
    else if d == 6 { "6" }
    else if d == 7 { "7" }
    else if d == 8 { "8" }
    else { "9" };
    assert(r@ =~= seq![digit_char(d as nat)]);
    r
}

/// Decimal notation of `n`.
pub fn decimal_string(n: u32) -> (r: String)
    ensures
        r@ == decimal(n as nat),
    decreases n,
{
    if n < 10 {
        String::from_str(digit_str(n))
    } else {
        let mut s = decimal_string(n / 10);
        s.append(digit_str(n % 10));
        s
    }
}

/// The name `stem (k).ext`, or `stem (k)` when there is no extension.
pub open spec fn numbered_name(stem: Seq<char>, ext: Seq<char>, k: nat) -> Seq<char> {
    let base = stem + seq![' ', '('] + decimal(k) + seq![')'];
    if ext.len() == 0 {
        base
    } else {
        base + seq!['.'] + ext
    }
}

/// The stem used for numbered alternatives of `name`.
pub open spec fn stem_part(name: Seq<char>) -> Seq<char> {
    match stem_of(name) {
        Some(s) => s,
        None => seq!['f', 'i', 'l', 'e'],
    }
}

/// The extension used for numbered alternatives of `name`.
pub open spec fn ext_part(name: Seq<char>) -> Seq<char> {
    match extension_of(name) {
        Some(e) => e,
        None => Seq::empty(),
    }
}

/// The `k`-th numbered alternative of `dir/name`.
pub open spec fn candidate(dir: Seq<char>, name: Seq<char>, k: nat) -> Seq<char> {
    joined(dir, numbered_name(stem_part(name), ext_part(name), k))
}

/// The probe answered `b` for some string holding `p`.
pub open spec fn answered<F: Fn(&String) -> bool>(probe: &F, p: Seq<char>, b: bool) -> bool {
    exists|s: String| s@ == p && call_ensures(*probe, (&s,), b)
}

/// The numbered name `stem (k).ext` built from its parts.
pub fn numbered(stem: &str, ext: &str, k: u32) -> (r: String)
    ensures
        r@ == numbered_name(stem@, ext@, k as nat),
{
    proof {
        reveal_strlit(" (");
        reveal_strlit(")");
        reveal_strlit(".");
    }
    let mut r = String::from_str(stem);
    r.append(" (");
    let digits = decimal_string(k);
    r.append(digits.as_str());
    r.append(")");
    if ext.unicode_len() != 0 {
        r.append(".");
        r.append(ext);
    }
    assert(r@ =~= numbered_name(stem@, ext@, k as nat));
    r
}

/// Where a download of `name` into `dir` is written.
///
/// With `overwrite`, or when `is_taken` reports `dir/name` free, that path is
/// returned. Otherwise the numbered alternatives `stem (1).ext`,
/// `stem (2).ext`, ... up to `MAX_PROBES` are probed in order and the first
/// one reported free is returned; when none is, the result falls back to
/// `dir/name`, which may then be overwritten. `is_taken` is asked once per
/// probed path, in that order. Probing and the later creation of the file
/// are separate steps, so another writer in the same directory can still
/// take the path in between.
pub fn pick_output_path<F: Fn(&String) -> bool>(
    out_dir: &str,
    base: &str,
    overwrite: bool,
    is_taken: &F,
) -> (r: String)
    requires
        forall|p: &String| call_requires(*is_taken, (p,)),
    ensures
        overwrite ==> r@ == joined(out_dir@, base@),
        !overwrite ==> (r@ == joined(out_dir@, base@) && answered(
            is_taken,
            joined(out_dir@, base@),
            false,
        )) || (answered(is_taken, joined(out_dir@, base@), true) && exists|k: nat|
            1 <= k <= MAX_PROBES && r@ == candidate(out_dir@, base@, k) && answered(
                is_taken,
                candidate(out_dir@, base@, k),
                false,
            ) && forall|j: nat|
                1 <= j < k ==> #[trigger] answered(is_taken, candidate(out_dir@, base@, j), true))
            || (r@ == joined(out_dir@, base@) && answered(is_taken, joined(out_dir@, base@), true)
            && forall|j: nat|
            1 <= j <= MAX_PROBES ==> #[trigger] answered(
                is_taken,
                candidate(out_dir@, base@, j),
                true,
            )),
{
    let path = join_path(out_dir, base);
    if overwrite {
        return path;
    }
    let taken = is_taken(&path);
    if !taken {
        return path;
    }
    let stem = match file_stem(base) {
        Some(s) => s,
        None => {
            proof {
                reveal_strlit("file");
            }
            String::from_str("file")
        },
    };
    let ext = match file_extension(base) {
        Some(e) => e,
        None => String::new(),
    };
    assert(stem@ == stem_part(base@));
    assert(ext@ == ext_part(base@));
    let mut i: u32 = 1;
    while i <= MAX_PROBES
        invariant
            1 <= i <= MAX_PROBES + 1,
            !overwrite,
            stem@ == stem_part(base@),
            ext@ == ext_part(base@),
            path@ == joined(out_dir@, base@),
            answered(is_taken, path@, true),
            forall|p: &String| call_requires(*is_taken, (p,)),
            forall|j: nat| 1 <= j < i ==> #[trigger] answered(is_taken, candidate(out_dir@, base@, j), true),
        decreases MAX_PROBES + 1 - i,
    {
        let name = numbered(stem.as_str(), ext.as_str(), i);
        let cand = join_path(out_dir, name.as_str());
        let busy = is_taken(&cand);
        if !busy {
            assert(answered(is_taken, candidate(out_dir@, base@, i as nat), false));
            return cand;
        }
        assert(answered(is_taken, candidate(out_dir@, base@, i as nat), true));
        i = i + 1;
    }
    path
}

} // verus!
