//! Which configuration file a directory and an optional explicit name lead to.
use vstd::prelude::*;
use vstd::string::*;
use crate::path::{
    ancestors, join, join_path, last_index_before, last_index_of, lemma_last_index_range,
    trim_trailing, trimmed_len_of,
};

verus! {

/// The marker file that upward discovery looks for.
pub open spec fn marker_name() -> Seq<char> {
    seq!['.', 'd', 'i', 'n', 'g', 'u', 's']
}

/// Where the marker of directory `dir` lies.
pub open spec fn marker_path(dir: Seq<char>) -> Seq<char> {
    join(dir, marker_name())
}

/// The marker of the first directory of `dirs` whose flag is set, where
/// `dirs[k]` goes with `present[i + k]` and a missing flag counts as unset.
pub open spec fn nearest_marker(dirs: Seq<Seq<char>>, present: Seq<bool>, i: int) -> Option<
    Seq<char>,
>
    decreases dirs.len(),
{
    if dirs.len() == 0 {
        None
    } else if 0 <= i < present.len() && present[i] {
        Some(marker_path(dirs[0]))
    } else {
        nearest_marker(dirs.drop_first(), present, i + 1)
    }
}

/// The marker found by walking up from `start`, where `present[k]` tells
/// whether the marker exists in the `k`-th ancestor of `start`.
pub open spec fn discover(start: Seq<char>, present: Seq<bool>) -> Option<Seq<char>> {
    nearest_marker(ancestors(start), present, 0)
}

/// The last component of `p`.
pub open spec fn file_name_of(p: Seq<char>) -> Seq<char> {
    let t = trim_trailing(p);
    t.subrange(last_index_of(t, '/') + 1, t.len() as int)
}

/// What follows the last dot of a file name; a name whose only dot leads has none.
pub open spec fn extension_of(name: Seq<char>) -> Option<Seq<char>> {
    let k = last_index_of(name, '.');
    if k <= 0 {
        None
    } else {
        Some(name.subrange(k + 1, name.len() as int))
    }
}

pub open spec fn yaml_ext() -> Seq<char> {
    seq!['y', 'a', 'm', 'l']
}

pub open spec fn yml_ext() -> Seq<char> {
    seq!['y', 'm', 'l']
}

/// One of the two recognised configuration extensions.
pub open spec fn is_config_ext(e: Seq<char>) -> bool {
    e == yaml_ext() || e == yml_ext()
}

/// `p` with `.ext` added to its last component.
pub open spec fn with_ext(p: Seq<char>, ext: Seq<char>) -> Seq<char> {
    trim_trailing(p) + seq!['.'] + ext
}

/// How an explicit configuration name resolves.
pub enum Resolution {
    Found(Seq<char>),
    Unrecognized,
    NotFound,
    Conflict(Seq<char>, Seq<char>),
}

/// Resolution of `filename` inside `dir`, given whether its `.yaml` and
/// `.yml` variants exist (consulted only when the name has no extension).
pub open spec fn resolve_explicit(
    dir: Seq<char>,
    filename: Seq<char>,
    yaml_exists: bool,
    yml_exists: bool,
) -> Resolution {
    let p = join(dir, filename);
    match extension_of(file_name_of(p)) {
        Some(e) => if is_config_ext(e) {
            Resolution::Found(p)
        } else {
            Resolution::Unrecognized
        },
        None => {
            let (a, b) = (with_ext(p, yaml_ext()), with_ext(p, yml_ext()));
            if yaml_exists && yml_exists {
                Resolution::Conflict(a, b)
            } else if yaml_exists {
                Resolution::Found(a)
            } else if yml_exists {
                Resolution::Found(b)
            } else {
                Resolution::NotFound
            }
        },
    }
}

/// The path of the marker inside `dir`.
pub fn marker_in(dir: &str) -> (r: String)
    ensures
        r@ == marker_path(dir@),
{
    proof {
        reveal_strlit(".dingus");
    }
    let r = join_path(dir, ".dingus");
    assert(".dingus"@ =~= marker_name());
    r
}

/// Start of the last component of `p` and end of `p` without trailing separators.
fn file_name_bounds(p: &str) -> (r: (usize, usize))
    ensures
        r.0 <= r.1 <= p@.len(),
        trim_trailing(p@) == p@.subrange(0, r.1 as int),
        file_name_of(p@) == p@.subrange(r.0 as int, r.1 as int),
{
    let n = trimmed_len_of(p);
    let start = match last_index_before(p, n, '/') {
        Some(k) => k + 1,
        None => 0,
    };
    proof {
        let t = p@.subrange(0, n as int);
        lemma_last_index_range(t, '/');
        assert(t.subrange(start as int, n as int) =~= p@.subrange(start as int, n as int));
    }
    (start, n)
}

/// The extension of the last component of `p`, as `extension_of` describes it.
pub fn extension_in(p: &str) -> (r: Option<String>)
    ensures
        match r {
            Some(e) => extension_of(file_name_of(p@)) == Some(e@),
            None => extension_of(file_name_of(p@)) is None,
        },
{
    let (s, n) = file_name_bounds(p);
    let name = p.substring_char(s, n);
    let len = name.unicode_len();
    assert(name@.subrange(0, len as int) =~= name@);
    match last_index_before(name, len, '.') {
        Some(k) => {
            if k == 0 {
                None
            } else {
                proof {
                    lemma_last_index_range(name@, '.');
                }
                Some(String::from_str(name.substring_char(k + 1, len)))
            }
        },
        None => None,
    }
}

/// `p` with `.ext` added to its last component.
pub fn path_with_ext(p: &str, ext: &str) -> (r: String)
    ensures
        r@ == with_ext(p@, ext@),
{
    proof {
        reveal_strlit(".");
    }
    let n = trimmed_len_of(p);
    String::from_str(p.substring_char(0, n)).concat(".").concat(ext)
}

} // verus!
