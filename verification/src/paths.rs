use vstd::prelude::*;
use crate::text::{chars_of, string_from_range};

verus! {

/// `Path::join`: `rel` adjoined to `base` (replacing it when `rel` is
/// absolute), as a string.
pub uninterp spec fn joined_path(base: Seq<char>, rel: Seq<char>) -> Seq<char>;

/// `Path::parent`: the path without its last component; `None` for a
/// root or an empty path.
pub uninterp spec fn parent_path(p: Seq<char>) -> Option<Seq<char>>;

/// `Path::file_name`: the last component of a path when it is a normal
/// component; `None` when the path ends in `..` or has no components.
pub uninterp spec fn file_name_of(p: Seq<char>) -> Option<Seq<char>>;

/// `Path`'s `==`: whether two paths have the same components.
pub uninterp spec fn same_path(a: Seq<char>, b: Seq<char>) -> bool;

/// `Path::join` on two strings, read back with `to_string_lossy` (the
/// parts are strings, so nothing is lost).
#[verifier::external_body]
pub(crate) fn path_join(base: &str, rel: &str) -> (r: String)
    ensures
        r@ == joined_path(base@, rel@),
{
    std::path::Path::new(base).join(rel).to_string_lossy().into_owned()
}

/// `Path::parent` of a string path.
#[verifier::external_body]
pub(crate) fn path_parent(p: &str) -> (r: Option<String>)
    ensures
        match r {
            Some(s) => parent_path(p@) == Some(s@),
            None => parent_path(p@) is None,
        },
{
    std::path::Path::new(p).parent().map(|d| d.to_string_lossy().into_owned())
}

/// `Path::file_name` of a string path.
#[verifier::external_body]
pub(crate) fn path_file_name(p: &str) -> (r: Option<String>)
    ensures
        match r {
            Some(s) => file_name_of(p@) == Some(s@),
            None => file_name_of(p@) is None,
        },
{
    std::path::Path::new(p).file_name().map(|n| n.to_string_lossy().into_owned())
}

/// `Path`'s `==` on two string paths.
#[verifier::external_body]
pub(crate) fn paths_equal(a: &str, b: &str) -> (r: bool)
    ensures
        r == same_path(a@, b@),
{
    std::path::Path::new(a) == std::path::Path::new(b)
}

/// Position of the last `'.'` in `s`, if any.
pub open spec fn last_dot(s: Seq<char>) -> Option<int>
    decreases s.len(),
{
    if s.len() == 0 {
        None
    } else if s.last() == '.' {
        Some(s.len() - 1)
    } else {
        last_dot(s.drop_last())
    }
}

/// The extension of a file name, as `Path::extension` documents it: none
/// when the name holds no `'.'`, or only one at its start; otherwise what
/// follows the last `'.'`.
pub open spec fn extension_spec(name: Seq<char>) -> Option<Seq<char>> {
    match last_dot(name) {
        Some(d) => if d == 0 {
            None
        } else {
            Some(name.subrange(d + 1, name.len() as int))
        },
        None => None,
    }
}

/// The extension of the file name `name` (a name, not a path).
pub fn file_extension(name: &str) -> (r: Option<String>)
    ensures
        match r {
            Some(e) => extension_spec(name@) == Some(e@),
            None => extension_spec(name@) is None,
        },
{
    let v = chars_of(name);
    let mut k = v.len();
    assert(v@.subrange(0, v@.len() as int) =~= v@);
    while k > 0 && v[k - 1] != '.'
        invariant
            k <= v.len(),
            v@ == name@,
            last_dot(v@) == last_dot(v@.subrange(0, k as int)),
        decreases k,
    {
        assert(v@.subrange(0, k as int).drop_last() =~= v@.subrange(0, k - 1));
        k -= 1;
    }
    if k <= 1 {
        if k == 1 {
            assert(last_dot(v@.subrange(0, 1)) == Some(0int));
        } else {
            assert(v@.subrange(0, 0).len() == 0);
        }
        None
    } else {
        assert(last_dot(v@.subrange(0, k as int)) == Some(k - 1));
        Some(string_from_range(&v, k, v.len()))
    }
}

/// The stem of a file name, as `Path::file_stem` documents it: the whole
/// name when it holds no `'.'`, or only one at its start; otherwise what
/// comes before the last `'.'`.
pub open spec fn stem_spec(name: Seq<char>) -> Seq<char> {
    match last_dot(name) {
        Some(d) => if d == 0 {
            name
        } else {
            name.subrange(0, d)
        },
        None => name,
    }
}

/// The position of the last `'.'` of `v`, if any.
fn find_last_dot(v: &Vec<char>) -> (r: Option<usize>)
    ensures
        match r {
            Some(d) => last_dot(v@) == Some(d as int) && d < v@.len(),
            None => last_dot(v@) is None,
        },
{
    let mut k = v.len();
    assert(v@.subrange(0, v@.len() as int) =~= v@);
    while k > 0 && v[k - 1] != '.'
        invariant
            k <= v.len(),
            last_dot(v@) == last_dot(v@.subrange(0, k as int)),
        decreases k,
    {
        assert(v@.subrange(0, k as int).drop_last() =~= v@.subrange(0, k - 1));
        k -= 1;
    }
    if k == 0 {
        assert(v@.subrange(0, 0).len() == 0);
        None
    } else {
        assert(last_dot(v@.subrange(0, k as int)) == Some(k - 1));
        Some(k - 1)
    }
}

/// The stem of the file name `name` (a name, not a path).
pub fn name_stem(name: &str) -> (r: String)
    ensures
        r@ == stem_spec(name@),
{
    let v = chars_of(name);
    match find_last_dot(&v) {
        Some(d) => if d == 0 {
            string_from_range(&v, 0, v.len())
        } else {
            string_from_range(&v, 0, d)
        },
        None => string_from_range(&v, 0, v.len()),
    }
}

/// `Path::file_stem`: the stem of a path's file name.
pub open spec fn file_stem_of(p: Seq<char>) -> Option<Seq<char>> {
    match file_name_of(p) {
        Some(n) => Some(stem_spec(n)),
        None => None,
    }
}

/// `Path::extension`: the extension of a path's file name.
pub open spec fn path_extension_of(p: Seq<char>) -> Option<Seq<char>> {
    match file_name_of(p) {
        Some(n) => extension_spec(n),
        None => None,
    }
}

/// The stem of the file name of the path `p`.
pub fn file_stem(p: &str) -> (r: Option<String>)
    ensures
        match r {
            Some(s) => file_stem_of(p@) == Some(s@),
            None => file_stem_of(p@) is None,
        },
{
    match path_file_name(p) {
        Some(n) => Some(name_stem(n.as_str())),
        None => None,
    }
}

/// The extension of the file name of the path `p`.
pub fn path_extension(p: &str) -> (r: Option<String>)
    ensures
        match r {
            Some(e) => path_extension_of(p@) == Some(e@),
            None => path_extension_of(p@) is None,
        },
{
    match path_file_name(p) {
        Some(n) => file_extension(n.as_str()),
        None => None,
    }
}

} // verus!
