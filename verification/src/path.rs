//! File-name handling of paths held as text: the final component comes from
//! `std::path::Path`, and the extension and stem are split from it as
//! `Path::extension` and `Path::file_stem` document.
use vstd::prelude::*;

use crate::text::{chars_of, string_of_range};

verus! {

/// The final component of a path, as `Path::file_name` returns it
/// (`None` when the path ends in `..` or has no normal component).
pub uninterp spec fn path_file_name(path: Seq<char>) -> Option<Seq<char>>;

/// The path with its extension replaced, as `Path::with_extension` returns it.
pub uninterp spec fn path_with_extension(path: Seq<char>, extension: Seq<char>) -> Seq<char>;

/// `std::path::Path::file_name`, its result converted to text. Its contract
/// claims only that the result is a function of the path, named `path_file_name`.
#[verifier::external_body]
fn file_name_of(path: &str) -> (r: Option<String>)
    ensures
        match r {
            Some(n) => path_file_name(path@) == Some(n@),
            None => path_file_name(path@) is None,
        },
{
    match std::path::Path::new(path).file_name() {
        Some(n) => Some(n.to_string_lossy().into_owned()),
        None => None,
    }
}

/// `std::path::Path::with_extension`, its result converted to text. Its
/// contract claims that the result is a function of the path and the
/// extension, named `path_with_extension`, and what the documentation of
/// `PathBuf::set_extension` says: a path without a file name is returned
/// unchanged; otherwise a non-empty extension without a `.` is added or
/// replaces the old one, leaving the stem as it was, so that a second call
/// with the same extension changes nothing. That the directory part is kept
/// is not stated. An extension holding a `/` makes the call panic, and is not
/// admitted.
#[verifier::external_body]
pub(crate) fn with_extension(path: &str, extension: &str) -> (r: String)
    requires
        !extension@.contains('/'),
    ensures
        r@ == path_with_extension(path@, extension@),
        path_file_name(path@) is None ==> r@ == path@,
        path_file_name(path@) is Some && extension@.len() > 0 && !extension@.contains('.')
            ==> path_extension(r@) == Some(extension@) && path_stem(r@) == path_stem(path@),
        extension@.len() > 0 && !extension@.contains('.') ==> path_with_extension(r@, extension@)
            == r@,
{
    std::path::Path::new(path).with_extension(extension).to_string_lossy().into_owned()
}

/// Index of the last `c` in `s`, or -1.
pub open spec fn last_index_of(s: Seq<char>, c: char) -> int
    decreases s.len(),
{
    if s.len() == 0 {
        -1
    } else if s.last() == c {
        s.len() - 1
    } else {
        last_index_of(s.drop_last(), c)
    }
}

pub open spec fn dot_dot() -> Seq<char> {
    seq!['.', '.']
}

/// Extension of a file name: the part after the last `.`, unless there is no
/// `.`, or the only `.` starts the name, or the name is `..`.
pub open spec fn name_extension(name: Seq<char>) -> Option<Seq<char>> {
    let i = last_index_of(name, '.');
    if name == dot_dot() || i <= 0 {
        None
    } else {
        Some(name.subrange(i + 1, name.len() as int))
    }
}

/// Stem of a file name: the part before the last `.`, or the whole name
/// when `name_extension` is `None`.
pub open spec fn name_stem(name: Seq<char>) -> Seq<char> {
    let i = last_index_of(name, '.');
    if name == dot_dot() || i <= 0 {
        name
    } else {
        name.subrange(0, i)
    }
}

/// `Path::extension`.
pub open spec fn path_extension(path: Seq<char>) -> Option<Seq<char>> {
    match path_file_name(path) {
        Some(n) => name_extension(n),
        None => None,
    }
}

/// `Path::file_stem`.
pub open spec fn path_stem(path: Seq<char>) -> Option<Seq<char>> {
    match path_file_name(path) {
        Some(n) => Some(name_stem(n)),
        None => None,
    }
}

proof fn lemma_last_index_bounds(s: Seq<char>, c: char)
    ensures
        -1 <= last_index_of(s, c) < s.len(),
        last_index_of(s, c) >= 0 ==> s[last_index_of(s, c)] == c,
    decreases s.len(),
{
    if s.len() > 0 && s.last() != c {
        lemma_last_index_bounds(s.drop_last(), c);
    }
}

fn last_index_exec(v: &Vec<char>, c: char) -> (r: Option<usize>)
    ensures
        match r {
            Some(i) => i as int == last_index_of(v@, c),
            None => last_index_of(v@, c) == -1,
        },
{
    let mut i = v.len();
    assert(v@.subrange(0, i as int) == v@);
    while i > 0
        invariant
            i <= v@.len(),
            last_index_of(v@, c) == last_index_of(v@.subrange(0, i as int), c),
        decreases i,
    {
        assert(v@.subrange(0, i as int).drop_last() == v@.subrange(0, i - 1));
        if v[i - 1] == c {
            return Some(i - 1);
        }
        i = i - 1;
    }
    None
}

fn is_dot_dot(v: &Vec<char>) -> (b: bool)
    ensures
        b == (v@ == dot_dot()),
{
    if v.len() == 2 && v[0] == '.' && v[1] == '.' {
        assert(v@ == dot_dot());
        true
    } else {
        false
    }
}

/// The final component of the path (`Path::file_name`).
pub fn file_name(path: &str) -> (r: Option<String>)
    ensures
        match r {
            Some(n) => path_file_name(path@) == Some(n@),
            None => path_file_name(path@) is None,
        },
{
    file_name_of(path)
}

/// The extension of the path's file name (`Path::extension`).
pub fn extension(path: &str) -> (r: Option<String>)
    ensures
        match r {
            Some(e) => path_extension(path@) == Some(e@),
            None => path_extension(path@) is None,
        },
{
    match file_name_of(path) {
        None => None,
        Some(name) => {
            let v = chars_of(name.as_str());
            proof {
                assert(v@ == name@);
                lemma_last_index_bounds(v@, '.');
            }
            if is_dot_dot(&v) {
                return None;
            }
            match last_index_exec(&v, '.') {
                Some(i) => {
                    if i == 0 {
                        None
                    } else {
                        Some(string_of_range(&v, i + 1, v.len()))
                    }
                },
                None => None,
            }
        },
    }
}

/// The stem of the path's file name (`Path::file_stem`).
pub fn file_stem(path: &str) -> (r: Option<String>)
    ensures
        match r {
            Some(e) => path_stem(path@) == Some(e@),
            None => path_stem(path@) is None,
        },
{
    match file_name_of(path) {
        None => None,
        Some(name) => {
            let v = chars_of(name.as_str());
            proof {
                assert(v@ == name@);
                lemma_last_index_bounds(v@, '.');
                assert(v@.subrange(0, v@.len() as int) == v@);
            }
            if is_dot_dot(&v) {
                return Some(name);
            }
            match last_index_exec(&v, '.') {
                Some(i) => {
                    if i == 0 {
                        Some(name)
                    } else {
                        Some(string_of_range(&v, 0, i))
                    }
                },
                None => Some(name),
            }
        },
    }
}

} // verus!
