//! Paths as texts whose components are separated by `/`.

use vstd::prelude::*;
use crate::text::{chars_of, has_prefix, same_chars, starts_with, string_of};

verus! {

/// The extension of a diagram file.
pub const DIAGRAM_EXTENSION: &'static str = "drawio";

/// The position of the last `c` in `s`.
pub open spec fn last_index_of(s: Seq<char>, c: char) -> Option<int>
    decreases s.len(),
{
    if s.len() == 0 {
        None
    } else if s.last() == c {
        Some(s.len() - 1)
    } else {
        last_index_of(s.drop_last(), c)
    }
}

/// The last component of `path`: what follows its last `/`.
pub open spec fn file_name(path: Seq<char>) -> Seq<char> {
    match last_index_of(path, '/') {
        Some(i) => path.skip(i + 1),
        None => path,
    }
}

/// The file name of `path` without its extension: what stands before the
/// last `.` of the name. A name without a `.`, or whose only `.` is its
/// first character, is its own stem.
pub open spec fn file_stem(path: Seq<char>) -> Seq<char> {
    let name = file_name(path);
    match last_index_of(name, '.') {
        Some(i) => if i == 0 {
            name
        } else {
            name.take(i)
        },
        None => name,
    }
}

/// The extension of `path`: what follows the last `.` of its file name. A
/// name without a `.`, or whose only `.` is its first character, has none.
pub open spec fn extension(path: Seq<char>) -> Option<Seq<char>> {
    let name = file_name(path);
    match last_index_of(name, '.') {
        Some(i) => if i == 0 {
            None
        } else {
            Some(name.skip(i + 1))
        },
        None => None,
    }
}

/// Whether `path` is `base` or lies below it: `base` is a prefix of `path`
/// that ends where a component of `path` ends.
pub open spec fn lies_under(path: Seq<char>, base: Seq<char>) -> bool {
    &&& starts_with(path, base)
    &&& path.len() == base.len() || (base.len() > 0 && base.last() == '/') || path[base.len() as int]
        == '/'
}

/// Finds the last `c` in `text`.
pub fn find_last(text: &Vec<char>, c: char) -> (r: Option<usize>)
    ensures
        r is Some == last_index_of(text@, c) is Some,
        r matches Some(i) ==> i < text.len() && last_index_of(text@, c) == Some(i as int),
{
    let mut end: usize = text.len();
    assert(text@.take(end as int) == text@);
    while end > 0
        invariant
            end <= text.len(),
            last_index_of(text@, c) == last_index_of(text@.take(end as int), c),
        decreases end,
    {
        assert(text@.take(end as int).drop_last() == text@.take(end - 1));
        if text[end - 1] == c {
            return Some(end - 1);
        }
        end -= 1;
    }
    None
}

/// Copies the characters of `text` from `from` up to `to`.
pub(crate) fn slice(text: &Vec<char>, from: usize, to: usize) -> (r: Vec<char>)
    requires
        from <= to <= text.len(),
    ensures
        r@ == text@.subrange(from as int, to as int),
{
    let mut r: Vec<char> = Vec::new();
    let mut at: usize = from;
    while at < to
        invariant
            from <= at <= to <= text.len(),
            r@ == text@.subrange(from as int, at as int),
        decreases to - at,
    {
        r.push(text[at]);
        assert(text@.subrange(from as int, at + 1) == text@.subrange(from as int, at as int).push(
            text@[at as int],
        ));
        at += 1;
    }
    r
}

/// The last component of `path`.
pub fn file_name_of(path: &Vec<char>) -> (r: Vec<char>)
    ensures
        r@ == file_name(path@),
{
    match find_last(path, '/') {
        Some(i) => slice(path, i + 1, path.len()),
        None => {
            assert(path@.subrange(0, path.len() as int) == path@);
            slice(path, 0, path.len())
        },
    }
}

/// The file name of `path` without its extension.
pub fn file_stem_of(path: &str) -> (r: String)
    ensures
        r@ == file_stem(path@),
{
    let name = file_name_of(&chars_of(path));
    match find_last(&name, '.') {
        Some(i) => {
            if i == 0 {
                string_of(&name)
            } else {
                string_of(&slice(&name, 0, i))
            }
        },
        None => string_of(&name),
    }
}

/// The extension of `path`.
pub fn extension_of(path: &str) -> (r: Option<String>)
    ensures
        r.deep_view() == extension(path@),
{
    let name = file_name_of(&chars_of(path));
    match find_last(&name, '.') {
        Some(i) => {
            if i == 0 {
                None
            } else {
                Some(string_of(&slice(&name, i + 1, name.len())))
            }
        },
        None => None,
    }
}

/// Whether `path` has the extension of a diagram file.
pub fn has_diagram_extension(path: &str) -> (r: bool)
    ensures
        r == (extension(path@) == Some(DIAGRAM_EXTENSION@)),
{
    match extension_of(path) {
        Some(found) => same_chars(&chars_of(found.as_str()), &chars_of(DIAGRAM_EXTENSION)),
        None => false,
    }
}

/// Whether `path` is `base` or lies below it.
pub fn is_under(path: &str, base: &str) -> (r: bool)
    ensures
        r == lies_under(path@, base@),
{
    let path = chars_of(path);
    let base = chars_of(base);
    if !has_prefix(&path, &base) {
        return false;
    }
    path.len() == base.len() || (base.len() > 0 && base[base.len() - 1] == '/') || path[base.len()]
        == '/'
}

} // verus!
