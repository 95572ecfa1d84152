//! Paths as text: components are separated by `/`.

use vstd::prelude::*;
use vstd::string::*;
use crate::util::utils::{last_index_of, lemma_last_index_of_append};

verus! {

/// Whether `name` starts at the root.
pub open spec fn is_absolute(name: Seq<char>) -> bool {
    name.len() > 0 && name[0] == '/'
}

/// The path of `name` below `base`. An absolute `name` stands for itself; a
/// separator is put between the two only where `base` does not end in one.
pub open spec fn joined(base: Seq<char>, name: Seq<char>) -> Seq<char> {
    if is_absolute(name) {
        name
    } else if base.len() == 0 || base.last() == '/' {
        base + name
    } else {
        base + seq!['/'] + name
    }
}

/// The directory part of a path: what stands before its last separator, or
/// the root where that separator is the first character. A path without a
/// separator names no directory, and neither does the root itself.
pub open spec fn parent_of(path: Seq<char>) -> Option<Seq<char>> {
    let k = last_index_of(path, '/');
    if k < 0 || path.len() == 1 {
        None
    } else if k == 0 {
        Some(seq!['/'])
    } else {
        Some(path.subrange(0, k))
    }
}

/// Whether `path` lies below the directory `dir`, at any depth: `dir` is not
/// empty and `path` continues it behind a separator.
pub open spec fn is_inside(dir: Seq<char>, path: Seq<char>) -> bool {
    &&& dir.len() > 0
    &&& path.len() > dir.len()
    &&& path.subrange(0, dir.len() as int) == dir
    &&& (dir.last() == '/' || path[dir.len() as int] == '/')
}

/// Whether `name` is a single component: not empty and without a separator.
pub open spec fn is_component(name: Seq<char>) -> bool {
    name.len() > 0 && !name.contains('/')
}

/// A single component joined to a directory lies directly in it: the
/// directory is its parent and it is inside the directory.
pub proof fn lemma_joined_component(dir: Seq<char>, name: Seq<char>)
    requires
        dir.len() > 0,
        dir.last() != '/',
        is_component(name),
    ensures
        joined(dir, name) == dir + seq!['/'] + name,
        parent_of(joined(dir, name)) == Some(dir),
        is_inside(dir, joined(dir, name)),
        joined(dir, name).last() != '/',
{
    assert(name.contains(name[0]));
    assert(name.contains(name.last()));
    let path = dir + seq!['/'] + name;
    let head = dir + seq!['/'];
    lemma_last_index_of_append(head, name, '/');
    assert(head.last() == '/');
    assert(last_index_of(head, '/') == dir.len());
    assert(path.subrange(0, dir.len() as int) =~= dir);
}

/// A single component joined to any base gives a path that is not empty and
/// does not end in a separator.
pub proof fn lemma_joined_ends_in_component(base: Seq<char>, name: Seq<char>)
    requires
        is_component(name),
    ensures
        joined(base, name).len() > 0,
        joined(base, name).last() != '/',
{
    assert(name.contains(name[0]));
    assert(name.contains(name.last()));
}

/// Joins `name` to `base`.
pub fn join(base: &str, name: &str) -> (path: String)
    ensures
        path@ == joined(base@, name@),
{
    let name_len: usize = name.unicode_len();
    if name_len > 0 && name.get_char(0) == '/' {
        return name.to_owned();
    }
    let base_len: usize = base.unicode_len();
    let mut path: String = base.to_owned();
    if !(base_len == 0 || base.get_char(base_len - 1) == '/') {
        proof {
            reveal_strlit("/");
        }
        path.append("/");
        assert(path@ =~= base@ + seq!['/']);
    }
    path.append(name);
    path
}

/// The directory part of `path`, if it names one.
pub fn parent(path: &str) -> (dir: Option<String>)
    ensures
        dir.deep_view() == parent_of(path@),
{
    let len: usize = path.unicode_len();
    let mut found: bool = false;
    let mut at: usize = 0;
    let mut i: usize = 0;
    for c in it: path.chars()
        invariant
            it.seq() == path@,
            len == path@.len(),
            i == it.index(),
            i <= len,
            found ==> at < i && at == last_index_of(path@.take(i as int), '/'),
            !found ==> last_index_of(path@.take(i as int), '/') == -1,
    {
        assert(c == path@[i as int]);
        proof {
            let now = path@.take(i + 1);
            assert(now.drop_last() =~= path@.take(i as int));
            assert(now.last() == c);
        }
        if c == '/' {
            found = true;
            at = i;
        }
        i = i + 1;
    }
    assert(path@.take(i as int) =~= path@);
    if !found || len == 1 {
        None
    } else if at == 0 {
        proof {
            reveal_strlit("/");
        }
        let root: String = "/".to_owned();
        assert(root@ =~= seq!['/']);
        Some(root)
    } else {
        Some(path.substring_char(0, at).to_owned())
    }
}

/// Whether `path` lies below `dir`.
pub fn inside(dir: &str, path: &str) -> (r: bool)
    ensures
        r == is_inside(dir@, path@),
{
    let dir_len: usize = dir.unicode_len();
    let path_len: usize = path.unicode_len();
    if dir_len == 0 || path_len <= dir_len {
        return false;
    }
    let start: String = path.substring_char(0, dir_len).to_owned();
    let whole: String = dir.to_owned();
    if start != whole {
        return false;
    }
    dir.get_char(dir_len - 1) == '/' || path.get_char(dir_len) == '/'
}

} // verus!
