//! Paths as text, with `/` between the parts.

use vstd::prelude::*;

use crate::text::{chars_of, text_of};

verus! {

/// The path of `name` under `dir`. A name that starts with `/` stands for itself.
pub open spec fn joined_path(dir: Seq<char>, name: Seq<char>) -> Seq<char> {
    if dir.len() == 0 || (name.len() > 0 && name[0] == '/') {
        name
    } else if dir.last() == '/' {
        dir + name
    } else {
        dir.push('/') + name
    }
}

/// The path of `name` under `dir`. A name that starts with `/` stands for itself.
pub fn join_path(dir: &str, name: &str) -> (path: String)
    ensures
        path@ == joined_path(dir@, name@),
{
    let d = chars_of(dir);
    let n = chars_of(name);
    let absolute: bool = n.len() > 0 && n[0] == '/';
    if d.len() == 0 || absolute {
        return name.to_owned();
    }
    let mut path = dir.to_owned();
    if d[d.len() - 1] != '/' {
        path.push('/');
    }
    path.append(name);
    assert(path@ =~= joined_path(dir@, name@));
    path
}

/// Where the parts of a path start that its end can be cut off from: behind the `/` of an
/// absolute path, or behind a `.` that is its first part.
pub open spec fn body_start(path: Seq<char>) -> int {
    if path.len() >= 1 && path[0] == '/' {
        1
    } else if path.len() >= 1 && path[0] == '.' && (path.len() == 1 || path[1] == '/') {
        1
    } else {
        0
    }
}

/// Where the last part of a path starts: behind the last `/` from place `from` on, or at
/// `from`.
pub open spec fn last_part_start(path: Seq<char>, from: int) -> int
    decreases path.len(),
{
    if path.len() <= from || path.len() == 0 {
        from
    } else if path.last() == '/' {
        path.len() as int
    } else {
        last_part_start(path.drop_last(), from)
    }
}

/// The path without its last part and the `/` before that.
pub open spec fn without_last_part(path: Seq<char>, from: int) -> Seq<char> {
    let start = last_part_start(path, from);
    if start > from {
        path.take(start - 1)
    } else {
        path.take(from)
    }
}

/// Whether the last part of a path says nothing: it is empty or a single `.`.
pub open spec fn ends_idle(path: Seq<char>, from: int) -> bool {
    let start = last_part_start(path, from);
    path.len() > from && (start == path.len() || (start == path.len() - 1 && path.last() == '.'))
}

/// The path without the parts at its end that say nothing.
pub open spec fn trimmed(path: Seq<char>, from: int) -> Seq<char>
    decreases path.len(),
{
    if 0 <= from < path.len() && ends_idle(path, from) && without_last_part(path, from).len()
        < path.len() {
        trimmed(without_last_part(path, from), from)
    } else {
        path
    }
}

/// The directory that a path lies in: what stands before its last part. Repeated slashes, a
/// slash at the end and a `.` that is not the first part do not count. It is empty for a
/// single part, `/` for a part right under `/`, and none for `/` and for the empty path.
pub open spec fn parent_path(path: Seq<char>) -> Option<Seq<char>> {
    let from = body_start(path);
    let whole = trimmed(path, from);
    if whole.len() > from {
        Some(trimmed(without_last_part(whole, from), from))
    } else if path.len() >= 1 && path[0] == '.' {
        Some(Seq::empty())
    } else {
        None
    }
}

/// Where the last part of the first `n` characters starts.
fn part_start(v: &Vec<char>, n: usize, from: usize) -> (start: usize)
    requires
        from <= n <= v@.len(),
    ensures
        from <= start <= n,
        start == last_part_start(v@.take(n as int), from as int),
    decreases n,
{
    if n == from {
        return from;
    }
    assert(v@.take(n as int).drop_last() =~= v@.take(n - 1));
    if v[n - 1] == '/' {
        n
    } else {
        part_start(v, n - 1, from)
    }
}

/// The number of characters that are left of the first `n` without their last part.
fn cut_last(v: &Vec<char>, n: usize, from: usize) -> (m: usize)
    requires
        from < n <= v@.len(),
    ensures
        from <= m < n,
        v@.take(m as int) == without_last_part(v@.take(n as int), from as int),
{
    let start: usize = part_start(v, n, from);
    let m: usize = if start > from {
        start - 1
    } else {
        from
    };
    assert(v@.take(n as int).take(m as int) =~= v@.take(m as int));
    m
}

/// The number of characters that are left of the first `n` without the parts at their end that
/// say nothing.
fn trimmed_len(v: &Vec<char>, n: usize, from: usize) -> (m: usize)
    requires
        from <= n <= v@.len(),
    ensures
        from <= m <= n,
        v@.take(m as int) == trimmed(v@.take(n as int), from as int),
    decreases n,
{
    if n == from {
        return n;
    }
    let start: usize = part_start(v, n, from);
    let idle: bool = start == n || (start == n - 1 && v[n - 1] == '.');
    let m: usize = cut_last(v, n, from);
    if idle {
        trimmed_len(v, m, from)
    } else {
        n
    }
}

/// The directory that a path lies in, if it lies in one.
pub fn parent_dir(path: &str) -> (r: Option<String>)
    ensures
        match r {
            Some(p) => parent_path(path@) == Some(p@),
            None => parent_path(path@) is None,
        },
{
    let v = chars_of(path);
    let len: usize = v.len();
    assert(v@.take(len as int) =~= path@);
    let absolute: bool = len >= 1 && v[0] == '/';
    let here: bool = len >= 1 && v[0] == '.' && (len == 1 || v[1] == '/');
    let from: usize = if absolute || here {
        1
    } else {
        0
    };
    let whole: usize = trimmed_len(&v, len, from);
    if whole > from {
        let cut: usize = cut_last(&v, whole, from);
        let parent: usize = trimmed_len(&v, cut, from);
        let p = text_of(&v, 0, parent);
        assert(p@ =~= v@.take(parent as int));
        return Some(p);
    }
    if len >= 1 && v[0] == '.' {
        return Some(String::new());
    }
    None
}

/// A name that starts with `/`, and one under no directory, stands for itself; else one `/` stands
/// between the directory and the name.
pub proof fn law_joined_path(dir: Seq<char>, name: Seq<char>)
    ensures
        dir.len() == 0 ==> joined_path(dir, name) == name,
        name.len() > 0 && name[0] == '/' ==> joined_path(dir, name) == name,
        dir.len() > 0 && dir.last() == '/' && !(name.len() > 0 && name[0] == '/') ==> joined_path(
            dir,
            name,
        ) == dir + name,
        dir.len() > 0 && dir.last() != '/' && !(name.len() > 0 && name[0] == '/') ==> joined_path(
            dir,
            name,
        ) == dir + seq!['/'] + name,
{
    assert(dir.push('/') =~= dir + seq!['/']);
}

/// A last part without `/` starts behind the `/` before it.
proof fn lemma_last_part(dir: Seq<char>, name: Seq<char>, from: int)
    requires
        0 <= from <= dir.len(),
        !name.contains('/'),
    ensures
        last_part_start(dir + seq!['/'] + name, from) == dir.len() + 1,
    decreases name.len(),
{
    let path = dir + seq!['/'] + name;
    if name.len() > 0 {
        let front = name.drop_last();
        if front.contains('/') {
            let i = choose|i: int| 0 <= i < front.len() && front[i] == '/';
            assert(name[i] == '/');
        }
        lemma_last_part(dir, front, from);
        assert(path.drop_last() =~= dir + seq!['/'] + front);
        assert(name[name.len() - 1] != '/');
    } else {
        assert(path.last() == '/');
    }
}

/// A part that starts at the end of a path, or one character before it.
proof fn lemma_short_part(path: Seq<char>, from: int)
    requires
        0 <= from < path.len(),
    ensures
        last_part_start(path, from) == path.len() ==> path.last() == '/',
        last_part_start(path, from) == path.len() - 1 ==> path.len() - 1 == from || path[path.len()
            - 2] == '/',
        from <= last_part_start(path, from) <= path.len(),
    decreases path.len(),
{
    if path.last() != '/' {
        let front = path.drop_last();
        if from < front.len() {
            lemma_short_part(front, from);
        } else {
            assert(last_part_start(front, from) == from);
        }
    }
}

/// A path of a name under a directory lies in that directory.
pub proof fn law_parent_of_name(dir: Seq<char>, name: Seq<char>)
    requires
        dir.len() > 0,
        dir.last() != '/',
        !(dir.len() >= 2 && dir.last() == '.' && dir[dir.len() - 2] == '/'),
        name.len() > 0,
        !name.contains('/'),
        name != seq!['.'],
    ensures
        parent_path(dir + seq!['/'] + name) == Some(dir),
{
    let path = dir + seq!['/'] + name;
    let from = body_start(path);
    assert(path[0] == dir[0]);
    if dir.len() > 1 {
        assert(path[1] == dir[1]);
    }
    assert(from == body_start(dir));
    lemma_last_part(dir, name, from);
    if name.len() == 1 && name.last() == '.' {
        assert(name =~= seq!['.']);
    }
    assert(path.last() == name.last());
    assert(trimmed(path, from) == path);
    assert(path.take(dir.len() as int) =~= dir);
    if dir.len() > from {
        lemma_short_part(dir, from);
    }
    assert(trimmed(dir, from) == dir);
}

/// A single part lies in the empty path, or in `/` if it stands behind that. The empty path and
/// `/` lie in nothing.
pub proof fn law_parent_of_part(name: Seq<char>)
    requires
        name.len() > 0,
        !name.contains('/'),
        name != seq!['.'],
    ensures
        parent_path(name) == Some(Seq::<char>::empty()),
        parent_path(seq!['/'] + name) == Some(seq!['/']),
        parent_path(Seq::empty()) is None,
        parent_path(seq!['/']) is None,
{
    if name.len() == 1 && name[0] == '.' {
        assert(name =~= seq!['.']);
    }
    if name.len() > 1 && name[1] == '/' {
        assert(name.contains('/'));
    }
    assert(name[0] != '/');
    assert(body_start(name) == 0);
    lemma_whole_part(name, 0);
    assert(name.take(0) =~= Seq::<char>::empty());
    assert(trimmed(name, 0) == name);
    assert(trimmed(Seq::<char>::empty(), 0) == Seq::<char>::empty());
    let path = seq!['/'] + name;
    assert forall|i: int| 1 <= i < path.len() implies path[i] != '/' by {
        assert(path[i] == name[i - 1]);
    }
    lemma_whole_part(path, 1);
    assert(path.last() == name.last());
    assert(trimmed(path, 1) == path);
    assert(path.take(1) =~= seq!['/']);
    assert(trimmed(seq!['/'], 1) == seq!['/']);
    assert(body_start(seq!['/']) == 1);
}

/// Without a `/` the last part is the whole.
proof fn lemma_whole_part(path: Seq<char>, from: int)
    requires
        0 <= from <= path.len(),
        forall|i: int| from <= i < path.len() ==> path[i] != '/',
    ensures
        last_part_start(path, from) == from,
    decreases path.len(),
{
    if from < path.len() {
        assert(path[path.len() - 1] != '/');
        lemma_whole_part(path.drop_last(), from);
    }
}

/// A `/` at the end of a path does not change in which directory it lies.
pub proof fn law_parent_of_ended(path: Seq<char>)
    requires
        path.len() > 0,
    ensures
        parent_path(path.push('/')) == parent_path(path),
{
    let ended = path.push('/');
    let from = body_start(ended);
    assert(ended[0] == path[0]);
    assert(from == body_start(path));
    assert(last_part_start(ended, from) == ended.len());
    assert(ended.take(ended.len() - 1) =~= path);
    assert(trimmed(ended, from) == trimmed(path, from));
}

} // verus!
