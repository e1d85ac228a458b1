//! Paths as text: the last component of a path, the directory it stands in,
//! stem and extension of a file name, and joining.
//!
//! A path is a sequence of characters in which `/` separates components.
//! Repeated separators, trailing separators and `.` components count for
//! nothing; `..` is a component, but never a file name.
use vstd::prelude::*;
use vstd::string::*;

use crate::text::chars_of;

verus! {

/// `p` without the separators and `.` components it ends with.
pub open spec fn trimmed(p: Seq<char>) -> Seq<char>
    decreases p.len(),
{
    if p.len() == 0 {
        p
    } else if p.last() == '/' {
        trimmed(p.drop_last())
    } else if p.last() == '.' && (p.len() == 1 || p[p.len() - 2] == '/') {
        trimmed(p.drop_last())
    } else {
        p
    }
}

/// Where the run of characters other than `/` that `p` ends with begins.
pub open spec fn segment_start(p: Seq<char>) -> int
    decreases p.len(),
{
    if p.len() == 0 || p.last() == '/' {
        p.len() as int
    } else {
        segment_start(p.drop_last())
    }
}

/// What stands before the last component of `p`.
pub open spec fn directory(p: Seq<char>) -> Seq<char> {
    trimmed(p).subrange(0, segment_start(trimmed(p)))
}

/// The last component of `p`, unless there is none or it is `..`.
pub open spec fn file_name(p: Seq<char>) -> Option<Seq<char>> {
    let t = trimmed(p);
    let name = t.subrange(segment_start(t), t.len() as int);
    if t.len() == 0 || name == seq!['.', '.'] {
        None
    } else {
        Some(name)
    }
}

/// The name of the directory that holds the last component of `p`.
pub open spec fn parent_name(p: Seq<char>) -> Option<Seq<char>> {
    file_name(directory(p))
}

/// The index of the last `.` of `name`, or -1 when it has none.
pub open spec fn last_dot(name: Seq<char>) -> int
    decreases name.len(),
{
    if name.len() == 0 {
        -1
    } else if name.last() == '.' {
        name.len() - 1
    } else {
        last_dot(name.drop_last())
    }
}

/// The file name of `p` up to its last `.`; the whole name when it has no `.`
/// or only begins with one.
pub open spec fn file_stem(p: Seq<char>) -> Option<Seq<char>> {
    match file_name(p) {
        None => None,
        Some(name) => if last_dot(name) <= 0 {
            Some(name)
        } else {
            Some(name.subrange(0, last_dot(name)))
        },
    }
}

/// What follows the last `.` of the file name of `p`, where that `.` is not
/// its first character.
pub open spec fn extension(p: Seq<char>) -> Option<Seq<char>> {
    match file_name(p) {
        None => None,
        Some(name) => if last_dot(name) <= 0 {
            None
        } else {
            Some(name.subrange(last_dot(name) + 1, name.len() as int))
        },
    }
}

/// `base` extended by `name`: a name that begins with `/` stands alone, and a
/// separator is put in only where `base` does not end with one.
pub open spec fn joined(base: Seq<char>, name: Seq<char>) -> Seq<char> {
    if name.len() > 0 && name[0] == '/' {
        name
    } else if base.len() == 0 || base.last() == '/' {
        base + name
    } else {
        base + seq!['/'] + name
    }
}

/// The length of `trimmed` of the first `len` characters.
fn trimmed_len(chars: &Vec<char>, len: usize) -> (n: usize)
    requires
        len <= chars.len(),
    ensures
        n <= len,
        trimmed(chars@.take(len as int)) == chars@.take(n as int),
{
    let mut n: usize = len;
    loop
        invariant
            n <= len <= chars.len(),
            trimmed(chars@.take(len as int)) == trimmed(chars@.take(n as int)),
        ensures
            n <= len,
            trimmed(chars@.take(n as int)) == chars@.take(n as int),
        decreases n,
    {
        if n == 0 {
            break ;
        }
        let last = chars[n - 1];
        let dropped = last == '/' || (last == '.' && (n == 1 || chars[n - 2] == '/'));
        proof {
            let p = chars@.take(n as int);
            assert(p.last() == last);
            assert(p.drop_last() =~= chars@.take(n - 1));
            if n >= 2 {
                assert(p[p.len() - 2] == chars@[n - 2]);
            }
        }
        if !dropped {
            break ;
        }
        n -= 1;
    }
    n
}

/// Where the run of characters other than `/` that ends at `end` begins.
fn segment_begin(chars: &Vec<char>, end: usize) -> (s: usize)
    requires
        end <= chars.len(),
    ensures
        s <= end,
        s == segment_start(chars@.take(end as int)),
{
    let mut s: usize = end;
    while s > 0 && chars[s - 1] != '/'
        invariant
            s <= end <= chars.len(),
            segment_start(chars@.take(end as int)) == segment_start(chars@.take(s as int)),
        decreases s,
    {
        proof {
            let p = chars@.take(s as int);
            assert(p.last() == chars@[s - 1]);
            assert(p.drop_last() =~= chars@.take(s - 1));
        }
        s -= 1;
    }
    proof {
        let p = chars@.take(s as int);
        if s > 0 {
            assert(p.last() == chars@[s - 1]);
        }
    }
    s
}

/// The last component of the first `len` characters, as its bounds.
fn name_bounds(chars: &Vec<char>, len: usize) -> (r: Option<(usize, usize)>)
    requires
        len <= chars.len(),
    ensures
        match r {
            Some((from, to)) => from <= to <= len && file_name(chars@.take(len as int)) == Some(
                chars@.subrange(from as int, to as int),
            ) && directory(chars@.take(len as int)) == chars@.take(from as int),
            None => file_name(chars@.take(len as int)) is None,
        },
{
    let to = trimmed_len(chars, len);
    let from = segment_begin(chars, to);
    proof {
        let t = chars@.take(to as int);
        assert(t.subrange(from as int, to as int) =~= chars@.subrange(from as int, to as int));
        assert(t.subrange(0, from as int) =~= chars@.take(from as int));
    }
    if to == 0 {
        return None;
    }
    if to - from == 2 && chars[from] == '.' && chars[from + 1] == '.' {
        assert(chars@.subrange(from as int, to as int) =~= seq!['.', '.']);
        return None;
    }
    proof {
        let name = chars@.subrange(from as int, to as int);
        if name == seq!['.', '.'] {
            assert(name.len() == 2);
            assert(name[0] == '.' && name[1] == '.');
        }
    }
    Some((from, to))
}

/// The last component of `path`, unless there is none or it is `..`.
pub fn file_name_of(path: &str) -> (r: Option<String>)
    ensures
        match r {
            Some(name) => file_name(path@) == Some(name@),
            None => file_name(path@) is None,
        },
{
    let chars = chars_of(path);
    assert(chars@.take(chars.len() as int) =~= chars@);
    match name_bounds(&chars, chars.len()) {
        Some((from, to)) => Some(String::from_str(path.substring_char(from, to))),
        None => None,
    }
}

/// The name of the directory that holds the last component of `path`.
pub fn parent_name_of(path: &str) -> (r: Option<String>)
    ensures
        match r {
            Some(name) => parent_name(path@) == Some(name@),
            None => parent_name(path@) is None,
        },
{
    let chars = chars_of(path);
    assert(chars@.take(chars.len() as int) =~= chars@);
    let end = trimmed_len(&chars, chars.len());
    let start = segment_begin(&chars, end);
    proof {
        let t = chars@.take(end as int);
        assert(t.subrange(0, start as int) =~= chars@.take(start as int));
    }
    match name_bounds(&chars, start) {
        Some((from, to)) => Some(String::from_str(path.substring_char(from, to))),
        None => None,
    }
}

/// The index of the last `.` among the characters from `from` up to `to`,
/// counted from `from`.
fn last_dot_in(chars: &Vec<char>, from: usize, to: usize) -> (r: Option<usize>)
    requires
        from <= to <= chars.len(),
    ensures
        match r {
            Some(d) => from <= d < to && last_dot(chars@.subrange(from as int, to as int)) == d
                - from,
            None => last_dot(chars@.subrange(from as int, to as int)) == -1,
        },
{
    let mut d: usize = to;
    while d > from && chars[d - 1] != '.'
        invariant
            from <= d <= to <= chars.len(),
            last_dot(chars@.subrange(from as int, to as int)) == last_dot(
                chars@.subrange(from as int, d as int),
            ),
        decreases d,
    {
        proof {
            let name = chars@.subrange(from as int, d as int);
            assert(name.last() == chars@[d - 1]);
            assert(name.drop_last() =~= chars@.subrange(from as int, d - 1));
        }
        d -= 1;
    }
    proof {
        let name = chars@.subrange(from as int, d as int);
        if d > from {
            assert(name.last() == chars@[d - 1]);
        }
    }
    if d > from {
        Some(d - 1)
    } else {
        None
    }
}

/// Stem and extension of the last component of `path`.
pub fn stem_and_extension(path: &str) -> (r: (Option<String>, Option<String>))
    ensures
        match r.0 {
            Some(stem) => file_stem(path@) == Some(stem@),
            None => file_stem(path@) is None,
        },
        match r.1 {
            Some(ext) => extension(path@) == Some(ext@),
            None => extension(path@) is None,
        },
{
    let chars = chars_of(path);
    assert(chars@.take(chars.len() as int) =~= chars@);
    match name_bounds(&chars, chars.len()) {
        None => (None, None),
        Some((from, to)) => {
            let ghost name = chars@.subrange(from as int, to as int);
            match last_dot_in(&chars, from, to) {
                Some(d) => {
                    if d == from {
                        (Some(String::from_str(path.substring_char(from, to))), None)
                    } else {
                        proof {
                            assert(name.subrange(0, d - from) =~= chars@.subrange(
                                from as int,
                                d as int,
                            ));
                            assert(name.subrange(d - from + 1, name.len() as int)
                                =~= chars@.subrange(d + 1, to as int));
                        }
                        (
                            Some(String::from_str(path.substring_char(from, d))),
                            Some(String::from_str(path.substring_char(d + 1, to))),
                        )
                    }
                },
                None => (Some(String::from_str(path.substring_char(from, to))), None),
            }
        },
    }
}

/// The stem of the last component of `path`.
pub fn file_stem_of(path: &str) -> (r: Option<String>)
    ensures
        match r {
            Some(stem) => file_stem(path@) == Some(stem@),
            None => file_stem(path@) is None,
        },
{
    stem_and_extension(path).0
}

/// The extension of the last component of `path`.
pub fn extension_of(path: &str) -> (r: Option<String>)
    ensures
        match r {
            Some(ext) => extension(path@) == Some(ext@),
            None => extension(path@) is None,
        },
{
    stem_and_extension(path).1
}

/// `base` extended by `name`.
pub fn join(base: &str, name: &str) -> (r: String)
    ensures
        r@ == joined(base@, name@),
{
    proof {
        reveal_strlit("/");
    }
    let n = chars_of(name);
    if n.len() > 0 && n[0] == '/' {
        return String::from_str(name);
    }
    let b = chars_of(base);
    let mut out = String::from_str(base);
    if b.len() > 0 && b[b.len() - 1] != '/' {
        out.append("/");
    }
    out.append(name);
    out
}

} // verus!
