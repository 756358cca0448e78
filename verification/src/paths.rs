//! Paths as text: the parts of a path are separated by `/`. Separators at
//! the end of a path and parts that are a single dot do not count, but for
//! a dot at the beginning.

use vstd::prelude::*;
use crate::text::{append_str, from_chars, to_chars};

verus! {

/// The place of the last `c` among the first `n` characters of `p`, or -1.
pub open spec fn last_index_of(p: Seq<char>, c: char, n: int) -> int
    decreases n,
{
    if n <= 0 || n > p.len() {
        -1
    } else if p[n - 1] == c {
        n - 1
    } else {
        last_index_of(p, c, n - 1)
    }
}

/// Where the last part among the first `n` characters of `p` ends: before
/// the separators and the single dots after separators that follow it.
pub open spec fn name_end(p: Seq<char>, n: int) -> int
    decreases n,
{
    if n <= 0 || n > p.len() {
        0
    } else if p[n - 1] == '/' || (p[n - 1] == '.' && n >= 2 && p[n - 2] == '/') {
        name_end(p, n - 1)
    } else {
        n
    }
}

/// The last part of a path: what stands after the last `/` before the place
/// where the last part ends.
pub open spec fn file_name(p: Seq<char>) -> Seq<char> {
    p.subrange(
        last_index_of(p, '/', name_end(p, p.len() as int)) + 1,
        name_end(p, p.len() as int),
    )
}

/// Whether the path has a last part that names something: one that is not
/// empty and neither `.` nor `..`.
pub open spec fn has_name(p: Seq<char>) -> bool {
    file_name(p).len() > 0 && file_name(p) != seq!['.'] && file_name(p) != seq!['.', '.']
}

/// The directory that holds `p`: what stands before the last part and the
/// separators before it; the root for a path directly under it; nothing for
/// a path of one part. A path without a last part is its own directory.
pub open spec fn dir_of(p: Seq<char>) -> Seq<char> {
    let end = name_end(p, p.len() as int);
    let slash = last_index_of(p, '/', end);
    if end == 0 {
        p
    } else if slash < 0 {
        Seq::empty()
    } else if name_end(p, slash) == 0 {
        p.take(1)
    } else {
        p.take(name_end(p, slash))
    }
}

/// The path `rel` as seen from the directory `dir`: `rel` itself where it
/// starts at the root or `dir` is empty, else `dir`, a `/` unless `dir` ends
/// with one, and `rel`.
pub open spec fn join(dir: Seq<char>, rel: Seq<char>) -> Seq<char> {
    if (rel.len() > 0 && rel[0] == '/') || dir.len() == 0 {
        rel
    } else if dir.last() == '/' {
        dir + rel
    } else {
        dir + seq!['/'] + rel
    }
}

/// Whether the last part of a path has an extension: a dot that is not its
/// first character.
pub open spec fn has_extension(p: Seq<char>) -> bool {
    has_name(p) && last_index_of(file_name(p), '.', file_name(p).len() as int) > 0
}

/// The extension of the last part of a path: what stands after its last
/// dot.
pub open spec fn extension_of(p: Seq<char>) -> Option<Seq<char>> {
    if has_extension(p) {
        Some(file_name(p).skip(last_index_of(file_name(p), '.', file_name(p).len() as int) + 1))
    } else {
        None
    }
}

/// The path with the extension `js` after its last part, for a path that
/// has a last part and no extension; what follows the last part is dropped.
pub open spec fn with_js_extension(p: Seq<char>) -> Seq<char> {
    if !has_name(p) {
        p
    } else {
        p.take(name_end(p, p.len() as int)) + ".js"@
    }
}

/// Where the stem of the last part ends: before the last dot of the part
/// where it has an extension, else where the part ends.
pub open spec fn stem_end(p: Seq<char>) -> int {
    if has_extension(p) {
        last_index_of(p, '/', name_end(p, p.len() as int)) + 1 + last_index_of(
            file_name(p),
            '.',
            file_name(p).len() as int,
        )
    } else {
        name_end(p, p.len() as int)
    }
}

/// The path with `js` as the extension of its last part, in place of the
/// one it has or added where it has none; what follows the last part is
/// dropped. A path without a last part stays as it is.
pub open spec fn with_extension_js(p: Seq<char>) -> Seq<char> {
    if !has_name(p) {
        p
    } else {
        p.take(stem_end(p)) + ".js"@
    }
}

/// The place of the last `c` among the first `n` characters, if there is one.
fn find_last(p: &[char], c: char, n: usize) -> (r: Option<usize>)
    requires
        n <= p@.len(),
    ensures
        match r {
            Some(i) => i == last_index_of(p@, c, n as int) && i < n,
            None => last_index_of(p@, c, n as int) == -1,
        },
{
    let mut i: usize = n;
    while i > 0
        invariant
            i <= n <= p@.len(),
            last_index_of(p@, c, n as int) == last_index_of(p@, c, i as int),
        decreases i,
    {
        if p[i - 1] == c {
            return Some(i - 1);
        }
        i -= 1;
    }
    None
}

/// The place where the last part among the first `n` characters ends.
fn find_name_end(p: &[char], n: usize) -> (end: usize)
    requires
        n <= p@.len(),
    ensures
        end == name_end(p@, n as int),
        end <= n,
{
    let mut i: usize = n;
    while i > 0 && (p[i - 1] == '/' || (p[i - 1] == '.' && i >= 2 && p[i - 2] == '/'))
        invariant
            i <= n <= p@.len(),
            name_end(p@, n as int) == name_end(p@, i as int),
        decreases i,
    {
        i -= 1;
    }
    i
}

/// The last part of the path, as the places where it begins and ends.
fn name_bounds(p: &[char]) -> (r: (usize, usize))
    ensures
        r.0 <= r.1 <= p@.len(),
        r.1 == name_end(p@, p@.len() as int),
        r.0 == last_index_of(p@, '/', name_end(p@, p@.len() as int)) + 1,
        file_name(p@) == p@.subrange(r.0 as int, r.1 as int),
{
    let end = find_name_end(p, p.len());
    let start = match find_last(p, '/', end) {
        Some(slash) => slash + 1,
        None => 0,
    };
    (start, end)
}

/// Whether the part of the text between two places names something.
fn names_something(p: &[char], start: usize, end: usize) -> (r: bool)
    requires
        start <= end <= p@.len(),
        file_name(p@) == p@.subrange(start as int, end as int),
    ensures
        r == has_name(p@),
{
    let ghost name = p@.subrange(start as int, end as int);
    if end == start {
        false
    } else if end - start == 1 && p[start] == '.' {
        proof {
            assert(name =~= seq!['.']);
        }
        false
    } else if end - start == 2 && p[start] == '.' && p[start + 1] == '.' {
        proof {
            assert(name =~= seq!['.', '.']);
        }
        false
    } else {
        proof {
            if name == seq!['.'] {
                assert(name[0] == '.');
            }
            if name == seq!['.', '.'] {
                assert(name[0] == '.');
                assert(name[1] == '.');
            }
        }
        true
    }
}

/// The directory that holds the path `p`.
pub fn parent(p: &str) -> (dir: String)
    ensures
        dir@ == dir_of(p@),
{
    let chars = to_chars(p);
    let end = find_name_end(&chars, chars.len());
    if end == 0 {
        return p.to_owned();
    }
    match find_last(&chars, '/', end) {
        None => String::new(),
        Some(slash) => {
            let before = find_name_end(&chars, slash);
            let stop = if before == 0 { 1 } else { before };
            from_chars(&chars, 0, stop)
        },
    }
}

/// The path `rel` as seen from the directory `dir`.
pub fn join_paths(dir: &str, rel: &str) -> (path: String)
    ensures
        path@ == join(dir@, rel@),
{
    let d = to_chars(dir);
    let r = to_chars(rel);
    if (r.len() > 0 && r[0] == '/') || d.len() == 0 {
        return rel.to_owned();
    }
    let mut out: Vec<char> = Vec::new();
    append_str(&mut out, dir);
    if d[d.len() - 1] != '/' {
        out.push('/');
    }
    append_str(&mut out, rel);
    proof {
        assert(out@ =~= join(dir@, rel@));
        assert(out@.subrange(0, out@.len() as int) =~= out@);
    }
    from_chars(&out, 0, out.len())
}

/// Whether the last part of the path `p` has an extension.
pub fn extension_present(p: &str) -> (r: bool)
    ensures
        r == has_extension(p@),
{
    extension(p).is_some()
}

/// The extension of the last part of the path `p`, if it has one.
pub fn extension(p: &str) -> (r: Option<String>)
    ensures
        match r {
            Some(e) => extension_of(p@) == Some(e@),
            None => extension_of(p@) is None,
        },
{
    let chars = to_chars(p);
    let (start, end) = name_bounds(&chars);
    if !names_something(&chars, start, end) {
        return None;
    }
    let mut name: Vec<char> = Vec::new();
    let mut i: usize = start;
    while i < end
        invariant
            start <= i <= end <= chars@.len(),
            name@ == chars@.subrange(start as int, i as int),
        decreases end - i,
    {
        name.push(chars[i]);
        assert(chars@.subrange(start as int, i + 1) =~= chars@.subrange(start as int, i as int).push(
            chars@[i as int],
        ));
        i += 1;
    }
    match find_last(&name, '.', name.len()) {
        Some(dot) => {
            if dot > 0 {
                proof {
                    assert(name@.subrange(dot + 1, name@.len() as int) =~= name@.skip(dot + 1));
                }
                Some(from_chars(&name, dot + 1, name.len()))
            } else {
                None
            }
        },
        None => None,
    }
}

/// The path `p` with the extension `js` added after its last part, where it
/// has one.
pub fn add_js_extension(p: &str) -> (path: String)
    ensures
        path@ == with_js_extension(p@),
{
    let chars = to_chars(p);
    let (start, end) = name_bounds(&chars);
    if !names_something(&chars, start, end) {
        return p.to_owned();
    }
    let mut out: Vec<char> = Vec::new();
    let mut i: usize = 0;
    while i < end
        invariant
            i <= end <= chars@.len(),
            out@ == chars@.take(i as int),
        decreases end - i,
    {
        out.push(chars[i]);
        assert(chars@.take(i + 1) =~= chars@.take(i as int).push(chars@[i as int]));
        i += 1;
    }
    append_str(&mut out, ".js");
    proof {
        assert(out@.subrange(0, out@.len() as int) =~= out@);
    }
    from_chars(&out, 0, out.len())
}

/// The path `p` with `js` as the extension of its last part.
pub fn set_js_extension(p: &str) -> (path: String)
    ensures
        path@ == with_extension_js(p@),
{
    let chars = to_chars(p);
    let (start, end) = name_bounds(&chars);
    if !names_something(&chars, start, end) {
        return p.to_owned();
    }
    let mut name: Vec<char> = Vec::new();
    crate::text::append_chars(&mut name, &chars, start, end);
    proof {
        assert(name@ =~= file_name(p@));
    }
    let stem = match find_last(&name, '.', name.len()) {
        Some(dot) => if dot > 0 { start + dot } else { end },
        None => end,
    };
    let mut out: Vec<char> = Vec::new();
    crate::text::append_chars(&mut out, &chars, 0, stem);
    append_str(&mut out, ".js");
    proof {
        assert(chars@.subrange(0, stem as int) =~= chars@.take(stem as int));
        assert(out@.subrange(0, out@.len() as int) =~= out@);
    }
    from_chars(&out, 0, out.len())
}

} // verus!
