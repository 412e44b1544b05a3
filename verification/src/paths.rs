//! Paths as text.
//!
//! The commands run on Windows, where both `/` and `\` separate path
//! components. As with `std::path`, a `.` component after a separator and
//! empty components stand for nothing: a path's file name is its last
//! component once trailing separators and trailing `.` components are
//! dropped. A path left with nothing, or whose last component is then `.`
//! (a leading one) or `..`, has none.
use vstd::prelude::*;
use crate::text::{chars_of, contains_char, has_char, owned, push_char, push_str, string_from_range, trim, trim_bounds, strings_view};

verus! {

/// `c` separates path components.
pub open spec fn is_sep(c: char) -> bool {
    c == '/' || c == '\\'
}

/// `s[..end]` ends in a `.` component that follows a separator.
pub open spec fn ends_in_dot_component(s: Seq<char>, end: int) -> bool {
    2 <= end && s[end - 1] == '.' && is_sep(s[end - 2])
}

/// The end of `s[..end]` once trailing separators and trailing `.`
/// components (those after a separator) are dropped.
pub open spec fn name_end(s: Seq<char>, end: int) -> int
    decreases end,
{
    if end <= 0 {
        0
    } else if is_sep(s[end - 1]) {
        name_end(s, end - 1)
    } else if ends_in_dot_component(s, end) {
        name_end(s, end - 2)
    } else {
        end
    }
}

/// The start of the last component of `s[..end]`.
pub open spec fn name_start(s: Seq<char>, end: int) -> int
    decreases end,
{
    if end <= 0 {
        0
    } else if is_sep(s[end - 1]) {
        end
    } else {
        name_start(s, end - 1)
    }
}

/// Where the file name of `s` lies, as `(start, end)`, if it has one.
pub open spec fn file_name_bounds(s: Seq<char>) -> Option<(int, int)> {
    let end = name_end(s, s.len() as int);
    let start = name_start(s, end);
    let name = s.subrange(start, end);
    if start < end && name != seq!['.'] && name != seq!['.', '.'] {
        Some((start, end))
    } else {
        None
    }
}

/// The file name of `s`.
pub open spec fn file_name(s: Seq<char>) -> Option<Seq<char>> {
    match file_name_bounds(s) {
        Some((start, end)) => Some(s.subrange(start, end)),
        None => None,
    }
}

/// `name_start` lies in `[0, end]`, after a separator, with no separator
/// between it and `end`.
pub proof fn lemma_name_start(s: Seq<char>, end: int)
    requires
        0 <= end <= s.len(),
    ensures
        0 <= name_start(s, end) <= end,
        name_start(s, end) > 0 ==> is_sep(s[name_start(s, end) - 1]),
        forall|j: int| name_start(s, end) <= j < end ==> !is_sep(#[trigger] s[j]),
    decreases end,
{
    if end > 0 && !is_sep(s[end - 1]) {
        lemma_name_start(s, end - 1);
    }
}

fn is_sep_char(c: char) -> (b: bool)
    ensures
        b == is_sep(c),
{
    c == '/' || c == '\\'
}

/// The bounds of the file name of `v`, if it has one.
pub fn file_name_range(v: &Vec<char>) -> (r: Option<(usize, usize)>)
    ensures
        r matches Some((a, b)) ==> a < b <= v@.len(),
        match r {
            Some((a, b)) => file_name_bounds(v@) == Some((a as int, b as int)),
            None => file_name_bounds(v@) is None,
        },
{
    let mut end: usize = v.len();
    loop
        invariant
            end <= v@.len(),
            name_end(v@, v@.len() as int) == name_end(v@, end as int),
        ensures
            end <= v@.len(),
            name_end(v@, v@.len() as int) == end,
        decreases end,
    {
        if end == 0 {
            break;
        }
        if is_sep_char(v[end - 1]) {
            end = end - 1;
        } else if end >= 2 && v[end - 1] == '.' && is_sep_char(v[end - 2]) {
            end = end - 2;
        } else {
            break;
        }
    }
    let mut start: usize = end;
    while start > 0 && !is_sep_char(v[start - 1])
        invariant
            start <= end <= v@.len(),
            name_end(v@, v@.len() as int) == end,
            name_start(v@, end as int) == name_start(v@, start as int),
        decreases start,
    {
        start = start - 1;
    }
    if start == end {
        return None;
    }
    let len = end - start;
    if len == 1 && v[start] == '.' {
        assert(v@.subrange(start as int, end as int) =~= seq!['.']);
        return None;
    }
    if len == 2 && v[start] == '.' && v[start + 1] == '.' {
        assert(v@.subrange(start as int, end as int) =~= seq!['.', '.']);
        return None;
    }
    proof {
        if v@.subrange(start as int, end as int) == seq!['.'] {
            assert(v@.subrange(start as int, end as int)[0] == v@[start as int]);
        }
        if v@.subrange(start as int, end as int) == seq!['.', '.'] {
            assert(v@.subrange(start as int, end as int)[0] == v@[start as int]);
            assert(v@.subrange(start as int, end as int)[1] == v@[start + 1]);
        }
    }
    Some((start, end))
}

/// True when the text names a path (it holds `/` or `\`) rather than a
/// bare command name.
pub fn has_path_separator(text: &str) -> (b: bool)
    ensures
        b == (has_char(text@, '/') || has_char(text@, '\\')),
{
    let v = chars_of(text);
    contains_char(&v, '/') || contains_char(&v, '\\')
}

/// `dir` is a bare drive such as `C:`: a letter and a colon.
pub open spec fn is_bare_drive(dir: Seq<char>) -> bool {
    dir.len() == 2 && dir[1] == ':' && (('a' <= dir[0] && dir[0] <= 'z') || ('A' <= dir[0] && dir[0]
        <= 'Z'))
}

/// `dir` joined with `name` by the platform separator `sep`, which is
/// added only when `dir` is not empty and does not already end in one. On
/// Windows (separator `\`) a bare drive such as `C:` takes no separator:
/// `C:x` names `x` in that drive's current directory.
pub open spec fn join_spec(dir: Seq<char>, name: Seq<char>, sep: char) -> Seq<char> {
    if dir.len() == 0 || is_sep(dir.last()) || (sep == '\\' && is_bare_drive(dir)) {
        dir + name
    } else {
        dir.push(sep) + name
    }
}

/// Joins a directory and a relative name.
pub fn join_path(dir: &str, name: &str, sep: char) -> (out: String)
    ensures
        out@ == join_spec(dir@, name@, sep),
{
    let v = chars_of(dir);
    let mut out = owned(dir);
    let n = v.len();
    let bare_drive = n == 2 && v[1] == ':' && (('a' <= v[0] && v[0] <= 'z') || ('A' <= v[0] && v[0]
        <= 'Z'));
    if n > 0 && !is_sep_char(v[n - 1]) && !(sep == '\\' && bare_drive) {
        push_char(&mut out, sep);
    }
    push_str(&mut out, name);
    out
}

/// One `PATHEXT` entry as an extension: trimmed, given a leading dot if it
/// lacks one, and dropped when empty.
pub open spec fn path_ext_spec(entry: Seq<char>) -> Option<Seq<char>> {
    let t = trim(entry);
    if t.len() == 0 {
        None
    } else if t[0] == '.' {
        Some(t)
    } else {
        Some(seq!['.'] + t)
    }
}

/// The extensions `PATHEXT` names, in order, from its entries.
pub open spec fn path_exts_spec(entries: Seq<Seq<char>>) -> Seq<Seq<char>>
    decreases entries.len(),
{
    if entries.len() == 0 {
        Seq::empty()
    } else {
        let prev = path_exts_spec(entries.drop_last());
        match path_ext_spec(entries.last()) {
            Some(e) => prev.push(e),
            None => prev,
        }
    }
}

/// The extensions named by the entries of `PATHEXT` (already split at its
/// separators).
pub fn path_exts(entries: &Vec<String>) -> (out: Vec<String>)
    ensures
        strings_view(out@) == path_exts_spec(strings_view(entries@)),
{
    let ghost ev = strings_view(entries@);
    let mut out: Vec<String> = Vec::new();
    let mut i: usize = 0;
    while i < entries.len()
        invariant
            i <= entries@.len(),
            ev == strings_view(entries@),
            ev.len() == entries@.len(),
            strings_view(out@) == path_exts_spec(ev.take(i as int)),
        decreases entries.len() - i,
    {
        let v = chars_of(entries[i].as_str());
        let (a, b) = trim_bounds(&v);
        assert(ev.take(i + 1).drop_last() =~= ev.take(i as int));
        assert(ev.take(i + 1).last() == v@);
        if a < b {
            let mut e = String::new();
            if v[a] != '.' {
                push_char(&mut e, '.');
            }
            let t = string_from_range(&v, a, b);
            push_str(&mut e, t.as_str());
            assert(e@ =~= path_ext_spec(v@)->0);
            out.push(e);
            assert(strings_view(out@) =~= path_exts_spec(ev.take(i + 1)));
        }
        i = i + 1;
    }
    assert(ev.take(entries@.len() as int) =~= ev);
    out
}

/// Stepping back over non-separators does not move the start of the last
/// component.
pub proof fn lemma_name_start_skip(t: Seq<char>, bound: int, end: int)
    requires
        0 <= bound <= end <= t.len(),
        forall|i: int| bound <= i < end ==> !is_sep(#[trigger] t[i]),
    ensures
        name_start(t, end) == name_start(t, bound),
    decreases end,
{
    if end > bound {
        lemma_name_start_skip(t, bound, end - 1);
    }
}

/// `name_start` only looks at the characters before `end`.
pub proof fn lemma_name_start_prefix(t: Seq<char>, u: Seq<char>, end: int)
    requires
        0 <= end <= u.len() <= t.len(),
        u == t.subrange(0, u.len() as int),
    ensures
        name_start(t, end) == name_start(u, end),
    decreases end,
{
    if end > 0 {
        assert(t[end - 1] == u[end - 1]);
        lemma_name_start_prefix(t, u, end - 1);
    }
}

} // verus!
