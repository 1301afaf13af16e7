use vstd::prelude::*;
use crate::path_like::{components, path_components};
use crate::text::{chars_match, chars_of, views};

verus! {

/// The file name of a path: its last component, unless that is the root,
/// `.` or `..`.
pub open spec fn file_name(p: Seq<char>) -> Option<Seq<char>> {
    let c = components(p);
    if c.len() > 0 && c.last() != seq!['/'] && c.last() != seq!['.'] && c.last() != seq!['.', '.'] {
        Some(c.last())
    } else {
        None
    }
}

/// The last index below `hi` where `s` holds a `.`, or -1.
pub open spec fn last_dot(s: Seq<char>, hi: int) -> int
    decreases hi,
{
    if hi <= 0 {
        -1
    } else if s[hi - 1] == '.' {
        hi - 1
    } else {
        last_dot(s, hi - 1)
    }
}

/// The extension of a path: what follows the last `.` of the file name,
/// where that `.` is not the name's first character.
pub open spec fn extension(p: Seq<char>) -> Option<Seq<char>> {
    match file_name(p) {
        Some(n) => {
            let d = last_dot(n, n.len() as int);
            if d > 0 {
                Some(n.subrange(d + 1, n.len() as int))
            } else {
                None
            }
        },
        None => None,
    }
}

/// Whether the extension names a C or C++ source file: `c`, `cpp` or `cc`.
pub open spec fn is_source_extension(e: Seq<char>) -> bool {
    e == seq!['c'] || e == seq!['c', 'p', 'p'] || e == seq!['c', 'c']
}

/// Whether the extension names a header file: `h` or `hpp`.
pub open spec fn is_header_extension(e: Seq<char>) -> bool {
    e == seq!['h'] || e == seq!['h', 'p', 'p']
}

/// The extension of `path`, as `extension` states.
fn extension_of(path: &str) -> (r: Option<Vec<char>>)
    ensures
        match extension(path@) {
            Some(e) => r matches Some(v) && v@ == e,
            None => r is None,
        },
{
    let c = path_components(&chars_of(path));
    let n = c.len();
    if n == 0 {
        return None;
    }
    let last = &c[n - 1];
    assert(views(c@).last() == last@);
    let special = (last.len() == 1 && (last[0] == '/' || last[0] == '.')) || (last.len() == 2
        && last[0] == '.' && last[1] == '.');
    if special {
        proof {
            if last.len() == 1 {
                assert(last@ =~= seq![last@[0]]);
            } else {
                assert(last@ =~= seq!['.', '.']);
            }
        }
        return None;
    }
    assert(last@ != seq!['/'] && last@ != seq!['.'] && last@ != seq!['.', '.']) by {
        if last@ == seq!['/'] || last@ == seq!['.'] {
            assert(last@[0] == seq!['/'][0] || last@[0] == seq!['.'][0]);
        }
        if last@ == seq!['.', '.'] {
            assert(last@[1] == seq!['.', '.'][1]);
        }
    }
    let mut hi = last.len();
    while hi > 0 && last[hi - 1] != '.'
        invariant
            hi <= last.len(),
            last_dot(last@, last.len() as int) == last_dot(last@, hi as int),
        decreases hi,
    {
        hi = hi - 1;
    }
    if hi <= 1 {
        return None;
    }
    let mut e: Vec<char> = Vec::new();
    for i in hi..last.len()
        invariant
            e@ == last@.subrange(hi as int, i as int),
    {
        e.push(last[i]);
        assert(e@ =~= last@.subrange(hi as int, i + 1));
    }
    Some(e)
}

/// Whether `path` names a C or C++ source file by its extension.
pub fn is_source_file(path: &str) -> (r: bool)
    ensures
        r == (extension(path@) matches Some(e) && is_source_extension(e)),
{
    match extension_of(path) {
        Some(e) => {
            let c = ['c'];
            let cpp = ['c', 'p', 'p'];
            let cc = ['c', 'c'];
            assert(c@ =~= seq!['c'] && cpp@ =~= seq!['c', 'p', 'p'] && cc@ =~= seq!['c', 'c']);
            chars_match(&e, &c) || chars_match(&e, &cpp) || chars_match(&e, &cc)
        },
        None => false,
    }
}

/// Whether `path` names a header file by its extension.
pub fn is_header_file(path: &str) -> (r: bool)
    ensures
        r == (extension(path@) matches Some(e) && is_header_extension(e)),
{
    match extension_of(path) {
        Some(e) => {
            let h = ['h'];
            let hpp = ['h', 'p', 'p'];
            assert(h@ =~= seq!['h'] && hpp@ =~= seq!['h', 'p', 'p']);
            chars_match(&e, &h) || chars_match(&e, &hpp)
        },
        None => false,
    }
}

/// Whether the textual patches apply to `path`: a header or a source file.
pub fn is_to_be_patched(path: &str) -> (r: bool)
    ensures
        r == (extension(path@) matches Some(e) && (is_header_extension(e) || is_source_extension(
            e,
        ))),
{
    is_header_file(path) || is_source_file(path)
}

} // verus!
