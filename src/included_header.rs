use vstd::prelude::*;
use crate::error::Error;
use crate::path_like::PathLike;
use crate::text::{chars_of, skip_space, skip_spaces, substring};

verus! {

/// The word that names a header directive.
pub open spec fn directive_word() -> Seq<char> {
    seq!['i', 'n', 'c', 'l', 'u', 'd', 'e']
}

/// The characters that may open the path of a directive.
pub open spec fn is_opener(c: char) -> bool {
    c == '"' || c == '<'
}

/// The characters that may close the path of a directive.
pub open spec fn is_closer(c: char) -> bool {
    c == '"' || c == '>'
}

/// The last index below `hi` where `s` holds a closing character, or -1.
pub open spec fn last_closer(s: Seq<char>, hi: int) -> int
    decreases hi,
{
    if hi <= 0 {
        -1
    } else if is_closer(s[hi - 1]) {
        hi - 1
    } else {
        last_closer(s, hi - 1)
    }
}

/// Index of the first character after an optional leading `#`.
pub open spec fn after_hash(s: Seq<char>) -> int {
    if s.len() > 0 && s[0] == '#' {
        1
    } else {
        0
    }
}

/// The path of a header directive line: an optional `#`, optional white
/// space, the directive word, white space, then `"` or `<`; the path runs from
/// there to the last `"` or `>` of the line. `None` when the line has another
/// shape.
pub open spec fn directive_path(s: Seq<char>) -> Option<Seq<char>> {
    let k = skip_space(s, after_hash(s));
    let w = k + 7;
    let o = skip_space(s, w);
    let e = last_closer(s, s.len() as int);
    if w <= s.len() && s.subrange(k, w) == directive_word() && o > w && o < s.len() && is_opener(
        s[o],
    ) && e > o {
        Some(s.subrange(o + 1, e))
    } else {
        None
    }
}

/// The last index below `s.len()` where `s` holds a closing character.
fn find_last_closer(s: &Vec<char>) -> (r: Option<usize>)
    ensures
        match r {
            Some(e) => e < s.len() && e == last_closer(s@, s.len() as int),
            None => last_closer(s@, s.len() as int) == -1,
        },
{
    let mut hi = s.len();
    while hi > 0
        invariant
            hi <= s.len(),
            last_closer(s@, s.len() as int) == last_closer(s@, hi as int),
        decreases hi,
    {
        if s[hi - 1] == '"' || s[hi - 1] == '>' {
            return Some(hi - 1);
        }
        hi = hi - 1;
    }
    None
}

/// Where the path of a header directive line lies, as `directive_path` states.
pub fn locate_directive_path(s: &Vec<char>) -> (r: Option<(usize, usize)>)
    ensures
        match r {
            Some((a, b)) => a <= b <= s.len() && directive_path(s@) == Some(
                s@.subrange(a as int, b as int),
            ),
            None => directive_path(s@) is None,
        },
{
    let h: usize = if s.len() > 0 && s[0] == '#' {
        1
    } else {
        0
    };
    let k = skip_spaces(s, h);
    if s.len() - k < 7 {
        return None;
    }
    let w = k + 7;
    if !(s[k] == 'i' && s[k + 1] == 'n' && s[k + 2] == 'c' && s[k + 3] == 'l' && s[k + 4] == 'u'
        && s[k + 5] == 'd' && s[k + 6] == 'e') {
        assert(s@.subrange(k as int, w as int) != directive_word()) by {
            let t = s@.subrange(k as int, w as int);
            assert(t[0] == s[k as int] && t[1] == s[k + 1] && t[2] == s[k + 2] && t[3] == s[k + 3]
                && t[4] == s[k + 4] && t[5] == s[k + 5] && t[6] == s[k + 6]);
        }
        return None;
    }
    assert(s@.subrange(k as int, w as int) =~= directive_word());
    let o = skip_spaces(s, w);
    if o == w || o == s.len() || !(s[o] == '"' || s[o] == '<') {
        return None;
    }
    match find_last_closer(s) {
        Some(e) => {
            if e > o {
                Some((o + 1, e))
            } else {
                None
            }
        },
        None => None,
    }
}

/// A header directive line of the trace, by the path it names.
#[derive(Debug, Clone, Eq, Hash)]
pub struct IncludedHeader {
    path: String,
}

impl View for IncludedHeader {
    type V = Seq<char>;

    closed spec fn view(&self) -> Seq<char> {
        self.path@
    }
}

impl PartialEq for IncludedHeader {
    fn eq(&self, other: &IncludedHeader) -> (r: bool) {
        self.path == other.path
    }
}

impl vstd::std_specs::cmp::PartialEqSpecImpl for IncludedHeader {
    open spec fn obeys_eq_spec() -> bool {
        true
    }

    open spec fn eq_spec(&self, other: &IncludedHeader) -> bool {
        self@ == other@
    }
}

impl PathLike for IncludedHeader {
    open spec fn path_view(&self) -> Seq<char> {
        self@
    }

    fn path(&self) -> (r: &str) {
        self.path.as_str()
    }
}

impl IncludedHeader {
    /// The directive that names `path`.
    pub fn new(path: &str) -> (r: IncludedHeader)
        ensures
            r@ == path@,
    {
        IncludedHeader { path: path.to_owned() }
    }

    /// Reads a header directive line. On a line of another shape the error
    /// is `LineFormatError`, holding the line.
    pub fn parse_line(line: &str) -> (r: Result<IncludedHeader, Error>)
        ensures
            match directive_path(line@) {
                Some(p) => r matches Ok(h) && h@ == p,
                None => r matches Err(Error::LineFormatError(t)) && t@ == line@,
            },
    {
        let s = chars_of(line);
        match locate_directive_path(&s) {
            Some((a, b)) => Ok(IncludedHeader::of_range(&s, a, b)),
            None => Err(Error::LineFormatError(line.to_owned())),
        }
    }

    /// The directive that names the characters of `s` from `a` up to `b`.
    pub(crate) fn of_range(s: &Vec<char>, a: usize, b: usize) -> (r: IncludedHeader)
        requires
            a <= b <= s.len(),
        ensures
            r@ == s@.subrange(a as int, b as int),
    {
        IncludedHeader { path: substring(s, a, b) }
    }
}

} // verus!
