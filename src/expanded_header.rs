use vstd::prelude::*;
use crate::error::Error;
use crate::path_like::{is_system_path, path_is_system, PathLike};
use crate::text::{
    chars_of, is_digit, is_digit_char, skip_digit_run, skip_digits, skip_space, skip_spaces,
    substring,
};

verus! {

/// The last index below `hi` where `s` holds a `"`, or -1.
pub open spec fn last_quote(s: Seq<char>, hi: int) -> int
    decreases hi,
{
    if hi <= 0 {
        -1
    } else if s[hi - 1] == '"' {
        hi - 1
    } else {
        last_quote(s, hi - 1)
    }
}

/// The digit field and the path of a line marker: `#`, white space, decimal
/// digits (of any script), white space, then `"`; the path runs from there to the last `"`
/// of the line, and what follows it (the flags) is not read. `None` when the
/// line has another shape.
pub open spec fn marker_fields(s: Seq<char>) -> Option<(Seq<char>, Seq<char>)> {
    let a = skip_space(s, 1);
    let b = skip_digits(s, a);
    let c = skip_space(s, b);
    let e = last_quote(s, s.len() as int);
    if s.len() > 0 && s[0] == '#' && a > 1 && b > a && c > b && c < s.len() && s[c] == '"' && e
        > c {
        Some((s.subrange(a, b), s.subrange(c + 1, e)))
    } else {
        None
    }
}

/// The number that a sequence of ASCII digits writes in base ten.
pub open spec fn digits_value(d: Seq<char>) -> nat
    decreases d.len(),
{
    if d.len() == 0 {
        0
    } else {
        digits_value(d.drop_last()) * 10 + (d.last() as u32 - '0' as u32) as nat
    }
}

/// Whether every character of `d` is an ASCII digit.
pub open spec fn ascii_digits(d: Seq<char>) -> bool {
    forall|k: int| 0 <= k < d.len() ==> is_digit_char(#[trigger] d[k])
}

/// The line number that a digit field gives: its value, where all its digits
/// are ASCII and the value fits in a `usize`; `None` otherwise.
pub open spec fn marker_number(d: Seq<char>) -> Option<usize> {
    if ascii_digits(d) && digits_value(d) <= usize::MAX {
        Some(digits_value(d) as usize)
    } else {
        None
    }
}

/// A longer run of digits is worth at least as much as its prefix.
proof fn lemma_digits_value_prefix(d: Seq<char>, j: int)
    requires
        0 <= j <= d.len(),
        forall|k: int| 0 <= k < d.len() ==> is_digit_char(#[trigger] d[k]),
    ensures
        digits_value(d.take(j)) <= digits_value(d),
    decreases d.len(),
{
    if j < d.len() {
        let p = d.drop_last();
        assert(d.take(j) =~= p.take(j));
        lemma_digits_value_prefix(p, j);
        assert(digits_value(p) <= digits_value(p) * 10) by (nonlinear_arith);
    } else {
        assert(d.take(j) =~= d);
    }
}

/// The line number that the digits of `s` from `a` up to `b` give, as
/// `marker_number` states.
fn digits_to_usize(s: &Vec<char>, a: usize, b: usize) -> (r: Option<usize>)
    requires
        a <= b <= s.len(),
    ensures
        r == marker_number(s@.subrange(a as int, b as int)),
{
    let ghost d = s@.subrange(a as int, b as int);
    let mut v: usize = 0;
    let mut i = a;
    assert(s@.subrange(a as int, a as int) =~= Seq::<char>::empty());
    while i < b
        invariant
            a <= i <= b <= s.len(),
            d == s@.subrange(a as int, b as int),
            forall|k: int| a <= k < i ==> is_digit_char(#[trigger] s@[k]),
            v == digits_value(s@.subrange(a as int, i as int)),
        decreases b - i,
    {
        if !is_digit(s[i]) {
            assert(!is_digit_char(d[i - a]));
            return None;
        }
        let n = (s[i] as u32 - '0' as u32) as usize;
        assert(s@.subrange(a as int, i + 1).drop_last() =~= s@.subrange(a as int, i as int));
        let next = match v.checked_mul(10) {
            Some(t) => t.checked_add(n),
            None => None,
        };
        match next {
            Some(x) => {
                v = x;
            },
            None => {
                proof {
                    if ascii_digits(d) {
                        assert(d.take(i + 1 - a) =~= s@.subrange(a as int, i + 1));
                        lemma_digits_value_prefix(d, i + 1 - a);
                    }
                }
                return None;
            },
        }
        i = i + 1;
    }
    assert(ascii_digits(d));
    Some(v)
}

/// The last index below `s.len()` where `s` holds a `"`.
fn find_last_quote(s: &Vec<char>) -> (r: Option<usize>)
    ensures
        match r {
            Some(e) => e < s.len() && e == last_quote(s@, s.len() as int),
            None => last_quote(s@, s.len() as int) == -1,
        },
{
    let mut hi = s.len();
    while hi > 0
        invariant
            hi <= s.len(),
            last_quote(s@, s.len() as int) == last_quote(s@, hi as int),
        decreases hi,
    {
        if s[hi - 1] == '"' {
            return Some(hi - 1);
        }
        hi = hi - 1;
    }
    None
}

/// Where the digit field and the path of a line marker lie, as
/// `marker_fields` states.
pub fn locate_marker_fields(s: &Vec<char>) -> (r: Option<(usize, usize, usize, usize)>)
    ensures
        match r {
            Some((a, b, c, e)) => {
                &&& a <= b <= c <= e <= s.len()
                &&& marker_fields(s@) == Some(
                    (s@.subrange(a as int, b as int), s@.subrange(c as int, e as int)),
                )
            },
            None => marker_fields(s@) is None,
        },
{
    if s.len() == 0 || s[0] != '#' {
        return None;
    }
    let a = skip_spaces(s, 1);
    if a == 1 {
        return None;
    }
    let b = skip_digit_run(s, a);
    if b == a {
        return None;
    }
    let c = skip_spaces(s, b);
    if c == b || c == s.len() || s[c] != '"' {
        return None;
    }
    match find_last_quote(s) {
        Some(e) => {
            if e > c {
                Some((a, b, c + 1, e))
            } else {
                None
            }
        },
        None => None,
    }
}

/// A line marker: the line number and the path of the file that the text
/// after it comes from.
#[derive(Debug, Clone, Eq, Hash)]
pub struct ExpandedHeader {
    line_no: usize,
    path: String,
}

impl View for ExpandedHeader {
    type V = (usize, Seq<char>);

    closed spec fn view(&self) -> (usize, Seq<char>) {
        (self.line_no, self.path@)
    }
}

impl PartialEq for ExpandedHeader {
    fn eq(&self, other: &ExpandedHeader) -> (r: bool) {
        self.line_no == other.line_no && self.path == other.path
    }
}

impl vstd::std_specs::cmp::PartialEqSpecImpl for ExpandedHeader {
    open spec fn obeys_eq_spec() -> bool {
        true
    }

    open spec fn eq_spec(&self, other: &ExpandedHeader) -> bool {
        self@ == other@
    }
}

impl PathLike for ExpandedHeader {
    open spec fn path_view(&self) -> Seq<char> {
        self@.1
    }

    fn path(&self) -> (r: &str) {
        self.path.as_str()
    }
}

impl ExpandedHeader {
    /// The marker for line `line_no` of `path`.
    pub fn new(line_no: usize, path: &str) -> (r: ExpandedHeader)
        ensures
            r@ == (line_no, path@),
    {
        ExpandedHeader { line_no, path: path.to_owned() }
    }

    /// The line number.
    pub fn line_no(&self) -> (r: &usize)
        ensures
            *r == self@.0,
    {
        &self.line_no
    }

    /// Whether the path lies under `/usr`.
    pub fn is_system(&self) -> (r: bool)
        ensures
            r == is_system_path(self@.1),
    {
        path_is_system(self.path.as_str())
    }

    /// Reads a line marker. On a line of another shape the error is
    /// `LineFormatError`, holding the line; when the digits are not all ASCII
    /// or do not fit in a `usize` it is `UsizeParseError`, holding the digits.
    pub fn parse_line(line: &str) -> (r: Result<ExpandedHeader, Error>)
        ensures
            match marker_fields(line@) {
                Some((d, p)) => match marker_number(d) {
                    Some(n) => r matches Ok(h) && h@ == (n, p),
                    None => r matches Err(Error::UsizeParseError(t)) && t@ == d,
                },
                None => r matches Err(Error::LineFormatError(t)) && t@ == line@,
            },
    {
        let s = chars_of(line);
        match ExpandedHeader::parse_chars(&s) {
            Some(r) => r,
            None => Err(Error::LineFormatError(line.to_owned())),
        }
    }

    /// Reads a line marker from its characters; `None` when the line has
    /// another shape.
    pub(crate) fn parse_chars(s: &Vec<char>) -> (r: Option<Result<ExpandedHeader, Error>>)
        ensures
            match marker_fields(s@) {
                Some((d, p)) => match marker_number(d) {
                    Some(n) => r matches Some(Ok(h)) && h@ == (n, p),
                    None => r matches Some(Err(Error::UsizeParseError(t))) && t@ == d,
                },
                None => r is None,
            },
    {
        match locate_marker_fields(s) {
            Some((a, b, c, e)) => match digits_to_usize(s, a, b) {
                Some(n) => Some(Ok(ExpandedHeader { line_no: n, path: substring(s, c, e) })),
                None => Some(Err(Error::UsizeParseError(substring(s, a, b)))),
            },
            None => None,
        }
    }
}

} // verus!
