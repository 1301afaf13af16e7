use vstd::prelude::*;
use crate::error::Error;
use crate::expanded_header::{marker_fields, marker_number, ExpandedHeader};
use crate::included_header::{directive_path, locate_directive_path, IncludedHeader};
use crate::path_like::{
    components, components_are_system, components_end_with, ends_with_components, is_system_path,
    path_components, same_header, PathLike,
};
use crate::text::{
    chars_equal, chars_of, is_decimal_char, join_lines, lines_of, push_chars, skip_space,
    split_lines, string_of, views,
};

verus! {

/// What a line of the trace is, as read by `classify`.
pub enum LineModel {
    /// A header directive, by the path it names.
    Included(Seq<char>),
    /// A line marker, by its line number and path.
    Expanded(usize, Seq<char>),
    /// Any other line, by its text.
    Other(Seq<char>),
}

/// How a line is read. A header directive is tried first, then a line
/// marker; any other line is kept as text. The one failure is a marker whose
/// digits are not all ASCII or do not fit in a `usize`: `Err` holds those
/// digits.
pub open spec fn classify(s: Seq<char>) -> Result<LineModel, Seq<char>> {
    match directive_path(s) {
        Some(p) => Ok(LineModel::Included(p)),
        None => match marker_fields(s) {
            Some((d, p)) => match marker_number(d) {
                Some(n) => Ok(LineModel::Expanded(n, p)),
                None => Err(d),
            },
            None => Ok(LineModel::Other(s)),
        },
    }
}

/// The reading of each line (a line that fails is read as text).
pub open spec fn models(ls: Seq<Seq<char>>) -> Seq<LineModel> {
    ls.map_values(
        |l: Seq<char>|
            match classify(l) {
                Ok(m) => m,
                Err(_) => LineModel::Other(l),
            },
    )
}

/// The digits of the first of the first `n` lines that fails to be read.
pub open spec fn first_error(ls: Seq<Seq<char>>, n: int) -> Option<Seq<char>>
    decreases n,
{
    if n <= 0 {
        None
    } else {
        match first_error(ls, n - 1) {
            Some(d) => Some(d),
            None => match classify(ls[n - 1]) {
                Err(d) => Some(d),
                Ok(_) => None,
            },
        }
    }
}

/// The paths entered by the markers among the first `n` lines.
pub open spec fn entered(ms: Seq<LineModel>, n: int) -> Set<Seq<char>>
    decreases n,
{
    if n <= 0 {
        Set::empty()
    } else {
        let s = entered(ms, n - 1);
        match ms[n - 1] {
            LineModel::Expanded(_, p) => s.insert(p),
            _ => s,
        }
    }
}

/// Every path that a marker anywhere in the unit enters.
pub open spec fn header_paths(ms: Seq<LineModel>) -> Set<Seq<char>> {
    entered(ms, ms.len() as int)
}

/// The path of the last marker before line `i`; `None` in the main file.
pub open spec fn context_before(ms: Seq<LineModel>, i: int) -> Option<Seq<char>>
    decreases i,
{
    if i <= 0 {
        None
    } else {
        match ms[i - 1] {
            LineModel::Expanded(_, p) => Some(p),
            _ => context_before(ms, i - 1),
        }
    }
}

/// Whether line `i` stands in the body of a system header.
pub open spec fn in_system_body(ms: Seq<LineModel>, i: int) -> bool {
    match context_before(ms, i) {
        Some(p) => is_system_path(p),
        None => false,
    }
}

/// Whether a directive for `p` is made redundant by a local header of the
/// same name that a marker enters somewhere in the unit.
pub open spec fn redundant(ms: Seq<LineModel>, p: Seq<char>) -> bool {
    exists|q: Seq<char>|
        #![trigger header_paths(ms).contains(q)]
        header_paths(ms).contains(q) && !is_system_path(q) && same_header(q, p)
}

/// Whether line `i` is kept: a marker always; a directive unless it stands in
/// a system header's body or is redundant; other text unless it stands in a
/// system header's body.
pub open spec fn retained(ms: Seq<LineModel>, i: int) -> bool {
    match ms[i] {
        LineModel::Expanded(_, _) => true,
        LineModel::Included(p) => !in_system_body(ms, i) && !redundant(ms, p),
        LineModel::Other(_) => !in_system_body(ms, i),
    }
}

/// The kept lines among the first `n`, in order.
pub open spec fn kept_lines(texts: Seq<Seq<char>>, ms: Seq<LineModel>, n: int) -> Seq<Seq<char>>
    decreases n,
{
    if n <= 0 {
        Seq::empty()
    } else {
        let r = kept_lines(texts, ms, n - 1);
        if retained(ms, n - 1) {
            r.push(texts[n - 1])
        } else {
            r
        }
    }
}

/// The reduced text of a unit: each kept line followed by a newline; `Err`
/// with the digits of the first line that fails to be read.
pub open spec fn reduce_text(source: Seq<char>) -> Result<Seq<char>, Seq<char>> {
    let ls = lines_of(source);
    match first_error(ls, ls.len() as int) {
        Some(d) => Err(d),
        None => Ok(join_lines(kept_lines(ls, models(ls), ls.len() as int))),
    }
}

/// Every line is read as exactly one kind, and reading fails on no line but a
/// marker whose digit field gives no line number (a digit that is not ASCII,
/// or a value that does not fit in a `usize`): no line has both the shape of
/// a header directive and that of a line marker.
pub proof fn classification_is_total(s: Seq<char>)
    ensures
        !(directive_path(s) is Some && marker_fields(s) is Some),
        classify(s) is Err <==> (marker_fields(s) matches Some((d, _)) && marker_number(d) is None),
{
    if directive_path(s) is Some && marker_fields(s) is Some {
        let k = skip_space(s, 1);
        assert(s.subrange(k, k + 7)[0] == s[k]);
        assert(is_decimal_char(s[k]));
    }
}

/// A unit already in reduced form (each line followed by a newline) in which
/// no line fails to be read, no marker enters a system header and no header
/// directive is redundant, reduces to itself.
pub proof fn reduction_fixes_reduced_units(t: Seq<char>)
    requires
        t == join_lines(lines_of(t)),
        first_error(lines_of(t), lines_of(t).len() as int) is None,
        forall|i: int|
            0 <= i < lines_of(t).len() ==> !(#[trigger] models(lines_of(t))[i] matches LineModel::Expanded(
                _,
                p,
            ) && is_system_path(p)),
        forall|i: int|
            0 <= i < lines_of(t).len() ==> !(#[trigger] models(lines_of(t))[i] matches LineModel::Included(
                p,
            ) && redundant(models(lines_of(t)), p)),
    ensures
        reduce_text(t) == Ok::<Seq<char>, Seq<char>>(t),
{
    let ls = lines_of(t);
    let ms = models(ls);
    lemma_all_kept(ls, ms, ls.len() as int);
    assert(ls.take(ls.len() as int) =~= ls);
}

/// Where no marker enters a system header and no directive is redundant,
/// every line is kept.
proof fn lemma_all_kept(ls: Seq<Seq<char>>, ms: Seq<LineModel>, n: int)
    requires
        0 <= n <= ls.len(),
        ms.len() == ls.len(),
        forall|i: int|
            0 <= i < ls.len() ==> !(#[trigger] ms[i] matches LineModel::Expanded(_, p)
                && is_system_path(p)),
        forall|i: int|
            0 <= i < ls.len() ==> !(#[trigger] ms[i] matches LineModel::Included(p) && redundant(
                ms,
                p,
            )),
    ensures
        kept_lines(ls, ms, n) == ls.take(n),
    decreases n,
{
    if n > 0 {
        lemma_all_kept(ls, ms, n - 1);
        lemma_not_in_system_body(ms, n - 1);
        assert(ls.take(n - 1).push(ls[n - 1]) =~= ls.take(n));
    } else {
        assert(ls.take(0) =~= Seq::<Seq<char>>::empty());
    }
}

/// Where no marker enters a system header, no line stands in a system body.
proof fn lemma_not_in_system_body(ms: Seq<LineModel>, i: int)
    requires
        0 <= i <= ms.len(),
        forall|j: int|
            0 <= j < ms.len() ==> !(#[trigger] ms[j] matches LineModel::Expanded(_, p)
                && is_system_path(p)),
    ensures
        !in_system_body(ms, i),
    decreases i,
{
    if i > 0 {
        lemma_not_in_system_body(ms, i - 1);
        assert(!(ms[i - 1] matches LineModel::Expanded(_, p) && is_system_path(p)));
    }
}

/// How many of the lines before line `i` are kept: the place of line `i`
/// among the kept lines, when it is kept.
pub open spec fn kept_before(ms: Seq<LineModel>, i: int) -> nat
    decreases i,
{
    if i <= 0 {
        0
    } else {
        kept_before(ms, i - 1) + if retained(ms, i - 1) {
            1nat
        } else {
            0nat
        }
    }
}

/// The kept lines among the first `n` are as many as `kept_before` counts.
proof fn lemma_kept_lines_len(ls: Seq<Seq<char>>, ms: Seq<LineModel>, n: int)
    requires
        0 <= n,
    ensures
        kept_lines(ls, ms, n).len() == kept_before(ms, n),
    decreases n,
{
    if n > 0 {
        lemma_kept_lines_len(ls, ms, n - 1);
    }
}

/// Kept lines keep their order: a kept line comes before every later line.
proof fn lemma_kept_before_grows(ms: Seq<LineModel>, i: int, j: int)
    requires
        0 <= i < j,
        retained(ms, i),
    ensures
        kept_before(ms, i) < kept_before(ms, j),
    decreases j,
{
    if j > i + 1 {
        lemma_kept_before_grows(ms, i, j - 1);
    }
}

/// A kept line stands, as it is, at its place among the kept lines.
proof fn lemma_kept_line_at(ls: Seq<Seq<char>>, ms: Seq<LineModel>, i: int, n: int)
    requires
        0 <= i < n <= ls.len(),
        retained(ms, i),
    ensures
        kept_before(ms, i) < kept_lines(ls, ms, n).len(),
        kept_lines(ls, ms, n)[kept_before(ms, i) as int] == ls[i],
    decreases n,
{
    lemma_kept_lines_len(ls, ms, n - 1);
    if n - 1 > i {
        lemma_kept_line_at(ls, ms, i, n - 1);
    }
}

/// In a unit that reduces without error, every line marker is kept verbatim,
/// system-header markers included: the reduced text is the kept lines `k`,
/// each followed by a newline, and marker line `i` stands in `k` at place
/// `kept_before(.., i)`, before every kept line that follows it.
pub proof fn markers_are_kept(source: Seq<char>, i: int)
    requires
        reduce_text(source) is Ok,
        0 <= i < lines_of(source).len(),
        models(lines_of(source))[i] is Expanded,
    ensures
        ({
            let ls = lines_of(source);
            let ms = models(ls);
            let k = kept_lines(ls, ms, ls.len() as int);
            &&& reduce_text(source) == Ok::<Seq<char>, Seq<char>>(join_lines(k))
            &&& k[kept_before(ms, i) as int] == ls[i]
            &&& forall|j: int| i < j < ls.len() ==> kept_before(ms, i) < #[trigger] kept_before(ms, j)
        }),
{
    let ls = lines_of(source);
    let ms = models(ls);
    lemma_kept_line_at(ls, ms, i, ls.len() as int);
    assert forall|j: int| i < j < ls.len() implies kept_before(ms, i) < #[trigger] kept_before(
        ms,
        j,
    ) by {
        lemma_kept_before_grows(ms, i, j);
    }
}

/// In a unit that reduces without error, text of the main file or of a
/// local header is never dropped: an `Other` line that stands in no system
/// header's body is kept verbatim, at place `kept_before(.., i)` among the
/// kept lines `k` whose lines, each followed by a newline, are the reduced
/// text, and before every kept line that follows it.
pub proof fn local_text_is_kept(source: Seq<char>, i: int)
    requires
        reduce_text(source) is Ok,
        0 <= i < lines_of(source).len(),
        models(lines_of(source))[i] is Other,
        !in_system_body(models(lines_of(source)), i),
    ensures
        ({
            let ls = lines_of(source);
            let ms = models(ls);
            let k = kept_lines(ls, ms, ls.len() as int);
            &&& reduce_text(source) == Ok::<Seq<char>, Seq<char>>(join_lines(k))
            &&& k[kept_before(ms, i) as int] == ls[i]
            &&& forall|j: int| i < j < ls.len() ==> kept_before(ms, i) < #[trigger] kept_before(ms, j)
        }),
{
    let ls = lines_of(source);
    let ms = models(ls);
    lemma_kept_line_at(ls, ms, i, ls.len() as int);
    assert forall|j: int| i < j < ls.len() implies kept_before(ms, i) < #[trigger] kept_before(
        ms,
        j,
    ) by {
        lemma_kept_before_grows(ms, i, j);
    }
}

/// One classified line of the trace.
#[derive(Debug, Eq)]
pub enum Line {
    /// A header directive of the trace.
    IncludedHeader(IncludedHeader),
    /// A line marker.
    ExpandedHeader(ExpandedHeader),
    /// Any other line, kept as it is.
    Other(String),
}

impl View for Line {
    type V = LineModel;

    open spec fn view(&self) -> LineModel {
        match self {
            Line::IncludedHeader(h) => LineModel::Included(h@),
            Line::ExpandedHeader(h) => LineModel::Expanded(h@.0, h@.1),
            Line::Other(t) => LineModel::Other(t@),
        }
    }
}

impl PartialEq for Line {
    fn eq(&self, other: &Line) -> (r: bool) {
        match (self, other) {
            (Line::IncludedHeader(a), Line::IncludedHeader(b)) => a.eq(b),
            (Line::ExpandedHeader(a), Line::ExpandedHeader(b)) => a.eq(b),
            (Line::Other(a), Line::Other(b)) => a.eq(b),
            _ => false,
        }
    }
}

impl vstd::std_specs::cmp::PartialEqSpecImpl for Line {
    open spec fn obeys_eq_spec() -> bool {
        true
    }

    open spec fn eq_spec(&self, other: &Line) -> bool {
        self@ == other@
    }
}

/// The views of a sequence of lines.
pub open spec fn line_views(v: Seq<Line>) -> Seq<LineModel> {
    v.map_values(|l: Line| l@)
}

/// Reads one line from its characters, as `classify` states.
fn classify_chars(s: &Vec<char>) -> (r: Result<Line, Error>)
    ensures
        match classify(s@) {
            Ok(m) => r matches Ok(l) && l@ == m,
            Err(d) => r matches Err(Error::UsizeParseError(t)) && t@ == d,
        },
{
    match locate_directive_path(s) {
        Some((a, b)) => Ok(Line::IncludedHeader(IncludedHeader::of_range(s, a, b))),
        None => match ExpandedHeader::parse_chars(s) {
            Some(Ok(h)) => Ok(Line::ExpandedHeader(h)),
            Some(Err(e)) => Err(e),
            None => Ok(Line::Other(string_of(s))),
        },
    }
}

/// Once a line has failed, the first failure stays the same.
proof fn lemma_first_error_stays(ls: Seq<Seq<char>>, i: int, n: int)
    requires
        0 <= i <= n,
        first_error(ls, i) is Some,
    ensures
        first_error(ls, n) == first_error(ls, i),
    decreases n - i,
{
    if n > i {
        lemma_first_error_stays(ls, i, n - 1);
    }
}

/// Reads every line, stopping at the first that fails.
fn classify_all(ls: &Vec<Vec<char>>) -> (r: Result<Vec<Line>, Error>)
    ensures
        match first_error(views(ls@), ls.len() as int) {
            None => r matches Ok(v) && line_views(v@) == models(views(ls@)),
            Some(d) => r matches Err(Error::UsizeParseError(t)) && t@ == d,
        },
{
    let ghost tv = views(ls@);
    let mut out: Vec<Line> = Vec::new();
    for i in 0..ls.len()
        invariant
            tv == views(ls@),
            first_error(tv, i as int) is None,
            line_views(out@) == models(tv).take(i as int),
    {
        assert(tv[i as int] == ls[i as int]@);
        match classify_chars(&ls[i]) {
            Ok(l) => {
                assert(models(tv)[i as int] == l@);
                let ghost before = line_views(out@);
                out.push(l);
                assert(line_views(out@) =~= before.push(l@));
                assert(line_views(out@) =~= models(tv).take(i + 1));
            },
            Err(e) => {
                proof {
                    lemma_first_error_stays(tv, i + 1, ls.len() as int);
                }
                return Err(e);
            },
        }
    }
    assert(models(tv).take(ls.len() as int) =~= models(tv));
    Ok(out)
}

/// Whether the path `p` is among `hs`.
fn holds_path(hs: &Vec<Vec<char>>, p: &Vec<char>) -> (r: bool)
    ensures
        r == views(hs@).contains(p@),
{
    for k in 0..hs.len()
        invariant
            forall|j: int| 0 <= j < k ==> views(hs@)[j] != p@,
    {
        if chars_equal(&hs[k], p) {
            assert(views(hs@)[k as int] == p@);
            return true;
        }
    }
    false
}

/// First pass: every path that a marker enters, each once.
fn scan_headers(lines: &Vec<Line>) -> (r: Vec<Vec<char>>)
    ensures
        views(r@).to_set() == header_paths(line_views(lines@)),
{
    let ghost ms = line_views(lines@);
    let mut hs: Vec<Vec<char>> = Vec::new();
    assert(views(hs@).to_set() =~= entered(ms, 0));
    for i in 0..lines.len()
        invariant
            ms == line_views(lines@),
            views(hs@).to_set() == entered(ms, i as int),
    {
        match &lines[i] {
            Line::ExpandedHeader(h) => {
                let p = chars_of(h.path());
                if !holds_path(&hs, &p) {
                    let ghost before = views(hs@);
                    hs.push(p);
                    assert(views(hs@) =~= before.push(p@));
                    assert(views(hs@).to_set() =~= entered(ms, i + 1)) by {
                        assert forall|q: Seq<char>|
                            views(hs@).to_set().contains(q) implies entered(
                                ms,
                                i + 1,
                            ).contains(q) by {
                            if q != p@ {
                                let j = choose|j: int|
                                    0 <= j < views(hs@).len() && views(hs@)[j] == q;
                                assert(before[j] == q);
                                assert(before.to_set().contains(q));
                            }
                        }
                        assert forall|q: Seq<char>|
                            entered(ms, i + 1).contains(q) implies views(
                                hs@,
                            ).to_set().contains(q) by {
                            if q != p@ {
                                assert(before.to_set().contains(q));
                                let j = choose|j: int| 0 <= j < before.len() && before[j] == q;
                                assert(views(hs@)[j] == q);
                            } else {
                                assert(views(hs@)[before.len() as int] == q);
                            }
                        }
                    }
                } else {
                    assert(views(hs@).to_set().contains(p@));
                    assert(views(hs@).to_set() =~= entered(ms, i + 1));
                }
            },
            _ => {
                assert(views(hs@).to_set() =~= entered(ms, i + 1));
            },
        }
    }
    hs
}

/// Whether two paths, given by their components, name the same header.
fn same_header_components(a: &Vec<Vec<char>>, b: &Vec<Vec<char>>) -> (r: bool)
    ensures
        r == (ends_with_components(views(a@), views(b@)) || ends_with_components(
            views(b@),
            views(a@),
        )),
{
    components_end_with(a, b) || components_end_with(b, a)
}

/// Whether a directive for `p` is redundant given the entered paths `hs`.
fn is_redundant(hs: &Vec<Vec<char>>, p: &Vec<char>) -> (r: bool)
    ensures
        r == exists|q: Seq<char>|
            #![trigger views(hs@).to_set().contains(q)]
            views(hs@).to_set().contains(q) && !is_system_path(q) && same_header(q, p@),
{
    let pc = path_components(p);
    for k in 0..hs.len()
        invariant
            views(pc@) == components(p@),
            forall|j: int|
                0 <= j < k ==> !(!is_system_path(#[trigger] views(hs@)[j]) && same_header(
                    views(hs@)[j],
                    p@,
                )),
    {
        let qc = path_components(&hs[k]);
        if !components_are_system(&qc) && same_header_components(&qc, &pc) {
            assert(views(hs@).to_set().contains(views(hs@)[k as int]));
            return true;
        }
        assert(views(hs@)[k as int] == hs[k as int]@);
    }
    assert forall|q: Seq<char>|
        views(hs@).to_set().contains(q) implies !(!is_system_path(q) && same_header(q, p@)) by {
        let j = choose|j: int| 0 <= j < views(hs@).len() && views(hs@)[j] == q;
    }
    false
}

/// Second pass: the kept lines, each followed by a newline.
fn reconstruct(texts: &Vec<Vec<char>>, lines: &Vec<Line>, hs: &Vec<Vec<char>>) -> (r: String)
    requires
        texts.len() == lines.len(),
        views(hs@).to_set() == header_paths(line_views(lines@)),
    ensures
        r@ == join_lines(kept_lines(views(texts@), line_views(lines@), texts.len() as int)),
{
    let ghost ms = line_views(lines@);
    let ghost tv = views(texts@);
    let mut out = String::new();
    let mut in_system = false;
    for i in 0..lines.len()
        invariant
            texts.len() == lines.len(),
            ms == line_views(lines@),
            tv == views(texts@),
            views(hs@).to_set() == header_paths(ms),
            in_system == in_system_body(ms, i as int),
            out@ == join_lines(kept_lines(tv, ms, i as int)),
    {
        let keep = match &lines[i] {
            Line::ExpandedHeader(h) => {
                in_system = h.is_system();
                true
            },
            Line::IncludedHeader(h) => {
                !in_system && !is_redundant(hs, &chars_of(h.path()))
            },
            Line::Other(_) => !in_system,
        };
        assert(keep == retained(ms, i as int));
        if keep {
            let ghost before = kept_lines(tv, ms, i as int);
            push_chars(&mut out, &texts[i]);
            out.push('\n');
            assert(before.push(tv[i as int]).drop_last() =~= before);
            assert(out@ =~= join_lines(before) + tv[i as int].push('\n'));
        }
    }
    out
}

/// The reducer of a translation unit's annotated preprocessor output.
#[derive(Debug)]
pub struct Preprocessor {}

impl Preprocessor {
    /// Reduces `source`: system header bodies and redundant directives are
    /// dropped, markers and all other text kept, each kept line followed by
    /// a newline. Fails with `UsizeParseError` when a marker's digits do not
    /// fit in a `usize`.
    pub fn preprocess(source: &str) -> (r: Result<String, Error>)
        ensures
            match reduce_text(source@) {
                Ok(out) => r matches Ok(o) && o@ == out,
                Err(d) => r matches Err(Error::UsizeParseError(t)) && t@ == d,
            },
            source@.len() == 0 ==> (r matches Ok(o) && o@.len() == 0),
    {
        let chars = chars_of(source);
        let texts = split_lines(&chars);
        let lines = match classify_all(&texts) {
            Ok(lines) => lines,
            Err(e) => {
                return Err(e);
            },
        };
        let hs = scan_headers(&lines);
        Ok(reconstruct(&texts, &lines, &hs))
    }

    /// Reads one line, as `classify` states.
    pub fn parse_line(line: &str) -> (r: Result<Line, Error>)
        ensures
            match classify(line@) {
                Ok(m) => r matches Ok(l) && l@ == m,
                Err(d) => r matches Err(Error::UsizeParseError(t)) && t@ == d,
            },
    {
        classify_chars(&chars_of(line))
    }
}

} // verus!
