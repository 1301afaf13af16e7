use vstd::prelude::*;
use crate::text::{chars_equal, chars_of, views};

verus! {

/// Whether `seg` is a segment that path comparison skips: empty (from a
/// repeated or trailing `/`) or a lone `.`.
pub open spec fn skipped_segment(seg: Seq<char>) -> bool {
    seg.len() == 0 || seg == seq!['.']
}

/// Ends the segment `cur`, keeping it unless it is skipped.
pub open spec fn push_segment(done: Seq<Seq<char>>, cur: Seq<char>) -> Seq<Seq<char>> {
    if skipped_segment(cur) {
        done
    } else {
        done.push(cur)
    }
}

/// Left-to-right scan of a path into the segments ended by a `/` and the
/// segment being read.
pub open spec fn scan_segments(s: Seq<char>) -> (Seq<Seq<char>>, Seq<char>)
    decreases s.len(),
{
    if s.len() == 0 {
        (Seq::empty(), Seq::empty())
    } else {
        let (done, cur) = scan_segments(s.drop_last());
        if s.last() == '/' {
            (push_segment(done, cur), Seq::empty())
        } else {
            (done, cur.push(s.last()))
        }
    }
}

/// Whether the path starts with a root `/`.
pub open spec fn has_root(s: Seq<char>) -> bool {
    s.len() > 0 && s[0] == '/'
}

/// Whether a relative path starts with a `.` component (`.` or `./...`).
pub open spec fn starts_at_cur_dir(s: Seq<char>) -> bool {
    s.len() > 0 && s[0] == '.' && (s.len() == 1 || s[1] == '/')
}

/// The components of a path, as a Unix path is read: the root as `/`, a
/// leading `.` of a relative path as `.`, then every segment between `/`s
/// that is neither empty nor `.`.
pub open spec fn components(s: Seq<char>) -> Seq<Seq<char>> {
    let (done, cur) = scan_segments(s);
    let body = push_segment(done, cur);
    if has_root(s) {
        seq![seq!['/']] + body
    } else if starts_at_cur_dir(s) {
        seq![seq!['.']] + body
    } else {
        body
    }
}

/// Whether the component sequence `a` starts with `b`.
pub open spec fn starts_with_components(a: Seq<Seq<char>>, b: Seq<Seq<char>>) -> bool {
    b.len() <= a.len() && a.take(b.len() as int) == b
}

/// Whether the component sequence `a` ends with `b`.
pub open spec fn ends_with_components(a: Seq<Seq<char>>, b: Seq<Seq<char>>) -> bool {
    b.len() <= a.len() && a.skip(a.len() - b.len()) == b
}

/// Whether path `a` ends with path `b`, whole components compared.
pub open spec fn path_ends_with_spec(a: Seq<char>, b: Seq<char>) -> bool {
    ends_with_components(components(a), components(b))
}

/// The components of the root under which system headers lie: `/usr`.
pub open spec fn system_root() -> Seq<Seq<char>> {
    seq![seq!['/'], seq!['u', 's', 'r']]
}

/// A path is a system path when its components start with those of `/usr`.
pub open spec fn is_system_path(p: Seq<char>) -> bool {
    starts_with_components(components(p), system_root())
}

/// Two paths name the same header when one ends with the other, whole
/// components compared.
pub open spec fn same_header(a: Seq<char>, b: Seq<char>) -> bool {
    path_ends_with_spec(a, b) || path_ends_with_spec(b, a)
}

/// Splits a path into its components, as `components` states.
pub fn path_components(s: &Vec<char>) -> (r: Vec<Vec<char>>)
    ensures
        views(r@) == components(s@),
{
    let mut done: Vec<Vec<char>> = Vec::new();
    if s.len() > 0 && (s[0] == '/' || (s[0] == '.' && (s.len() == 1 || s[1] == '/'))) {
        let mut lead: Vec<char> = Vec::new();
        lead.push(s[0]);
        assert(lead@ =~= seq![s@[0]]);
        done.push(lead);
    }
    let ghost first = views(done@);
    assert(first =~= (if has_root(s@) {
        seq![seq!['/']]
    } else if starts_at_cur_dir(s@) {
        seq![seq!['.']]
    } else {
        Seq::empty()
    }));
    let mut cur: Vec<char> = Vec::new();
    for i in 0..s.len()
        invariant
            views(done@) == first + scan_segments(s@.take(i as int)).0,
            cur@ == scan_segments(s@.take(i as int)).1,
    {
        let c = s[i];
        assert(s@.take(i + 1).drop_last() =~= s@.take(i as int));
        if c == '/' {
            let skip = cur.len() == 0 || (cur.len() == 1 && cur[0] == '.');
            assert(skip == skipped_segment(cur@)) by {
                if cur.len() == 1 && cur[0] == '.' {
                    assert(cur@ =~= seq!['.']);
                }
            }
            if !skip {
                let ghost before = views(done@);
                done.push(cur);
                assert(views(done@) =~= before.push(scan_segments(s@.take(i as int)).1));
            }
            cur = Vec::new();
            assert(views(done@) =~= first + scan_segments(s@.take(i + 1)).0);
        } else {
            cur.push(c);
        }
    }
    assert(s@.take(s.len() as int) =~= s@);
    let skip = cur.len() == 0 || (cur.len() == 1 && cur[0] == '.');
    assert(skip == skipped_segment(cur@)) by {
        if cur.len() == 1 && cur[0] == '.' {
            assert(cur@ =~= seq!['.']);
        }
    }
    if !skip {
        let ghost before = views(done@);
        done.push(cur);
        assert(views(done@) =~= before.push(scan_segments(s@).1));
    }
    assert(views(done@) =~= components(s@));
    done
}

/// Whether the component vector `a` ends with `b`.
pub fn components_end_with(a: &Vec<Vec<char>>, b: &Vec<Vec<char>>) -> (r: bool)
    ensures
        r == ends_with_components(views(a@), views(b@)),
{
    if b.len() > a.len() {
        return false;
    }
    let off = a.len() - b.len();
    for j in 0..b.len()
        invariant
            off + b.len() == a.len(),
            forall|k: int| 0 <= k < j ==> a@[off + k]@ == b@[k]@,
    {
        if !chars_equal(&a[off + j], &b[j]) {
            assert(views(a@).skip(off as int)[j as int] != views(b@)[j as int]);
            return false;
        }
    }
    assert(views(a@).skip(off as int) =~= views(b@));
    true
}

/// Whether a path, given by its components, lies under `/usr`.
pub fn components_are_system(a: &Vec<Vec<char>>) -> (r: bool)
    ensures
        r == starts_with_components(views(a@), system_root()),
{
    let r = a.len() >= 2 && a[0].len() == 1 && a[0][0] == '/' && a[1].len() == 3
        && a[1][0] == 'u' && a[1][1] == 's' && a[1][2] == 'r';
    if r {
        assert(a[0]@ =~= seq!['/']);
        assert(a[1]@ =~= seq!['u', 's', 'r']);
        assert(views(a@).take(2) =~= system_root());
    } else if a.len() >= 2 {
        assert(views(a@).take(2)[0] != system_root()[0] || views(a@).take(2)[1]
            != system_root()[1]);
    }
    r
}

/// Whether `path` lies under `/usr`, whole components compared.
pub fn path_is_system(path: &str) -> (r: bool)
    ensures
        r == is_system_path(path@),
{
    let c = path_components(&chars_of(path));
    components_are_system(&c)
}

/// Whether path `a` ends with path `b`, whole components compared.
pub fn path_ends_with(a: &str, b: &str) -> (r: bool)
    ensures
        r == path_ends_with_spec(a@, b@),
{
    let ca = path_components(&chars_of(a));
    let cb = path_components(&chars_of(b));
    components_end_with(&ca, &cb)
}

/// A value that names a file by its path.
pub trait PathLike {
    /// The path, as characters.
    spec fn path_view(&self) -> Seq<char>;

    /// The path.
    fn path(&self) -> (r: &str)
        ensures
            r@ == self.path_view(),
    ;

    /// Whether the path lies under `/usr`.
    fn is_system(&self) -> (r: bool)
        ensures
            r == is_system_path(self.path_view()),
    {
        path_is_system(self.path())
    }
}

} // verus!
