use vstd::prelude::*;
use crate::text::{chars_match, chars_of};

verus! {

/// Declares `shell_words::ParseError`, the error of `shell_words::split`,
/// which is carried through unread.
#[verifier::external_type_specification]
#[verifier::external_body]
pub struct ExParseError(shell_words::ParseError);

/// The words that `shell_words::split` reads from a command line; `None`
/// where it fails (a quote left open).
pub uninterp spec fn shell_split(s: Seq<char>) -> Option<Seq<Seq<char>>>;

/// The character views of a sequence of strings.
pub open spec fn string_views(v: Seq<String>) -> Seq<Seq<char>> {
    v.map_values(|s: String| s@)
}

/// Relies on `shell_words::split`: the words of a command line, read as a
/// Unix shell reads them; the result depends on the text alone.
#[verifier::external_body]
fn split_words(s: &str) -> (r: Result<Vec<String>, shell_words::ParseError>)
    ensures
        match r {
            Ok(v) => shell_split(s@) == Some(string_views(v@)),
            Err(_) => shell_split(s@) is None,
        },
{
    shell_words::split(s)
}

/// Why no compiler command could be made from a compile command.
#[derive(Debug)]
pub enum CommandError {
    /// The command line leaves a quote open.
    ShellWordsParseError(shell_words::ParseError),
    /// The command has no words, names none, or ends in `-o` with no output.
    CommandFormatError,
}

/// The first index at which `args` holds `w`.
pub open spec fn first_index(args: Seq<Seq<char>>, w: Seq<char>) -> Option<int>
    decreases args.len(),
{
    if args.len() == 0 {
        None
    } else {
        match first_index(args.drop_last(), w) {
            Some(i) => Some(i),
            None => if args.last() == w {
                Some(args.len() - 1)
            } else {
                None
            },
        }
    }
}

/// The option that asks for compilation only.
pub open spec fn compile_flag() -> Seq<char> {
    seq!['-', 'c']
}

/// The option that names the output.
pub open spec fn output_flag() -> Seq<char> {
    seq!['-', 'o']
}

/// The option that asks for preprocessing only.
pub open spec fn preprocess_flag() -> Seq<char> {
    seq!['-', 'E']
}

/// The option that asks the preprocessor to trace header directives.
pub open spec fn trace_flag() -> Seq<char> {
    seq!['-', 'd', 'I']
}

/// The compiler command that preprocesses instead of compiling: the first
/// `-c` becomes `-E` (or `-E` is added at the end when there is none), the
/// first `-o` and the word after it are removed, and `-dI` is added at the
/// end. `None` when there is no word, or when `-o` is the last word.
pub open spec fn preprocessing_args(args: Seq<Seq<char>>) -> Option<Seq<Seq<char>>> {
    let c = first_index(args, compile_flag());
    let o = first_index(args, output_flag());
    let a = match c {
        Some(i) => args.update(i, preprocess_flag()),
        None => args,
    };
    if args.len() == 0 || (o matches Some(i) && i + 1 >= args.len()) {
        None
    } else {
        let b = match o {
            Some(i) => a.remove(i + 1).remove(i),
            None => a,
        };
        let e = match c {
            Some(_) => b,
            None => b.push(preprocess_flag()),
        };
        Some(e.push(trace_flag()))
    }
}

/// Whether `s` holds exactly the characters `w`.
fn is_word(s: &String, w: &[char]) -> (r: bool)
    ensures
        r == (s@ == w@),
{
    chars_match(&chars_of(s.as_str()), w)
}

/// A string of the characters `w`.
fn word(w: &[char]) -> (r: String)
    ensures
        r@ == w@,
{
    let mut r = String::new();
    for i in 0..w.len()
        invariant
            r@ == w@.take(i as int),
    {
        r.push(w[i]);
        assert(r@ =~= w@.take(i + 1));
    }
    assert(w@.take(w.len() as int) =~= w@);
    r
}

/// The first index at which `args` holds `w`.
fn find_word(args: &Vec<String>, w: &[char]) -> (r: Option<usize>)
    ensures
        match first_index(string_views(args@), w@) {
            Some(i) => r matches Some(j) && j == i,
            None => r is None,
        },
        r matches Some(i) ==> i < args.len(),
{
    let ghost v = string_views(args@);
    let mut i: usize = 0;
    while i < args.len()
        invariant
            v == string_views(args@),
            i <= args.len(),
            first_index(v.take(i as int), w@) is None,
        decreases args.len() - i,
    {
        assert(v.take(i + 1).drop_last() =~= v.take(i as int));
        if is_word(&args[i], w) {
            proof {
                lemma_first_index_prefix(v, w@, i + 1);
            }
            return Some(i);
        }
        i = i + 1;
    }
    assert(v.take(args.len() as int) =~= v);
    None
}

/// Where a prefix already holds `w`, its first index is that of the whole.
proof fn lemma_first_index_prefix(v: Seq<Seq<char>>, w: Seq<char>, n: int)
    requires
        0 <= n <= v.len(),
        first_index(v.take(n), w) is Some,
    ensures
        first_index(v, w) == first_index(v.take(n), w),
    decreases v.len() - n,
{
    if n < v.len() {
        assert(v.take(n + 1).take(n) =~= v.take(n));
        assert(v.take(n + 1).drop_last() =~= v.take(n));
        lemma_first_index_prefix(v, w, n + 1);
    } else {
        assert(v.take(n) =~= v);
    }
}

/// The compiler command that preprocesses instead of compiling, as
/// `preprocessing_args` states; `CommandFormatError` where that is `None`.
pub fn preprocessing_command(args: Vec<String>) -> (r: Result<Vec<String>, CommandError>)
    ensures
        match preprocessing_args(string_views(args@)) {
            Some(a) => r matches Ok(v) && string_views(v@) == a,
            None => r matches Err(CommandError::CommandFormatError),
        },
{
    let ghost v0 = string_views(args@);
    let mut args = args;
    if args.len() == 0 {
        return Err(CommandError::CommandFormatError);
    }
    let cf: [char; 2] = ['-', 'c'];
    let of: [char; 2] = ['-', 'o'];
    let ef: [char; 2] = ['-', 'E'];
    let tf: [char; 3] = ['-', 'd', 'I'];
    let cs = cf.as_slice();
    let os = of.as_slice();
    let es = ef.as_slice();
    let ts = tf.as_slice();
    proof {
        assert(cs@ =~= compile_flag());
        assert(os@ =~= output_flag());
        assert(es@ =~= preprocess_flag());
        assert(ts@ =~= trace_flag());
    }
    let c = find_word(&args, cs);
    let o = find_word(&args, os);
    if let Some(i) = o {
        if i >= args.len() - 1 {
            return Err(CommandError::CommandFormatError);
        }
    }
    if let Some(i) = c {
        args.set(i, word(es));
    }
    assert(string_views(args@) =~= match c {
        Some(i) => v0.update(i as int, preprocess_flag()),
        None => v0,
    });
    if let Some(i) = o {
        let ghost a = string_views(args@);
        args.remove(i + 1);
        args.remove(i);
        assert(string_views(args@) =~= a.remove(i + 1).remove(i as int));
    }
    if c.is_none() {
        let ghost b = string_views(args@);
        args.push(word(es));
        assert(string_views(args@) =~= b.push(preprocess_flag()));
    }
    let ghost e = string_views(args@);
    args.push(word(ts));
    assert(string_views(args@) =~= e.push(trace_flag()));
    Ok(args)
}

/// The compiler command that preprocesses the file of a compile command,
/// given by its argument list or its command line. Fails with
/// `ShellWordsParseError` where the command line cannot be split, and with
/// `CommandFormatError` where there is neither, or where
/// `preprocessing_args` gives `None`.
pub fn compile_command_args(arguments: Option<Vec<String>>, command: Option<String>) -> (r: Result<
    Vec<String>,
    CommandError,
>)
    ensures
        match arguments {
            Some(a) => match preprocessing_args(string_views(a@)) {
                Some(x) => r matches Ok(v) && string_views(v@) == x,
                None => r matches Err(CommandError::CommandFormatError),
            },
            None => match command {
                None => r matches Err(CommandError::CommandFormatError),
                Some(c) => match shell_split(c@) {
                    None => r matches Err(CommandError::ShellWordsParseError(_)),
                    Some(w) => match preprocessing_args(w) {
                        Some(x) => r matches Ok(v) && string_views(v@) == x,
                        None => r matches Err(CommandError::CommandFormatError),
                    },
                },
            },
        },
{
    let words = match arguments {
        Some(a) => a,
        None => match command {
            Some(c) => match split_words(c.as_str()) {
                Ok(w) => w,
                Err(e) => {
                    return Err(CommandError::ShellWordsParseError(e));
                },
            },
            None => {
                return Err(CommandError::CommandFormatError);
            },
        },
    };
    preprocessing_command(words)
}

} // verus!
