use preprocessor::command::{compile_command_args, preprocessing_command, CommandError};
use preprocessor::file_kind::{is_header_file, is_source_file, is_to_be_patched};

fn words(ws: &[&str]) -> Vec<String> {
    ws.iter().map(|w| w.to_string()).collect()
}

#[test]
fn compile_becomes_preprocess() {
    let r = preprocessing_command(words(&["cc", "-Wall", "-c", "a.c", "-o", "a.o"])).unwrap();
    assert_eq!(r, words(&["cc", "-Wall", "-E", "a.c", "-dI"]));
}

#[test]
fn output_before_compile_flag() {
    let r = preprocessing_command(words(&["cc", "-o", "a.o", "-c", "a.c"])).unwrap();
    assert_eq!(r, words(&["cc", "-E", "a.c", "-dI"]));
}

#[test]
fn missing_compile_flag_adds_preprocess_flag() {
    let r = preprocessing_command(words(&["cc", "a.c"])).unwrap();
    assert_eq!(r, words(&["cc", "a.c", "-E", "-dI"]));
}

#[test]
fn only_first_flags_are_rewritten() {
    let r = preprocessing_command(words(&["cc", "-c", "-c", "-o", "x", "-o", "y"])).unwrap();
    assert_eq!(r, words(&["cc", "-E", "-c", "-o", "y", "-dI"]));
}

#[test]
fn bad_argument_lists_are_format_errors() {
    assert!(matches!(preprocessing_command(Vec::new()), Err(CommandError::CommandFormatError)));
    assert!(matches!(
        preprocessing_command(words(&["cc", "a.c", "-o"])),
        Err(CommandError::CommandFormatError)
    ));
}

#[test]
fn command_line_is_split_as_a_shell_does() {
    let r = compile_command_args(None, Some(String::from("cc -c 'a b.c' -o \"x.o\""))).unwrap();
    assert_eq!(r, words(&["cc", "-E", "a b.c", "-dI"]));
}

#[test]
fn argument_list_comes_first() {
    let r = compile_command_args(Some(words(&["gcc", "-c", "m.c"])), Some(String::from("cc x.c")))
        .unwrap();
    assert_eq!(r, words(&["gcc", "-E", "m.c", "-dI"]));
}

#[test]
fn command_errors() {
    assert!(matches!(
        compile_command_args(None, Some(String::from("cc 'a.c"))),
        Err(CommandError::ShellWordsParseError(_))
    ));
    assert!(matches!(compile_command_args(None, None), Err(CommandError::CommandFormatError)));
    assert!(matches!(
        compile_command_args(None, Some(String::from("   "))),
        Err(CommandError::CommandFormatError)
    ));
}

#[test]
fn file_kinds_by_extension() {
    for p in ["a.c", "dir/b.cpp", "/x/y.cc", "a.c/", "x.tar.c"] {
        assert!(is_source_file(p), "{}", p);
        assert!(is_to_be_patched(p), "{}", p);
    }
    for p in ["a.h", "a.hpp"] {
        assert!(is_header_file(p), "{}", p);
        assert!(!is_source_file(p), "{}", p);
        assert!(is_to_be_patched(p), "{}", p);
    }
    for p in [".c", "a.", "c", "a.C", "a.cxx", "dir.c/..", "/", "a.o"] {
        assert!(!is_source_file(p), "{}", p);
        assert!(!is_header_file(p), "{}", p);
        assert!(!is_to_be_patched(p), "{}", p);
    }
}
