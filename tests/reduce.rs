use preprocessor::{path_ends_with, Error, ExpandedHeader, IncludedHeader, Line, PathLike, Preprocessor};

fn reduce(source: &str) -> String {
    Preprocessor::preprocess(source).unwrap()
}

#[test]
fn directive_lines_are_read() {
    assert_eq!(
        Preprocessor::parse_line("#include <stdio.h>").unwrap(),
        Line::IncludedHeader(IncludedHeader::new("stdio.h"))
    );
    assert_eq!(
        Preprocessor::parse_line("#  include <stdio.h>").unwrap(),
        Line::IncludedHeader(IncludedHeader::new("stdio.h"))
    );
    assert_eq!(
        Preprocessor::parse_line("#include \"trace.h\"").unwrap(),
        Line::IncludedHeader(IncludedHeader::new("trace.h"))
    );
    assert_eq!(
        Preprocessor::parse_line("include <x.h>").unwrap(),
        Line::IncludedHeader(IncludedHeader::new("x.h"))
    );
    assert_eq!(
        Preprocessor::parse_line("#include <>").unwrap(),
        Line::IncludedHeader(IncludedHeader::new(""))
    );
}

#[test]
fn near_directive_lines_are_text() {
    for line in ["#include<stdio.h>", "#include <stdio.h", "#includes <a.h>", "#define X 1"] {
        assert_eq!(
            Preprocessor::parse_line(line).unwrap(),
            Line::Other(String::from(line))
        );
    }
}

#[test]
fn marker_lines_are_read() {
    let line = Preprocessor::parse_line("# 133 \"/usr/include/stdio.h\" 3 4").unwrap();
    assert_eq!(
        line,
        Line::ExpandedHeader(ExpandedHeader::new(133, "/usr/include/stdio.h"))
    );
    let h = ExpandedHeader::parse_line("#\t7  \"a b.h\"").unwrap();
    assert_eq!(*h.line_no(), 7);
    assert_eq!(h.path(), "a b.h");
    let h = ExpandedHeader::parse_line("# 0 \"\"").unwrap();
    assert_eq!(*h.line_no(), 0);
    assert_eq!(h.path(), "");
}

#[test]
fn near_marker_lines_are_text() {
    for line in ["#1 \"a.h\"", "# 1\"a.h\"", "# x \"a.h\"", "# 1 a.h", "# 1 \"a.h", " # 1 \"a.h\""] {
        assert_eq!(
            Preprocessor::parse_line(line).unwrap(),
            Line::Other(String::from(line))
        );
    }
}

#[test]
fn wrong_shapes_are_format_errors() {
    match IncludedHeader::parse_line("int x;") {
        Err(Error::LineFormatError(t)) => assert_eq!(t, "int x;"),
        _ => panic!("expected a format error"),
    }
    match ExpandedHeader::parse_line("#include <a.h>") {
        Err(Error::LineFormatError(t)) => assert_eq!(t, "#include <a.h>"),
        _ => panic!("expected a format error"),
    }
}

#[test]
fn oversized_marker_number_is_an_error() {
    let digits = "99999999999999999999999";
    let line = format!("# {} \"a.h\"", digits);
    match ExpandedHeader::parse_line(&line) {
        Err(Error::UsizeParseError(d)) => assert_eq!(d, digits),
        _ => panic!("expected a number error"),
    }
    match Preprocessor::parse_line(&line) {
        Err(Error::UsizeParseError(d)) => assert_eq!(d, digits),
        _ => panic!("expected a number error"),
    }
    let unit = format!("int a;\n{}\nint b;\n", line);
    match Preprocessor::preprocess(&unit) {
        Err(Error::UsizeParseError(d)) => assert_eq!(d, digits),
        _ => panic!("expected a number error"),
    }
    let max = format!("# {} \"a.h\"", usize::MAX);
    assert_eq!(*ExpandedHeader::parse_line(&max).unwrap().line_no(), usize::MAX);
}

#[test]
fn system_paths() {
    assert!(ExpandedHeader::new(1, "/usr/include/stdio.h").is_system());
    assert!(!ExpandedHeader::new(1, "bad.c").is_system());
    assert!(!ExpandedHeader::new(1, "stdio.h").is_system());
    assert!(ExpandedHeader::new(1, "/usr").is_system());
    assert!(ExpandedHeader::new(1, "//usr/./include/x.h").is_system());
    assert!(!ExpandedHeader::new(1, "/usrlocal/x.h").is_system());
    assert!(!ExpandedHeader::new(1, "usr/include/x.h").is_system());
    assert!(!IncludedHeader::new("stdio.h").is_system());
}

#[test]
fn path_suffixes_compare_whole_components() {
    assert!(path_ends_with("/project/foo.h", "foo.h"));
    assert!(path_ends_with("/project/sub/foo.h", "sub/foo.h"));
    assert!(path_ends_with("/project/foo.h", "./foo.h") == false);
    assert!(!path_ends_with("/project/libfoo.h", "foo.h"));
    assert!(!path_ends_with("foo.h", "/project/foo.h"));
    assert!(path_ends_with("/a//b/./c.h", "b/c.h"));
    assert!(path_ends_with("/a/b.h", ""));
}

#[test]
fn system_body_is_dropped_and_markers_kept() {
    let unit = "# 1 \"/usr/include/stdio.h\"\nint x;\n# 2 \"main.c\"\n";
    assert_eq!(reduce(unit), "# 1 \"/usr/include/stdio.h\"\n# 2 \"main.c\"\n");
}

#[test]
fn directive_after_local_expansion_is_dropped() {
    let unit = "# 1 \"/project/foo.h\" 1\nint foo;\n# 3 \"main.c\" 2\n#include <foo.h>\nint main;\n";
    assert_eq!(
        reduce(unit),
        "# 1 \"/project/foo.h\" 1\nint foo;\n# 3 \"main.c\" 2\nint main;\n"
    );
}

#[test]
fn directive_before_later_expansion_is_dropped() {
    let unit = "#include \"foo.h\"\nint a;\n# 1 \"/project/foo.h\"\nint foo;\n";
    assert_eq!(reduce(unit), "int a;\n# 1 \"/project/foo.h\"\nint foo;\n");
}

#[test]
fn directive_in_system_body_is_dropped() {
    let unit = "# 1 \"/usr/include/stdio.h\" 1 3\n#include <bits/types.h>\nint y;\n# 9 \"main.c\" 2\n#include \"other.h\"\n";
    assert_eq!(
        reduce(unit),
        "# 1 \"/usr/include/stdio.h\" 1 3\n# 9 \"main.c\" 2\n#include \"other.h\"\n"
    );
}

#[test]
fn directive_matching_only_a_system_header_is_kept() {
    let unit = "# 1 \"/usr/include/stdio.h\"\n# 5 \"main.c\"\n#include <stdio.h>\n";
    assert_eq!(reduce(unit), "# 1 \"/usr/include/stdio.h\"\n# 5 \"main.c\"\n#include <stdio.h>\n");
}

#[test]
fn suffix_match_goes_both_ways_by_components() {
    let unit = "# 1 \"foo.h\"\n# 2 \"main.c\"\n#include \"sub/foo.h\"\n#include <libfoo.h>\n";
    assert_eq!(reduce(unit), "# 1 \"foo.h\"\n# 2 \"main.c\"\n#include <libfoo.h>\n");
}

#[test]
fn reduced_unit_is_a_fixed_point() {
    let unit = "# 1 \"main.c\"\nint a;\n#include <other.h>\n\n# 1 \"/project/foo.h\" 1\nint foo;\n";
    assert_eq!(reduce(unit), unit);
    let raw = "# 1 \"main.c\"\r\n#include \"foo.h\"\n# 1 \"/usr/include/stdio.h\" 1 3\nint x;\n# 1 \"/project/foo.h\" 1\nint foo;";
    let once = reduce(raw);
    assert_eq!(reduce(&once), once);
}

#[test]
fn empty_unit_reduces_to_empty_text() {
    assert_eq!(reduce(""), "");
}

#[test]
fn lines_are_split_as_text_lines() {
    assert_eq!(reduce("a\r\nb"), "a\nb\n");
    assert_eq!(reduce("\n\n"), "\n\n");
    assert_eq!(reduce("a\rb\n"), "a\rb\n");
    assert_eq!(reduce("x\r"), "x\r\n");
    assert_eq!(reduce("int \u{e9};\n"), "int \u{e9};\n");
}

#[test]
fn non_ascii_marker_digits_are_an_error() {
    let line = "# \u{661} \"a\"";
    match Preprocessor::parse_line(line) {
        Err(Error::UsizeParseError(d)) => assert_eq!(d, "\u{661}"),
        _ => panic!("expected a number error"),
    }
    match ExpandedHeader::parse_line(line) {
        Err(Error::UsizeParseError(d)) => assert_eq!(d, "\u{661}"),
        _ => panic!("expected a number error"),
    }
    match Preprocessor::preprocess("int a;\n# 1\u{966}2 \"a.h\" 1\n") {
        Err(Error::UsizeParseError(d)) => assert_eq!(d, "1\u{966}2"),
        _ => panic!("expected a number error"),
    }
}

#[test]
fn headers_clone_to_equal_values() {
    let h = ExpandedHeader::new(3, "/p/a.h");
    assert_eq!(h.clone(), h);
    let i = IncludedHeader::new("a.h");
    assert_eq!(i.clone(), i);
}
