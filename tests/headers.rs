use preprocessor::{path_ends_with, ExpandedHeader, IncludedHeader, Line, PathLike, Preprocessor};

#[test]
fn expanded_header_parse_line() {
    assert_eq!(
        ExpandedHeader::parse_line("# 133 \"/usr/include/stdio.h\" 3 4").unwrap(),
        ExpandedHeader::new(133, "/usr/include/stdio.h")
    );
    assert_eq!(
        ExpandedHeader::parse_line("# 1 \"bad.c\" 2").unwrap(),
        ExpandedHeader::new(1, "bad.c")
    );
}

#[test]
fn expanded_header_is_system() {
    assert_eq!(
        ExpandedHeader::new(1, "/usr/include/stdio.h").is_system(),
        true
    );
    assert_eq!(ExpandedHeader::new(0, "bad.c").is_system(), false);
}

#[test]
fn included_header_parse_line() {
    assert_eq!(
        IncludedHeader::parse_line("#include <stdio.h>").unwrap(),
        IncludedHeader::new("stdio.h")
    );
    assert_eq!(
        IncludedHeader::parse_line("#\tinclude <stdio.h>").unwrap(),
        IncludedHeader::new("stdio.h")
    );
    assert_eq!(
        IncludedHeader::parse_line("#  include <stdio.h>").unwrap(),
        IncludedHeader::new("stdio.h")
    );
    assert_eq!(
        IncludedHeader::parse_line("#include  <stdio.h>").unwrap(),
        IncludedHeader::new("stdio.h")
    );
    assert_eq!(
        IncludedHeader::parse_line("#include \"trace.h\"").unwrap(),
        IncludedHeader::new("trace.h")
    );
    assert_eq!(
        IncludedHeader::parse_line("#include \"png.h\" /* clang -E -dI */").unwrap(),
        IncludedHeader::new("png.h")
    );
}

#[test]
fn included_header_is_system() {
    assert_eq!(
        IncludedHeader::new("/usr/include/stdio.h").is_system(),
        true
    );
    assert_eq!(IncludedHeader::new("bad.c").is_system(), false);
}

#[test]
fn mod_parse_line() {
    assert_eq!(
        Preprocessor::parse_line("# 46 \"/usr/lib/llvm-16/lib/clang/16/include/stddef.h\" 3 4")
            .unwrap(),
        Line::ExpandedHeader(ExpandedHeader::new(
            46,
            "/usr/lib/llvm-16/lib/clang/16/include/stddef.h"
        ))
    );
    assert_eq!(
        Preprocessor::parse_line("#include <trace.h>").unwrap(),
        Line::IncludedHeader(IncludedHeader::new("trace.h"))
    );
    assert_eq!(
        Preprocessor::parse_line("").unwrap(),
        Line::Other(String::from(""))
    );
    assert_eq!(
        Preprocessor::parse_line("typedef unsigned long int __uint64_t;").unwrap(),
        Line::Other(String::from("typedef unsigned long int __uint64_t;"))
    );
}

#[test]
fn path() {
    let header1 = ExpandedHeader::new(0, "/source/magma/targets/libpng/repo/png.h");
    let header2 = IncludedHeader::new("png.h");
    assert!(path_ends_with(header1.path(), header2.path()));
}
