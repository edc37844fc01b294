use rninja::error::ParseError;
use rninja::parser::lexer::Lexer;
use rninja::parser::{parse, parse_with_files, LoadedFile};

#[test]
fn test_simple_lines() {
    let content = "line1\nline2\nline3";
    let mut lexer = Lexer::new(content);
    assert_eq!(lexer.next_line(), Some("line1".to_string()));
    assert_eq!(lexer.next_line(), Some("line2".to_string()));
    assert_eq!(lexer.next_line(), Some("line3".to_string()));
    assert_eq!(lexer.next_line(), None);
}

#[test]
fn test_line_continuation() {
    let content = "line1 $\ncontinued";
    let mut lexer = Lexer::new(content);
    assert_eq!(lexer.next_line(), Some("line1  continued".to_string()));
}

#[test]
fn test_escaped_dollar() {
    let content = "echo $$PATH";
    let mut lexer = Lexer::new(content);
    assert_eq!(lexer.next_line(), Some("echo $$PATH".to_string()));
}

#[test]
fn test_peek() {
    let content = "line1\nline2";
    let mut lexer = Lexer::new(content);
    assert_eq!(lexer.peek_line(), Some("line1"));
    assert_eq!(lexer.peek_line(), Some("line1"));
    assert_eq!(lexer.next_line(), Some("line1".to_string()));
    assert_eq!(lexer.peek_line(), Some("line2"));
}

#[test]
fn lexer_counts_physical_lines() {
    let mut lexer = Lexer::new("a $\nb\nc");
    assert_eq!(lexer.line_number(), 0);
    assert_eq!(lexer.next_line(), Some("a  b".to_string()));
    assert_eq!(lexer.line_number(), 2);
    assert_eq!(lexer.next_line(), Some("c".to_string()));
    assert_eq!(lexer.line_number(), 3);
    assert_eq!(lexer.peek_line(), None);
}

#[test]
fn lexer_continued_last_line_ends_input() {
    let mut lexer = Lexer::new("a $");
    assert_eq!(lexer.next_line(), None);
}

#[test]
fn test_parse_simple_rule() {
    let content = r#"
rule cc
    command = gcc -c $in -o $out
    description = Compiling $in
"#;
    let manifest = parse(content).unwrap();
    assert!(manifest.rules.contains_key("cc"));
    let rule = manifest.rules.get("cc").unwrap();
    assert_eq!(rule.command, Some("gcc -c $in -o $out".to_string()));
}

#[test]
fn test_parse_build() {
    let content = r#"
rule cc
    command = gcc -c $in -o $out

build foo.o: cc foo.c | header.h
"#;
    let manifest = parse(content).unwrap();
    assert_eq!(manifest.builds.len(), 1);
    let build = &manifest.builds[0];
    assert_eq!(build.outputs, vec!["foo.o"]);
    assert_eq!(build.rule, "cc");
    assert_eq!(build.inputs, vec!["foo.c"]);
    assert_eq!(build.implicit_deps, vec!["header.h"]);
}

#[test]
fn test_parse_default() {
    let content = r#"
default foo bar
"#;
    let manifest = parse(content).unwrap();
    assert_eq!(manifest.defaults, vec!["foo", "bar"]);
}

#[test]
fn test_parse_pool() {
    let content = r#"
pool link_pool
    depth = 4
"#;
    let manifest = parse(content).unwrap();
    assert!(manifest.pools.contains_key("link_pool"));
    assert_eq!(manifest.pools.get("link_pool").unwrap().depth, 4);
}

#[test]
fn test_parse_variables() {
    let content = r#"
builddir = out
cflags = -Wall

rule cc
    command = gcc $cflags -c $in -o $out

build $builddir/foo.o: cc foo.c
"#;
    let manifest = parse(content).unwrap();
    assert_eq!(manifest.variables.get("builddir"), Some(&"out".to_string()));
    assert_eq!(manifest.builds[0].outputs, vec!["out/foo.o"]);
}

#[test]
fn parse_order_only_and_build_variables() {
    let content = "rule cc\n  command = x\nbuild a b: cc c d | e || f g\n  flags = -O2\n";
    let m = parse(content).unwrap();
    let b = &m.builds[0];
    assert_eq!(b.outputs, vec!["a", "b"]);
    assert_eq!(b.inputs, vec!["c", "d"]);
    assert_eq!(b.implicit_deps, vec!["e"]);
    assert_eq!(b.order_only_deps, vec!["f", "g"]);
    assert_eq!(b.variables.get("flags"), Some(&"-O2".to_string()));
    assert_eq!(b.all_deps(), vec!["c", "d", "e", "f", "g"]);
    assert_eq!(b.all_outputs(), vec!["a", "b"]);
}

#[test]
fn parse_rule_flags_and_unknown_keys() {
    let content = "rule r\n  generator = 1\n  restat = true\n  deps = gcc\n  extra = v\n";
    let m = parse(content).unwrap();
    let r = m.rules.get("r").unwrap();
    assert!(r.generator);
    assert!(r.restat);
    assert_eq!(r.deps, Some("gcc".to_string()));
    assert_eq!(r.variables.get("extra"), Some(&"v".to_string()));
}

#[test]
fn parse_pool_bad_depth_is_one() {
    let m = parse("pool p\n  depth = lots\n").unwrap();
    assert_eq!(m.pools.get("p").unwrap().depth, 1);
    let m = parse("pool p\n  depth = +7\n").unwrap();
    assert_eq!(m.pools.get("p").unwrap().depth, 7);
}

#[test]
fn parse_errors() {
    match parse("rule a\nrule a\n") {
        Err(ParseError::DuplicateRule { name }) => assert_eq!(name, "a"),
        other => panic!("unexpected {:?}", other),
    }
    match parse("\nbuild foo\n") {
        Err(ParseError::Syntax { line, message }) => {
            assert_eq!(line, 2);
            assert_eq!(message, "build line missing ':'");
        }
        other => panic!("unexpected {:?}", other),
    }
    match parse("build : cc\n") {
        Err(ParseError::Syntax { line, message }) => {
            assert_eq!(line, 1);
            assert_eq!(message, "build line has no outputs");
        }
        other => panic!("unexpected {:?}", other),
    }
    match parse("garbage here\n") {
        Err(ParseError::Syntax { line, message }) => {
            assert_eq!(line, 1);
            assert_eq!(message, "unexpected line: garbage here");
        }
        other => panic!("unexpected {:?}", other),
    }
    match parse("rule a\n  command = x $") {
        Err(ParseError::Syntax { line, message }) => {
            assert_eq!(line, 1);
            assert_eq!(message, "unexpected end of file while parsing rule");
        }
        other => panic!("unexpected {:?}", other),
    }
}

#[test]
fn parse_include_needs_file() {
    match parse("include other.ninja\n") {
        Err(ParseError::FileNeeded { path, line }) => {
            assert_eq!(path, "other.ninja");
            assert_eq!(line, 1);
        }
        other => panic!("unexpected {:?}", other),
    }
}

#[test]
fn parse_include_and_subninja() {
    let files = vec![
        LoadedFile {
            path: "dir/inc.ninja".to_string(),
            content: Ok("x = 1\nrule cc\n  command = cc\n".to_string()),
        },
        LoadedFile {
            path: "dir/sub.ninja".to_string(),
            content: Ok("y = 2\nbuild o: cc i\ndefault o\n".to_string()),
        },
    ];
    let m = parse_with_files(
        "include inc.ninja\nsubninja sub.ninja\n",
        Some("dir".to_string()),
        &files,
    )
    .unwrap();
    assert_eq!(m.variables.get("x"), Some(&"1".to_string()));
    assert_eq!(m.variables.get("y"), None);
    assert_eq!(m.builds.len(), 1);
    assert_eq!(m.defaults, vec!["o"]);
    assert_eq!(m.includes, vec!["inc.ninja"]);
    assert_eq!(m.subninjas, vec!["sub.ninja"]);
    assert!(m.rules.contains_key("cc"));
}

#[test]
fn parse_circular_include() {
    let files = vec![LoadedFile {
        path: "a.ninja".to_string(),
        content: Ok("include a.ninja\n".to_string()),
    }];
    match parse_with_files("include a.ninja\n", None, &files) {
        Err(ParseError::CircularInclude { path }) => assert_eq!(path, "a.ninja"),
        other => panic!("unexpected {:?}", other),
    }
}

#[test]
fn parse_include_read_error() {
    let files = vec![LoadedFile {
        path: "b.ninja".to_string(),
        content: Err("No such file".to_string()),
    }];
    match parse_with_files("x = 1\ninclude b.ninja\n", None, &files) {
        Err(ParseError::Syntax { line, message }) => {
            assert_eq!(line, 2);
            assert_eq!(message, "failed to include b.ninja: No such file");
        }
        other => panic!("unexpected {:?}", other),
    }
}

#[test]
fn parse_error_messages() {
    let e = ParseError::Syntax { line: 3, message: "bad".to_string() };
    assert_eq!(e.message(), "line 3: bad");
    let e = ParseError::DuplicateRule { name: "cc".to_string() };
    assert_eq!(e.message(), "duplicate rule 'cc'");
}

#[test]
fn build_line_splits_implicit_outputs() {
    let content = "rule cc\n  command = gcc -c $in -o $out\nbuild foo.o | foo.d: cc foo.c\n";
    let m = parse(content).unwrap();
    let b = &m.builds[0];
    assert_eq!(b.outputs, vec!["foo.o".to_string()]);
    assert_eq!(b.implicit_outputs, vec!["foo.d".to_string()]);
    assert_eq!(b.inputs, vec!["foo.c".to_string()]);
    assert_eq!(b.rule, "cc");
    assert_eq!(b.all_outputs(), vec!["foo.o".to_string(), "foo.d".to_string()]);
    assert!(parse("build | foo.d: phony\n").is_err());
}

#[test]
fn variables_expand_by_whole_name() {
    let content = "b = X\nbuilddir = out\nbuild $builddir/foo.o: phony\nbuild ${b}/bar.o: phony\nbuild $bx/$b: phony\n";
    let m = parse(content).unwrap();
    assert_eq!(m.builds[0].outputs, vec!["out/foo.o".to_string()]);
    assert_eq!(m.variables.get("builddir"), Some(&"out".to_string()));
    assert_eq!(m.builds[1].outputs, vec!["X/bar.o".to_string()]);
    // An unknown name stays as it is.
    assert_eq!(m.builds[2].outputs, vec!["$bx/X".to_string()]);
}
