use rninja::parser::parse;
use rninja::strmap::StrMap;
use rninja::tools::{compdb_entries, expand_variables};

fn vars(pairs: &[(&str, &str)]) -> StrMap<String> {
    let mut m = StrMap::new();
    for (k, v) in pairs {
        m.insert(k.to_string(), v.to_string());
    }
    m
}

#[test]
fn expand_variables_forms() {
    let v = vars(&[("cc", "gcc"), ("in", "a.c"), ("flags", "-O2 $in")]);
    assert_eq!(expand_variables("$cc ${flags} $in", &v), "gcc -O2 $in a.c");
    assert_eq!(expand_variables("cost $$5", &v), "cost $5");
    assert_eq!(expand_variables("$unknown!", &v), "!");
    assert_eq!(expand_variables("a $ b", &v), "a $ b");
    assert_eq!(expand_variables("${open", &v), "${open");
    assert_eq!(expand_variables("end$", &v), "end$");
    assert_eq!(expand_variables("${}", &v), "");
}

#[test]
fn compdb_lists_c_sources_with_expanded_command() {
    let m = parse(
        "cflags = -g\nrule cc\n  command = gcc $cflags -c $in -o $out\nbuild a.o: cc a.c\n  cflags = -O2\nbuild b.o: cc b.txt\nbuild c.o: cc c.cpp d.mm\nrule cp\n  description = copy\nbuild e: cp e.c\n",
    )
    .unwrap();
    let e = compdb_entries(&m);
    assert_eq!(e.len(), 3);
    assert_eq!(e[0].command, "gcc -O2 -c a.c -o a.o");
    assert_eq!(e[0].file, "a.c");
    assert_eq!(e[0].output, "a.o");
    assert_eq!(e[1].command, "gcc -g -c c.cpp d.mm -o c.o");
    assert_eq!(e[1].file, "c.cpp");
    assert_eq!(e[2].file, "d.mm");
}

#[test]
fn expand_variables_unicode_names() {
    let v = vars(&[("é", "x"), ("ab", "y")]);
    assert_eq!(expand_variables("a $é b", &v), "a x b");
    assert_eq!(expand_variables("$ab-${é}", &v), "y-x");
}

#[test]
fn compdb_checkable_matches_scannable_templates() {
    let ok = parse("rule cc\n  command = gcc -c $in -o $out\nbuild a.o: cc a.c\n").unwrap();
    assert!(rninja::tools::compdb_checkable(&ok));
    let bad = parse("rule cc\n  command = gcc é $in\nbuild a.o: cc a.c\n").unwrap();
    assert!(!rninja::tools::compdb_checkable(&bad));
    assert!(rninja::tools::scannable("a $é b"));
    assert!(!rninja::tools::scannable("é"));
}
