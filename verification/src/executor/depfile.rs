//! Makefile-style depfiles (`gcc -MD` output).
//!
//! Format: `target: dep1 dep2 dep3 \` with continued lines.
use vstd::prelude::*;
use crate::text::{chars_of, cviews, find_first, has_prefix, replace, replace_chars, split_once, split_once_char, string_of, trim, trim_chars, views};

verus! {

/// A parsed depfile.
#[derive(Debug, Default, Clone)]
pub struct DepfileResult {
    /// The target (output) file.
    pub target: String,
    /// The dependencies found, each once, in the order first named.
    pub deps: Vec<String>,
}

/// `acc` with the word `cur` added, unless it is empty or already there.
pub open spec fn add_dep(acc: Seq<Seq<char>>, cur: Seq<char>) -> Seq<Seq<char>> {
    if cur.len() > 0 && !acc.contains(cur) {
        acc.push(cur)
    } else {
        acc
    }
}

/// Whether `c` separates dependencies.
pub open spec fn is_sep(c: char) -> bool {
    c == ' ' || c == '\t' || c == '\n' || c == '\r'
}

/// The dependencies in `s`, read from the left with the word `cur` in
/// progress and the dependencies `acc` found so far.  A backslash before a
/// space, `#` or backslash escapes it; before anything else it is kept; at
/// the very end it is dropped.
pub open spec fn dep_scan(s: Seq<char>, cur: Seq<char>, acc: Seq<Seq<char>>) -> Seq<Seq<char>>
    decreases s.len(),
{
    if s.len() == 0 {
        add_dep(acc, cur)
    } else {
        let c = s[0];
        if c == '\\' {
            if s.len() >= 2 {
                let n = s[1];
                if n == ' ' || n == '#' || n == '\\' {
                    dep_scan(s.skip(2), cur.push(n), acc)
                } else {
                    dep_scan(s.skip(1), cur.push('\\'), acc)
                }
            } else {
                dep_scan(s.skip(1), cur, acc)
            }
        } else if is_sep(c) {
            dep_scan(s.skip(1), Seq::empty(), add_dep(acc, cur))
        } else {
            dep_scan(s.skip(1), cur.push(c), acc)
        }
    }
}

/// The depfile's text with continued lines joined (`\` newline and `\`
/// CR LF become a space).
pub open spec fn joined(content: Seq<char>) -> Seq<char> {
    replace(replace(content, seq!['\\', '\n'], seq![' ']), seq!['\\', '\r', '\n'], seq![' '])
}

/// The target and dependencies of a depfile, if it has a `:`.
pub open spec fn depfile_spec(content: Seq<char>) -> Option<(Seq<char>, Seq<Seq<char>>)> {
    match split_once(joined(content), ':') {
        None => None,
        Some((t, d)) => Some((trim(t), dep_scan(d, Seq::empty(), Seq::empty()))),
    }
}

/// The error of a depfile without `:` (an I/O error of kind `InvalidData`).
#[verifier::external_body]
fn missing_colon() -> std::io::Error {
    std::io::Error::new(std::io::ErrorKind::InvalidData, "depfile missing ':'")
}

fn add_dep_exec(acc: &mut Vec<String>, cur: &Vec<char>)
    ensures
        views(final(acc)@) == add_dep(views(old(acc)@), cur@),
{
    if cur.len() > 0 {
        let s = string_of(cur);
        if !crate::graph::contains_str(acc, s.as_str()) {
            let ghost a0 = acc@;
            acc.push(s);
            proof {
                assert(views(acc@) =~= views(a0).push(cur@));
            }
        }
    }
}

/// Parses the text of a depfile: the target before the first `:` and the
/// dependencies after it.
pub fn parse_content(content: &str) -> (r: Result<DepfileResult, std::io::Error>)
    ensures
        match depfile_spec(content@) {
            Some((t, ds)) => r is Ok && r->Ok_0.target@ == t && views(r->Ok_0.deps@) == ds,
            None => r is Err,
        },
{
    let c0 = chars_of(content);
    let p1: Vec<char> = vec!['\\', '\n'];
    let p2: Vec<char> = vec!['\\', '\r', '\n'];
    let sp: Vec<char> = vec![' '];
    proof {
        assert(p1@ =~= seq!['\\', '\n']);
        assert(p2@ =~= seq!['\\', '\r', '\n']);
        assert(sp@ =~= seq![' ']);
    }
    let c1 = replace_chars(&c0, &p1, &sp);
    let c2 = replace_chars(&c1, &p2, &sp);
    let (t, d) = match split_once_char(&c2, ':') {
        None => {
            return Err(missing_colon());
        },
        Some(x) => x,
    };
    let target = string_of(&trim_chars(&t));
    let mut deps: Vec<String> = Vec::new();
    let mut cur: Vec<char> = Vec::new();
    let mut i: usize = 0;
    let ghost goal = dep_scan(d@, Seq::empty(), Seq::empty());
    proof {
        assert(d@.skip(0) =~= d@);
        assert(views(deps@) =~= Seq::<Seq<char>>::empty());
    }
    while i < d.len()
        invariant
            i <= d@.len(),
            goal == dep_scan(d@, Seq::empty(), Seq::empty()),
            goal == dep_scan(d@.skip(i as int), cur@, views(deps@)),
        decreases d.len() - i,
    {
        let c = d[i];
        let ghost rest = d@.skip(i as int);
        assert(rest[0] == c);
        if c == '\\' {
            if i + 1 < d.len() {
                let n = d[i + 1];
                assert(rest[1] == n);
                if n == ' ' || n == '#' || n == '\\' {
                    cur.push(n);
                    proof {
                        assert(rest.skip(2) =~= d@.skip(i + 2));
                    }
                    i = i + 2;
                } else {
                    cur.push('\\');
                    proof {
                        assert(rest.skip(1) =~= d@.skip(i + 1));
                    }
                    i = i + 1;
                }
            } else {
                proof {
                    assert(rest.skip(1) =~= d@.skip(i + 1));
                }
                i = i + 1;
            }
        } else if c == ' ' || c == '\t' || c == '\n' || c == '\r' {
            add_dep_exec(&mut deps, &cur);
            cur = Vec::new();
            proof {
                assert(rest.skip(1) =~= d@.skip(i + 1));
            }
            i = i + 1;
        } else {
            cur.push(c);
            proof {
                assert(rest.skip(1) =~= d@.skip(i + 1));
            }
            i = i + 1;
        }
    }
    add_dep_exec(&mut deps, &cur);
    proof {
        assert(d@.skip(i as int) =~= Seq::<char>::empty());
    }
    Ok(DepfileResult { target, deps })
}

/// Whether `w` can be a dependency read from a depfile: it is not empty
/// and holds no tab, newline or carriage return, and, when `plain` (no
/// backslash could have escaped one), no space either.
pub open spec fn dep_word(w: Seq<char>, plain: bool) -> bool {
    w.len() > 0 && forall|k: int|
        0 <= k < w.len() ==> #[trigger] w[k] != '\t' && w[k] != '\n' && w[k] != '\r' && (plain ==> w[k]
            != ' ')
}

proof fn lemma_dep_scan_words(s: Seq<char>, cur: Seq<char>, acc: Seq<Seq<char>>, plain: bool)
    requires
        plain ==> forall|k: int| 0 <= k < s.len() ==> #[trigger] s[k] != '\\',
        forall|k: int|
            0 <= k < cur.len() ==> #[trigger] cur[k] != '\t' && cur[k] != '\n' && cur[k] != '\r' && (plain
                ==> cur[k] != ' '),
        forall|i: int| 0 <= i < acc.len() ==> dep_word(#[trigger] acc[i], plain),
    ensures
        forall|i: int|
            0 <= i < dep_scan(s, cur, acc).len() ==> dep_word(#[trigger] dep_scan(s, cur, acc)[i], plain),
    decreases s.len(),
{
    let a2 = add_dep(acc, cur);
    assert forall|i: int| 0 <= i < a2.len() implies dep_word(#[trigger] a2[i], plain) by {
        if i == acc.len() {
            assert(a2[i] == cur);
        } else {
            assert(a2[i] == acc[i]);
        }
    }
    if s.len() > 0 {
        let c = s[0];
        assert(plain ==> c != '\\');
        assert forall|k: int| 0 <= k < s.skip(1).len() implies #[trigger] s.skip(1)[k] == s[k + 1] by {}
        if c == '\\' {
            if s.len() >= 2 {
                let n = s[1];
                if n == ' ' || n == '#' || n == '\\' {
                    let c2 = cur.push(n);
                    assert forall|k: int| 0 <= k < s.skip(2).len() implies #[trigger] s.skip(2)[k] == s[k + 2] by {}
                    assert forall|k: int| 0 <= k < c2.len() implies #[trigger] c2[k] != '\t' && c2[k] != '\n'
                        && c2[k] != '\r' && (plain ==> c2[k] != ' ') by {
                        if k < cur.len() {
                            assert(c2[k] == cur[k]);
                        }
                    }
                    lemma_dep_scan_words(s.skip(2), c2, acc, plain);
                    assert(dep_scan(s, cur, acc) == dep_scan(s.skip(2), c2, acc));
                } else {
                    let c2 = cur.push('\\');
                    assert forall|k: int| 0 <= k < c2.len() implies #[trigger] c2[k] != '\t' && c2[k] != '\n'
                        && c2[k] != '\r' && (plain ==> c2[k] != ' ') by {
                        if k < cur.len() {
                            assert(c2[k] == cur[k]);
                        }
                    }
                    lemma_dep_scan_words(s.skip(1), c2, acc, plain);
                    assert(dep_scan(s, cur, acc) == dep_scan(s.skip(1), c2, acc));
                }
            } else {
                lemma_dep_scan_words(s.skip(1), cur, acc, plain);
                assert(dep_scan(s, cur, acc) == dep_scan(s.skip(1), cur, acc));
            }
        } else if is_sep(c) {
            lemma_dep_scan_words(s.skip(1), Seq::empty(), a2, plain);
            assert(dep_scan(s, cur, acc) == dep_scan(s.skip(1), Seq::empty(), a2));
        } else {
            let c2 = cur.push(c);
            assert forall|k: int| 0 <= k < c2.len() implies #[trigger] c2[k] != '\t' && c2[k] != '\n' && c2[k]
                != '\r' && (plain ==> c2[k] != ' ') by {
                if k < cur.len() {
                    assert(c2[k] == cur[k]);
                }
            }
            lemma_dep_scan_words(s.skip(1), c2, acc, plain);
            assert(dep_scan(s, cur, acc) == dep_scan(s.skip(1), c2, acc));
        }
    } else {
        assert(dep_scan(s, cur, acc) == a2);
    }
}

/// Text without the first character of a pattern is left alone by a
/// replacement of the pattern.
proof fn lemma_replace_absent(s: Seq<char>, p: Seq<char>, r: Seq<char>)
    requires
        p.len() > 0,
        forall|k: int| 0 <= k < s.len() ==> #[trigger] s[k] != p[0],
    ensures
        replace(s, p, r) == s,
    decreases s.len(),
{
    if s.len() > 0 {
        assert(!has_prefix(s, p)) by {
            if has_prefix(s, p) {
                assert(s.take(p.len() as int)[0] == s[0]);
            }
        }
        lemma_replace_absent(s.drop_first(), p, r);
        assert(s =~= seq![s[0]] + s.drop_first());
    }
}

/// Without a backslash, joining continued lines changes nothing.
proof fn lemma_joined_plain(content: Seq<char>)
    requires
        forall|k: int| 0 <= k < content.len() ==> #[trigger] content[k] != '\\',
    ensures
        joined(content) == content,
{
    lemma_replace_absent(content, seq!['\\', '\n'], seq![' ']);
    lemma_replace_absent(content, seq!['\\', '\r', '\n'], seq![' ']);
}

/// Every dependency that a depfile gives is a word: not empty, and with no
/// tab, newline or carriage return in it; a space stands in one only when
/// a backslash escaped it, so a depfile without backslashes gives words
/// without spaces.
pub proof fn law_depfile_deps_are_words(content: Seq<char>)
    ensures
        match depfile_spec(content) {
            Some((t, ds)) => forall|i: int|
                0 <= i < ds.len() ==> dep_word(#[trigger] ds[i], !content.contains('\\')),
            None => true,
        },
{
    let plain = !content.contains('\\');
    if plain {
        assert forall|k: int| 0 <= k < content.len() implies #[trigger] content[k] != '\\' by {
            if content[k] == '\\' {
                assert(content.contains('\\'));
            }
        }
        lemma_joined_plain(content);
    }
    match split_once(joined(content), ':') {
        None => {},
        Some((t, d)) => {
            if plain {
                let j = joined(content);
                let i = crate::text::find_char(j, ':')->0;
                crate::text::lemma_find_first_bound(j, crate::text::is_char(':'));
                assert forall|k: int| 0 <= k < d.len() implies #[trigger] d[k] != '\\' by {
                    assert(d[k] == j[k + i + 1]);
                }
            }
            lemma_dep_scan_words(d, Seq::empty(), Seq::empty(), plain);
        },
    }
}

proof fn lemma_find_first_push(s: Seq<char>, x: char, pred: spec_fn(char) -> bool)
    requires
        !pred(x),
    ensures
        find_first(s.push(x), pred) == find_first(s, pred),
    decreases s.len(),
{
    let t = s.push(x);
    if s.len() > 0 {
        assert(t[0] == s[0]);
        assert(t.drop_first() =~= s.drop_first().push(x));
        lemma_find_first_push(s.drop_first(), x, pred);
        if !pred(s[0]) {
            assert(find_first(t, pred) == match find_first(t.drop_first(), pred) {
                Some(i) => Some(i + 1),
                None => None::<int>,
            });
        }
    } else {
        assert(t[0] == x);
        assert(t.drop_first() =~= Seq::<char>::empty());
        assert(find_first(t.drop_first(), pred) is None);
        assert(find_first(t, pred) is None);
    }
}

proof fn lemma_dep_scan_trailing_sep(s: Seq<char>, cur: Seq<char>, acc: Seq<Seq<char>>, x: char)
    requires
        is_sep(x),
        forall|k: int| 0 <= k < s.len() ==> #[trigger] s[k] != '\\',
    ensures
        dep_scan(s.push(x), cur, acc) == dep_scan(s, cur, acc),
    decreases s.len(),
{
    let t = s.push(x);
    if s.len() == 0 {
        assert(t[0] == x);
        assert(t.skip(1) =~= Seq::<char>::empty());
        let a2 = add_dep(acc, cur);
        assert(dep_scan(t, cur, acc) == dep_scan(t.skip(1), Seq::empty(), a2));
        assert(dep_scan(Seq::<char>::empty(), Seq::<char>::empty(), a2) == add_dep(a2, Seq::empty()));
        assert(add_dep(a2, Seq::empty()) == a2);
        assert(dep_scan(s, cur, acc) == a2);
    } else {
        assert(t[0] == s[0]);
        assert(s[0] != '\\');
        assert(t.skip(1) =~= s.skip(1).push(x));
        assert forall|k: int| 0 <= k < s.skip(1).len() implies #[trigger] s.skip(1)[k] != '\\' by {
            assert(s.skip(1)[k] == s[k + 1]);
        }
        if is_sep(s[0]) {
            lemma_dep_scan_trailing_sep(s.skip(1), Seq::empty(), add_dep(acc, cur), x);
            assert(dep_scan(t, cur, acc) == dep_scan(t.skip(1), Seq::empty(), add_dep(acc, cur)));
            assert(dep_scan(s, cur, acc) == dep_scan(s.skip(1), Seq::empty(), add_dep(acc, cur)));
        } else {
            lemma_dep_scan_trailing_sep(s.skip(1), cur.push(s[0]), acc, x);
            assert(dep_scan(t, cur, acc) == dep_scan(t.skip(1), cur.push(s[0]), acc));
            assert(dep_scan(s, cur, acc) == dep_scan(s.skip(1), cur.push(s[0]), acc));
        }
    }
}

/// A depfile without backslashes reads the same with or without a final
/// line end (as `gcc -MD` writes one): a newline, like any separator, only
/// ends the last dependency.
pub proof fn law_depfile_final_newline(content: Seq<char>)
    requires
        !content.contains('\\'),
    ensures
        depfile_spec(content.push('\n')) == depfile_spec(content),
{
    let c2 = content.push('\n');
    assert forall|k: int| 0 <= k < content.len() implies #[trigger] content[k] != '\\' by {
        if content[k] == '\\' {
            assert(content.contains('\\'));
        }
    }
    assert forall|k: int| 0 <= k < c2.len() implies #[trigger] c2[k] != '\\' by {
        if k < content.len() {
            assert(c2[k] == content[k]);
        }
    }
    lemma_joined_plain(content);
    lemma_joined_plain(c2);
    lemma_find_first_push(content, '\n', crate::text::is_char(':'));
    match split_once(content, ':') {
        None => {},
        Some((t, d)) => {
            let i = crate::text::find_char(content, ':')->0;
            crate::text::lemma_find_first_bound(content, crate::text::is_char(':'));
            assert(c2.take(i) =~= content.take(i));
            assert(c2.skip(i + 1) =~= d.push('\n'));
            assert forall|k: int| 0 <= k < d.len() implies #[trigger] d[k] != '\\' by {
                assert(d[k] == content[k + i + 1]);
            }
            lemma_dep_scan_trailing_sep(d, Seq::empty(), Seq::empty(), '\n');
        },
    }
}

} // verus!
