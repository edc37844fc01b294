//! The ninja manifest lexer and parser.
//!
//! `parse_with_files` reads a manifest whose `include` and `subninja`
//! statements name files that the caller has read beforehand; a statement
//! that names a file not supplied ends the parse with `FileNeeded`, so that
//! the caller can read that file and parse again.
pub mod lexer;
pub mod manifest;

use vstd::prelude::*;
use crate::error::{ParseError, ParseErrorView};
use crate::strmap::{has_key, insert_absent, insert_kv, lookup, str_eq, StrMap};
use crate::text::{
    append_chars, chars_of, concat_str, cviews, has_prefix, lines, parse_usize,
    parse_usize_chars, replace, replace_chars, split_once, split_once_char, split_once_str,
    split_once_sub, split_words, starts_with, string_of, trim, trim_chars, views, words,
};
use self::lexer::{logical_line, Lexer};
use self::manifest::{
    build_views, empty_manifest, named_rule, Build, BuildView, Manifest, ManifestView, Pool,
    PoolView, Rule, RuleView,
};

verus! {

// ---------------------------------------------------------------------------
// Paths
// ---------------------------------------------------------------------------

/// Whether `Path::new(p).is_absolute()`.
pub uninterp spec fn spec_path_is_absolute(p: Seq<char>) -> bool;

/// `Path::new(base).join(p)`, as a string.
pub uninterp spec fn spec_path_join(base: Seq<char>, p: Seq<char>) -> Seq<char>;

/// `Path::new(p).parent()`, as a string.
pub uninterp spec fn spec_path_parent(p: Seq<char>) -> Option<Seq<char>>;

/// Whether `Path::new(a) == Path::new(b)` (paths compare by components).
pub uninterp spec fn spec_path_eq(a: Seq<char>, b: Seq<char>) -> bool;

/// Calls `std::path::Path::is_absolute`; its result is named by
/// `spec_path_is_absolute`.
#[verifier::external_body]
fn path_is_absolute(p: &str) -> (r: bool)
    ensures
        r == spec_path_is_absolute(p@),
{
    std::path::Path::new(p).is_absolute()
}

/// Calls `std::path::Path::join` and turns the joined path back into a
/// string; the result is named by `spec_path_join`.
#[verifier::external_body]
pub(crate) fn path_join(base: &str, p: &str) -> (r: String)
    ensures
        r@ == spec_path_join(base@, p@),
{
    std::path::Path::new(base).join(p).to_string_lossy().into_owned()
}

/// Calls `std::path::Path::parent`; the result is named by
/// `spec_path_parent`.
#[verifier::external_body]
fn path_parent(p: &str) -> (r: Option<String>)
    ensures
        match r {
            Some(s) => spec_path_parent(p@) == Some(s@),
            None => spec_path_parent(p@) is None,
        },
{
    std::path::Path::new(p).parent().map(|q| q.to_string_lossy().into_owned())
}

/// Compares two paths with `==` on `std::path::Path`, which compares their
/// components; the result is named by `spec_path_eq`.  Equal strings give
/// equal paths.
#[verifier::external_body]
fn path_eq(a: &str, b: &str) -> (r: bool)
    ensures
        r == spec_path_eq(a@, b@),
        a@ == b@ ==> r,
{
    std::path::Path::new(a) == std::path::Path::new(b)
}

/// The path of an included file: `p` if it is absolute or there is no base
/// directory, else `p` joined to the base directory.
pub open spec fn resolve(base: Option<Seq<char>>, p: Seq<char>) -> Seq<char> {
    if spec_path_is_absolute(p) {
        p
    } else {
        match base {
            Some(b) => spec_path_join(b, p),
            None => p,
        }
    }
}

fn resolve_path(base: &Option<String>, p: &str) -> (r: String)
    ensures
        r@ == resolve(
            match base {
                Some(b) => Some(b@),
                None => None,
            },
            p@,
        ),
{
    if path_is_absolute(p) {
        p.to_owned()
    } else {
        match base {
            Some(b) => path_join(b.as_str(), p),
            None => p.to_owned(),
        }
    }
}

/// Whether `p` is among the files included so far.  A path equal as a string
/// counts, whatever `spec_path_eq` says.
pub open spec fn is_included(inc: Seq<Seq<char>>, p: Seq<char>) -> bool {
    exists|i: int| 0 <= i < inc.len() && (inc[i] == p || spec_path_eq(#[trigger] inc[i], p))
}

fn included(inc: &Vec<String>, p: &str) -> (r: bool)
    ensures
        r == is_included(views(inc@), p@),
{
    let mut i: usize = 0;
    while i < inc.len()
        invariant
            i <= inc@.len(),
            forall|j: int|
                0 <= j < i ==> !(views(inc@)[j] == p@ || spec_path_eq(#[trigger] views(inc@)[j], p@)),
        decreases inc.len() - i,
    {
        assert(views(inc@)[i as int] == inc@[i as int]@);
        if path_eq(inc[i].as_str(), p) {
            return true;
        }
        i = i + 1;
    }
    false
}

// ---------------------------------------------------------------------------
// Supplied files
// ---------------------------------------------------------------------------

/// A file that an `include` or `subninja` statement may name, as the caller
/// read it: its contents, or the text of the error that reading it gave.
#[derive(Debug)]
pub struct LoadedFile {
    pub path: String,
    pub content: Result<String, String>,
}

/// The mathematical value of a `LoadedFile`.
pub struct LoadedFileView {
    pub path: Seq<char>,
    pub content: Result<Seq<char>, Seq<char>>,
}

impl View for LoadedFile {
    type V = LoadedFileView;

    open spec fn view(&self) -> LoadedFileView {
        LoadedFileView {
            path: self.path@,
            content: match self.content {
                Ok(c) => Ok(c@),
                Err(e) => Err(e@),
            },
        }
    }
}

/// The views of the supplied files.
pub open spec fn file_views(v: Seq<LoadedFile>) -> Seq<LoadedFileView> {
    v.map_values(|f: LoadedFile| f@)
}

/// The index of the first supplied file whose path is `p`.
pub open spec fn find_file(files: Seq<LoadedFileView>, p: Seq<char>) -> Option<int>
    decreases files.len(),
{
    if files.len() == 0 {
        None
    } else if files[0].path == p {
        Some(0)
    } else {
        match find_file(files.drop_first(), p) {
            Some(i) => Some(i + 1),
            None => None,
        }
    }
}

proof fn lemma_find_file(files: Seq<LoadedFileView>, p: Seq<char>, i: int)
    requires
        0 <= i <= files.len(),
        forall|j: int| 0 <= j < i ==> (#[trigger] files[j]).path != p,
    ensures
        i < files.len() && files[i].path == p ==> find_file(files, p) == Some(i),
        i == files.len() ==> find_file(files, p) is None,
    decreases i,
{
    if i > 0 {
        assert forall|j: int| 0 <= j < i - 1 implies (#[trigger] files.drop_first()[j]).path != p by {
            assert(files.drop_first()[j] == files[j + 1]);
        }
        lemma_find_file(files.drop_first(), p, i - 1);
    }
}

fn find_loaded(files: &Vec<LoadedFile>, p: &str) -> (r: Option<usize>)
    ensures
        match r {
            Some(i) => find_file(file_views(files@), p@) == Some(i as int) && i < files@.len(),
            None => find_file(file_views(files@), p@) is None,
        },
{
    let ghost fv = file_views(files@);
    let mut i: usize = 0;
    while i < files.len()
        invariant
            i <= files@.len(),
            fv == file_views(files@),
            forall|j: int| 0 <= j < i ==> (#[trigger] fv[j]).path != p@,
        decreases files.len() - i,
    {
        assert(fv[i as int] == files@[i as int]@);
        let pc = chars_of(files[i].path.as_str());
        let qc = chars_of(p);
        if crate::text::chars_eq(&pc, &qc) {
            proof {
                lemma_find_file(fv, p@, i as int);
            }
            return Some(i);
        }
        i = i + 1;
    }
    proof {
        lemma_find_file(fv, p@, i as int);
    }
    None
}

// ---------------------------------------------------------------------------
// Variable expansion
// ---------------------------------------------------------------------------

/// A character of a bare `$name` reference: an ASCII letter or digit, `_`
/// or `-`.
pub open spec fn is_var_char(c: char) -> bool {
    ('a' <= c && c <= 'z') || ('A' <= c && c <= 'Z') || ('0' <= c && c <= '9') || c == '_' || c == '-'
}

/// The end of the run of variable-name characters that starts at `i`.
pub open spec fn var_end(s: Seq<char>, i: int) -> int
    decreases s.len() - i,
{
    if 0 <= i < s.len() && is_var_char(s[i]) {
        var_end(s, i + 1)
    } else {
        i
    }
}

pub proof fn lemma_var_end(s: Seq<char>, i: int)
    requires
        0 <= i,
    ensures
        i <= var_end(s, i),
        i <= s.len() ==> var_end(s, i) <= s.len(),
    decreases s.len() - i,
{
    if 0 <= i < s.len() && is_var_char(s[i]) {
        lemma_var_end(s, i + 1);
    }
}

/// `s` from `i` on with the references to the variables `vars` replaced by
/// their values: `${name}` and `$name`, where `name` is the whole run of
/// name characters.  A reference to a name that is not a variable stays as
/// it is, and values are not expanded again.
pub open spec fn expand_at(vars: Seq<(Seq<char>, Seq<char>)>, s: Seq<char>, i: int) -> Seq<char>
    decreases s.len() - i,
{
    if i < 0 || i >= s.len() {
        Seq::empty()
    } else if s[i] == '$' && i + 1 < s.len() && s[i + 1] == '{' && crate::tools::find_from(s, i + 2, '}') is Some
        && lookup(vars, s.subrange(i + 2, crate::tools::find_from(s, i + 2, '}')->0)) is Some {
        let end = crate::tools::find_from(s, i + 2, '}')->0;
        proof {
            crate::tools::lemma_find_from(s, i + 2, '}');
        }
        lookup(vars, s.subrange(i + 2, end))->0 + expand_at(vars, s, end + 1)
    } else if s[i] == '$' && var_end(s, i + 1) > i + 1 && lookup(vars, s.subrange(i + 1, var_end(s, i + 1)))
        is Some {
        let end = var_end(s, i + 1);
        proof {
            lemma_var_end(s, i + 1);
        }
        lookup(vars, s.subrange(i + 1, end))->0 + expand_at(vars, s, end)
    } else {
        seq![s[i]] + expand_at(vars, s, i + 1)
    }
}

/// `s` with the references to the manifest variables `vars` expanded.
pub open spec fn expand(vars: Seq<(Seq<char>, Seq<char>)>, s: Seq<char>) -> Seq<char> {
    expand_at(vars, s, 0)
}

/// Each of `ws` with the manifest variables expanded.
pub open spec fn expand_all(vars: Seq<(Seq<char>, Seq<char>)>, ws: Seq<Seq<char>>) -> Seq<Seq<char>> {
    ws.map_values(|w: Seq<char>| expand(vars, w))
}

fn is_var_char_exec(c: char) -> (b: bool)
    ensures
        b == is_var_char(c),
{
    ('a' <= c && c <= 'z') || ('A' <= c && c <= 'Z') || ('0' <= c && c <= '9') || c == '_' || c == '-'
}

fn var_end_exec(s: &Vec<char>, i: usize) -> (r: usize)
    requires
        i <= s@.len(),
    ensures
        r == var_end(s@, i as int),
    decreases s@.len() - i,
{
    if i < s.len() && is_var_char_exec(s[i]) {
        var_end_exec(s, i + 1)
    } else {
        i
    }
}

fn var_value(vars: &StrMap<String>, name: &[char]) -> (r: Option<Vec<char>>)
    ensures
        match lookup(vars@, name@) {
            Some(v) => r is Some && r->0@ == v,
            None => r is None,
        },
{
    let key = string_of(name);
    match vars.get(key.as_str()) {
        Some(v) => Some(chars_of(v.as_str())),
        None => None,
    }
}

/// Expands the manifest variables `vars` in `s` (`$name` and `${name}`, by
/// whole names).
pub fn expand_path(vars: &StrMap<String>, s: &[char]) -> (r: Vec<char>)
    ensures
        r@ == expand(vars@, s@),
{
    let mut c: Vec<char> = Vec::new();
    append_chars(&mut c, s);
    let ghost vs = vars@;
    let mut out: Vec<char> = Vec::new();
    let mut i: usize = 0;
    while i < c.len()
        invariant
            c@ == s@,
            i <= c@.len(),
            vs == vars@,
            out@ + expand_at(vs, c@, i as int) == expand_at(vs, c@, 0),
        decreases c@.len() - i,
    {
        let ghost i0 = i as int;
        let ghost o0 = out@;
        let mut handled = false;
        if c[i] == '$' && i + 1 < c.len() && c[i + 1] == '{' {
            match crate::tools::find_from_exec(&c, i + 2, '}') {
                Some(end) => {
                    proof {
                        crate::tools::lemma_find_from(c@, i + 2, '}');
                    }
                    let name = crate::text::copy_range(&c, i + 2, end);
                    match var_value(vars, &name) {
                        Some(v) => {
                            append_chars(&mut out, &v);
                            i = end + 1;
                            handled = true;
                            proof {
                                assert(out@ + expand_at(vs, c@, i as int) =~= o0 + expand_at(vs, c@, i0));
                            }
                        },
                        None => {},
                    }
                },
                None => {},
            }
        }
        if !handled && c[i] == '$' {
            let end = var_end_exec(&c, i + 1);
            proof {
                lemma_var_end(c@, i + 1);
            }
            if end > i + 1 {
                let name = crate::text::copy_range(&c, i + 1, end);
                match var_value(vars, &name) {
                    Some(v) => {
                        append_chars(&mut out, &v);
                        i = end;
                        handled = true;
                        proof {
                            assert(out@ + expand_at(vs, c@, i as int) =~= o0 + expand_at(vs, c@, i0));
                        }
                    },
                    None => {},
                }
            }
        }
        if !handled {
            out.push(c[i]);
            i = i + 1;
            proof {
                assert(out@ + expand_at(vs, c@, i as int) =~= o0 + expand_at(vs, c@, i0));
            }
        }
    }
    proof {
        assert(out@ =~= out@ + expand_at(vs, c@, i as int));
    }
    out
}

fn expand_words(vars: &StrMap<String>, ws: &Vec<Vec<char>>) -> (r: Vec<String>)
    ensures
        views(r@) == expand_all(vars@, cviews(ws@)),
{
    let mut r: Vec<String> = Vec::new();
    let mut i: usize = 0;
    while i < ws.len()
        invariant
            i <= ws@.len(),
            views(r@) == expand_all(vars@, cviews(ws@)).take(i as int),
        decreases ws.len() - i,
    {
        let e = expand_path(vars, &ws[i]);
        let ghost r0 = r@;
        r.push(string_of(&e));
        i = i + 1;
        proof {
            assert(views(r@) =~= views(r0).push(e@));
            assert(expand_all(vars@, cviews(ws@)).take(i as int) =~= expand_all(
                vars@,
                cviews(ws@),
            ).take(i - 1).push(e@));
        }
    }
    proof {
        assert(expand_all(vars@, cviews(ws@)).take(i as int) =~= expand_all(vars@, cviews(ws@)));
    }
    r
}

// ---------------------------------------------------------------------------
// Indented blocks
// ---------------------------------------------------------------------------

/// Whether a physical line starts with a space or a tab.
pub open spec fn is_indented(l: Seq<char>) -> bool {
    l.len() > 0 && (l[0] == ' ' || l[0] == '\t')
}

/// Whether a trimmed line is empty or a comment.
pub open spec fn is_blank(t: Seq<char>) -> bool {
    t.len() == 0 || t[0] == '#'
}

/// Reads the indented block that starts at physical line `pos`, after the
/// key-value pairs `acc` read so far: each line that is neither blank nor a
/// comment and holds `=` gives its trimmed key and value.  On success, the
/// pairs and the position after the block; when the input ends inside a
/// continued line, the position at which that line started.
pub open spec fn block_from(ls: Seq<Seq<char>>, pos: int, acc: Seq<(Seq<char>, Seq<char>)>) -> Result<
    (Seq<(Seq<char>, Seq<char>)>, int),
    int,
>
    decreases ls.len() - pos,
{
    if !(0 <= pos < ls.len()) || !is_indented(ls[pos]) {
        Ok((acc, pos))
    } else {
        match logical_line(ls, pos) {
            None => Err(pos),
            Some((l, n)) => {
                proof {
                    lexer::lemma_logical_line_len(ls, pos);
                }
                let t = trim(l);
                let acc2 = if is_blank(t) {
                    acc
                } else {
                    match split_once(t, '=') {
                        Some((k, v)) => acc.push((trim(k), trim(v))),
                        None => acc,
                    }
                };
                block_from(ls, pos + n, acc2)
            },
        }
    }
}

pub proof fn lemma_block_from(ls: Seq<Seq<char>>, pos: int, acc: Seq<(Seq<char>, Seq<char>)>)
    requires
        0 <= pos <= ls.len(),
    ensures
        match block_from(ls, pos, acc) {
            Ok((_, p)) => pos <= p <= ls.len(),
            Err(p) => pos <= p < ls.len(),
        },
    decreases ls.len() - pos,
{
    if 0 <= pos < ls.len() && is_indented(ls[pos]) {
        match logical_line(ls, pos) {
            None => {},
            Some((l, n)) => {
                lexer::lemma_logical_line_len(ls, pos);
                let t = trim(l);
                let acc2 = if is_blank(t) {
                    acc
                } else {
                    match split_once(t, '=') {
                        Some((k, v)) => acc.push((trim(k), trim(v))),
                        None => acc,
                    }
                };
                lemma_block_from(ls, pos + n, acc2);
            },
        }
    }
}

fn first_is_blank(t: &[char]) -> (b: bool)
    ensures
        b == is_blank(t@),
{
    t.len() == 0 || t[0] == '#'
}

/// Reads the key-value lines of the indented block at the lexer's position.
fn read_block(lx: &mut Lexer) -> (r: Result<Vec<(String, String)>, usize>)
    requires
        old(lx).wf(),
    ensures
        final(lx).wf(),
        final(lx).lines() == old(lx).lines(),
        match r {
            Ok(kvs) => block_from(old(lx).lines(), old(lx).consumed() as int, Seq::empty()) == Ok::<
                (Seq<(Seq<char>, Seq<char>)>, int),
                int,
            >((kv_views(kvs@), final(lx).consumed() as int)),
            Err(p) => block_from(old(lx).lines(), old(lx).consumed() as int, Seq::empty()) == Err::<
                (Seq<(Seq<char>, Seq<char>)>, int),
                int,
            >(p as int),
        },
{
    let ghost ls = lx.lines();
    let ghost pos0 = lx.consumed() as int;
    let mut kvs: Vec<(String, String)> = Vec::new();
    proof {
        assert(kv_views(kvs@) =~= Seq::<(Seq<char>, Seq<char>)>::empty());
    }
    loop
        invariant
            lx.wf(),
            lx.lines() == ls,
            ls == old(lx).lines(),
            pos0 == old(lx).consumed() as int,
            block_from(ls, pos0, Seq::empty()) == block_from(ls, lx.consumed() as int, kv_views(kvs@)),
        decreases ls.len() - lx.consumed(),
    {
        let before = lx.line_number();
        let indented = match lx.peek_line() {
            Some(l) => {
                let lc = chars_of(l);
                lc.len() > 0 && (lc[0] == ' ' || lc[0] == '\t')
            },
            None => false,
        };
        if !indented {
            return Ok(kvs);
        }
        match lx.next_line() {
            None => {
                return Err(before);
            },
            Some(line) => {
                proof {
                    lexer::lemma_logical_line_len(ls, before as int);
                }
                let lc = chars_of(line.as_str());
                let t = trim_chars(&lc);
                if !first_is_blank(&t) {
                    match split_once_char(&t, '=') {
                        Some((k, v)) => {
                            let kt = trim_chars(&k);
                            let vt = trim_chars(&v);
                            let ghost k0 = kv_views(kvs@);
                            kvs.push((string_of(&kt), string_of(&vt)));
                            proof {
                                assert(kv_views(kvs@) =~= k0.push((kt@, vt@)));
                            }
                        },
                        None => {},
                    }
                }
            },
        }
    }
}

/// The views of a vector of key-value string pairs.
pub open spec fn kv_views(v: Seq<(String, String)>) -> Seq<(Seq<char>, Seq<char>)> {
    v.map_values(|e: (String, String)| (e.0@, e.1@))
}

// ---------------------------------------------------------------------------
// Statements
// ---------------------------------------------------------------------------

/// Sets one key of a rule from its block: the known keys set their field
/// (`generator` and `restat` are true for `1` and `true`), any other key is
/// kept among the rule's variables.
pub open spec fn rule_set(r: RuleView, k: Seq<char>, v: Seq<char>) -> RuleView {
    if k == "command"@ {
        RuleView { command: Some(v), ..r }
    } else if k == "description"@ {
        RuleView { description: Some(v), ..r }
    } else if k == "depfile"@ {
        RuleView { depfile: Some(v), ..r }
    } else if k == "deps"@ {
        RuleView { deps: Some(v), ..r }
    } else if k == "generator"@ {
        RuleView { generator: v == "1"@ || v == "true"@, ..r }
    } else if k == "restat"@ {
        RuleView { restat: v == "1"@ || v == "true"@, ..r }
    } else if k == "rspfile"@ {
        RuleView { rspfile: Some(v), ..r }
    } else if k == "rspfile_content"@ {
        RuleView { rspfile_content: Some(v), ..r }
    } else if k == "pool"@ {
        RuleView { pool: Some(v), ..r }
    } else {
        RuleView { variables: insert_kv(r.variables, k, v), ..r }
    }
}

/// `r` after the key-value pairs `kvs`, in order.
pub open spec fn rule_apply(r: RuleView, kvs: Seq<(Seq<char>, Seq<char>)>) -> RuleView
    decreases kvs.len(),
{
    if kvs.len() == 0 {
        r
    } else {
        rule_apply(rule_set(r, kvs[0].0, kvs[0].1), kvs.drop_first())
    }
}

/// `vars` after storing the key-value pairs `kvs`, in order.
pub open spec fn insert_all(
    vars: Seq<(Seq<char>, Seq<char>)>,
    kvs: Seq<(Seq<char>, Seq<char>)>,
) -> Seq<(Seq<char>, Seq<char>)>
    decreases kvs.len(),
{
    if kvs.len() == 0 {
        vars
    } else {
        insert_all(insert_kv(vars, kvs[0].0, kvs[0].1), kvs.drop_first())
    }
}

/// The depth of a pool after its block: each `depth` key sets it to its
/// value, or to 1 where the value is not a `usize`.
pub open spec fn pool_depth(d: nat, kvs: Seq<(Seq<char>, Seq<char>)>) -> nat
    decreases kvs.len(),
{
    if kvs.len() == 0 {
        d
    } else {
        let d2 = if kvs[0].0 == "depth"@ {
            match parse_usize(kvs[0].1) {
                Some(x) => x,
                None => 1,
            }
        } else {
            d
        };
        pool_depth(d2, kvs.drop_first())
    }
}

/// The state of a parse: the manifest so far and the files included so far.
pub struct PState {
    pub m: ManifestView,
    pub inc: Seq<Seq<char>>,
}

/// What one statement does.
pub enum Step {
    /// The input has ended.
    Done,
    /// The parse fails.
    Fail(ParseErrorView),
    /// Go on at physical line `0` with state `1`.
    Next(int, PState),
    /// Parse `content`, the file `path` in directory `dir`, from state `sub`;
    /// then go on at `pos`.  A scoped (subninja) file's builds, defaults,
    /// new rules and new pools are merged into `outer`; an included file's
    /// final state is taken whole.
    Enter {
        pos: int,
        path: Seq<char>,
        content: Seq<char>,
        dir: Option<Seq<char>>,
        sub: PState,
        outer: ManifestView,
        scoped: bool,
    },
}

/// The line of an error: a position in physical lines.
pub open spec fn line_of(p: int) -> nat {
    p as nat
}

/// A `rule` statement.
pub open spec fn rule_step(ls: Seq<Seq<char>>, p: int, name: Seq<char>, st: PState) -> Step {
    if has_key(st.m.rules, name) {
        Step::Fail(ParseErrorView::DuplicateRule { name })
    } else {
        match block_from(ls, p, Seq::empty()) {
            Err(q) => Step::Fail(
                ParseErrorView::Syntax {
                    line: line_of(q),
                    message: "unexpected end of file while parsing rule"@,
                },
            ),
            Ok((kvs, q)) => Step::Next(
                q,
                PState {
                    m: ManifestView {
                        rules: insert_kv(st.m.rules, name, rule_apply(named_rule(name), kvs)),
                        ..st.m
                    },
                    inc: st.inc,
                },
            ),
        }
    }
}

/// A build line's rule name and dependency text: `s` split at its first
/// whitespace character (`splitn(2, char::is_whitespace)`).
pub open spec fn split_rule(s: Seq<char>) -> (Seq<char>, Seq<char>) {
    match crate::text::find_ws(s) {
        Some(i) => (s.take(i), s.skip(i + 1)),
        None => (s, Seq::empty()),
    }
}

/// The build edge of a build line's text after `build `, if it has a `:`
/// and at least one explicit output: the outputs before `|`, the implicit
/// outputs after it, then the rule and the explicit, implicit (after `|`)
/// and order-only (after `||`) dependencies.
pub open spec fn build_edge(vars: Seq<(Seq<char>, Seq<char>)>, line: Seq<char>) -> Result<
    BuildView,
    Seq<char>,
> {
    match split_once(line, ':') {
        None => Err("build line missing ':'"@),
        Some((outs, rest)) => {
            let (explicit_outs, implicit_outs) = match split_once(outs, '|') {
                Some((a, b)) => (a, b),
                None => (outs, Seq::empty()),
            };
            let outputs = expand_all(vars, words(explicit_outs));
            if outputs.len() == 0 {
                Err("build line has no outputs"@)
            } else {
                let (rule, deps) = split_rule(trim(rest));
                let (explicit, order_only) = match split_once_sub(deps, "||"@) {
                    Some((a, b)) => (a, b),
                    None => (deps, Seq::empty()),
                };
                let (explicit, implicit) = match split_once(explicit, '|') {
                    Some((a, b)) => (a, b),
                    None => (explicit, Seq::empty()),
                };
                Ok(
                    BuildView {
                        outputs,
                        implicit_outputs: expand_all(vars, words(implicit_outs)),
                        rule,
                        inputs: expand_all(vars, words(explicit)),
                        implicit_deps: expand_all(vars, words(implicit)),
                        order_only_deps: expand_all(vars, words(order_only)),
                        variables: Seq::empty(),
                    },
                )
            }
        },
    }
}

/// A `build` statement.
pub open spec fn build_step(ls: Seq<Seq<char>>, p: int, line: Seq<char>, st: PState) -> Step {
    match build_edge(st.m.variables, line) {
        Err(msg) => Step::Fail(ParseErrorView::Syntax { line: line_of(p), message: msg }),
        Ok(b) => match block_from(ls, p, Seq::empty()) {
            Err(q) => Step::Fail(
                ParseErrorView::Syntax {
                    line: line_of(q),
                    message: "unexpected end of file while parsing build"@,
                },
            ),
            Ok((kvs, q)) => Step::Next(
                q,
                PState {
                    m: ManifestView {
                        builds: st.m.builds.push(
                            BuildView { variables: insert_all(Seq::empty(), kvs), ..b },
                        ),
                        ..st.m
                    },
                    inc: st.inc,
                },
            ),
        },
    }
}

/// A `pool` statement.
pub open spec fn pool_step(ls: Seq<Seq<char>>, p: int, name: Seq<char>, st: PState) -> Step {
    match block_from(ls, p, Seq::empty()) {
        Err(q) => Step::Fail(
            ParseErrorView::Syntax {
                line: line_of(q),
                message: "unexpected end of file while parsing pool"@,
            },
        ),
        Ok((kvs, q)) => Step::Next(
            q,
            PState {
                m: ManifestView {
                    pools: insert_kv(st.m.pools, name, PoolView { name, depth: pool_depth(1, kvs) }),
                    ..st.m
                },
                inc: st.inc,
            },
        ),
    }
}

/// An `include` (`scoped` false) or `subninja` (`scoped` true) statement
/// naming `arg`.
pub open spec fn include_step(
    files: Seq<LoadedFileView>,
    base: Option<Seq<char>>,
    p: int,
    arg: Seq<char>,
    st: PState,
    scoped: bool,
) -> Step {
    let path = expand(st.m.variables, arg);
    let full = resolve(base, path);
    if is_included(st.inc, full) {
        Step::Fail(ParseErrorView::CircularInclude { path: full })
    } else {
        match find_file(files, full) {
            None => Step::Fail(ParseErrorView::FileNeeded { path: full, line: line_of(p) }),
            Some(i) => match files[i].content {
                Err(e) => Step::Fail(
                    ParseErrorView::Syntax {
                        line: line_of(p),
                        message: (if scoped {
                            "failed to include subninja "@
                        } else {
                            "failed to include "@
                        }) + full + ": "@ + e,
                    },
                ),
                Ok(c) => {
                    let inc2 = st.inc.push(full);
                    if scoped {
                        let outer = ManifestView { subninjas: st.m.subninjas.push(path), ..st.m };
                        Step::Enter {
                            pos: p,
                            path: full,
                            content: c,
                            dir: spec_path_parent(full),
                            sub: PState {
                                m: ManifestView {
                                    rules: st.m.rules,
                                    pools: st.m.pools,
                                    ..empty_manifest()
                                },
                                inc: inc2,
                            },
                            outer,
                            scoped: true,
                        }
                    } else {
                        let m2 = ManifestView { includes: st.m.includes.push(path), ..st.m };
                        Step::Enter {
                            pos: p,
                            path: full,
                            content: c,
                            dir: spec_path_parent(full),
                            sub: PState { m: m2, inc: inc2 },
                            outer: m2,
                            scoped: false,
                        }
                    }
                },
            },
        }
    }
}

/// The statement whose logical line starts at physical line `pos`.
pub open spec fn step(
    files: Seq<LoadedFileView>,
    base: Option<Seq<char>>,
    ls: Seq<Seq<char>>,
    pos: int,
    st: PState,
) -> Step {
    match logical_line(ls, pos) {
        None => Step::Done,
        Some((l, n)) => {
            let p = pos + n;
            let t = trim(l);
            if is_blank(t) {
                Step::Next(p, st)
            } else if has_prefix(t, "rule "@) {
                rule_step(ls, p, trim(t.skip("rule "@.len() as int)), st)
            } else if has_prefix(t, "build "@) {
                build_step(ls, p, trim(t.skip("build "@.len() as int)), st)
            } else if has_prefix(t, "default "@) {
                let targets = expand_all(
                    st.m.variables,
                    words(trim(t.skip("default "@.len() as int))),
                );
                Step::Next(
                    p,
                    PState { m: ManifestView { defaults: st.m.defaults + targets, ..st.m }, inc: st.inc },
                )
            } else if has_prefix(t, "pool "@) {
                pool_step(ls, p, trim(t.skip("pool "@.len() as int)), st)
            } else if has_prefix(t, "include "@) {
                include_step(files, base, p, trim(t.skip("include "@.len() as int)), st, false)
            } else if has_prefix(t, "subninja "@) {
                include_step(files, base, p, trim(t.skip("subninja "@.len() as int)), st, true)
            } else {
                match split_once(t, '=') {
                    Some((k, v)) => Step::Next(
                        p,
                        PState {
                            m: ManifestView {
                                variables: insert_kv(st.m.variables, trim(k), trim(v)),
                                ..st.m
                            },
                            inc: st.inc,
                        },
                    ),
                    None => Step::Fail(
                        ParseErrorView::Syntax { line: line_of(p), message: "unexpected line: "@ + t },
                    ),
                }
            }
        },
    }
}

/// The state after a file entered by `include` or `subninja` has been parsed
/// to the state `s2`.
pub open spec fn after_sub(outer: ManifestView, scoped: bool, s2: PState) -> PState {
    if scoped {
        PState {
            m: ManifestView {
                builds: outer.builds + s2.m.builds,
                defaults: outer.defaults + s2.m.defaults,
                rules: insert_absent(outer.rules, s2.m.rules),
                pools: insert_absent(outer.pools, s2.m.pools),
                ..outer
            },
            inc: s2.inc,
        }
    } else {
        s2
    }
}

pub proof fn lemma_step(
    files: Seq<LoadedFileView>,
    base: Option<Seq<char>>,
    ls: Seq<Seq<char>>,
    pos: int,
    st: PState,
)
    requires
        0 <= pos <= ls.len(),
    ensures
        match step(files, base, ls, pos, st) {
            Step::Next(p, _) => pos < p <= ls.len(),
            Step::Enter { pos: p, .. } => pos < p <= ls.len(),
            _ => true,
        },
{
    lexer::lemma_logical_line_len(ls, pos);
    match logical_line(ls, pos) {
        None => {},
        Some((l, n)) => {
            lemma_block_from(ls, pos + n, Seq::empty());
        },
    }
}

/// The result of parsing the physical lines `ls` from line `pos` on, in state
/// `st`, where the file was found in directory `base`.  `fuel` bounds the
/// nesting of included files; each nested file is a supplied file not yet
/// included, so the number of supplied files is enough.
pub open spec fn run(
    files: Seq<LoadedFileView>,
    base: Option<Seq<char>>,
    ls: Seq<Seq<char>>,
    pos: int,
    st: PState,
    fuel: nat,
) -> Result<PState, ParseErrorView>
    decreases fuel, ls.len() - pos,
{
    if !(0 <= pos <= ls.len()) {
        Ok(st)
    } else {
        proof {
            lemma_step(files, base, ls, pos, st);
        }
        match step(files, base, ls, pos, st) {
            Step::Done => Ok(st),
            Step::Fail(e) => Err(e),
            Step::Next(p, s) => run(files, base, ls, p, s, fuel),
            Step::Enter { pos: p, path, content, dir, sub, outer, scoped } => {
                if fuel == 0 {
                    Err(ParseErrorView::CircularInclude { path })
                } else {
                    match run(files, dir, lines(content), 0, sub, (fuel - 1) as nat) {
                        Err(e) => Err(e),
                        Ok(s2) => run(files, base, ls, p, after_sub(outer, scoped, s2), fuel),
                    }
                }
            },
        }
    }
}

/// The result of parsing `content`, found in directory `base`, with the
/// supplied files `files`.
pub open spec fn parse_spec(
    content: Seq<char>,
    base: Option<Seq<char>>,
    files: Seq<LoadedFileView>,
) -> Result<ManifestView, ParseErrorView> {
    match run(files, base, lines(content), 0, PState { m: empty_manifest(), inc: Seq::empty() }, files.len()) {
        Ok(st) => Ok(st.m),
        Err(e) => Err(e),
    }
}

// ---------------------------------------------------------------------------
// The parser
// ---------------------------------------------------------------------------

/// The view of an optional string.
pub open spec fn dir_view(o: Option<String>) -> Option<Seq<char>> {
    match o {
        Some(s) => Some(s@),
        None => None,
    }
}

struct PSt {
    m: Manifest,
    inc: Vec<String>,
}

impl View for PSt {
    type V = PState;

    closed spec fn view(&self) -> PState {
        PState { m: self.m@, inc: views(self.inc@) }
    }
}

enum Action {
    Done(PSt),
    Fail(ParseError),
    Next(PSt),
    Enter { path: String, content: String, dir: Option<String>, sub: PSt, outer: Option<Manifest> },
}

spec fn acts(a: Action, s: Step, pos: int, st: PState) -> bool {
    match a {
        Action::Done(x) => s is Done && x@ == st,
        Action::Fail(e) => s == Step::Fail(e@),
        Action::Next(x) => s == Step::Next(pos, x@),
        Action::Enter { path, content, dir, sub, outer } => s == Step::Enter {
            pos,
            path: path@,
            content: content@,
            dir: dir_view(dir),
            sub: sub@,
            outer: match outer {
                Some(o) => o@,
                None => sub.m@,
            },
            scoped: outer is Some,
        },
    }
}

fn syntax_error(line: usize, msg: &str) -> (e: ParseError)
    ensures
        e@ == (ParseErrorView::Syntax { line: line as nat, message: msg@ }),
{
    ParseError::Syntax { line, message: msg.to_owned() }
}

fn rule_set_exec(r: &mut Rule, k: &String, v: &String)
    ensures
        final(r)@ == rule_set(old(r)@, k@, v@),
{
    if str_eq(k.as_str(), "command") {
        r.command = Some(v.clone());
    } else if str_eq(k.as_str(), "description") {
        r.description = Some(v.clone());
    } else if str_eq(k.as_str(), "depfile") {
        r.depfile = Some(v.clone());
    } else if str_eq(k.as_str(), "deps") {
        r.deps = Some(v.clone());
    } else if str_eq(k.as_str(), "generator") {
        r.generator = str_eq(v.as_str(), "1") || str_eq(v.as_str(), "true");
    } else if str_eq(k.as_str(), "restat") {
        r.restat = str_eq(v.as_str(), "1") || str_eq(v.as_str(), "true");
    } else if str_eq(k.as_str(), "rspfile") {
        r.rspfile = Some(v.clone());
    } else if str_eq(k.as_str(), "rspfile_content") {
        r.rspfile_content = Some(v.clone());
    } else if str_eq(k.as_str(), "pool") {
        r.pool = Some(v.clone());
    } else {
        r.variables.insert(k.clone(), v.clone());
    }
}

fn make_rule(name: String, kvs: &Vec<(String, String)>) -> (r: Rule)
    ensures
        r@ == rule_apply(named_rule(name@), kv_views(kvs@)),
{
    let ghost goal = rule_apply(named_rule(name@), kv_views(kvs@));
    let mut r = Rule::named(name);
    let mut i: usize = 0;
    proof {
        assert(kv_views(kvs@).skip(0) =~= kv_views(kvs@));
    }
    while i < kvs.len()
        invariant
            i <= kvs@.len(),
            goal == rule_apply(r@, kv_views(kvs@).skip(i as int)),
        decreases kvs.len() - i,
    {
        proof {
            let sk = kv_views(kvs@).skip(i as int);
            assert(sk[0] == (kvs@[i as int].0@, kvs@[i as int].1@));
            assert(sk.drop_first() =~= kv_views(kvs@).skip(i + 1));
        }
        rule_set_exec(&mut r, &kvs[i].0, &kvs[i].1);
        i = i + 1;
    }
    proof {
        assert(kv_views(kvs@).skip(i as int) =~= Seq::<(Seq<char>, Seq<char>)>::empty());
    }
    r
}

fn make_vars(kvs: &Vec<(String, String)>) -> (m: StrMap<String>)
    ensures
        m@ == insert_all(Seq::empty(), kv_views(kvs@)),
{
    let ghost goal = insert_all(Seq::empty(), kv_views(kvs@));
    let mut m: StrMap<String> = StrMap::new();
    let mut i: usize = 0;
    proof {
        assert(kv_views(kvs@).skip(0) =~= kv_views(kvs@));
    }
    while i < kvs.len()
        invariant
            i <= kvs@.len(),
            goal == insert_all(m@, kv_views(kvs@).skip(i as int)),
        decreases kvs.len() - i,
    {
        proof {
            let sk = kv_views(kvs@).skip(i as int);
            assert(sk[0] == (kvs@[i as int].0@, kvs@[i as int].1@));
            assert(sk.drop_first() =~= kv_views(kvs@).skip(i + 1));
        }
        m.insert(kvs[i].0.clone(), kvs[i].1.clone());
        i = i + 1;
    }
    proof {
        assert(kv_views(kvs@).skip(i as int) =~= Seq::<(Seq<char>, Seq<char>)>::empty());
    }
    m
}

fn make_depth(kvs: &Vec<(String, String)>) -> (d: usize)
    ensures
        d as nat == pool_depth(1, kv_views(kvs@)),
{
    let ghost goal = pool_depth(1, kv_views(kvs@));
    let mut d: usize = 1;
    let mut i: usize = 0;
    proof {
        assert(kv_views(kvs@).skip(0) =~= kv_views(kvs@));
    }
    while i < kvs.len()
        invariant
            i <= kvs@.len(),
            goal == pool_depth(d as nat, kv_views(kvs@).skip(i as int)),
        decreases kvs.len() - i,
    {
        proof {
            let sk = kv_views(kvs@).skip(i as int);
            assert(sk[0] == (kvs@[i as int].0@, kvs@[i as int].1@));
            assert(sk.drop_first() =~= kv_views(kvs@).skip(i + 1));
        }
        if crate::strmap::str_eq(kvs[i].0.as_str(), "depth") {
            let vc = chars_of(kvs[i].1.as_str());
            d = match parse_usize_chars(&vc) {
                Some(x) => x,
                None => 1,
            };
        }
        i = i + 1;
    }
    proof {
        assert(kv_views(kvs@).skip(i as int) =~= Seq::<(Seq<char>, Seq<char>)>::empty());
    }
    d
}

fn rule_stmt(lx: &mut Lexer, st: PSt, name: &[char]) -> (a: Action)
    requires
        old(lx).wf(),
    ensures
        final(lx).wf(),
        final(lx).lines() == old(lx).lines(),
        acts(
            a,
            rule_step(old(lx).lines(), old(lx).consumed() as int, name@, st@),
            final(lx).consumed() as int,
            st@,
        ),
{
    let name_s = string_of(name);
    if st.m.rules.contains_key(name_s.as_str()) {
        return Action::Fail(ParseError::DuplicateRule { name: name_s });
    }
    match read_block(lx) {
        Err(q) => Action::Fail(syntax_error(q, "unexpected end of file while parsing rule")),
        Ok(kvs) => {
            let mut st = st;
            let rule = make_rule(name_s.clone(), &kvs);
            st.m.rules.insert(name_s, rule);
            Action::Next(st)
        },
    }
}

fn pool_stmt(lx: &mut Lexer, st: PSt, name: &[char]) -> (a: Action)
    requires
        old(lx).wf(),
    ensures
        final(lx).wf(),
        final(lx).lines() == old(lx).lines(),
        acts(
            a,
            pool_step(old(lx).lines(), old(lx).consumed() as int, name@, st@),
            final(lx).consumed() as int,
            st@,
        ),
{
    match read_block(lx) {
        Err(q) => Action::Fail(syntax_error(q, "unexpected end of file while parsing pool")),
        Ok(kvs) => {
            let mut st = st;
            let name_s = string_of(name);
            let depth = make_depth(&kvs);
            st.m.pools.insert(name_s.clone(), Pool { name: name_s, depth });
            Action::Next(st)
        },
    }
}

/// Parses the text of a build line after `build `: its outputs, rule and
/// dependencies, with the manifest variables `vars` expanded in the paths;
/// or the message of the syntax error.
fn build_line(vars: &StrMap<String>, line: &[char]) -> (r: Result<Build, String>)
    ensures
        match r {
            Ok(b) => build_edge(vars@, line@) == Ok::<BuildView, Seq<char>>(b@),
            Err(msg) => build_edge(vars@, line@) == Err::<BuildView, Seq<char>>(msg@),
        },
{
    match split_once_char(line, ':') {
        None => Err("build line missing ':'".to_owned()),
        Some((outs, rest)) => {
            let (outs_x, outs_i) = match split_once_char(&outs, '|') {
                Some((a, b)) => (a, b),
                None => (outs, Vec::new()),
            };
            let ow = split_words(&outs_x);
            let outputs = expand_words(vars, &ow);
            let iow = split_words(&outs_i);
            if outputs.len() == 0 {
                return Err("build line has no outputs".to_owned());
            }
            let rest_t = trim_chars(&rest);
            let n = rest_t.len();
            let (rule, deps) = match crate::text::index_of_ws(&rest_t) {
                Some(i) => {
                    proof {
                        crate::text::lemma_find_first_bound(rest_t@, crate::text::ws_pred());
                    }
                    let a = crate::text::copy_range(&rest_t, 0, i);
                    let b = crate::text::copy_range(&rest_t, i + 1, n);
                    proof {
                        assert(a@ =~= rest_t@.take(i as int));
                        assert(b@ =~= rest_t@.skip(i + 1));
                    }
                    (a, b)
                },
                None => (rest_t, Vec::new()),
            };
            let bars = chars_of("||");
            proof {
                reveal_strlit("||");
            }
            let (explicit, order_only) = match split_once_str(&deps, &bars) {
                Some((a, b)) => (a, b),
                None => (deps, Vec::new()),
            };
            let (explicit, implicit) = match split_once_char(&explicit, '|') {
                Some((a, b)) => (a, b),
                None => (explicit, Vec::new()),
            };
            let ew = split_words(&explicit);
            let iw = split_words(&implicit);
            let xw = split_words(&order_only);
            let b = Build {
                outputs,
                implicit_outputs: expand_words(vars, &iow),
                rule: string_of(&rule),
                inputs: expand_words(vars, &ew),
                implicit_deps: expand_words(vars, &iw),
                order_only_deps: expand_words(vars, &xw),
                variables: StrMap::new(),
            };
            Ok(b)
        },
    }
}

fn build_stmt(lx: &mut Lexer, st: PSt, line: &[char]) -> (a: Action)
    requires
        old(lx).wf(),
    ensures
        final(lx).wf(),
        final(lx).lines() == old(lx).lines(),
        acts(
            a,
            build_step(old(lx).lines(), old(lx).consumed() as int, line@, st@),
            final(lx).consumed() as int,
            st@,
        ),
{
    let p = lx.line_number();
    match build_line(&st.m.variables, line) {
        Err(msg) => Action::Fail(ParseError::Syntax { line: p, message: msg }),
        Ok(b) => match read_block(lx) {
            Err(q) => Action::Fail(syntax_error(q, "unexpected end of file while parsing build")),
            Ok(kvs) => {
                let mut st = st;
                let mut b = b;
                b.variables = make_vars(&kvs);
                let ghost old_builds = st.m.builds@;
                st.m.builds.push(b);
                proof {
                    assert(build_views(st.m.builds@) =~= build_views(old_builds).push(b@));
                }
                Action::Next(st)
            },
        },
    }
}

fn include_stmt(
    files: &Vec<LoadedFile>,
    base: &Option<String>,
    p: usize,
    arg: &[char],
    st: PSt,
    scoped: bool,
) -> (a: Action)
    ensures
        acts(a, include_step(file_views(files@), dir_view(*base), p as int, arg@, st@, scoped), p as int, st@),
{
    let path_c = expand_path(&st.m.variables, arg);
    let path = string_of(&path_c);
    let full = resolve_path(base, path.as_str());
    proof {
        assert(dir_view(*base) == match base {
            Some(b) => Some(b@),
            None => None::<Seq<char>>,
        });
    }
    if included(&st.inc, full.as_str()) {
        return Action::Fail(ParseError::CircularInclude { path: full });
    }
    match find_loaded(files, full.as_str()) {
        None => Action::Fail(ParseError::FileNeeded { path: full, line: p }),
        Some(i) => {
            assert(file_views(files@)[i as int] == files@[i as int]@);
            match &files[i].content {
                Err(e) => {
                    let head = if scoped {
                        concat_str("failed to include subninja ", full.as_str())
                    } else {
                        concat_str("failed to include ", full.as_str())
                    };
                    let head2 = concat_str(head.as_str(), ": ");
                    let msg = concat_str(head2.as_str(), e.as_str());
                    Action::Fail(ParseError::Syntax { line: p, message: msg })
                },
                Ok(c) => {
                    let content = c.clone();
                    let dir = path_parent(full.as_str());
                    let mut st = st;
                    let ghost inc0 = st.inc@;
                    st.inc.push(full.clone());
                    proof {
                        assert(views(st.inc@) =~= views(inc0).push(full@));
                    }
                    if scoped {
                        let sub_m = Manifest {
                            variables: StrMap::new(),
                            rules: st.m.rules.duplicate(),
                            builds: Vec::new(),
                            defaults: Vec::new(),
                            pools: st.m.pools.duplicate(),
                            includes: Vec::new(),
                            subninjas: Vec::new(),
                        };
                        proof {
                            assert(build_views(sub_m.builds@) =~= Seq::<BuildView>::empty());
                            assert(views(sub_m.defaults@) =~= Seq::<Seq<char>>::empty());
                            assert(views(sub_m.includes@) =~= Seq::<Seq<char>>::empty());
                            assert(views(sub_m.subninjas@) =~= Seq::<Seq<char>>::empty());
                        }
                        let ghost sn0 = st.m.subninjas@;
                        st.m.subninjas.push(path);
                        proof {
                            assert(views(st.m.subninjas@) =~= views(sn0).push(path@));
                        }
                        let PSt { m, inc } = st;
                        Action::Enter {
                            path: full,
                            content,
                            dir,
                            sub: PSt { m: sub_m, inc },
                            outer: Some(m),
                        }
                    } else {
                        let ghost in0 = st.m.includes@;
                        st.m.includes.push(path);
                        proof {
                            assert(views(st.m.includes@) =~= views(in0).push(path@));
                        }
                        Action::Enter { path: full, content, dir, sub: st, outer: None }
                    }
                },
            }
        },
    }
}

fn rest_after(t: &Vec<char>, kw: &Vec<char>) -> (r: Vec<char>)
    requires
        kw@.len() <= t@.len(),
    ensures
        r@ == trim(t@.skip(kw@.len() as int)),
{
    let rest = crate::text::copy_range(t, kw.len(), t.len());
    assert(rest@ =~= t@.skip(kw@.len() as int));
    trim_chars(&rest)
}

fn stmt(lx: &mut Lexer, st: PSt, base: &Option<String>, files: &Vec<LoadedFile>) -> (a: Action)
    requires
        old(lx).wf(),
    ensures
        final(lx).wf(),
        final(lx).lines() == old(lx).lines(),
        acts(
            a,
            step(file_views(files@), dir_view(*base), old(lx).lines(), old(lx).consumed() as int, st@),
            final(lx).consumed() as int,
            st@,
        ),
{
    let line = match lx.next_line() {
        None => {
            return Action::Done(st);
        },
        Some(line) => line,
    };
    let p = lx.line_number();
    let lc = chars_of(line.as_str());
    let t = trim_chars(&lc);
    if first_is_blank(&t) {
        return Action::Next(st);
    }
    let kw = chars_of("rule ");
    if starts_with(&t, &kw) {
        let name = rest_after(&t, &kw);
        return rule_stmt(lx, st, &name);
    }
    let kw = chars_of("build ");
    if starts_with(&t, &kw) {
        let rest = rest_after(&t, &kw);
        return build_stmt(lx, st, &rest);
    }
    let kw = chars_of("default ");
    if starts_with(&t, &kw) {
        let rest = rest_after(&t, &kw);
        let ws = split_words(&rest);
        let mut targets = expand_words(&st.m.variables, &ws);
        let mut st = st;
        let ghost d0 = st.m.defaults@;
        let ghost t0 = targets@;
        st.m.defaults.append(&mut targets);
        proof {
            assert(views(st.m.defaults@) =~= views(d0) + views(t0));
        }
        return Action::Next(st);
    }
    let kw = chars_of("pool ");
    if starts_with(&t, &kw) {
        let name = rest_after(&t, &kw);
        return pool_stmt(lx, st, &name);
    }
    let kw = chars_of("include ");
    if starts_with(&t, &kw) {
        let rest = rest_after(&t, &kw);
        return include_stmt(files, base, p, &rest, st, false);
    }
    let kw = chars_of("subninja ");
    if starts_with(&t, &kw) {
        let rest = rest_after(&t, &kw);
        return include_stmt(files, base, p, &rest, st, true);
    }
    match split_once_char(&t, '=') {
        Some((k, v)) => {
            let kt = trim_chars(&k);
            let vt = trim_chars(&v);
            let mut st = st;
            st.m.variables.insert(string_of(&kt), string_of(&vt));
            Action::Next(st)
        },
        None => {
            let ts = string_of(&t);
            let msg = concat_str("unexpected line: ", ts.as_str());
            Action::Fail(ParseError::Syntax { line: p, message: msg })
        },
    }
}

fn finish_sub(outer: Option<Manifest>, s2: PSt) -> (r: PSt)
    ensures
        match outer {
            Some(o) => r@ == after_sub(o@, true, s2@),
            None => r@ == s2@,
        },
{
    match outer {
        None => s2,
        Some(o) => {
            let mut o = o;
            let PSt { m, inc } = s2;
            let mut sm = m;
            let ghost (ob, od, sb, sd) = (o.builds@, o.defaults@, sm.builds@, sm.defaults@);
            o.builds.append(&mut sm.builds);
            o.defaults.append(&mut sm.defaults);
            o.rules.insert_absent(sm.rules);
            o.pools.insert_absent(sm.pools);
            proof {
                assert(build_views(o.builds@) =~= build_views(ob) + build_views(sb));
                assert(views(o.defaults@) =~= views(od) + views(sd));
            }
            PSt { m: o, inc }
        },
    }
}

fn run_exec(
    lx: &mut Lexer,
    st: PSt,
    base: &Option<String>,
    files: &Vec<LoadedFile>,
    fuel: usize,
) -> (r: Result<PSt, ParseError>)
    requires
        old(lx).wf(),
    ensures
        match r {
            Ok(s) => run(
                file_views(files@),
                dir_view(*base),
                old(lx).lines(),
                old(lx).consumed() as int,
                st@,
                fuel as nat,
            ) == Ok::<PState, ParseErrorView>(s@),
            Err(e) => run(
                file_views(files@),
                dir_view(*base),
                old(lx).lines(),
                old(lx).consumed() as int,
                st@,
                fuel as nat,
            ) == Err::<PState, ParseErrorView>(e@),
        },
    decreases fuel,
{
    let ghost fv = file_views(files@);
    let ghost bv = dir_view(*base);
    let ghost ls = lx.lines();
    let ghost st0 = st@;
    let ghost goal = run(fv, bv, ls, lx.consumed() as int, st0, fuel as nat);
    let mut cur = st;
    loop
        invariant
            lx.wf(),
            lx.lines() == ls,
            ls == old(lx).lines(),
            fv == file_views(files@),
            bv == dir_view(*base),
            st0 == st@,
            goal == run(fv, bv, old(lx).lines(), old(lx).consumed() as int, st0, fuel as nat),
            goal == run(fv, bv, ls, lx.consumed() as int, cur@, fuel as nat),
        decreases ls.len() - lx.consumed(),
    {
        let ghost pos = lx.consumed() as int;
        let ghost sv = cur@;
        proof {
            lx.lemma_wf();
            lemma_step(fv, bv, ls, pos, sv);
        }
        match stmt(lx, cur, base, files) {
            Action::Done(s) => {
                return Ok(s);
            },
            Action::Fail(e) => {
                return Err(e);
            },
            Action::Next(s) => {
                cur = s;
            },
            Action::Enter { path, content, dir, sub, outer } => {
                if fuel == 0 {
                    return Err(ParseError::CircularInclude { path });
                }
                let mut sub_lx = Lexer::new(content.as_str());
                match run_exec(&mut sub_lx, sub, &dir, files, fuel - 1) {
                    Err(e) => {
                        return Err(e);
                    },
                    Ok(s2) => {
                        cur = finish_sub(outer, s2);
                    },
                }
            },
        }
    }
}

/// Parses a ninja manifest whose `include` and `subninja` statements may
/// name the supplied `files`; `base_dir` is the directory of the manifest.
pub fn parse_with_files(content: &str, base_dir: Option<String>, files: &Vec<LoadedFile>) -> (r:
    Result<Manifest, ParseError>)
    ensures
        match r {
            Ok(m) => parse_spec(content@, dir_view(base_dir), file_views(files@)) == Ok::<
                ManifestView,
                ParseErrorView,
            >(m@),
            Err(e) => parse_spec(content@, dir_view(base_dir), file_views(files@)) == Err::<
                ManifestView,
                ParseErrorView,
            >(e@),
        },
{
    let mut lx = Lexer::new(content);
    let st = PSt { m: Manifest::new(), inc: Vec::new() };
    proof {
        assert(st@.inc =~= Seq::<Seq<char>>::empty());
    }
    match run_exec(&mut lx, st, &base_dir, files, files.len()) {
        Ok(s) => Ok(s.m),
        Err(e) => Err(e),
    }
}

/// Parses a ninja manifest that includes no other file.
pub fn parse(content: &str) -> (r: Result<Manifest, ParseError>)
    ensures
        match r {
            Ok(m) => parse_spec(content@, None, Seq::empty()) == Ok::<ManifestView, ParseErrorView>(
                m@,
            ),
            Err(e) => parse_spec(content@, None, Seq::empty()) == Err::<
                ManifestView,
                ParseErrorView,
            >(e@),
        },
{
    let files: Vec<LoadedFile> = Vec::new();
    proof {
        assert(file_views(files@) =~= Seq::<LoadedFileView>::empty());
    }
    parse_with_files(content, None, &files)
}

/// With no variables, expansion leaves text as it is.
proof fn lemma_expand_none(s: Seq<char>, i: int)
    requires
        0 <= i <= s.len(),
    ensures
        expand_at(Seq::empty(), s, i) == s.skip(i),
    decreases s.len() - i,
{
    if i < s.len() {
        lemma_expand_none(s, i + 1);
        assert(s.skip(i) =~= seq![s[i]] + s.skip(i + 1));
    } else {
        assert(s.skip(i) =~= Seq::<char>::empty());
    }
}

/// The variables of a manifest act on a build line word by word, and on
/// every list of it alike: a line read with the variables `vars` is the
/// line read with no variables, with `vars` then expanded in each of its
/// outputs, implicit outputs, explicit inputs, implicit dependencies and
/// order-only dependencies; the rule name and whether the line is accepted
/// do not depend on them.
pub proof fn law_build_edge_expands_words(vars: Seq<(Seq<char>, Seq<char>)>, line: Seq<char>)
    ensures
        (build_edge(vars, line) is Ok) == (build_edge(Seq::empty(), line) is Ok),
        build_edge(vars, line) is Ok ==> {
            let b = build_edge(vars, line)->Ok_0;
            let raw = build_edge(Seq::empty(), line)->Ok_0;
            &&& b.rule == raw.rule
            &&& b.outputs == raw.outputs.map_values(|w: Seq<char>| expand(vars, w))
            &&& b.implicit_outputs == raw.implicit_outputs.map_values(|w: Seq<char>| expand(vars, w))
            &&& b.inputs == raw.inputs.map_values(|w: Seq<char>| expand(vars, w))
            &&& b.implicit_deps == raw.implicit_deps.map_values(|w: Seq<char>| expand(vars, w))
            &&& b.order_only_deps == raw.order_only_deps.map_values(|w: Seq<char>| expand(vars, w))
        },
{
    assert forall|ws: Seq<Seq<char>>| #[trigger] expand_all(Seq::<(Seq<char>, Seq<char>)>::empty(), ws) == ws by {
        assert forall|k: int| 0 <= k < ws.len() implies expand_all(Seq::<(Seq<char>, Seq<char>)>::empty(), ws)[k]
            == ws[k] by {
            lemma_expand_none(ws[k], 0);
            assert(ws[k].skip(0) =~= ws[k]);
        }
        assert(expand_all(Seq::<(Seq<char>, Seq<char>)>::empty(), ws) =~= ws);
    }
    match split_once(line, ':') {
        None => {},
        Some((outs, rest)) => {
            let (explicit_outs, implicit_outs) = match split_once(outs, '|') {
                Some((a, b)) => (a, b),
                None => (outs, Seq::empty()),
            };
            assert(expand_all(Seq::<(Seq<char>, Seq<char>)>::empty(), words(explicit_outs)) == words(explicit_outs));
            assert(expand_all(vars, words(explicit_outs)).len() == words(explicit_outs).len());
            let (rule, deps) = split_rule(trim(rest));
            let (explicit, order_only) = match split_once_sub(deps, "||"@) {
                Some((a, b)) => (a, b),
                None => (deps, Seq::empty()),
            };
            let (explicit, implicit) = match split_once(explicit, '|') {
                Some((a, b)) => (a, b),
                None => (explicit, Seq::empty()),
            };
            assert(expand_all(Seq::<(Seq<char>, Seq<char>)>::empty(), words(implicit_outs)) == words(implicit_outs));
            assert(expand_all(Seq::<(Seq<char>, Seq<char>)>::empty(), words(explicit)) == words(explicit));
            assert(expand_all(Seq::<(Seq<char>, Seq<char>)>::empty(), words(implicit)) == words(implicit));
            assert(expand_all(Seq::<(Seq<char>, Seq<char>)>::empty(), words(order_only)) == words(order_only));
        },
    }
}

} // verus!
