//! The logic behind the `-t` subtools: variable expansion in command
//! templates and the entries of a compilation database.
use vstd::prelude::*;
use crate::graph::{first_or_empty, join, join_strings};
use crate::parser::manifest::{opt_view, Build, BuildView, Manifest, ManifestView, RuleView};
use crate::strmap::{insert_kv, insert_seq, lookup, StrMap};
use crate::text::{chars_of, owned, string_of};

verus! {

/// Whether `char::is_alphanumeric` holds of `c`: it is alphabetic or
/// numeric in Unicode.
pub uninterp spec fn spec_is_alphanumeric(c: char) -> bool;

/// Whether `c` is an ASCII letter or digit.
pub open spec fn is_ascii_alnum(c: char) -> bool {
    ('a' <= c && c <= 'z') || ('A' <= c && c <= 'Z') || ('0' <= c && c <= '9')
}

/// Calls `char::is_alphanumeric`; its result is named by
/// `spec_is_alphanumeric`.  Among ASCII characters, as the documentation
/// of `is_alphabetic` and `is_numeric` shows, it holds of the letters and
/// digits only.
#[verifier::external_body]
fn is_alphanumeric(c: char) -> (b: bool)
    ensures
        b == spec_is_alphanumeric(c),
        c < '\u{80}' ==> (b == is_ascii_alnum(c)),
{
    c.is_alphanumeric()
}

/// A character that may stand in a bare `$name` reference: alphanumeric,
/// or `_`.
pub open spec fn is_name_char(c: char) -> bool {
    spec_is_alphanumeric(c) || c == '_'
}

/// The index of the first `c` in `s` at `i` or later.
pub open spec fn find_from(s: Seq<char>, i: int, c: char) -> Option<int>
    decreases s.len() - i,
{
    if i >= s.len() {
        None
    } else if s[i] == c {
        Some(i)
    } else {
        find_from(s, i + 1, c)
    }
}

/// The end of the run of name characters that starts at `i`.
pub open spec fn name_end(s: Seq<char>, i: int) -> int
    decreases s.len() - i,
{
    if i < s.len() && is_name_char(s[i]) {
        name_end(s, i + 1)
    } else {
        i
    }
}

/// A found `c` lies at `i` or later and inside `s`.
pub proof fn lemma_find_from(s: Seq<char>, i: int, c: char)
    ensures
        match find_from(s, i, c) {
            Some(j) => i <= j < s.len() && s[j] == c,
            None => true,
        },
    decreases s.len() - i,
{
    if i < s.len() && s[i] != c {
        lemma_find_from(s, i + 1, c);
    }
}

/// A run of name characters ends at or after its start.
pub proof fn lemma_name_end(s: Seq<char>, i: int)
    ensures
        i <= name_end(s, i),
        i <= s.len() ==> name_end(s, i) <= s.len(),
        forall|j: int| i <= j < name_end(s, i) ==> is_name_char(#[trigger] s[j]),
        name_end(s, i) < s.len() ==> !is_name_char(s[name_end(s, i)]),
    decreases s.len() - i,
{
    if i < s.len() && is_name_char(s[i]) {
        lemma_name_end(s, i + 1);
    }
}

/// The value of the variable `name`: its entry, or nothing.
pub open spec fn var_value(vars: Seq<(Seq<char>, Seq<char>)>, name: Seq<char>) -> Seq<char> {
    match lookup(vars, name) {
        Some(v) => v,
        None => Seq::empty(),
    }
}

/// Whether `$` at `i` opens a braced reference `${name}` with a closing brace.
pub open spec fn braced_at(s: Seq<char>, i: int) -> bool {
    i + 1 < s.len() && s[i + 1] == '{' && find_from(s, i + 2, '}') is Some
}

/// `s` from `i` on with its variable references replaced: `${name}` and
/// `$name` by the variable's value (nothing for an unknown variable), `$$`
/// by `$`; any other `$` stays.  Values are not expanded again.
pub open spec fn expand_from(s: Seq<char>, vars: Seq<(Seq<char>, Seq<char>)>, i: int) -> Seq<char>
    decreases s.len() - i,
{
    if i < 0 || i >= s.len() {
        Seq::empty()
    } else if s[i] == '$' && braced_at(s, i) {
        let end = find_from(s, i + 2, '}')->0;
        proof {
            lemma_find_from(s, i + 2, '}');
        }
        var_value(vars, s.subrange(i + 2, end)) + expand_from(s, vars, end + 1)
    } else if s[i] == '$' && i + 1 < s.len() && s[i + 1] == '$' {
        seq!['$'] + expand_from(s, vars, i + 2)
    } else if s[i] == '$' && !(i + 1 < s.len() && s[i + 1] == '{') && name_end(s, i + 1) > i + 1 {
        let end = name_end(s, i + 1);
        proof {
            lemma_name_end(s, i + 1);
        }
        var_value(vars, s.subrange(i + 1, end)) + expand_from(s, vars, end)
    } else {
        seq![s[i]] + expand_from(s, vars, i + 1)
    }
}

/// Whether every character that the expansion of `s` from `i` on steps over
/// one by one is ASCII.  The scan walks the text by bytes, so it stops with a
/// panic inside any other character (names and braced names are skipped
/// whole).
pub open spec fn scan_ascii(s: Seq<char>, i: int) -> bool
    decreases s.len() - i,
{
    if i < 0 || i >= s.len() {
        true
    } else if s[i] == '$' && braced_at(s, i) {
        let end = find_from(s, i + 2, '}')->0;
        proof {
            lemma_find_from(s, i + 2, '}');
        }
        scan_ascii(s, end + 1)
    } else if s[i] == '$' && i + 1 < s.len() && s[i + 1] == '$' {
        scan_ascii(s, i + 2)
    } else if s[i] == '$' && !(i + 1 < s.len() && s[i + 1] == '{') && name_end(s, i + 1) > i + 1 {
        proof {
            lemma_name_end(s, i + 1);
        }
        scan_ascii(s, name_end(s, i + 1))
    } else {
        (s[i] as u32) < 128 && scan_ascii(s, i + 1)
    }
}

fn is_name_char_exec(c: char) -> (b: bool)
    ensures
        b == is_name_char(c),
{
    is_alphanumeric(c) || c == '_'
}

pub(crate) fn find_from_exec(s: &Vec<char>, i: usize, c: char) -> (r: Option<usize>)
    ensures
        match r {
            Some(j) => find_from(s@, i as int, c) == Some(j as int),
            None => find_from(s@, i as int, c) is None,
        },
    decreases s@.len() - i,
{
    if i >= s.len() {
        None
    } else if s[i] == c {
        Some(i)
    } else {
        find_from_exec(s, i + 1, c)
    }
}

fn name_end_exec(s: &Vec<char>, i: usize) -> (r: usize)
    requires
        i <= s@.len(),
    ensures
        r == name_end(s@, i as int),
    decreases s@.len() - i,
{
    if i < s.len() && is_name_char_exec(s[i]) {
        name_end_exec(s, i + 1)
    } else {
        i
    }
}

fn value_of(vars: &StrMap<String>, name: &[char]) -> (r: Vec<char>)
    ensures
        r@ == var_value(vars@, name@),
{
    let key = string_of(name);
    match vars.get(key.as_str()) {
        Some(v) => chars_of(v.as_str()),
        None => Vec::new(),
    }
}

/// Expands the variable references of `input` with the values in
/// `variables` (see `expand_from`).
pub fn expand_variables(input: &str, variables: &StrMap<String>) -> (r: String)
    requires
        scan_ascii(input@, 0),
    ensures
        r@ == expand_from(input@, variables@, 0),
{
    let s = chars_of(input);
    let ghost vs = variables@;
    let mut out: Vec<char> = Vec::new();
    let mut i: usize = 0;
    while i < s.len()
        invariant
            s@ == input@,
            i <= s@.len(),
            out@ + expand_from(s@, vs, i as int) == expand_from(s@, vs, 0),
            vs == variables@,
        decreases s@.len() - i,
    {
        let ghost i0 = i as int;
        let ghost o0 = out@;
        let mut handled = false;
        if s[i] == '$' && i + 1 < s.len() && s[i + 1] == '{' {
            match find_from_exec(&s, i + 2, '}') {
                Some(end) => {
                    proof {
                        lemma_find_from(s@, i + 2, '}');
                    }
                    let name = crate::text::copy_range(&s, i + 2, end);
                    let v = value_of(variables, &name);
                    crate::text::append_chars(&mut out, &v);
                    i = end + 1;
                    handled = true;
                    proof {
                        assert(out@ + expand_from(s@, vs, i as int) =~= o0 + expand_from(s@, vs, i0));
                    }
                },
                None => {},
            }
        } else if s[i] == '$' && i + 1 < s.len() && s[i + 1] == '$' {
            out.push('$');
            i = i + 2;
            handled = true;
            proof {
                assert(out@ + expand_from(s@, vs, i as int) =~= o0 + expand_from(s@, vs, i0));
            }
        } else if s[i] == '$' {
            let end = name_end_exec(&s, i + 1);
            if end > i + 1 {
                proof {
                    lemma_name_end(s@, i + 1);
                }
                let name = crate::text::copy_range(&s, i + 1, end);
                let v = value_of(variables, &name);
                crate::text::append_chars(&mut out, &v);
                i = end;
                handled = true;
                proof {
                    assert(out@ + expand_from(s@, vs, i as int) =~= o0 + expand_from(s@, vs, i0));
                }
            }
        }
        if !handled {
            out.push(s[i]);
            i = i + 1;
            proof {
                assert(out@ + expand_from(s@, vs, i as int) =~= o0 + expand_from(s@, vs, i0));
            }
        }
    }
    proof {
        assert(out@ =~= out@ + expand_from(s@, vs, i as int));
    }
    string_of(&out)
}

/// An entry of a compilation database: the expanded command of a build
/// edge, one of its C-family source inputs, and its first output.
#[derive(Debug, Clone)]
pub struct CompdbEntry {
    pub command: String,
    pub file: String,
    pub output: String,
}

impl View for CompdbEntry {
    type V = (Seq<char>, Seq<char>, Seq<char>);

    open spec fn view(&self) -> (Seq<char>, Seq<char>, Seq<char>) {
        (self.command@, self.file@, self.output@)
    }
}

/// Whether `s` ends with `t`.
pub open spec fn ends_with(s: Seq<char>, t: Seq<char>) -> bool {
    t.len() <= s.len() && s.subrange(s.len() - t.len(), s.len() as int) == t
}

/// Whether `p` names a C, C++ or Objective-C source file by its extension.
pub open spec fn is_c_source(p: Seq<char>) -> bool {
    ends_with(p, ".c"@) || ends_with(p, ".cc"@) || ends_with(p, ".cpp"@) || ends_with(p, ".cxx"@)
        || ends_with(p, ".m"@) || ends_with(p, ".mm"@)
}

/// The variables that expand the command of the edge `b` with the rule `r`:
/// the manifest's, overridden by the rule's, overridden by the edge's, then
/// `in` and `out` set to the inputs and outputs joined with spaces.
pub open spec fn compdb_vars(m: ManifestView, r: RuleView, b: BuildView) -> Seq<
    (Seq<char>, Seq<char>),
> {
    let v = insert_seq(insert_seq(m.variables, r.variables), b.variables);
    insert_kv(insert_kv(v, "in"@, join(b.inputs, " "@)), "out"@, join(b.outputs, " "@))
}

/// One entry per C-family source among `ins`, in order.
pub open spec fn source_entries(ins: Seq<Seq<char>>, cmd: Seq<char>, out: Seq<char>) -> Seq<
    (Seq<char>, Seq<char>, Seq<char>),
>
    decreases ins.len(),
{
    if ins.len() == 0 {
        Seq::empty()
    } else {
        source_entries(ins.drop_last(), cmd, out) + if is_c_source(ins.last()) {
            seq![(cmd, ins.last(), out)]
        } else {
            Seq::empty()
        }
    }
}

/// The entries of the edge `b`: none when its rule is unknown or has no
/// command.
pub open spec fn edge_entries(m: ManifestView, b: BuildView) -> Seq<
    (Seq<char>, Seq<char>, Seq<char>),
> {
    match lookup(m.rules, b.rule) {
        Some(r) => match r.command {
            Some(t) => source_entries(
                b.inputs,
                expand_from(t, compdb_vars(m, r, b), 0),
                first_or_empty(b.outputs),
            ),
            None => Seq::empty(),
        },
        None => Seq::empty(),
    }
}

/// The entries of the first `k` edges of `m`, in order.
pub open spec fn compdb(m: ManifestView, k: int) -> Seq<(Seq<char>, Seq<char>, Seq<char>)>
    decreases k,
{
    if k <= 0 || k > m.builds.len() {
        Seq::empty()
    } else {
        compdb(m, k - 1) + edge_entries(m, m.builds[k - 1])
    }
}

/// Whether every command template that the database expands can be
/// scanned (see `scan_ascii`).
pub open spec fn compdb_ok(m: ManifestView) -> bool {
    forall|i: int|
        0 <= i < m.builds.len() ==> match lookup(m.rules, (#[trigger] m.builds[i]).rule) {
            Some(r) => match r.command {
                Some(t) => scan_ascii(t, 0),
                None => true,
            },
            None => true,
        }
}

/// The views of a sequence of entries.
pub open spec fn entry_views(v: Seq<CompdbEntry>) -> Seq<(Seq<char>, Seq<char>, Seq<char>)> {
    v.map_values(|e: CompdbEntry| e@)
}

fn push_source_entries(
    out: &mut Vec<CompdbEntry>,
    ins: &Vec<String>,
    cmd: &String,
    first_out: &String,
)
    ensures
        entry_views(final(out)@) == entry_views(old(out)@) + source_entries(
            crate::text::views(ins@),
            cmd@,
            first_out@,
        ),
{
    let ghost vins = crate::text::views(ins@);
    let mut j: usize = 0;
    while j < ins.len()
        invariant
            j <= ins@.len(),
            vins == crate::text::views(ins@),
            entry_views(out@) == entry_views(old(out)@) + source_entries(
                vins.take(j as int),
                cmd@,
                first_out@,
            ),
        decreases ins@.len() - j,
    {
        let ghost o0 = entry_views(out@);
        let f = chars_of(ins[j].as_str());
        proof {
            reveal_strlit(".c");
            reveal_strlit(".cc");
            reveal_strlit(".cpp");
            reveal_strlit(".cxx");
            reveal_strlit(".m");
            reveal_strlit(".mm");
            assert(vins.take(j + 1).drop_last() =~= vins.take(j as int));
            assert(vins.take(j + 1).last() == ins@[j as int]@);
        }
        if c_source_exec(&f) {
            out.push(CompdbEntry { command: cmd.clone(), file: ins[j].clone(), output: first_out.clone() });
            proof {
                assert(entry_views(out@) =~= o0.push((cmd@, ins@[j as int]@, first_out@)));
            }
        }
        j = j + 1;
    }
    proof {
        assert(vins.take(j as int) =~= vins);
    }
}

fn ends_with_exec(s: &Vec<char>, t: &str) -> (b: bool)
    ensures
        b == ends_with(s@, t@),
{
    let tc = chars_of(t);
    if tc.len() > s.len() {
        return false;
    }
    let tail = crate::text::copy_range(s, s.len() - tc.len(), s.len());
    let b = crate::text::chars_eq(&tail, &tc);
    b
}

fn c_source_exec(f: &Vec<char>) -> (b: bool)
    ensures
        b == is_c_source(f@),
{
    ends_with_exec(f, ".c") || ends_with_exec(f, ".cc") || ends_with_exec(f, ".cpp")
        || ends_with_exec(f, ".cxx") || ends_with_exec(f, ".m") || ends_with_exec(f, ".mm")
}

/// Whether `expand_variables` can scan `s` (see `scan_ascii`).
pub fn scannable(s: &str) -> (b: bool)
    ensures
        b == scan_ascii(s@, 0),
{
    let c = chars_of(s);
    let mut i: usize = 0;
    while i < c.len()
        invariant
            c@ == s@,
            i <= c@.len(),
            scan_ascii(c@, 0) == scan_ascii(c@, i as int),
        decreases c@.len() - i,
    {
        if c[i] == '$' && i + 1 < c.len() && c[i + 1] == '{' {
            match find_from_exec(&c, i + 2, '}') {
                Some(end) => {
                    proof {
                        lemma_find_from(c@, i + 2, '}');
                    }
                    i = end + 1;
                    continue;
                },
                None => {},
            }
        }
        if c[i] == '$' && i + 1 < c.len() && c[i + 1] == '$' {
            i = i + 2;
            continue;
        }
        if c[i] == '$' && !(i + 1 < c.len() && c[i + 1] == '{') {
            let end = name_end_exec(&c, i + 1);
            if end > i + 1 {
                proof {
                    lemma_name_end(c@, i + 1);
                }
                i = end;
                continue;
            }
        }
        if (c[i] as u32) >= 128 {
            return false;
        }
        i = i + 1;
    }
    true
}

/// Whether `compdb_entries` can expand every command template of
/// `manifest` (`compdb_ok`); the program tests it before the call.
pub fn compdb_checkable(manifest: &Manifest) -> (b: bool)
    ensures
        b == compdb_ok(manifest@),
{
    let ghost m = manifest@;
    let mut k: usize = 0;
    while k < manifest.builds.len()
        invariant
            k <= manifest.builds@.len(),
            m == manifest@,
            forall|i: int|
                0 <= i < k ==> match lookup(m.rules, (#[trigger] m.builds[i]).rule) {
                    Some(r) => match r.command {
                        Some(t) => scan_ascii(t, 0),
                        None => true,
                    },
                    None => true,
                },
        decreases manifest.builds@.len() - k,
    {
        let build = &manifest.builds[k];
        proof {
            assert(m.builds[k as int] == build@);
        }
        match manifest.rules.get(build.rule.as_str()) {
            Some(rule) => {
                match &rule.command {
                    Some(template) => {
                        proof {
                            assert(opt_view(rule.command) == rule@.command);
                        }
                        if !scannable(template.as_str()) {
                            return false;
                        }
                    },
                    None => {
                        proof {
                            assert(opt_view(rule.command) == rule@.command);
                        }
                    },
                }
            },
            None => {},
        }
        k = k + 1;
    }
    true
}

/// The entries of a compilation database for `manifest`: for each build edge
/// whose rule has a command, in order, one entry per C-family source input
/// with the command expanded by `expand_variables`.
pub fn compdb_entries(manifest: &Manifest) -> (r: Vec<CompdbEntry>)
    requires
        compdb_ok(manifest@),
    ensures
        entry_views(r@) == compdb(manifest@, manifest@.builds.len() as int),
{
    let ghost m = manifest@;
    let mut out: Vec<CompdbEntry> = Vec::new();
    let mut k: usize = 0;
    while k < manifest.builds.len()
        invariant
            k <= manifest.builds@.len(),
            m == manifest@,
            compdb_ok(m),
            entry_views(out@) == compdb(m, k as int),
        decreases manifest.builds@.len() - k,
    {
        let build = &manifest.builds[k];
        let ghost bv = build@;
        proof {
            assert(m.builds[k as int] == bv);
        }
        match manifest.rules.get(build.rule.as_str()) {
            Some(rule) => {
                match &rule.command {
                    Some(template) => {
                        proof {
                            assert(opt_view(rule.command) == rule@.command);
                        }
                        let mut vars = manifest.variables.duplicate();
                        vars.extend(&rule.variables);
                        vars.extend(&build.variables);
                        let ins = string_of(&join_strings(&build.inputs, " "));
                        let outs = string_of(&join_strings(&build.outputs, " "));
                        proof {
                            reveal_strlit("in");
                            reveal_strlit("out");
                        }
                        vars.insert(owned("in"), ins);
                        vars.insert(owned("out"), outs);
                        let command = expand_variables(template.as_str(), &vars);
                        let first_out = if build.outputs.len() > 0 {
                            build.outputs[0].clone()
                        } else {
                            String::new()
                        };
                        proof {
                            assert(first_out@ == first_or_empty(bv.outputs));
                        }
                        push_source_entries(&mut out, &build.inputs, &command, &first_out);
                    },
                    None => {},
                }
            },
            None => {},
        }
        k = k + 1;
    }
    out
}

} // verus!
