//! How the variables of a build edge, its rule and the manifest combine in
//! the edge's command: the edge's own binding shadows the rule's, which
//! shadows the manifest's.
use vstd::prelude::*;
use crate::graph::{builtin_vars, expand_var, unescape};
use crate::parser::manifest::BuildView;
use crate::parser::{expand, expand_at, is_var_char, var_end};
use crate::strmap::lookup;
use crate::text::{has_prefix, replace};

verus! {

/// The reference `${v}` to the variable `v`.
pub open spec fn var_ref(v: Seq<char>) -> Seq<char> {
    "${"@ + v + "}"@
}

/// Whether `v` is a variable name: one or more name characters.
pub open spec fn var_name(v: Seq<char>) -> bool {
    v.len() > 0 && forall|k: int| 0 <= k < v.len() ==> is_var_char(#[trigger] v[k])
}

proof fn lemma_var_ref(v: Seq<char>)
    requires
        var_name(v),
    ensures
        var_ref(v).len() == v.len() + 3,
        var_ref(v)[0] == '$',
        var_ref(v)[1] == '{',
        var_ref(v)[v.len() + 2int] == '}',
        forall|k: int| 2 <= k < v.len() + 2 ==> #[trigger] var_ref(v)[k] == v[k - 2],
        forall|k: int| 1 <= k < var_ref(v).len() ==> #[trigger] var_ref(v)[k] != '$',
        forall|k: int| 2 <= k < v.len() + 2 ==> #[trigger] var_ref(v)[k] != '}',
{
    reveal_strlit("${");
    reveal_strlit("}");
    let r = var_ref(v);
    assert forall|k: int| 2 <= k < v.len() + 2 implies #[trigger] r[k] == v[k - 2] by {}
    assert forall|k: int| 1 <= k < r.len() implies #[trigger] r[k] != '$' by {
        if 2 <= k < v.len() + 2 {
            assert(is_var_char(v[k - 2]));
        }
    }
    assert forall|k: int| 2 <= k < v.len() + 2 implies #[trigger] r[k] != '}' by {
        assert(is_var_char(v[k - 2]));
    }
}

/// Text without `$` is left alone by a replacement whose pattern starts
/// with `$`.
proof fn lemma_replace_no_dollar(s: Seq<char>, p: Seq<char>, r: Seq<char>)
    requires
        p.len() > 0,
        p[0] == '$',
        forall|k: int| 0 <= k < s.len() ==> #[trigger] s[k] != '$',
    ensures
        replace(s, p, r) == s,
    decreases s.len(),
{
    if s.len() > 0 {
        assert(!has_prefix(s, p)) by {
            if has_prefix(s, p) {
                assert(s.take(p.len() as int)[0] == s[0]);
            }
        }
        lemma_replace_no_dollar(s.drop_first(), p, r);
        assert(s =~= seq![s[0]] + s.drop_first());
    }
}

/// A reference `${v}` is left alone by a replacement whose pattern starts
/// with `$` and is not a prefix of it.
proof fn lemma_replace_ref(v: Seq<char>, p: Seq<char>, r: Seq<char>)
    requires
        var_name(v),
        p.len() > 0,
        p[0] == '$',
        !has_prefix(var_ref(v), p),
    ensures
        replace(var_ref(v), p, r) == var_ref(v),
{
    let s = var_ref(v);
    lemma_var_ref(v);
    assert forall|k: int| 0 <= k < s.drop_first().len() implies #[trigger] s.drop_first()[k] != '$' by {
        assert(s.drop_first()[k] == s[k + 1]);
    }
    lemma_replace_no_dollar(s.drop_first(), p, r);
    assert(s =~= seq![s[0]] + s.drop_first());
}

/// `${v}` does not begin with a pattern whose second character is not `{`.
proof fn lemma_not_prefix_plain(v: Seq<char>, p: Seq<char>)
    requires
        var_name(v),
        p.len() >= 2,
        p[1] != '{',
    ensures
        !has_prefix(var_ref(v), p),
{
    lemma_var_ref(v);
    if has_prefix(var_ref(v), p) {
        assert(var_ref(v).take(p.len() as int)[1] == var_ref(v)[1]);
    }
}

/// `${v}` does not begin with `${w}` for another name `w`.
proof fn lemma_not_prefix_ref(v: Seq<char>, w: Seq<char>)
    requires
        var_name(v),
        var_name(w),
        v != w,
    ensures
        !has_prefix(var_ref(v), var_ref(w)),
{
    lemma_var_ref(v);
    lemma_var_ref(w);
    let s = var_ref(v);
    let p = var_ref(w);
    if has_prefix(s, p) {
        let t = s.take(p.len() as int);
        if v.len() == w.len() {
            assert(s =~= t);
            assert forall|k: int| 0 <= k < v.len() implies v[k] == w[k] by {
                assert(s[k + 2] == v[k]);
                assert(p[k + 2] == w[k]);
            }
            assert(v =~= w);
        } else {
            assert(v.len() > w.len());
            assert(t[w.len() + 2int] == s[w.len() + 2int]);
            assert(p[w.len() + 2int] == '}');
        }
    }
}

/// The built-in variables leave a reference to any other variable alone.
proof fn lemma_builtin_ref(v: Seq<char>, b: BuildView)
    requires
        var_name(v),
        v != "in"@,
        v != "out"@,
    ensures
        builtin_vars(var_ref(v), b) == var_ref(v),
{
    reveal_strlit("$in");
    reveal_strlit("${in}");
    reveal_strlit("$out");
    reveal_strlit("${out}");
    reveal_strlit("$in_newline");
    reveal_strlit("$first_input");
    reveal_strlit("$first_output");
    reveal_strlit("in");
    reveal_strlit("out");
    reveal_strlit("${");
    reveal_strlit("}");
    let s = var_ref(v);
    assert(var_name("in"@));
    assert(var_name("out"@));
    assert("${in}"@ =~= var_ref("in"@));
    assert("${out}"@ =~= var_ref("out"@));
    lemma_not_prefix_ref(v, "in"@);
    lemma_not_prefix_ref(v, "out"@);
    lemma_not_prefix_plain(v, "$in"@);
    lemma_not_prefix_plain(v, "$out"@);
    lemma_not_prefix_plain(v, "$in_newline"@);
    lemma_not_prefix_plain(v, "$first_input"@);
    lemma_not_prefix_plain(v, "$first_output"@);
    let in_str = crate::graph::join(b.inputs, " "@);
    let out_str = crate::graph::join(b.outputs, " "@);
    lemma_replace_ref(v, "$in"@, in_str);
    lemma_replace_ref(v, "${in}"@, in_str);
    lemma_replace_ref(v, "$out"@, out_str);
    lemma_replace_ref(v, "${out}"@, out_str);
    lemma_replace_ref(v, "$in_newline"@, crate::graph::join(b.inputs, "\n"@));
    lemma_replace_ref(v, "$first_input"@, crate::graph::first_or_empty(b.inputs));
    lemma_replace_ref(v, "$first_output"@, crate::graph::first_or_empty(b.outputs));
}

/// Expansion leaves text without `$` alone, whatever the variables.
proof fn lemma_expand_no_dollar(vars: Seq<(Seq<char>, Seq<char>)>, s: Seq<char>, i: int)
    requires
        0 <= i <= s.len(),
        forall|k: int| i <= k < s.len() ==> #[trigger] s[k] != '$',
    ensures
        expand_at(vars, s, i) == s.skip(i),
    decreases s.len() - i,
{
    if i < s.len() {
        lemma_expand_no_dollar(vars, s, i + 1);
        assert(s.skip(i) =~= seq![s[i]] + s.skip(i + 1));
    } else {
        assert(s.skip(i) =~= Seq::<char>::empty());
    }
}

proof fn lemma_find_close(v: Seq<char>, i: int)
    requires
        var_name(v),
        2 <= i <= v.len() + 2,
    ensures
        crate::tools::find_from(var_ref(v), i, '}') == Some(v.len() + 2int),
    decreases v.len() + 2 - i,
{
    lemma_var_ref(v);
    if i < v.len() + 2 {
        lemma_find_close(v, i + 1);
    }
}

/// Expanding `${v}`: the value of `v` when it is one of `vars`, else the
/// reference as it is.
proof fn lemma_expand_ref(vars: Seq<(Seq<char>, Seq<char>)>, v: Seq<char>)
    requires
        var_name(v),
    ensures
        match lookup(vars, v) {
            Some(x) => expand(vars, var_ref(v)) == x,
            None => expand(vars, var_ref(v)) == var_ref(v),
        },
{
    let s = var_ref(v);
    lemma_var_ref(v);
    lemma_find_close(v, 2);
    assert(s.subrange(2, v.len() + 2int) =~= v);
    lemma_expand_no_dollar(vars, s, 1);
    match lookup(vars, v) {
        Some(x) => {
            assert(expand_at(vars, s, v.len() + 3int) == Seq::<char>::empty());
            assert(x + Seq::<char>::empty() =~= x);
        },
        None => {
            assert(!is_var_char(s[1]));
            assert(var_end(s, 1) == 1);
            assert(s =~= seq![s[0]] + s.skip(1));
        },
    }
}

/// Expansion and escapes leave text without `$` alone.
proof fn lemma_plain_stays(vars: Seq<(Seq<char>, Seq<char>)>, x: Seq<char>)
    requires
        forall|k: int| 0 <= k < x.len() ==> #[trigger] x[k] != '$',
    ensures
        expand(vars, x) == x,
        unescape(x) == x,
{
    lemma_expand_no_dollar(vars, x, 0);
    assert(x.skip(0) =~= x);
    reveal_strlit("$$");
    reveal_strlit("$ ");
    reveal_strlit("$:");
    lemma_replace_no_dollar(x, "$$"@, "$"@);
    lemma_replace_no_dollar(x, "$ "@, " "@);
    lemma_replace_no_dollar(x, "$:"@, ":"@);
}

/// In a build edge's command, a reference `${v}` to a variable takes the
/// value that the edge itself binds to `v`; when the edge does not bind it,
/// the rule's value; when neither does, the manifest's; when none does, it
/// stays as written.  (Stated for values without `$`, which no later
/// expansion touches, and for names other than the built-in `in` and
/// `out`.)
pub proof fn law_edge_shadows_rule_shadows_globals(
    globals: Seq<(Seq<char>, Seq<char>)>,
    b: BuildView,
    rule_vars: Seq<(Seq<char>, Seq<char>)>,
    v: Seq<char>,
)
    requires
        var_name(v),
        v != "in"@,
        v != "out"@,
        forall|k: int, j: int|
            0 <= k < b.variables.len() && 0 <= j < b.variables[k].1.len() ==> #[trigger] b.variables[k].1[j]
                != '$',
        forall|k: int, j: int|
            0 <= k < rule_vars.len() && 0 <= j < rule_vars[k].1.len() ==> #[trigger] rule_vars[k].1[j] != '$',
        forall|k: int, j: int|
            0 <= k < globals.len() && 0 <= j < globals[k].1.len() ==> #[trigger] globals[k].1[j] != '$',
    ensures
        lookup(b.variables, v) is Some ==> expand_var(globals, b, rule_vars, var_ref(v)) == lookup(
            b.variables,
            v,
        )->0,
        lookup(b.variables, v) is None && lookup(rule_vars, v) is Some ==> expand_var(
            globals,
            b,
            rule_vars,
            var_ref(v),
        ) == lookup(rule_vars, v)->0,
        lookup(b.variables, v) is None && lookup(rule_vars, v) is None && lookup(globals, v) is Some
            ==> expand_var(globals, b, rule_vars, var_ref(v)) == lookup(globals, v)->0,
{
    lemma_builtin_ref(v, b);
    lemma_expand_ref(b.variables, v);
    lemma_expand_ref(rule_vars, v);
    lemma_expand_ref(globals, v);
    lemma_var_ref(v);
    crate::strmap::lemma_key_index_bound(b.variables, v);
    crate::strmap::lemma_key_index_bound(rule_vars, v);
    crate::strmap::lemma_key_index_bound(globals, v);
    match lookup(b.variables, v) {
        Some(x) => {
            let i = crate::strmap::key_index(b.variables, v)->0;
            assert(forall|j: int| 0 <= j < x.len() ==> #[trigger] x[j] == b.variables[i].1[j]);
            lemma_plain_stays(rule_vars, x);
            lemma_plain_stays(globals, x);
        },
        None => match lookup(rule_vars, v) {
            Some(x) => {
                let i = crate::strmap::key_index(rule_vars, v)->0;
                assert(forall|j: int| 0 <= j < x.len() ==> #[trigger] x[j] == rule_vars[i].1[j]);
                lemma_plain_stays(globals, x);
            },
            None => match lookup(globals, v) {
                Some(x) => {
                    let i = crate::strmap::key_index(globals, v)->0;
                    assert(forall|j: int| 0 <= j < x.len() ==> #[trigger] x[j] == globals[i].1[j]);
                    lemma_plain_stays(globals, x);
                },
                None => {},
            },
        },
    }
}

} // verus!
