//! Content hashes and action keys, with BLAKE3.
use vstd::prelude::*;
use vstd::utf8::encode_utf8;
use super::entry::push_bytes;

verus! {

/// The lowercase hexadecimal BLAKE3 hash of `data`.
pub uninterp spec fn spec_blake3_hex(data: Seq<u8>) -> Seq<char>;

/// Whether `c` is a lowercase hexadecimal digit.
pub open spec fn is_lower_hex(c: char) -> bool {
    ('0' <= c && c <= '9') || ('a' <= c && c <= 'f')
}

/// Calls `blake3::hash` and `Hash::to_hex`.  The result is named by
/// `spec_blake3_hex`; as `to_hex` shows, it is 64 lowercase hexadecimal
/// digits (two per byte of the 32-byte hash).
#[verifier::external_body]
fn blake3_hex(data: &[u8]) -> (s: String)
    ensures
        s@ == spec_blake3_hex(data@),
        s@.len() == 64,
        forall|i: int| 0 <= i < s@.len() ==> is_lower_hex(#[trigger] s@[i]),
{
    blake3::hash(data).to_hex().to_string()
}

/// The BLAKE3 hash of `data` in lowercase hexadecimal.
pub fn hash_bytes(data: &[u8]) -> (s: String)
    ensures
        s@ == spec_blake3_hex(data@),
        s@.len() == 64,
        forall|i: int| 0 <= i < s@.len() ==> is_lower_hex(#[trigger] s@[i]),
{
    blake3_hex(data)
}

/// Whether the blob stored under the file name `name` holds `data`: its
/// name is the hash of its content.
pub fn blob_hash_matches(name: &str, data: &[u8]) -> (b: bool)
    ensures
        b == (spec_blake3_hex(data@) == name@),
{
    let h = hash_bytes(data);
    crate::strmap::str_eq(h.as_str(), name)
}

// ---------------------------------------------------------------------------
// Action keys
// ---------------------------------------------------------------------------

/// Whether `a` comes before `b` in the order of `str`: lexicographic by code
/// point (the order of their UTF-8 bytes).
pub open spec fn str_lt(a: Seq<char>, b: Seq<char>) -> bool
    decreases a.len(),
{
    if a.len() == 0 {
        b.len() > 0
    } else if b.len() == 0 {
        false
    } else if a[0] != b[0] {
        (a[0] as u32) < (b[0] as u32)
    } else {
        str_lt(a.drop_first(), b.drop_first())
    }
}

/// Whether `a` comes before `b` in the order of `str`.
pub fn str_less(a: &str, b: &str) -> (r: bool)
    ensures
        r == str_lt(a@, b@),
{
    let ac = crate::text::chars_of(a);
    let bc = crate::text::chars_of(b);
    let mut i: usize = 0;
    proof {
        assert(a@.skip(0) =~= a@);
        assert(b@.skip(0) =~= b@);
    }
    while i < ac.len() && i < bc.len() && ac[i] == bc[i]
        invariant
            i <= ac@.len(),
            i <= bc@.len(),
            ac@ == a@,
            bc@ == b@,
            str_lt(a@, b@) == str_lt(a@.skip(i as int), b@.skip(i as int)),
        decreases ac@.len() - i,
    {
        proof {
            assert(a@.skip(i as int).drop_first() =~= a@.skip(i + 1));
            assert(b@.skip(i as int).drop_first() =~= b@.skip(i + 1));
        }
        i = i + 1;
    }
    proof {
        if i < ac@.len() {
            assert(a@.skip(i as int)[0] == ac@[i as int]);
        }
        if i < bc@.len() {
            assert(b@.skip(i as int)[0] == bc@[i as int]);
        }
    }
    if i == ac.len() {
        i < bc.len()
    } else if i == bc.len() {
        false
    } else {
        (ac[i] as u32) < (bc[i] as u32)
    }
}

/// `x` put into `s` before the first pair whose first component is greater,
/// so that an ascending order by first component stays and equal ones keep
/// their order.
pub open spec fn insert_by_first(s: Seq<(Seq<char>, Seq<char>)>, x: (Seq<char>, Seq<char>)) -> Seq<
    (Seq<char>, Seq<char>),
>
    decreases s.len(),
{
    if s.len() == 0 {
        seq![x]
    } else if str_lt(x.0, s[0].0) {
        seq![x] + s
    } else {
        seq![s[0]] + insert_by_first(s.drop_first(), x)
    }
}

/// `s` sorted by first component, equal ones in their order in `s`: what a
/// stable sort by that key gives.
pub open spec fn sort_by_first(s: Seq<(Seq<char>, Seq<char>)>) -> Seq<(Seq<char>, Seq<char>)>
    decreases s.len(),
{
    if s.len() == 0 {
        s
    } else {
        insert_by_first(sort_by_first(s.drop_last()), s.last())
    }
}

proof fn lemma_insert_by_first(s: Seq<(Seq<char>, Seq<char>)>, x: (Seq<char>, Seq<char>), p: int)
    requires
        0 <= p <= s.len(),
        forall|j: int| 0 <= j < p ==> !str_lt(x.0, #[trigger] s[j].0),
        p < s.len() ==> str_lt(x.0, s[p].0),
    ensures
        insert_by_first(s, x) == s.take(p) + seq![x] + s.skip(p),
    decreases s.len(),
{
    if s.len() == 0 {
        assert(s.take(p) + seq![x] + s.skip(p) =~= seq![x]);
    } else if p == 0 {
        assert(s.take(p) + seq![x] + s.skip(p) =~= seq![x] + s);
    } else {
        let t = s.drop_first();
        assert forall|j: int| 0 <= j < p - 1 implies !str_lt(x.0, #[trigger] t[j].0) by {
            assert(t[j] == s[j + 1]);
        }
        lemma_insert_by_first(t, x, p - 1);
        assert(s.take(p) + seq![x] + s.skip(p) =~= seq![s[0]] + (t.take(p - 1) + seq![x] + t.skip(
            p - 1,
        )));
    }
}

/// The views of string pairs.
pub open spec fn string_pairs(v: Seq<(String, String)>) -> Seq<(Seq<char>, Seq<char>)> {
    v.map_values(|p: (String, String)| (p.0@, p.1@))
}

/// Sorts `v` by first component (a stable insertion sort).
pub fn sort_pairs_by_first(v: &Vec<(String, String)>) -> (r: Vec<(String, String)>)
    ensures
        string_pairs(r@) == sort_by_first(string_pairs(v@)),
{
    let ghost vs = string_pairs(v@);
    let mut r: Vec<(String, String)> = Vec::new();
    let mut i: usize = 0;
    proof {
        assert(vs.take(0) =~= Seq::<(Seq<char>, Seq<char>)>::empty());
        assert(string_pairs(r@) =~= Seq::<(Seq<char>, Seq<char>)>::empty());
    }
    while i < v.len()
        invariant
            i <= v@.len(),
            vs == string_pairs(v@),
            string_pairs(r@) == sort_by_first(vs.take(i as int)),
        decreases v@.len() - i,
    {
        let mut p: usize = 0;
        while p < r.len() && !str_less(v[i].0.as_str(), r[p].0.as_str())
            invariant
                i < v@.len(),
                p <= r@.len(),
                forall|j: int| 0 <= j < p ==> !str_lt(v@[i as int].0@, #[trigger] r@[j].0@),
            decreases r@.len() - p,
        {
            p = p + 1;
        }
        let ghost s0 = string_pairs(r@);
        let x = (v[i].0.clone(), v[i].1.clone());
        let ghost xv = (x.0@, x.1@);
        proof {
            assert(xv == vs[i as int]);
            assert forall|j: int| 0 <= j < p implies !str_lt(xv.0, #[trigger] s0[j].0) by {
                assert(s0[j].0 == r@[j].0@);
            }
            lemma_insert_by_first(s0, xv, p as int);
            let t = vs.take(i + 1);
            assert(t.drop_last() =~= vs.take(i as int));
            assert(t.last() == xv);
        }
        r.insert(p, x);
        proof {
            assert(string_pairs(r@) =~= s0.take(p as int) + seq![xv] + s0.skip(p as int));
        }
        i = i + 1;
    }
    proof {
        assert(vs.take(i as int) =~= vs);
    }
    r
}

proof fn lemma_str_lt_irrefl(a: Seq<char>)
    ensures
        !str_lt(a, a),
    decreases a.len(),
{
    if a.len() > 0 {
        lemma_str_lt_irrefl(a.drop_first());
    }
}

proof fn lemma_str_lt_trans(a: Seq<char>, b: Seq<char>, c: Seq<char>)
    requires
        str_lt(a, b),
        str_lt(b, c),
    ensures
        str_lt(a, c),
    decreases a.len(),
{
    if a.len() > 0 && a[0] == b[0] && b[0] == c[0] {
        lemma_str_lt_trans(a.drop_first(), b.drop_first(), c.drop_first());
    }
}

proof fn lemma_str_lt_total(a: Seq<char>, b: Seq<char>)
    requires
        a != b,
    ensures
        str_lt(a, b) || str_lt(b, a),
    decreases a.len(),
{
    if a.len() == 0 && b.len() == 0 {
        assert(a =~= b);
    } else if a.len() > 0 && b.len() > 0 && a[0] == b[0] {
        if a.drop_first() == b.drop_first() {
            assert(a =~= seq![a[0]] + a.drop_first());
            assert(b =~= seq![b[0]] + b.drop_first());
        }
        lemma_str_lt_total(a.drop_first(), b.drop_first());
    } else if a.len() > 0 && b.len() > 0 {
        vstd::utf8::char_u32_cast(a[0], a[0] as u32);
        vstd::utf8::char_u32_cast(b[0], b[0] as u32);
    }
}

/// Whether no two pairs of `s` have the same first component.
pub open spec fn distinct_firsts(s: Seq<(Seq<char>, Seq<char>)>) -> bool {
    forall|i: int, j: int| 0 <= i < j < s.len() ==> #[trigger] s[i].0 != #[trigger] s[j].0
}

/// Whether the first components of `s` strictly ascend.
pub open spec fn ascending_firsts(s: Seq<(Seq<char>, Seq<char>)>) -> bool {
    forall|i: int, j: int| 0 <= i < j < s.len() ==> str_lt(#[trigger] s[i].0, #[trigger] s[j].0)
}

/// Where `insert_by_first` puts `x` in `s`.
spec fn first_after(s: Seq<(Seq<char>, Seq<char>)>, x: (Seq<char>, Seq<char>)) -> int
    decreases s.len(),
{
    if s.len() == 0 || str_lt(x.0, s[0].0) {
        0
    } else {
        1 + first_after(s.drop_first(), x)
    }
}

proof fn lemma_first_after(s: Seq<(Seq<char>, Seq<char>)>, x: (Seq<char>, Seq<char>))
    ensures
        0 <= first_after(s, x) <= s.len(),
        forall|j: int| 0 <= j < first_after(s, x) ==> !str_lt(x.0, #[trigger] s[j].0),
        first_after(s, x) < s.len() ==> str_lt(x.0, s[first_after(s, x)].0),
    decreases s.len(),
{
    if s.len() > 0 && !str_lt(x.0, s[0].0) {
        let t = s.drop_first();
        lemma_first_after(t, x);
        assert forall|j: int| 0 <= j < first_after(s, x) implies !str_lt(x.0, #[trigger] s[j].0) by {
            if j > 0 {
                assert(s[j] == t[j - 1]);
            }
        }
    }
}

/// Sorting pairs whose first components are distinct keeps exactly the
/// pairs it was given and puts their first components in strictly
/// ascending order.
proof fn lemma_sort_by_first(s: Seq<(Seq<char>, Seq<char>)>)
    requires
        distinct_firsts(s),
    ensures
        sort_by_first(s).to_multiset() == s.to_multiset(),
        ascending_firsts(sort_by_first(s)),
    decreases s.len(),
{
    broadcast use vstd::seq_lib::group_to_multiset_ensures;

    if s.len() > 0 {
        let u = s.drop_last();
        let x = s.last();
        assert(distinct_firsts(u)) by {
            assert forall|i: int, j: int| 0 <= i < j < u.len() implies #[trigger] u[i].0 != #[trigger] u[j].0 by {
                assert(u[i] == s[i] && u[j] == s[j]);
            }
        }
        lemma_sort_by_first(u);
        let t = sort_by_first(u);
        lemma_first_after(t, x);
        let p = first_after(t, x);
        lemma_insert_by_first(t, x, p);
        let r = insert_by_first(t, x);
        assert(r =~= t.insert(p, x));
        assert(s =~= u.push(x));
        assert forall|i: int| 0 <= i < t.len() implies #[trigger] t[i].0 != x.0 by {
            assert(t.contains(t[i]));
            assert(t.to_multiset().count(t[i]) > 0);
            assert(u.contains(t[i]));
            let m = choose|m: int| 0 <= m < u.len() && u[m] == t[i];
            assert(s[m] == t[i] && s[s.len() - 1] == x);
        }
        assert forall|i: int, j: int| 0 <= i < j < r.len() implies str_lt(#[trigger] r[i].0, #[trigger] r[j].0) by {
            if j < p {
                assert(r[i] == t[i] && r[j] == t[j]);
            } else if j == p {
                assert(r[i] == t[i] && r[j] == x);
                lemma_str_lt_total(t[i].0, x.0);
            } else if i < p {
                assert(r[i] == t[i] && r[j] == t[j - 1]);
            } else if i == p {
                assert(r[i] == x && r[j] == t[j - 1]);
                if j - 1 > p {
                    lemma_str_lt_trans(x.0, t[p].0, t[j - 1].0);
                }
            } else {
                assert(r[i] == t[i - 1] && r[j] == t[j - 1]);
            }
        }
    }
}

/// Two sequences of pairs whose first components strictly ascend and that
/// hold the same pairs are the same.
proof fn lemma_ascending_unique(a: Seq<(Seq<char>, Seq<char>)>, b: Seq<(Seq<char>, Seq<char>)>)
    requires
        ascending_firsts(a),
        ascending_firsts(b),
        a.to_multiset() == b.to_multiset(),
    ensures
        a == b,
    decreases a.len(),
{
    broadcast use vstd::seq_lib::group_to_multiset_ensures;

    vstd::seq_lib::to_multiset_len(a);
    vstd::seq_lib::to_multiset_len(b);
    if a.len() > 0 {
        assert(a.contains(a[0]));
        assert(a.to_multiset().count(a[0]) > 0);
        assert(b.contains(a[0]));
        let k = choose|k: int| 0 <= k < b.len() && b[k] == a[0];
        assert(b.contains(b[0]));
        assert(b.to_multiset().count(b[0]) > 0);
        assert(a.contains(b[0]));
        let m = choose|m: int| 0 <= m < a.len() && a[m] == b[0];
        if k > 0 {
            assert(str_lt(b[0].0, b[k].0));
            if m > 0 {
                assert(str_lt(a[0].0, a[m].0));
                lemma_str_lt_trans(a[0].0, b[0].0, a[0].0);
                lemma_str_lt_irrefl(a[0].0);
            } else {
                lemma_str_lt_irrefl(a[0].0);
            }
        }
        assert(a[0] == b[0]);
        let a1 = a.remove(0);
        let b1 = b.remove(0);
        assert(a1.to_multiset() == a.to_multiset().remove(a[0]));
        assert(b1.to_multiset() == b.to_multiset().remove(b[0]));
        assert(ascending_firsts(a1)) by {
            assert forall|i: int, j: int| 0 <= i < j < a1.len() implies str_lt(#[trigger] a1[i].0, #[trigger] a1[j].0) by {
                assert(a1[i] == a[i + 1] && a1[j] == a[j + 1]);
            }
        }
        assert(ascending_firsts(b1)) by {
            assert forall|i: int, j: int| 0 <= i < j < b1.len() implies str_lt(#[trigger] b1[i].0, #[trigger] b1[j].0) by {
                assert(b1[i] == b[i + 1] && b1[j] == b[j + 1]);
            }
        }
        lemma_ascending_unique(a1, b1);
        assert(a =~= seq![a[0]] + a1);
        assert(b =~= seq![b[0]] + b1);
    }
}

/// Sorting by first component gives the same sequence for any two orders of
/// the same pairs, when no first component occurs twice.
proof fn lemma_sort_by_first_order(a: Seq<(Seq<char>, Seq<char>)>, b: Seq<(Seq<char>, Seq<char>)>)
    requires
        distinct_firsts(a),
        distinct_firsts(b),
        a.to_multiset() == b.to_multiset(),
    ensures
        sort_by_first(a) == sort_by_first(b),
{
    lemma_sort_by_first(a);
    lemma_sort_by_first(b);
    lemma_ascending_unique(sort_by_first(a), sort_by_first(b));
}

/// The bytes `in:<path>:<hash>\n` of each input, in order.
pub open spec fn inputs_bytes(ins: Seq<(Seq<char>, Seq<char>)>) -> Seq<u8>
    decreases ins.len(),
{
    if ins.len() == 0 {
        Seq::empty()
    } else {
        inputs_bytes(ins.drop_last()) + seq![105u8, 110u8, 58u8] + encode_utf8(ins.last().0) + seq![
            58u8,
        ] + encode_utf8(ins.last().1) + seq![10u8]
    }
}

/// The bytes `env:<name>=<value>\n` of each variable, in order.
pub open spec fn env_bytes(env: Seq<(Seq<char>, Seq<char>)>) -> Seq<u8>
    decreases env.len(),
{
    if env.len() == 0 {
        Seq::empty()
    } else {
        env_bytes(env.drop_last()) + seq![101u8, 110u8, 118u8, 58u8] + encode_utf8(env.last().0)
            + seq![61u8] + encode_utf8(env.last().1) + seq![10u8]
    }
}

/// The text hashed for an action: `cmd:<command>\n`, then the inputs sorted
/// by path, then the environment variables sorted by name.
pub open spec fn action_message(
    command: Seq<char>,
    inputs: Seq<(Seq<char>, Seq<char>)>,
    env: Seq<(Seq<char>, Seq<char>)>,
) -> Seq<u8> {
    seq![99u8, 109u8, 100u8, 58u8] + encode_utf8(command) + seq![10u8] + inputs_bytes(
        sort_by_first(inputs),
    ) + env_bytes(sort_by_first(env))
}

/// The cache key of a build action: the hash of `action_message`.
/// `inputs` holds each existing input as (path, content hash); `env` the
/// environment variables that affect the build as (name, value).
pub fn compute_action_key(command: &str, inputs: &Vec<(String, String)>, env: &Vec<(String, String)>) -> (k: String)
    ensures
        k@ == spec_blake3_hex(action_message(command@, string_pairs(inputs@), string_pairs(env@))),
{
    let mut msg: Vec<u8> = Vec::new();
    msg.push(99u8);
    msg.push(109u8);
    msg.push(100u8);
    msg.push(58u8);
    push_bytes(&mut msg, command.as_bytes());
    msg.push(10u8);
    let ghost head = msg@;
    proof {
        assert(head =~= seq![99u8, 109u8, 100u8, 58u8] + encode_utf8(command@) + seq![10u8]);
    }
    let ins = sort_pairs_by_first(inputs);
    let ghost iv = string_pairs(ins@);
    let mut i: usize = 0;
    proof {
        assert(iv.take(0) =~= Seq::<(Seq<char>, Seq<char>)>::empty());
        assert(msg@ =~= head + inputs_bytes(iv.take(0)));
    }
    while i < ins.len()
        invariant
            i <= ins@.len(),
            iv == string_pairs(ins@),
            msg@ == head + inputs_bytes(iv.take(i as int)),
        decreases ins@.len() - i,
    {
        let ghost m0 = msg@;
        msg.push(105u8);
        msg.push(110u8);
        msg.push(58u8);
        push_bytes(&mut msg, ins[i].0.as_str().as_bytes());
        msg.push(58u8);
        push_bytes(&mut msg, ins[i].1.as_str().as_bytes());
        msg.push(10u8);
        proof {
            let t = iv.take(i + 1);
            assert(t.drop_last() =~= iv.take(i as int));
            assert(t.last() == (ins@[i as int].0@, ins@[i as int].1@));
            assert(msg@ =~= m0 + seq![105u8, 110u8, 58u8] + encode_utf8(t.last().0) + seq![58u8]
                + encode_utf8(t.last().1) + seq![10u8]);
        }
        i = i + 1;
    }
    proof {
        assert(iv.take(i as int) =~= iv);
    }
    let ghost mid = msg@;
    let envs = sort_pairs_by_first(env);
    let ghost ev = string_pairs(envs@);
    let mut j: usize = 0;
    proof {
        assert(ev.take(0) =~= Seq::<(Seq<char>, Seq<char>)>::empty());
        assert(msg@ =~= mid + env_bytes(ev.take(0)));
    }
    while j < envs.len()
        invariant
            j <= envs@.len(),
            ev == string_pairs(envs@),
            msg@ == mid + env_bytes(ev.take(j as int)),
        decreases envs@.len() - j,
    {
        let ghost m0 = msg@;
        msg.push(101u8);
        msg.push(110u8);
        msg.push(118u8);
        msg.push(58u8);
        push_bytes(&mut msg, envs[j].0.as_str().as_bytes());
        msg.push(61u8);
        push_bytes(&mut msg, envs[j].1.as_str().as_bytes());
        msg.push(10u8);
        proof {
            let t = ev.take(j + 1);
            assert(t.drop_last() =~= ev.take(j as int));
            assert(t.last() == (envs@[j as int].0@, envs@[j as int].1@));
            assert(msg@ =~= m0 + seq![101u8, 110u8, 118u8, 58u8] + encode_utf8(t.last().0) + seq![
                61u8,
            ] + encode_utf8(t.last().1) + seq![10u8]);
        }
        j = j + 1;
    }
    proof {
        assert(ev.take(j as int) =~= ev);
        assert(msg@ =~= action_message(command@, string_pairs(inputs@), string_pairs(env@)));
    }
    hash_bytes(msg.as_slice())
}

/// The key of an action does not depend on the order in which its inputs
/// and its environment variables are listed: two listings of the same
/// (path, hash) pairs and the same (name, value) pairs, each path and each
/// name given once, hash the same message.
pub proof fn law_action_key_order(
    command: Seq<char>,
    inputs1: Seq<(Seq<char>, Seq<char>)>,
    inputs2: Seq<(Seq<char>, Seq<char>)>,
    env1: Seq<(Seq<char>, Seq<char>)>,
    env2: Seq<(Seq<char>, Seq<char>)>,
)
    requires
        distinct_firsts(inputs1),
        distinct_firsts(inputs2),
        inputs1.to_multiset() == inputs2.to_multiset(),
        distinct_firsts(env1),
        distinct_firsts(env2),
        env1.to_multiset() == env2.to_multiset(),
    ensures
        action_message(command, inputs1, env1) == action_message(command, inputs2, env2),
        spec_blake3_hex(action_message(command, inputs1, env1)) == spec_blake3_hex(
            action_message(command, inputs2, env2),
        ),
{
    lemma_sort_by_first_order(inputs1, inputs2);
    lemma_sort_by_first_order(env1, env2);
}

} // verus!
