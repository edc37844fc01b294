//! Character-level text utilities shared by the parsers.
//!
//! All functions work on `Seq<char>` views: a `&str` or `String` is viewed as
//! its sequence of Unicode scalar values.
use vstd::prelude::*;

verus! {

/// Whitespace as `char::is_whitespace` defines it: the Unicode `White_Space`
/// property.
pub open spec fn is_ws(c: char) -> bool {
    let u = c as u32;
    ||| (0x09 <= u && u <= 0x0D)
    ||| u == 0x20
    ||| u == 0x85
    ||| u == 0xA0
    ||| u == 0x1680
    ||| (0x2000 <= u && u <= 0x200A)
    ||| u == 0x2028
    ||| u == 0x2029
    ||| u == 0x202F
    ||| u == 0x205F
    ||| u == 0x3000
}

/// Returns whether `c` has the Unicode `White_Space` property.
pub fn is_whitespace(c: char) -> (b: bool)
    ensures
        b == is_ws(c),
{
    let u = c as u32;
    (0x09 <= u && u <= 0x0D) || u == 0x20 || u == 0x85 || u == 0xA0 || u == 0x1680 || (0x2000
        <= u && u <= 0x200A) || u == 0x2028 || u == 0x2029 || u == 0x202F || u == 0x205F || u
        == 0x3000
}

/// The sequence with leading whitespace removed.
pub open spec fn trim_start(s: Seq<char>) -> Seq<char>
    decreases s.len(),
{
    if s.len() > 0 && is_ws(s[0]) {
        trim_start(s.drop_first())
    } else {
        s
    }
}

/// The sequence with trailing whitespace removed.
pub open spec fn trim_end(s: Seq<char>) -> Seq<char>
    decreases s.len(),
{
    if s.len() > 0 && is_ws(s.last()) {
        trim_end(s.drop_last())
    } else {
        s
    }
}

/// The sequence with leading and trailing whitespace removed (`str::trim`).
pub open spec fn trim(s: Seq<char>) -> Seq<char> {
    trim_end(trim_start(s))
}

/// The characters of a string slice, in order.
pub fn chars_of(s: &str) -> (v: Vec<char>)
    ensures
        v@ == s@,
{
    let mut v: Vec<char> = Vec::new();
    for c in it: s.chars()
        invariant
            v@ == it.seq().take(it.index() as int),
    {
        v.push(c);
    }
    v
}

/// Collects characters into a `String`.
#[verifier::external_body]
pub fn string_of(v: &[char]) -> (s: String)
    ensures
        s@ == v@,
{
    v.iter().collect()
}


/// A line with one trailing carriage return removed, if it has one.
pub open spec fn strip_cr(l: Seq<char>) -> Seq<char> {
    if l.len() > 0 && l.last() == '\r' {
        l.drop_last()
    } else {
        l
    }
}

/// The lines finished so far and the line in progress after reading `s`
/// from left to right: each `\n` ends the line in progress, with a `\r`
/// just before it dropped.
pub open spec fn lines_acc(s: Seq<char>) -> (Seq<Seq<char>>, Seq<char>)
    decreases s.len(),
{
    if s.len() == 0 {
        (Seq::empty(), Seq::empty())
    } else {
        let (done, cur) = lines_acc(s.drop_last());
        if s.last() == '\n' {
            (done.push(strip_cr(cur)), Seq::empty())
        } else {
            (done, cur.push(s.last()))
        }
    }
}

/// The lines of `s` as `str::lines` yields them: split at each `\n`, a `\r`
/// before the `\n` removed, and no empty line after a final `\n`.
pub open spec fn lines(s: Seq<char>) -> Seq<Seq<char>> {
    let (done, cur) = lines_acc(s);
    if cur.len() > 0 {
        done.push(cur)
    } else {
        done
    }
}

/// The views of a vector of strings.
pub open spec fn views(v: Seq<String>) -> Seq<Seq<char>> {
    v.map_values(|x: String| x@)
}

/// Splits `s` into its lines (`str::lines`).
pub fn split_lines(s: &str) -> (res: Vec<String>)
    ensures
        views(res@) == lines(s@),
{
    let cs = chars_of(s);
    let mut done: Vec<String> = Vec::new();
    let mut cur: Vec<char> = Vec::new();
    let mut i: usize = 0;
    while i < cs.len()
        invariant
            cs@ == s@,
            i <= cs.len(),
            lines_acc(cs@.take(i as int)) == (views(done@), cur@),
        decreases cs.len() - i,
    {
        let c = cs[i];
        proof {
            assert(cs@.take(i + 1).drop_last() =~= cs@.take(i as int));
        }
        if c == '\n' {
            let line = if cur.len() > 0 && cur[cur.len() - 1] == '\r' {
                let mut t = cur.clone();
                t.pop();
                t
            } else {
                cur.clone()
            };
            proof {
                assert(line@ =~= strip_cr(cur@));
            }
            let ls = string_of(&line);
            let ghost old_done = done@;
            done.push(ls);
            proof {
                assert(views(done@) =~= views(old_done).push(ls@));
            }
            cur = Vec::new();
        } else {
            cur.push(c);
        }
        i = i + 1;
    }
    proof {
        assert(cs@.take(cs@.len() as int) =~= cs@);
    }
    if cur.len() > 0 {
        let ls = string_of(&cur);
        let ghost old_done = done@;
        done.push(ls);
        proof {
            assert(views(done@) =~= views(old_done).push(ls@));
        }
    }
    done
}


/// The index of the first character of `s` that satisfies `pred`.
pub open spec fn find_first(s: Seq<char>, pred: spec_fn(char) -> bool) -> Option<int>
    decreases s.len(),
{
    if s.len() == 0 {
        None
    } else if pred(s[0]) {
        Some(0)
    } else {
        match find_first(s.drop_first(), pred) {
            Some(i) => Some(i + 1),
            None => None,
        }
    }
}

/// `find_first` finds the first index that satisfies the predicate.
pub proof fn lemma_find_first(s: Seq<char>, pred: spec_fn(char) -> bool, i: int)
    requires
        0 <= i <= s.len(),
        forall|j: int| 0 <= j < i ==> !pred(#[trigger] s[j]),
    ensures
        i < s.len() && pred(s[i]) ==> find_first(s, pred) == Some(i),
        i == s.len() ==> find_first(s, pred) is None,
    decreases i,
{
    if i > 0 {
        assert forall|j: int| 0 <= j < i - 1 implies !pred(#[trigger] s.drop_first()[j]) by {
            assert(s.drop_first()[j] == s[j + 1]);
        }
        lemma_find_first(s.drop_first(), pred, i - 1);
    }
}

/// The index of the first occurrence of `c` in `s`.
pub open spec fn find_char(s: Seq<char>, c: char) -> Option<int> {
    find_first(s, is_char(c))
}

/// The predicate "equals `c`".
pub open spec fn is_char(c: char) -> spec_fn(char) -> bool {
    |x: char| x == c
}

/// The predicate "is whitespace".
pub open spec fn ws_pred() -> spec_fn(char) -> bool {
    |x: char| is_ws(x)
}

/// The index of the first whitespace character in `s`.
pub open spec fn find_ws(s: Seq<char>) -> Option<int> {
    find_first(s, ws_pred())
}

/// Finds the first occurrence of `c` in `s`.
pub fn index_of_char(s: &[char], c: char) -> (r: Option<usize>)
    ensures
        match r {
            Some(i) => find_char(s@, c) == Some(i as int),
            None => find_char(s@, c) is None,
        },
{
    let ghost pred = is_char(c);
    let mut i: usize = 0;
    while i < s.len()
        invariant
            i <= s.len(),
            pred == is_char(c),
            forall|j: int| 0 <= j < i ==> !pred(#[trigger] s@[j]),
        decreases s.len() - i,
    {
        if s[i] == c {
            proof {
                lemma_find_first(s@, pred, i as int);
            }
            return Some(i);
        }
        i = i + 1;
    }
    proof {
        lemma_find_first(s@, pred, i as int);
    }
    None
}

/// Finds the first whitespace character in `s`.
pub fn index_of_ws(s: &[char]) -> (r: Option<usize>)
    ensures
        match r {
            Some(i) => find_ws(s@) == Some(i as int),
            None => find_ws(s@) is None,
        },
{
    let ghost pred = ws_pred();
    let mut i: usize = 0;
    while i < s.len()
        invariant
            i <= s.len(),
            pred == ws_pred(),
            forall|j: int| 0 <= j < i ==> !pred(#[trigger] s@[j]),
        decreases s.len() - i,
    {
        if is_whitespace(s[i]) {
            proof {
                lemma_find_first(s@, pred, i as int);
            }
            return Some(i);
        }
        i = i + 1;
    }
    proof {
        lemma_find_first(s@, pred, i as int);
    }
    None
}

/// Copies `s[lo..hi]` into a new vector.
pub fn copy_range(s: &[char], lo: usize, hi: usize) -> (r: Vec<char>)
    requires
        lo <= hi <= s@.len(),
    ensures
        r@ == s@.subrange(lo as int, hi as int),
{
    let mut r: Vec<char> = Vec::new();
    let mut i = lo;
    while i < hi
        invariant
            lo <= i <= hi,
            hi <= s@.len(),
            r@ == s@.subrange(lo as int, i as int),
        decreases hi - i,
    {
        r.push(s[i]);
        i = i + 1;
        proof {
            assert(s@.subrange(lo as int, i as int) =~= s@.subrange(lo as int, i - 1).push(s@[i - 1]));
        }
    }
    r
}

/// An owned copy of `s`.
pub fn owned(s: &str) -> (r: String)
    ensures
        r@ == s@,
{
    let c = chars_of(s);
    string_of(&c)
}

/// Appends all of `t` to `v`.
pub fn append_chars(v: &mut Vec<char>, t: &[char])
    ensures
        final(v)@ == old(v)@ + t@,
{
    let mut i: usize = 0;
    while i < t.len()
        invariant
            i <= t.len(),
            v@ == old(v)@ + t@.take(i as int),
        decreases t.len() - i,
    {
        v.push(t[i]);
        i = i + 1;
        proof {
            assert(t@.take(i as int) =~= t@.take(i - 1).push(t@[i - 1]));
        }
    }
    proof {
        assert(t@.take(i as int) =~= t@);
    }
}

proof fn lemma_trim_start_skip(s: Seq<char>, i: int)
    requires
        0 <= i < s.len(),
        is_ws(s[i]),
    ensures
        trim_start(s.skip(i)) == trim_start(s.skip(i + 1)),
{
    assert(s.skip(i).drop_first() =~= s.skip(i + 1));
}

proof fn lemma_trim_end_take(s: Seq<char>, i: int)
    requires
        0 < i <= s.len(),
        is_ws(s[i - 1]),
    ensures
        trim_end(s.take(i)) == trim_end(s.take(i - 1)),
{
    assert(s.take(i).drop_last() =~= s.take(i - 1));
}

/// `str::trim`: removes leading and trailing whitespace.
pub fn trim_chars(s: &[char]) -> (r: Vec<char>)
    ensures
        r@ == trim(s@),
{
    let mut lo: usize = 0;
    proof {
        assert(s@.skip(0) =~= s@);
    }
    while lo < s.len() && is_whitespace(s[lo])
        invariant
            lo <= s.len(),
            trim_start(s@) == trim_start(s@.skip(lo as int)),
        decreases s.len() - lo,
    {
        proof {
            lemma_trim_start_skip(s@, lo as int);
        }
        lo = lo + 1;
    }
    let t = copy_range(s, lo, s.len());
    proof {
        assert(t@ =~= s@.skip(lo as int));
        assert(trim_start(s@) == t@);
        assert(t@.take(t@.len() as int) =~= t@);
    }
    let mut hi: usize = t.len();
    while hi > 0 && is_whitespace(t[hi - 1])
        invariant
            hi <= t@.len(),
            trim_end(t@) == trim_end(t@.take(hi as int)),
        decreases hi,
    {
        proof {
            lemma_trim_end_take(t@, hi as int);
        }
        hi = hi - 1;
    }
    let r = copy_range(&t, 0, hi);
    proof {
        assert(r@ =~= t@.take(hi as int));
    }
    r
}

/// Whether `s` begins with `p`.
pub open spec fn has_prefix(s: Seq<char>, p: Seq<char>) -> bool {
    p.len() <= s.len() && s.take(p.len() as int) == p
}

/// Whether `s` begins with `p` (`str::starts_with`).
pub fn starts_with(s: &[char], p: &[char]) -> (b: bool)
    ensures
        b == has_prefix(s@, p@),
{
    if p.len() > s.len() {
        return false;
    }
    let mut i: usize = 0;
    while i < p.len()
        invariant
            i <= p.len() <= s.len(),
            forall|j: int| 0 <= j < i ==> s@[j] == p@[j],
        decreases p.len() - i,
    {
        if s[i] != p[i] {
            proof {
                assert(s@.take(p.len() as int)[i as int] != p@[i as int]);
            }
            return false;
        }
        i = i + 1;
    }
    proof {
        assert(s@.take(p.len() as int) =~= p@);
    }
    true
}

/// Whether `s` equals `t` character by character.
pub fn chars_eq(s: &[char], t: &[char]) -> (b: bool)
    ensures
        b == (s@ == t@),
{
    if s.len() != t.len() {
        return false;
    }
    let r = starts_with(s, t);
    proof {
        assert(s@.take(t@.len() as int) =~= s@);
    }
    r
}

/// Whether `s` equals the string `t`.
pub fn eq_str(s: &[char], t: &str) -> (b: bool)
    ensures
        b == (s@ == t@),
{
    let tc = chars_of(t);
    chars_eq(s, &tc)
}

/// The index of the first occurrence of `p` in `s`.
pub open spec fn find_sub(s: Seq<char>, p: Seq<char>) -> Option<int>
    decreases s.len(),
{
    if s.len() < p.len() {
        None
    } else if s.take(p.len() as int) == p {
        Some(0)
    } else if s.len() == 0 {
        None
    } else {
        match find_sub(s.drop_first(), p) {
            Some(i) => Some(i + 1),
            None => None,
        }
    }
}

proof fn lemma_find_sub(s: Seq<char>, p: Seq<char>, i: int)
    requires
        0 <= i <= s.len(),
        forall|j: int| 0 <= j < i ==> !has_prefix(#[trigger] s.skip(j), p),
    ensures
        has_prefix(s.skip(i), p) ==> find_sub(s, p) == Some(i),
        i + p.len() > s.len() ==> find_sub(s, p) is None,
    decreases i,
{
    if i > 0 {
        assert(!has_prefix(s.skip(0), p));
        assert(s.skip(0) =~= s);
        assert forall|j: int| 0 <= j < i - 1 implies !has_prefix(#[trigger] s.drop_first().skip(j), p) by {
            assert(s.drop_first().skip(j) =~= s.skip(j + 1));
        }
        assert(s.drop_first().skip(i - 1) =~= s.skip(i));
        lemma_find_sub(s.drop_first(), p, i - 1);
    } else {
        assert(s.skip(0) =~= s);
    }
}

/// Finds the first occurrence of `p` in `s` (`str::find` with a string pattern).
pub fn index_of_sub(s: &[char], p: &[char]) -> (r: Option<usize>)
    requires
        p@.len() > 0,
    ensures
        match r {
            Some(i) => find_sub(s@, p@) == Some(i as int),
            None => find_sub(s@, p@) is None,
        },
{
    let mut i: usize = 0;
    while p.len() <= s.len() - i
        invariant
            i <= s.len(),
            p@.len() > 0,
            forall|j: int| 0 <= j < i ==> !has_prefix(#[trigger] s@.skip(j), p@),
        decreases s.len() - i,
    {
        let rest = copy_range(s, i, s.len());
        proof {
            assert(rest@ =~= s@.skip(i as int));
        }
        if starts_with(&rest, p) {
            proof {
                lemma_find_sub(s@, p@, i as int);
            }
            return Some(i);
        }
        i = i + 1;
    }
    proof {
        lemma_find_sub(s@, p@, i as int);
    }
    None
}

/// The views of a vector of character vectors.
pub open spec fn cviews(v: Seq<Vec<char>>) -> Seq<Seq<char>> {
    v.map_values(|x: Vec<char>| x@)
}

/// The words finished so far and the word in progress after reading `s` from
/// left to right: a whitespace character ends the word in progress.
pub open spec fn words_acc(s: Seq<char>) -> (Seq<Seq<char>>, Seq<char>)
    decreases s.len(),
{
    if s.len() == 0 {
        (Seq::empty(), Seq::empty())
    } else {
        let (done, cur) = words_acc(s.drop_last());
        if is_ws(s.last()) {
            if cur.len() > 0 {
                (done.push(cur), Seq::empty())
            } else {
                (done, cur)
            }
        } else {
            (done, cur.push(s.last()))
        }
    }
}

/// The words of `s` as `str::split_whitespace` yields them: the maximal runs
/// of non-whitespace characters, in order.
pub open spec fn words(s: Seq<char>) -> Seq<Seq<char>> {
    let (done, cur) = words_acc(s);
    if cur.len() > 0 {
        done.push(cur)
    } else {
        done
    }
}

/// Splits `s` at whitespace (`str::split_whitespace`).
pub fn split_words(s: &[char]) -> (res: Vec<Vec<char>>)
    ensures
        cviews(res@) == words(s@),
{
    let mut done: Vec<Vec<char>> = Vec::new();
    let mut cur: Vec<char> = Vec::new();
    let mut i: usize = 0;
    proof {
        assert(s@.take(0) =~= Seq::<char>::empty());
        assert(cviews(done@) =~= Seq::<Seq<char>>::empty());
    }
    while i < s.len()
        invariant
            i <= s.len(),
            words_acc(s@.take(i as int)) == (cviews(done@), cur@),
        decreases s.len() - i,
    {
        let c = s[i];
        proof {
            assert(s@.take(i + 1).drop_last() =~= s@.take(i as int));
            assert(s@.take(i + 1).last() == c);
        }
        if is_whitespace(c) {
            if cur.len() > 0 {
                let ghost old_done = done@;
                let w = cur;
                cur = Vec::new();
                done.push(w);
                proof {
                    assert(cviews(done@) =~= cviews(old_done).push(w@));
                }
            }
        } else {
            cur.push(c);
        }
        i = i + 1;
    }
    proof {
        assert(s@.take(i as int) =~= s@);
    }
    if cur.len() > 0 {
        let ghost old_done = done@;
        done.push(cur);
        proof {
            assert(cviews(done@) =~= cviews(old_done).push(cur@));
        }
    }
    done
}

/// `s` split at the first occurrence of `c`, without it (`str::split_once`).
pub open spec fn split_once(s: Seq<char>, c: char) -> Option<(Seq<char>, Seq<char>)> {
    match find_char(s, c) {
        Some(i) => Some((s.take(i), s.skip(i + 1))),
        None => None,
    }
}

/// `s` split at the first occurrence of the pattern `p`, without it.
pub open spec fn split_once_sub(s: Seq<char>, p: Seq<char>) -> Option<(Seq<char>, Seq<char>)> {
    match find_sub(s, p) {
        Some(i) => Some((s.take(i), s.skip(i + p.len()))),
        None => None,
    }
}

pub proof fn lemma_find_first_bound(s: Seq<char>, pred: spec_fn(char) -> bool)
    ensures
        match find_first(s, pred) {
            Some(i) => 0 <= i < s.len() && pred(s[i]),
            None => true,
        },
    decreases s.len(),
{
    if s.len() > 0 && !pred(s[0]) {
        lemma_find_first_bound(s.drop_first(), pred);
    }
}

proof fn lemma_find_sub_bound(s: Seq<char>, p: Seq<char>)
    ensures
        match find_sub(s, p) {
            Some(i) => 0 <= i && i + p.len() <= s.len(),
            None => true,
        },
    decreases s.len(),
{
    if s.len() >= p.len() && s.take(p.len() as int) != p && s.len() > 0 {
        lemma_find_sub_bound(s.drop_first(), p);
    }
}

/// Splits `s` at the first occurrence of `c` (`str::split_once` with a char).
pub fn split_once_char(s: &[char], c: char) -> (r: Option<(Vec<char>, Vec<char>)>)
    ensures
        match r {
            Some((a, b)) => split_once(s@, c) == Some((a@, b@)),
            None => split_once(s@, c) is None,
        },
{
    proof {
        lemma_find_first_bound(s@, is_char(c));
    }
    let n = s.len();
    match index_of_char(s, c) {
        Some(i) => {
            assert(i < n);
            let a = copy_range(s, 0, i);
            let b = copy_range(s, i + 1, s.len());
            proof {
                assert(a@ =~= s@.take(i as int));
                assert(b@ =~= s@.skip(i + 1));
            }
            Some((a, b))
        },
        None => None,
    }
}

/// Splits `s` at the first occurrence of the non-empty pattern `p`.
pub fn split_once_str(s: &[char], p: &[char]) -> (r: Option<(Vec<char>, Vec<char>)>)
    requires
        p@.len() > 0,
    ensures
        match r {
            Some((a, b)) => split_once_sub(s@, p@) == Some((a@, b@)),
            None => split_once_sub(s@, p@) is None,
        },
{
    proof {
        lemma_find_sub_bound(s@, p@);
    }
    let n = s.len();
    match index_of_sub(s, p) {
        Some(i) => {
            assert(i + p@.len() <= n);
            let a = copy_range(s, 0, i);
            let b = copy_range(s, i + p.len(), s.len());
            proof {
                assert(a@ =~= s@.take(i as int));
                assert(b@ =~= s@.skip(i + p@.len()));
            }
            Some((a, b))
        },
        None => None,
    }
}

/// Whether `s[i..]` begins with `p`.
pub fn starts_with_at(s: &[char], i: usize, p: &[char]) -> (b: bool)
    requires
        i <= s@.len(),
    ensures
        b == has_prefix(s@.skip(i as int), p@),
{
    if p.len() > s.len() - i {
        return false;
    }
    let mut j: usize = 0;
    while j < p.len()
        invariant
            i <= s@.len(),
            j <= p.len() <= s.len() - i,
            forall|k: int| 0 <= k < j ==> s@[i + k] == p@[k],
        decreases p.len() - j,
    {
        if s[i + j] != p[j] {
            proof {
                assert(s@.skip(i as int).take(p.len() as int)[j as int] != p@[j as int]);
            }
            return false;
        }
        j = j + 1;
    }
    proof {
        assert(s@.skip(i as int).take(p.len() as int) =~= p@);
    }
    true
}

/// `s` with every non-overlapping occurrence of `p` replaced by `r`, scanning
/// from the left (`str::replace`).
pub open spec fn replace(s: Seq<char>, p: Seq<char>, r: Seq<char>) -> Seq<char>
    decreases s.len(),
{
    if s.len() == 0 {
        Seq::empty()
    } else if p.len() > 0 && has_prefix(s, p) {
        r + replace(s.skip(p.len() as int), p, r)
    } else {
        seq![s[0]] + replace(s.drop_first(), p, r)
    }
}

/// Replaces every non-overlapping occurrence of the non-empty pattern `p`
/// in `s` by `r` (`str::replace`).
pub fn replace_chars(s: &[char], p: &[char], r: &[char]) -> (out: Vec<char>)
    requires
        p@.len() > 0,
    ensures
        out@ == replace(s@, p@, r@),
{
    let mut out: Vec<char> = Vec::new();
    let mut i: usize = 0;
    proof {
        assert(s@.skip(0) =~= s@);
        assert(out@ + replace(s@, p@, r@) =~= replace(s@, p@, r@));
    }
    while i < s.len()
        invariant
            i <= s.len(),
            p@.len() > 0,
            out@ + replace(s@.skip(i as int), p@, r@) == replace(s@, p@, r@),
        decreases s.len() - i,
    {
        let ghost rest = s@.skip(i as int);
        let ghost o = out@;
        if starts_with_at(s, i, p) {
            append_chars(&mut out, r);
            proof {
                assert(rest.skip(p@.len() as int) =~= s@.skip(i + p@.len()));
                assert(o + (r@ + replace(rest.skip(p@.len() as int), p@, r@)) =~= (o + r@)
                    + replace(rest.skip(p@.len() as int), p@, r@));
            }
            i = i + p.len();
        } else {
            out.push(s[i]);
            proof {
                assert(rest.drop_first() =~= s@.skip(i + 1));
                assert(rest[0] == s@[i as int]);
                assert(o + (seq![rest[0]] + replace(rest.drop_first(), p@, r@)) =~= o.push(
                    s@[i as int],
                ) + replace(rest.drop_first(), p@, r@));
            }
            i = i + 1;
        }
    }
    proof {
        assert(s@.skip(i as int) =~= Seq::<char>::empty());
        assert(out@ + Seq::<char>::empty() =~= out@);
    }
    out
}

/// Whether `c` is an ASCII decimal digit.
pub open spec fn is_digit(c: char) -> bool {
    '0' <= c && c <= '9'
}

/// The number that the decimal digits `d` spell.
pub open spec fn digits_value(d: Seq<char>) -> nat
    decreases d.len(),
{
    if d.len() == 0 {
        0
    } else {
        digits_value(d.drop_last()) * 10 + ((d.last() as int) - ('0' as int)) as nat
    }
}

/// The digits part of a `usize` literal: `s` without one leading `+`.
pub open spec fn unsigned_digits(s: Seq<char>) -> Seq<char> {
    if s.len() > 0 && s[0] == '+' {
        s.drop_first()
    } else {
        s
    }
}

/// Whether every character of `d` is an ASCII digit.
pub open spec fn all_digits(d: Seq<char>) -> bool {
    forall|i: int| 0 <= i < d.len() ==> is_digit(#[trigger] d[i])
}

/// `usize::from_str`: an optional `+`, then one or more ASCII digits whose
/// value fits in a `usize`.
pub open spec fn parse_usize(s: Seq<char>) -> Option<nat> {
    let d = unsigned_digits(s);
    if d.len() > 0 && all_digits(d) && digits_value(d) <= usize::MAX {
        Some(digits_value(d))
    } else {
        None
    }
}

proof fn lemma_digits_mono(d: Seq<char>, i: int, j: int)
    requires
        0 <= i <= j <= d.len(),
        forall|k: int| 0 <= k < d.len() ==> is_digit(#[trigger] d[k]),
    ensures
        digits_value(d.take(i)) <= digits_value(d.take(j)),
    decreases j - i,
{
    if i < j {
        lemma_digits_mono(d, i, j - 1);
        assert(d.take(j).drop_last() =~= d.take(j - 1));
        assert(d.take(j).last() == d[j - 1]);
        assert(is_digit(d[j - 1]));
        assert(digits_value(d.take(j)) == digits_value(d.take(j - 1)) * 10 + ((d[j - 1] as int)
            - ('0' as int)) as nat);
    }
}

/// Parses a `usize` as `usize::from_str` does.
pub fn parse_usize_chars(s: &[char]) -> (r: Option<usize>)
    ensures
        match r {
            Some(v) => parse_usize(s@) == Some(v as nat),
            None => parse_usize(s@) is None,
        },
{
    let start: usize = if s.len() > 0 && s[0] == '+' {
        1
    } else {
        0
    };
    let ghost d = unsigned_digits(s@);
    proof {
        assert(d =~= s@.skip(start as int));
    }
    if start >= s.len() {
        return None;
    }
    let mut v: usize = 0;
    let mut i: usize = start;
    proof {
        assert(d.take(0) =~= Seq::<char>::empty());
    }
    while i < s.len()
        invariant
            start <= i <= s.len(),
            d =~= s@.skip(start as int),
            d == unsigned_digits(s@),
            forall|k: int| 0 <= k < i - start ==> is_digit(#[trigger] d[k]),
            v as nat == digits_value(d.take(i - start)),
        decreases s.len() - i,
    {
        let c = s[i];
        let ghost k = i - start;
        assert(d[k] == c);
        if !('0' <= c && c <= '9') {
            assert(!is_digit(d[k]));
            assert(!all_digits(d));
            return None;
        }
        let digit: usize = ((c as u32) - ('0' as u32)) as usize;
        proof {
            assert(d.take(k + 1).drop_last() =~= d.take(k));
            assert(d.take(k + 1).last() == c);
        }
        let ghost next = digits_value(d.take(k + 1));
        assert(next == v * 10 + digit);
        match v.checked_mul(10) {
            Some(v10) => match v10.checked_add(digit) {
                Some(nv) => {
                    v = nv;
                },
                None => {
                    proof {
                        assert(next > usize::MAX);
                        if all_digits(d) {
                            lemma_digits_mono(d, k + 1, d.len() as int);
                            assert(d.take(d.len() as int) =~= d);
                        }
                    }
                    return None;
                },
            },
            None => {
                proof {
                    assert(next >= v * 10);
                    if all_digits(d) {
                        lemma_digits_mono(d, k + 1, d.len() as int);
                        assert(d.take(d.len() as int) =~= d);
                    }
                }
                return None;
            },
        }
        i = i + 1;
    }
    proof {
        assert(d.take(i - start) =~= d);
    }
    Some(v)
}

/// The concatenation of two character sequences as a `String`.
pub fn concat_str(a: &str, b: &str) -> (s: String)
    ensures
        s@ == a@ + b@,
{
    let mut v = chars_of(a);
    let bc = chars_of(b);
    append_chars(&mut v, &bc);
    string_of(&v)
}

/// The character of the decimal digit `d`.
pub open spec fn digit_char(d: nat) -> char {
    if d == 0 {
        '0'
    } else if d == 1 {
        '1'
    } else if d == 2 {
        '2'
    } else if d == 3 {
        '3'
    } else if d == 4 {
        '4'
    } else if d == 5 {
        '5'
    } else if d == 6 {
        '6'
    } else if d == 7 {
        '7'
    } else if d == 8 {
        '8'
    } else {
        '9'
    }
}

/// The decimal representation of `n`, as `Display` writes an unsigned integer.
pub open spec fn decimal(n: nat) -> Seq<char>
    decreases n,
{
    if n < 10 {
        seq![digit_char(n)]
    } else {
        decimal(n / 10).push(digit_char(n % 10))
    }
}

fn digit_of(d: u64) -> (c: char)
    requires
        d < 10,
    ensures
        c == digit_char(d as nat),
{
    if d == 0 {
        '0'
    } else if d == 1 {
        '1'
    } else if d == 2 {
        '2'
    } else if d == 3 {
        '3'
    } else if d == 4 {
        '4'
    } else if d == 5 {
        '5'
    } else if d == 6 {
        '6'
    } else if d == 7 {
        '7'
    } else if d == 8 {
        '8'
    } else {
        '9'
    }
}

/// Appends the decimal representation of `n` to `v`.
pub fn push_decimal(v: &mut Vec<char>, n: u64)
    ensures
        final(v)@ == old(v)@ + decimal(n as nat),
    decreases n,
{
    if n < 10 {
        v.push(digit_of(n));
        proof {
            assert(old(v)@ + decimal(n as nat) =~= old(v)@.push(digit_char(n as nat)));
        }
    } else {
        push_decimal(v, n / 10);
        let ghost mid = v@;
        v.push(digit_of(n % 10));
        proof {
            assert(old(v)@ + decimal(n as nat) =~= mid.push(digit_char((n % 10) as nat)));
        }
    }
}

/// The decimal representation of `n` (`n.to_string()`).
pub fn fmt_u64(n: u64) -> (s: String)
    ensures
        s@ == decimal(n as nat),
{
    let mut v: Vec<char> = Vec::new();
    push_decimal(&mut v, n);
    assert(v@ =~= decimal(n as nat));
    string_of(&v)
}

/// The decimal representation of `n`, with a `-` before a negative number.
pub open spec fn signed_decimal(n: int) -> Seq<char> {
    if n < 0 {
        seq!['-'] + decimal((-n) as nat)
    } else {
        decimal(n as nat)
    }
}

/// The decimal representation of `n` (`n.to_string()`).
pub fn fmt_i64(n: i64) -> (s: String)
    ensures
        s@ == signed_decimal(n as int),
{
    let mut v: Vec<char> = Vec::new();
    if n < 0 {
        v.push('-');
        let m: u64 = if n == i64::MIN {
            9223372036854775808u64
        } else {
            (-n) as u64
        };
        push_decimal(&mut v, m);
        assert(v@ =~= seq!['-'] + decimal((-n) as nat));
    } else {
        push_decimal(&mut v, n as u64);
        assert(v@ =~= decimal(n as nat));
    }
    string_of(&v)
}

/// Appends the characters of `s` to `v`.
pub fn push_str(v: &mut Vec<char>, s: &str)
    ensures
        final(v)@ == old(v)@ + s@,
{
    let c = chars_of(s);
    append_chars(v, &c);
}

/// `u64::from_str`: an optional `+`, then one or more ASCII digits whose
/// value fits in a `u64`.
pub open spec fn parse_u64(s: Seq<char>) -> Option<nat> {
    let d = unsigned_digits(s);
    if d.len() > 0 && all_digits(d) && digits_value(d) <= u64::MAX {
        Some(digits_value(d))
    } else {
        None
    }
}

/// Parses a `u64` as `u64::from_str` does.
pub fn parse_u64_chars(s: &[char]) -> (r: Option<u64>)
    ensures
        match r {
            Some(v) => parse_u64(s@) == Some(v as nat),
            None => parse_u64(s@) is None,
        },
{
    let start: usize = if s.len() > 0 && s[0] == '+' {
        1
    } else {
        0
    };
    let ghost d = unsigned_digits(s@);
    proof {
        assert(d =~= s@.skip(start as int));
    }
    if start >= s.len() {
        return None;
    }
    let mut v: u64 = 0;
    let mut i: usize = start;
    proof {
        assert(d.take(0) =~= Seq::<char>::empty());
    }
    while i < s.len()
        invariant
            start <= i <= s.len(),
            d =~= s@.skip(start as int),
            d == unsigned_digits(s@),
            forall|k: int| 0 <= k < i - start ==> is_digit(#[trigger] d[k]),
            v as nat == digits_value(d.take(i - start)),
        decreases s.len() - i,
    {
        let c = s[i];
        let ghost k = i - start;
        assert(d[k] == c);
        if !('0' <= c && c <= '9') {
            assert(!is_digit(d[k]));
            assert(!all_digits(d));
            return None;
        }
        let digit: u64 = ((c as u32) - ('0' as u32)) as u64;
        proof {
            assert(d.take(k + 1).drop_last() =~= d.take(k));
            assert(d.take(k + 1).last() == c);
        }
        let ghost next = digits_value(d.take(k + 1));
        assert(next == v * 10 + digit);
        match v.checked_mul(10) {
            Some(v10) => match v10.checked_add(digit) {
                Some(nv) => {
                    v = nv;
                },
                None => {
                    proof {
                        if all_digits(d) {
                            lemma_digits_mono(d, k + 1, d.len() as int);
                            assert(d.take(d.len() as int) =~= d);
                        }
                    }
                    return None;
                },
            },
            None => {
                proof {
                    if all_digits(d) {
                        lemma_digits_mono(d, k + 1, d.len() as int);
                        assert(d.take(d.len() as int) =~= d);
                    }
                }
                return None;
            },
        }
        i = i + 1;
    }
    proof {
        assert(d.take(i - start) =~= d);
    }
    Some(v)
}

/// The pieces of `s` between tab characters, as `str::split('\t')` yields
/// them (empty pieces included), with the piece in progress.
pub open spec fn tabs_acc(s: Seq<char>) -> (Seq<Seq<char>>, Seq<char>)
    decreases s.len(),
{
    if s.len() == 0 {
        (Seq::empty(), Seq::empty())
    } else {
        let (done, cur) = tabs_acc(s.drop_last());
        if s.last() == '\t' {
            (done.push(cur), Seq::empty())
        } else {
            (done, cur.push(s.last()))
        }
    }
}

/// The pieces of `s` between tab characters (`str::split('\t')`).
pub open spec fn split_tabs(s: Seq<char>) -> Seq<Seq<char>> {
    let (done, cur) = tabs_acc(s);
    done.push(cur)
}

/// Splits `s` at each tab character.
pub fn split_at_tabs(s: &[char]) -> (res: Vec<Vec<char>>)
    ensures
        cviews(res@) == split_tabs(s@),
{
    let mut done: Vec<Vec<char>> = Vec::new();
    let mut cur: Vec<char> = Vec::new();
    let mut i: usize = 0;
    proof {
        assert(s@.take(0) =~= Seq::<char>::empty());
        assert(cviews(done@) =~= Seq::<Seq<char>>::empty());
    }
    while i < s.len()
        invariant
            i <= s.len(),
            tabs_acc(s@.take(i as int)) == (cviews(done@), cur@),
        decreases s.len() - i,
    {
        let c = s[i];
        proof {
            assert(s@.take(i + 1).drop_last() =~= s@.take(i as int));
            assert(s@.take(i + 1).last() == c);
        }
        if c == '\t' {
            let ghost old_done = done@;
            let w = cur;
            cur = Vec::new();
            done.push(w);
            proof {
                assert(cviews(done@) =~= cviews(old_done).push(w@));
            }
        } else {
            cur.push(c);
        }
        i = i + 1;
    }
    proof {
        assert(s@.take(i as int) =~= s@);
    }
    let ghost old_done = done@;
    done.push(cur);
    proof {
        assert(cviews(done@) =~= cviews(old_done).push(cur@));
    }
    done
}

/// The pieces of `s` before the last `sep`, and the piece being read.
pub open spec fn pieces_acc(s: Seq<char>, sep: char) -> (Seq<Seq<char>>, Seq<char>)
    decreases s.len(),
{
    if s.len() == 0 {
        (Seq::empty(), Seq::empty())
    } else {
        let (done, cur) = pieces_acc(s.drop_last(), sep);
        if s.last() == sep {
            (done.push(cur), Seq::empty())
        } else {
            (done, cur.push(s.last()))
        }
    }
}

/// The pieces of `s` between the characters `sep` (`str::split(sep)`).
pub open spec fn split_on(s: Seq<char>, sep: char) -> Seq<Seq<char>> {
    let (done, cur) = pieces_acc(s, sep);
    done.push(cur)
}

/// Splits `s` at each `sep`.
pub fn split_at_char(s: &[char], sep: char) -> (res: Vec<Vec<char>>)
    ensures
        cviews(res@) == split_on(s@, sep),
{
    let mut done: Vec<Vec<char>> = Vec::new();
    let mut cur: Vec<char> = Vec::new();
    let mut i: usize = 0;
    proof {
        assert(s@.take(0) =~= Seq::<char>::empty());
        assert(cviews(done@) =~= Seq::<Seq<char>>::empty());
    }
    while i < s.len()
        invariant
            i <= s.len(),
            pieces_acc(s@.take(i as int), sep) == (cviews(done@), cur@),
        decreases s.len() - i,
    {
        let c = s[i];
        proof {
            assert(s@.take(i + 1).drop_last() =~= s@.take(i as int));
            assert(s@.take(i + 1).last() == c);
        }
        if c == sep {
            let ghost old_done = done@;
            let w = cur;
            cur = Vec::new();
            done.push(w);
            proof {
                assert(cviews(done@) =~= cviews(old_done).push(w@));
            }
        } else {
            cur.push(c);
        }
        i = i + 1;
    }
    proof {
        assert(s@.take(i as int) =~= s@);
    }
    let ghost old_done = done@;
    done.push(cur);
    proof {
        assert(cviews(done@) =~= cviews(old_done).push(cur@));
    }
    done
}

// ---------------------------------------------------------------------------
// Facts about decimals, tab-separated fields and lines
// ---------------------------------------------------------------------------

proof fn lemma_digit_char(d: nat)
    requires
        d < 10,
    ensures
        is_digit(digit_char(d)),
        (digit_char(d) as int) - ('0' as int) == d,
{
}

/// The decimal text of `n` is a nonempty run of digits whose value is `n`.
pub proof fn lemma_decimal(n: nat)
    ensures
        decimal(n).len() > 0,
        all_digits(decimal(n)),
        digits_value(decimal(n)) == n,
    decreases n,
{
    if n < 10 {
        lemma_digit_char(n);
        let s = decimal(n);
        assert(s.drop_last() =~= Seq::<char>::empty());
        assert(s.last() == digit_char(n));
        assert(digits_value(s) == digits_value(s.drop_last()) * 10 + ((s.last() as int) - ('0' as int)) as nat);
    } else {
        lemma_decimal(n / 10);
        lemma_digit_char(n % 10);
        let s = decimal(n);
        let t = decimal(n / 10);
        assert(s.drop_last() =~= t);
        assert forall|i: int| 0 <= i < s.len() implies is_digit(#[trigger] s[i]) by {
            if i < t.len() {
                assert(s[i] == t[i]);
            }
        }
        assert(s.last() == digit_char(n % 10));
        assert(digits_value(s) == digits_value(t) * 10 + ((s.last() as int) - ('0' as int)) as nat);
        assert((n / 10) * 10 + n % 10 == n);
    }
}

/// Reading back the decimal text of a 64-bit number gives the number.
pub proof fn lemma_parse_decimal(n: nat)
    requires
        n <= u64::MAX,
    ensures
        parse_u64(decimal(n)) == Some(n),
{
    lemma_decimal(n);
    assert(is_digit(decimal(n)[0]));
    assert(unsigned_digits(decimal(n)) == decimal(n));
}

/// Whether `s` holds no `c`.
pub open spec fn free_of(s: Seq<char>, c: char) -> bool {
    forall|i: int| 0 <= i < s.len() ==> #[trigger] s[i] != c
}

proof fn lemma_tabs_append_free(s: Seq<char>, q: Seq<char>)
    requires
        free_of(q, '\t'),
    ensures
        tabs_acc(s + q) == (tabs_acc(s).0, tabs_acc(s).1 + q),
    decreases q.len(),
{
    if q.len() == 0 {
        assert(s + q =~= s);
        assert(tabs_acc(s).1 + q =~= tabs_acc(s).1);
    } else {
        lemma_tabs_append_free(s, q.drop_last());
        assert((s + q).drop_last() =~= s + q.drop_last());
        assert((s + q).last() == q.last());
        assert(tabs_acc(s).1 + q =~= (tabs_acc(s).1 + q.drop_last()).push(q.last()));
    }
}

proof fn lemma_tabs_push_tab(s: Seq<char>)
    ensures
        tabs_acc(s.push('\t')) == (tabs_acc(s).0.push(tabs_acc(s).1), Seq::<char>::empty()),
{
    assert(s.push('\t').drop_last() =~= s);
}

/// Five fields joined with tabs.
pub open spec fn tab_join5(a: Seq<char>, b: Seq<char>, c: Seq<char>, d: Seq<char>, e: Seq<char>) -> Seq<char> {
    a + seq!['\t'] + b + seq!['\t'] + c + seq!['\t'] + d + seq!['\t'] + e
}

/// Splitting five tab-free fields joined with tabs gives them back.
pub proof fn lemma_split_five(a: Seq<char>, b: Seq<char>, c: Seq<char>, d: Seq<char>, e: Seq<char>)
    requires
        free_of(a, '\t'),
        free_of(b, '\t'),
        free_of(c, '\t'),
        free_of(d, '\t'),
        free_of(e, '\t'),
    ensures
        split_tabs(tab_join5(a, b, c, d, e)) == seq![a, b, c, d, e],
{
    let z = Seq::<char>::empty();
    lemma_tabs_append_free(z, a);
    assert(z + a =~= a);
    assert(tabs_acc(z) == (Seq::<Seq<char>>::empty(), z));
    assert(z + a =~= a);
    let s1 = a.push('\t');
    lemma_tabs_push_tab(a);
    lemma_tabs_append_free(s1, b);
    let s2 = (s1 + b).push('\t');
    lemma_tabs_push_tab(s1 + b);
    lemma_tabs_append_free(s2, c);
    let s3 = (s2 + c).push('\t');
    lemma_tabs_push_tab(s2 + c);
    lemma_tabs_append_free(s3, d);
    let s4 = (s3 + d).push('\t');
    lemma_tabs_push_tab(s3 + d);
    lemma_tabs_append_free(s4, e);
    assert(z + b =~= b);
    assert(z + c =~= c);
    assert(z + d =~= d);
    assert(z + e =~= e);
    assert(s4 + e =~= tab_join5(a, b, c, d, e));
    assert(tabs_acc(s4 + e).0 =~= seq![a, b, c, d]);
}

/// Reading a newline-free `q` after `s` extends the line in progress.
pub proof fn lemma_lines_append_free(s: Seq<char>, q: Seq<char>)
    requires
        free_of(q, '\n'),
    ensures
        lines_acc(s + q) == (lines_acc(s).0, lines_acc(s).1 + q),
    decreases q.len(),
{
    if q.len() == 0 {
        assert(s + q =~= s);
        assert(lines_acc(s).1 + q =~= lines_acc(s).1);
    } else {
        lemma_lines_append_free(s, q.drop_last());
        assert((s + q).drop_last() =~= s + q.drop_last());
        assert((s + q).last() == q.last());
        assert(lines_acc(s).1 + q =~= (lines_acc(s).1 + q.drop_last()).push(q.last()));
    }
}

/// A newline ends the line in progress.
pub proof fn lemma_lines_push_nl(s: Seq<char>)
    ensures
        lines_acc(s.push('\n')) == (lines_acc(s).0.push(strip_cr(lines_acc(s).1)), Seq::<char>::empty()),
{
    assert(s.push('\n').drop_last() =~= s);
}

} // verus!
