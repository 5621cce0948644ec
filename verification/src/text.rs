//! Small text helpers: appending characters to a `String`, and trimming
//! ASCII whitespace, with a spec-level model of the trimmed content.

use vstd::prelude::*;

verus! {

/// Relies on std's String::push: appends exactly the one character.
#[verifier::external_body]
pub fn push_char(s: &mut String, c: char)
    ensures
        final(s)@ == old(s)@.push(c),
{
    s.push(c);
}

pub fn push_chars(s: &mut String, v: &Vec<char>)
    ensures
        final(s)@ == old(s)@ + v@,
{
    let mut i: usize = 0;
    while i < v.len()
        invariant
            i <= v@.len(),
            s@ == old(s)@ + v@.subrange(0, i as int),
        decreases v@.len() - i,
    {
        push_char(s, v[i]);
        proof {
            assert(old(s)@ + v@.subrange(0, i as int) + seq![v@[i as int]] =~= old(s)@
                + v@.subrange(0, i + 1));
        }
        i = i + 1;
    }
    proof {
        assert(old(s)@ + v@.subrange(0, v@.len() as int) =~= old(s)@ + v@);
    }
}

pub open spec fn is_space(c: char) -> bool {
    c == ' ' || c == '\t' || c == '\r' || c == '\n'
}

pub open spec fn trim_front(s: Seq<char>) -> Seq<char>
    decreases s.len(),
{
    if s.len() > 0 && is_space(s[0]) {
        trim_front(s.drop_first())
    } else {
        s
    }
}

pub open spec fn trim_back(s: Seq<char>) -> Seq<char>
    decreases s.len(),
{
    if s.len() > 0 && is_space(s.last()) {
        trim_back(s.drop_last())
    } else {
        s
    }
}

/// `s` with leading and trailing ASCII whitespace removed.
pub open spec fn trim_spec(s: Seq<char>) -> Seq<char> {
    trim_back(trim_front(s))
}

pub proof fn lemma_trim_front_skip(s: Seq<char>, k: int)
    requires
        0 <= k <= s.len(),
        forall|i: int| 0 <= i < k ==> is_space(#[trigger] s[i]),
    ensures
        trim_front(s) == trim_front(s.subrange(k, s.len() as int)),
    decreases k,
{
    if k > 0 {
        assert(trim_front(s) == trim_front(s.drop_first()));
        lemma_trim_front_skip(s.drop_first(), k - 1);
        assert(s.drop_first().subrange(k - 1, s.drop_first().len() as int) =~= s.subrange(
            k,
            s.len() as int,
        ));
    } else {
        assert(s.subrange(0, s.len() as int) =~= s);
    }
}

pub proof fn lemma_trim_front_clean(s: Seq<char>)
    requires
        s.len() == 0 || !is_space(s[0]),
    ensures
        trim_front(s) == s,
{
}

pub proof fn lemma_trim_back_drop(s: Seq<char>, k: int)
    requires
        0 <= k <= s.len(),
        forall|i: int| k <= i < s.len() ==> is_space(#[trigger] s[i]),
    ensures
        trim_back(s) == trim_back(s.subrange(0, k)),
    decreases s.len() - k,
{
    if k < s.len() {
        assert(trim_back(s) == trim_back(s.drop_last()));
        lemma_trim_back_drop(s.drop_last(), k);
        assert(s.drop_last().subrange(0, k) =~= s.subrange(0, k));
    } else {
        assert(s.subrange(0, s.len() as int) =~= s);
    }
}

pub proof fn lemma_trim_back_clean(s: Seq<char>)
    requires
        s.len() == 0 || !is_space(s.last()),
    ensures
        trim_back(s) == s,
{
}

/// The views of a sequence of strings.
pub open spec fn string_views(v: Seq<String>) -> Seq<Seq<char>> {
    v.map_values(|s: String| s@)
}

/// `v` holds exactly the strings `ts`, element for element.
pub open spec fn strings_match(v: Seq<String>, ts: Seq<Seq<char>>) -> bool {
    v.len() == ts.len() && forall|i: int| 0 <= i < v.len() ==> #[trigger] v[i]@ == ts[i]
}

pub fn str_eq_str(a: &str, b: &str) -> (r: bool)
    ensures
        r == (a@ == b@),
{
    let n = a.unicode_len();
    if n != b.unicode_len() {
        return false;
    }
    let mut i: usize = 0;
    while i < n
        invariant
            i <= n == a@.len(),
            b@.len() == n,
            forall|j: int| 0 <= j < i ==> a@[j] == b@[j],
        decreases n - i,
    {
        if a.get_char(i) != b.get_char(i) {
            return false;
        }
        i = i + 1;
    }
    proof {
        assert(a@ =~= b@);
    }
    true
}

/// Index of the first occurrence of `c` in `t`, or `t.len()` when absent.
pub open spec fn find_char(t: Seq<char>, c: char) -> nat
    decreases t.len(),
{
    if t.len() == 0 {
        0
    } else if t[0] == c {
        0
    } else {
        (1 + find_char(t.drop_first(), c)) as nat
    }
}

pub proof fn lemma_find_char_at(t: Seq<char>, c: char, k: int)
    requires
        0 <= k <= t.len(),
        forall|i: int| 0 <= i < k ==> #[trigger] t[i] != c,
        k < t.len() ==> t[k] == c,
    ensures
        find_char(t, c) == k,
    decreases k,
{
    if t.len() > 0 && t[0] != c {
        assert(k >= 1);
        let d = t.drop_first();
        assert forall|i: int| 0 <= i < k - 1 implies #[trigger] d[i] != c by {
            assert(d[i] == t[i + 1]);
        }
        lemma_find_char_at(d, c, k - 1);
    }
}

pub proof fn lemma_trim_front_spaces_only(s: Seq<char>)
    requires
        trim_front(s).len() == 0,
    ensures
        forall|i: int| 0 <= i < s.len() ==> is_space(#[trigger] s[i]),
    decreases s.len(),
{
    if s.len() > 0 {
        if is_space(s[0]) {
            lemma_trim_front_spaces_only(s.drop_first());
            assert forall|i: int| 0 <= i < s.len() implies is_space(#[trigger] s[i]) by {
                if i > 0 {
                    assert(s[i] == s.drop_first()[i - 1]);
                }
            }
        }
    }
}

pub proof fn lemma_trim_front_append(s: Seq<char>, t: Seq<char>)
    requires
        trim_front(s).len() > 0,
    ensures
        trim_front(s + t) == trim_front(s) + t,
    decreases s.len(),
{
    if s.len() > 0 && is_space(s[0]) {
        assert((s + t).drop_first() =~= s.drop_first() + t);
        lemma_trim_front_append(s.drop_first(), t);
    } else {
        assert(s.len() > 0);
        assert((s + t)[0] == s[0]);
        assert(trim_front(s + t) == s + t);
    }
}

fn space_at(s: &str, i: usize) -> (r: bool)
    requires
        i < s@.len(),
    ensures
        r == is_space(s@[i as int]),
{
    let c = s.get_char(i);
    c == ' ' || c == '\t' || c == '\r' || c == '\n'
}

/// Bounds of `s@` between `from` and `to` after trimming ASCII whitespace
/// from both ends: the returned window holds exactly the trimmed content.
pub fn trim_range(s: &str, from: usize, to: usize) -> (r: (usize, usize))
    requires
        from <= to <= s@.len(),
    ensures
        from <= r.0 <= r.1 <= to,
        s@.subrange(r.0 as int, r.1 as int) == trim_spec(
            s@.subrange(from as int, to as int),
        ),
{
    let ghost t = s@.subrange(from as int, to as int);
    let mut lo: usize = from;
    while lo < to && space_at(s, lo)
        invariant
            from <= lo <= to <= s@.len(),
            forall|i: int| from <= i < lo ==> is_space(#[trigger] s@[i]),
        decreases to - lo,
    {
        lo = lo + 1;
    }
    let mut hi: usize = to;
    while hi > lo && space_at(s, hi - 1)
        invariant
            from <= lo <= hi <= to <= s@.len(),
            forall|i: int| from <= i < lo ==> is_space(#[trigger] s@[i]),
            forall|i: int| hi <= i < to ==> is_space(#[trigger] s@[i]),
        decreases hi,
    {
        hi = hi - 1;
    }
    proof {
        assert(forall|i: int| 0 <= i < lo - from ==> is_space(#[trigger] t[i]));
        lemma_trim_front_skip(t, lo - from);
        let u = t.subrange(lo - from, t.len() as int);
        assert(u =~= s@.subrange(lo as int, to as int));
        if u.len() > 0 {
            assert(u[0] == s@[lo as int]);
        }
        lemma_trim_front_clean(u);
        assert(forall|i: int| hi - lo <= i < u.len() ==> is_space(#[trigger] u[i]));
        lemma_trim_back_drop(u, hi - lo);
        let w = u.subrange(0, hi - lo);
        assert(w =~= s@.subrange(lo as int, hi as int));
        if w.len() > 0 {
            assert(w.last() == s@[hi - 1]);
        }
        lemma_trim_back_clean(w);
    }
    (lo, hi)
}

} // verus!

