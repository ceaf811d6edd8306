use vstd::prelude::*;

verus! {

/// The character sequences of a sequence of strings.
pub open spec fn strs(v: Seq<String>) -> Seq<Seq<char>> {
    v.map_values(|s: String| s@)
}

/// `Ord for str`: lexicographic order by code point (UTF-8 byte order agrees with it).
pub open spec fn str_lt(a: Seq<char>, b: Seq<char>) -> bool
    decreases a.len(),
{
    if a.len() == 0 {
        b.len() > 0
    } else if b.len() == 0 {
        false
    } else if a[0] != b[0] {
        (a[0] as int) < (b[0] as int)
    } else {
        str_lt(a.drop_first(), b.drop_first())
    }
}

pub proof fn lemma_str_lt_irreflexive(a: Seq<char>)
    ensures
        !str_lt(a, a),
    decreases a.len(),
{
    if a.len() > 0 {
        lemma_str_lt_irreflexive(a.drop_first());
    }
}

pub proof fn lemma_str_lt_trans(a: Seq<char>, b: Seq<char>, c: Seq<char>)
    requires
        str_lt(a, b),
        str_lt(b, c),
    ensures
        str_lt(a, c),
    decreases a.len(),
{
    if a.len() > 0 && b.len() > 0 && c.len() > 0 {
        if a[0] == b[0] && b[0] == c[0] {
            lemma_str_lt_trans(a.drop_first(), b.drop_first(), c.drop_first());
        }
    }
}

pub proof fn lemma_str_lt_total(a: Seq<char>, b: Seq<char>)
    ensures
        a == b || str_lt(a, b) || str_lt(b, a),
    decreases a.len(),
{
    if a.len() > 0 && b.len() > 0 {
        if a[0] == b[0] {
            lemma_str_lt_total(a.drop_first(), b.drop_first());
            if a.drop_first() == b.drop_first() {
                assert(a =~= seq![a[0]] + a.drop_first());
                assert(b =~= seq![b[0]] + b.drop_first());
            }
        } else {
        }
    } else if a.len() == 0 && b.len() == 0 {
        assert(a =~= b);
    }
}

/// Each element is smaller than every later one: sorted, without duplicates.
pub open spec fn strictly_sorted(s: Seq<Seq<char>>) -> bool {
    forall|i: int, j: int| 0 <= i < j < s.len() ==> str_lt(#[trigger] s[i], #[trigger] s[j])
}

/// Whether `a` comes before `b`.
pub fn chars_lt(a: &[char], b: &[char]) -> (r: bool)
    ensures
        r == str_lt(a@, b@),
{
    let mut i: usize = 0;
    assert(a@.skip(0) =~= a@);
    assert(b@.skip(0) =~= b@);
    while i < a.len() && i < b.len() && a[i] == b[i]
        invariant
            i <= a@.len(),
            i <= b@.len(),
            str_lt(a@, b@) == str_lt(a@.skip(i as int), b@.skip(i as int)),
        decreases a@.len() - i,
    {
        assert(a@.skip(i as int).drop_first() =~= a@.skip(i + 1));
        assert(b@.skip(i as int).drop_first() =~= b@.skip(i + 1));
        i = i + 1;
    }
    if i == a.len() {
        i < b.len()
    } else if i == b.len() {
        false
    } else {
        a[i] < b[i]
    }
}

/// Whether string `a` comes before string `b`.
pub fn string_lt(a: &String, b: &String) -> (r: bool)
    ensures
        r == str_lt(a@, b@),
{
    let ac = crate::text::chars_of(a.as_str());
    let bc = crate::text::chars_of(b.as_str());
    chars_lt(ac.as_slice(), bc.as_slice())
}

/// Adds `x` to a sorted vector of distinct strings, keeping it so.
pub fn insert_sorted(v: &mut Vec<String>, x: String)
    requires
        strictly_sorted(strs(old(v)@)),
    ensures
        strictly_sorted(strs(final(v)@)),
        strs(final(v)@).to_set() == strs(old(v)@).to_set().insert(x@),
{
    let ghost s0 = strs(v@);
    let mut p: usize = 0;
    while p < v.len() && string_lt(&v[p], &x)
        invariant
            s0 == strs(v@),
            p <= v@.len(),
            forall|i: int| 0 <= i < p ==> str_lt(#[trigger] s0[i], x@),
        decreases v@.len() - p,
    {
        p = p + 1;
    }
    if p < v.len() && v[p] == x {
        assert(strs(v@).to_set() =~= s0.to_set().insert(x@)) by {
            assert(s0[p as int] == x@);
        }
        return ;
    }
    proof {
        if p < s0.len() {
            lemma_str_lt_total(s0[p as int], x@);
        }
    }
    let ghost xv = x@;
    v.insert(p, x);
    let ghost s1 = strs(v@);
    assert(s1 =~= s0.insert(p as int, xv));
    assert forall|i: int, j: int| 0 <= i < j < s1.len() implies str_lt(
        #[trigger] s1[i],
        #[trigger] s1[j],
    ) by {
        if j < p {
            assert(s1[i] == s0[i] && s1[j] == s0[j]);
        } else if j == p {
            assert(s1[i] == s0[i]);
        } else if i == p {
            assert(s1[j] == s0[j - 1]);
            if j - 1 > p {
                assert(str_lt(s0[p as int], s0[j - 1]));
                lemma_str_lt_trans(xv, s0[p as int], s0[j - 1]);
            }
        } else if i < p {
            assert(s1[i] == s0[i] && s1[j] == s0[j - 1]);
        } else {
            assert(s1[i] == s0[i - 1] && s1[j] == s0[j - 1]);
        }
    }
    assert(s1.to_set() =~= s0.to_set().insert(xv)) by {
        assert forall|e: Seq<char>| s1.to_set().contains(e) implies s0.to_set().insert(xv).contains(e) by {
            let k = choose|k: int| 0 <= k < s1.len() && s1[k] == e;
            if k < p {
                assert(s0[k] == e);
            } else if k > p {
                assert(s0[k - 1] == e);
            }
        }
        assert forall|e: Seq<char>| s0.to_set().insert(xv).contains(e) implies s1.to_set().contains(e) by {
            if e == xv {
                assert(s1[p as int] == e);
            } else {
                let k = choose|k: int| 0 <= k < s0.len() && s0[k] == e;
                if k < p {
                    assert(s1[k] == e);
                } else {
                    assert(s1[k + 1] == e);
                }
            }
        }
    }
}

} // verus!
