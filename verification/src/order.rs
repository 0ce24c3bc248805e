//! Lexicographic (code-point) order on strings, and sorting of name lists.

use vstd::prelude::*;
use vstd::string::StrSliceExecFns;

verus! {

/// Code-point-lexicographic order: `a` is at most `b`.
pub open spec fn lex_le(a: Seq<char>, b: Seq<char>) -> bool
    decreases a.len(),
{
    if a.len() == 0 {
        true
    } else if b.len() == 0 {
        false
    } else if a[0] == b[0] {
        lex_le(a.subrange(1, a.len() as int), b.subrange(1, b.len() as int))
    } else {
        (a[0] as int) < (b[0] as int)
    }
}

pub proof fn lemma_lex_le_total(a: Seq<char>, b: Seq<char>)
    ensures
        lex_le(a, b) || lex_le(b, a),
    decreases a.len(),
{
    if a.len() > 0 && b.len() > 0 && a[0] == b[0] {
        lemma_lex_le_total(a.subrange(1, a.len() as int), b.subrange(1, b.len() as int));
    }
}

pub proof fn lemma_lex_le_trans(a: Seq<char>, b: Seq<char>, c: Seq<char>)
    requires
        lex_le(a, b),
        lex_le(b, c),
    ensures
        lex_le(a, c),
    decreases a.len(),
{
    if a.len() > 0 && b.len() > 0 && c.len() > 0 && a[0] == b[0] && b[0] == c[0] {
        lemma_lex_le_trans(
            a.subrange(1, a.len() as int),
            b.subrange(1, b.len() as int),
            c.subrange(1, c.len() as int),
        );
    }
}

/// When the first `i` characters agree, the order is decided at `i`.
proof fn lemma_lex_le_at(a: Seq<char>, b: Seq<char>, i: int)
    requires
        0 <= i <= a.len(),
        i <= b.len(),
        forall|j: int| 0 <= j < i ==> a[j] == b[j],
    ensures
        i == a.len() ==> lex_le(a, b),
        i < a.len() && i == b.len() ==> !lex_le(a, b),
        i < a.len() && i < b.len() && a[i] != b[i] ==> lex_le(a, b) == ((a[i] as int) < (
        b[i] as int)),
    decreases i,
{
    if a.len() > 0 && b.len() > 0 {
        let a1 = a.subrange(1, a.len() as int);
        let b1 = b.subrange(1, b.len() as int);
        if i > 0 {
            assert(a[0] == b[0]);
            assert(forall|j: int| 0 <= j < i - 1 ==> a1[j] == b1[j]);
            lemma_lex_le_at(a1, b1, i - 1);
            assert(lex_le(a, b) == lex_le(a1, b1));
            if i < a.len() && i < b.len() {
                assert(a1[i - 1] == a[i] && b1[i - 1] == b[i]);
            }
        }
    }
}

/// Whether `a` is at most `b` in code-point order.
pub fn str_le(a: &str, b: &str) -> (r: bool)
    ensures
        r == lex_le(a@, b@),
{
    let a_len = a.unicode_len();
    let b_len = b.unicode_len();
    let mut i: usize = 0;
    loop
        invariant
            i <= a_len,
            i <= b_len,
            a_len == a@.len(),
            b_len == b@.len(),
            forall|j: int| 0 <= j < i ==> a@[j] == b@[j],
        decreases a_len - i,
    {
        if i >= a_len {
            proof {
                lemma_lex_le_at(a@, b@, i as int);
            }
            return true;
        }
        if i >= b_len {
            proof {
                lemma_lex_le_at(a@, b@, i as int);
            }
            return false;
        }
        let ca = a.get_char(i) as u32;
        let cb = b.get_char(i) as u32;
        if ca != cb {
            proof {
                lemma_lex_le_at(a@, b@, i as int);
            }
            return ca < cb;
        }
        i += 1;
    }
}

/// The character sequences of a list of strings, in order.
pub open spec fn string_views(s: Seq<String>) -> Seq<Seq<char>> {
    Seq::new(s.len(), |i: int| s[i]@)
}

/// Sortedness in code-point order.
pub open spec fn strings_sorted(s: Seq<Seq<char>>) -> bool {
    forall|i: int, j: int| 0 <= i < j < s.len() ==> lex_le(#[trigger] s[i], #[trigger] s[j])
}

proof fn lemma_string_views_insert(s: Seq<String>, p: int, x: String)
    requires
        0 <= p <= s.len(),
    ensures
        string_views(s.insert(p, x)) =~= string_views(s).insert(p, x@),
{
}

/// Inserting one more element keeps the view multiset in step.
proof fn lemma_multiset_insert<A>(s: Seq<A>, p: int, x: A)
    requires
        0 <= p <= s.len(),
    ensures
        s.insert(p, x).to_multiset() =~= s.to_multiset().insert(x),
    decreases s.len(),
{
    broadcast use vstd::seq_lib::group_to_multiset_ensures;

    let s2 = s.insert(p, x);
    assert(s2.remove(p) =~= s);
    assert(s2.remove(p).to_multiset() =~= s2.to_multiset().remove(s2[p]));
    assert(s2[p] == x);
    assert(s2.to_multiset().count(x) > 0) by {
        assert(s2.contains(x));
    }
    assert(s2.to_multiset().remove(x).insert(x) =~= s2.to_multiset());
}

/// Sorts the strings ascending in code-point order, keeping the same
/// collection of strings.
pub fn sort_strings(v: Vec<String>) -> (r: Vec<String>)
    ensures
        strings_sorted(string_views(r@)),
        string_views(r@).to_multiset() == string_views(v@).to_multiset(),
{
    let mut out: Vec<String> = Vec::new();
    let mut i: usize = 0;
    proof {
        assert(string_views(out@) =~= Seq::<Seq<char>>::empty());
        assert(string_views(v@.subrange(0, 0)) =~= Seq::<Seq<char>>::empty());
    }
    while i < v.len()
        invariant
            i <= v@.len(),
            strings_sorted(string_views(out@)),
            string_views(out@).to_multiset() == string_views(v@.subrange(0, i as int)).to_multiset(),
        decreases v@.len() - i,
    {
        let x = v[i].clone();
        let mut p: usize = 0;
        while p < out.len() && str_le(out[p].as_str(), x.as_str())
            invariant
                p <= out@.len(),
                forall|j: int| 0 <= j < p ==> lex_le(#[trigger] string_views(out@)[j], x@),
            decreases out@.len() - p,
        {
            proof {
                assert(string_views(out@)[p as int] == out@[p as int]@);
            }
            p += 1;
        }
        proof {
            let ghost ov = string_views(out@);
            if p < out@.len() {
                assert(!lex_le(ov[p as int], x@));
                lemma_lex_le_total(ov[p as int], x@);
            }
            lemma_string_views_insert(out@, p as int, x);
            lemma_multiset_insert(string_views(out@), p as int, x@);
            let ghost nv = ov.insert(p as int, x@);
            assert forall|a: int, b: int| 0 <= a < b < nv.len() implies lex_le(
                #[trigger] nv[a],
                #[trigger] nv[b],
            ) by {
                if a < p && b == p {
                } else if a == p && b > p {
                    if b - 1 > p {
                        lemma_lex_le_trans(x@, ov[p as int], ov[b - 1]);
                    }
                } else if a < p && b > p {
                } else if a > p || b < p {
                }
            }
            let ghost pre = string_views(v@.subrange(0, i as int));
            let ghost pre2 = string_views(v@.subrange(0, i + 1));
            assert(pre2 =~= pre.push(v@[i as int]@));
            broadcast use vstd::seq_lib::group_to_multiset_ensures;

            assert(pre2.to_multiset() =~= pre.to_multiset().insert(v@[i as int]@));
        }
        let ghost old_out = out@;
        out.insert(p, x);
        proof {
            assert(string_views(out@) =~= string_views(old_out).insert(p as int, x@));
        }
        i += 1;
    }
    proof {
        assert(v@.subrange(0, v@.len() as int) =~= v@);
    }
    out
}

} // verus!
