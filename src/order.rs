//! Lexicographic order on names, and sorted sets of names.

use vstd::prelude::*;
use crate::text::views;

verus! {

/// `a` comes strictly before `b` in lexicographic order of code points.
pub open spec fn lex_lt(a: Seq<char>, b: Seq<char>) -> bool
    decreases a.len(),
{
    if a.len() == 0 {
        b.len() > 0
    } else if b.len() == 0 {
        false
    } else if a[0] != b[0] {
        a[0] < b[0]
    } else {
        lex_lt(a.skip(1), b.skip(1))
    }
}

/// Strictly increasing: sorted and free of duplicates.
pub open spec fn strictly_sorted(s: Seq<Seq<char>>) -> bool {
    forall|i: int, j: int| 0 <= i < j < s.len() ==> lex_lt(#[trigger] s[i], #[trigger] s[j])
}

pub proof fn lemma_lex_total(a: Seq<char>, b: Seq<char>)
    ensures
        a == b || lex_lt(a, b) || lex_lt(b, a),
    decreases a.len(),
{
    if a.len() > 0 && b.len() > 0 && a[0] == b[0] {
        lemma_lex_total(a.skip(1), b.skip(1));
        if a.skip(1) == b.skip(1) {
            assert(a =~= seq![a[0]] + a.skip(1));
            assert(b =~= seq![b[0]] + b.skip(1));
        }
    } else if a.len() == 0 && b.len() == 0 {
        assert(a =~= b);
    }
}

pub proof fn lemma_lex_transitive(a: Seq<char>, b: Seq<char>, c: Seq<char>)
    requires
        lex_lt(a, b),
        lex_lt(b, c),
    ensures
        lex_lt(a, c),
    decreases a.len(),
{
    if a.len() > 0 && b.len() > 0 && c.len() > 0 && a[0] == b[0] && b[0] == c[0] {
        lemma_lex_transitive(a.skip(1), b.skip(1), c.skip(1));
    }
}

/// Compares two names in lexicographic order.
pub fn name_lt(a: &str, b: &str) -> (r: bool)
    ensures
        r == lex_lt(a@, b@),
{
    let n = a.unicode_len();
    let m = b.unicode_len();
    let mut i: usize = 0;
    assert(a@.skip(0) =~= a@ && b@.skip(0) =~= b@);
    while i < n && i < m && a.get_char(i) == b.get_char(i)
        invariant
            n == a@.len(),
            m == b@.len(),
            i <= n,
            i <= m,
            lex_lt(a@, b@) == lex_lt(a@.skip(i as int), b@.skip(i as int)),
        decreases n - i,
    {
        assert(a@.skip(i as int).skip(1) =~= a@.skip(i + 1));
        assert(b@.skip(i as int).skip(1) =~= b@.skip(i + 1));
        i += 1;
    }
    if i == n {
        i < m
    } else if i == m {
        false
    } else {
        a.get_char(i) < b.get_char(i)
    }
}

/// Adds `x` to the strictly sorted `v`, where it is not there yet.
pub fn insert_sorted(v: &mut Vec<String>, x: String)
    requires
        strictly_sorted(views(old(v)@)),
    ensures
        strictly_sorted(views(final(v)@)),
        views(final(v)@).to_set() == views(old(v)@).to_set().insert(x@),
{
    let ghost old_views = views(v@);
    let mut k: usize = 0;
    while k < v.len() && name_lt(v[k].as_str(), x.as_str())
        invariant
            views(v@) == old_views,
            strictly_sorted(old_views),
            k <= v.len(),
            forall|j: int| 0 <= j < k ==> lex_lt(#[trigger] old_views[j], x@),
        decreases v.len() - k,
    {
        assert(old_views[k as int] == v@[k as int]@);
        k += 1;
    }
    if k < v.len() && v[k] == x {
        assert(old_views.to_set().insert(x@) =~= old_views.to_set()) by {
            assert(old_views[k as int] == x@);
        }
        return;
    }
    proof {
        if k < v.len() {
            assert(old_views[k as int] == v@[k as int]@);
            lemma_lex_total(old_views[k as int], x@);
        }
    }
    v.insert(k, x);
    proof {
        let nv = views(v@);
        assert(nv =~= old_views.insert(k as int, x@));
        assert forall|i: int, j: int| 0 <= i < j < nv.len() implies lex_lt(
            #[trigger] nv[i],
            #[trigger] nv[j],
        ) by {
            if j < k {
            } else if j == k {
            } else if i < k {
                lemma_lex_transitive(nv[i], x@, old_views[k as int]);
                if j > k + 1 {
                    lemma_lex_transitive(nv[i], old_views[k as int], nv[j]);
                }
            } else if i == k {
                if j > k + 1 {
                    lemma_lex_transitive(x@, old_views[k as int], nv[j]);
                }
            } else {
                assert(nv[i] == old_views[i - 1]);
                assert(nv[j] == old_views[j - 1]);
            }
        }
        assert(nv.to_set() =~= old_views.to_set().insert(x@)) by {
            assert forall|s: Seq<char>| nv.to_set().contains(s) implies old_views.to_set().insert(x@).contains(s) by {
                let i = choose|i: int| 0 <= i < nv.len() && nv[i] == s;
                if i < k {
                    assert(old_views[i] == s);
                } else if i > k {
                    assert(old_views[i - 1] == s);
                }
            }
            assert forall|s: Seq<char>| old_views.to_set().insert(x@).contains(s) implies nv.to_set().contains(s) by {
                if s == x@ {
                    assert(nv[k as int] == s);
                } else {
                    let i = choose|i: int| 0 <= i < old_views.len() && old_views[i] == s;
                    if i < k {
                        assert(nv[i] == s);
                    } else {
                        assert(nv[i + 1] == s);
                    }
                }
            }
        }
    }
}

} // verus!
