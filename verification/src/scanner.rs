//! The directory scanner's ordering: candidate paths are emitted in a stable,
//! lexicographically sorted sequence, so that two runs over an unchanged tree
//! apply files in the same reproducible order.

use crate::text::{
    lemma_lex_le_antisymmetric, lemma_lex_le_total, lemma_lex_le_transitive, lex_le, lex_leq,
    str_le,
};
use vstd::prelude::*;
use vstd::relations::sorted_by;

verus! {

/// Arranges the discovered paths in lexicographic order. The result holds
/// exactly the given paths, sorted; together with
/// [`lemma_sorted_arrangement_unique`] this makes the scan order a function of
/// the tree's contents alone.
pub fn sort_paths(paths: &Vec<String>) -> (r: Vec<String>)
    ensures
        r.deep_view().to_multiset() == paths.deep_view().to_multiset(),
        sorted_by(r.deep_view(), lex_leq()),
{
    broadcast use vstd::seq_lib::to_multiset_insert;
    broadcast use vstd::seq_lib::to_multiset_build;

    let mut out: Vec<String> = Vec::new();
    let mut i: usize = 0;
    proof {
        assert(out.deep_view() =~= Seq::<Seq<char>>::empty());
        assert(paths.deep_view().take(0) =~= Seq::<Seq<char>>::empty());
    }
    while i < paths.len()
        invariant
            i <= paths.len(),
            paths.deep_view().len() == paths.len(),
            sorted_by(out.deep_view(), lex_leq()),
            out.deep_view().to_multiset() == paths.deep_view().take(i as int).to_multiset(),
        decreases paths.len() - i,
    {
        let ghost dvo = out.deep_view();
        let x = paths[i].clone();
        proof {
            assert(x@ == paths.deep_view()[i as int]);
        }
        let mut j: usize = 0;
        let mut searching = true;
        while searching && j < out.len()
            invariant
                j <= out.len(),
                out.deep_view() == dvo,
                forall|k: int| 0 <= k < j ==> lex_le(#[trigger] dvo[k], x@),
                !searching ==> j < out.len() && !lex_le(dvo[j as int], x@),
            decreases out.len() - j, (if searching { 1int } else { 0int }),
        {
            if str_le(out[j].as_str(), x.as_str()) {
                j = j + 1;
            } else {
                searching = false;
            }
        }
        proof {
            assert forall|k: int| j <= k < dvo.len() implies lex_le(x@, #[trigger] dvo[k]) by {
                lemma_lex_le_total(dvo[j as int], x@);
                if k > j {
                    assert((lex_leq())(dvo[j as int], dvo[k]));
                    lemma_lex_le_transitive(x@, dvo[j as int], dvo[k]);
                }
            }
        }
        out.insert(j, x);
        proof {
            broadcast use vstd::seq_lib::to_multiset_insert;
            broadcast use vstd::seq_lib::to_multiset_build;

            assert(j <= dvo.len());
            dvo.insert_ensures(j as int, x@);
            assert(out.deep_view() =~= dvo.insert(j as int, x@));
            let dvn = out.deep_view();
            assert forall|p: int, q: int| 0 <= p < q < dvn.len() implies (lex_leq())(
                #[trigger] dvn[p],
                #[trigger] dvn[q],
            ) by {
                if q < j {
                    assert((lex_leq())(dvo[p], dvo[q]));
                } else if q == j {
                    assert(dvn[q] == x@);
                    assert(lex_le(dvo[p], x@));
                } else {
                    assert(dvn[q] == dvo[q - 1]);
                    if p < j {
                        if j <= q - 1 {
                            assert(lex_le(dvo[p], x@));
                            assert(lex_le(x@, dvo[q - 1]));
                            lemma_lex_le_transitive(dvo[p], x@, dvo[q - 1]);
                        }
                    } else if p == j {
                        assert(dvn[p] == x@);
                        assert(lex_le(x@, dvo[q - 1]));
                    } else {
                        assert(dvn[p] == dvo[p - 1]);
                        assert((lex_leq())(dvo[p - 1], dvo[q - 1]));
                    }
                }
            }
            let t = paths.deep_view().take(i as int);
            assert(dvn.to_multiset() == dvo.insert(j as int, x@).to_multiset());
            assert(dvo.insert(j as int, x@).to_multiset() == dvo.to_multiset().insert(x@));
            assert(t.push(x@).to_multiset() == t.to_multiset().insert(x@));
            assert(paths.deep_view().take(i + 1) =~= t.push(x@));
        }
        i = i + 1;
    }
    proof {
        assert(paths.deep_view().take(i as int) =~= paths.deep_view());
    }
    out
}

/// There is only one sorted arrangement of given contents: two sorted
/// sequences over the same multiset of paths are identical. With
/// [`sort_paths`]'s contract, repeated scans over an unchanged tree yield
/// identical, lexicographically sorted path sequences.
pub proof fn lemma_sorted_arrangement_unique(a: Seq<Seq<char>>, b: Seq<Seq<char>>)
    requires
        sorted_by(a, lex_leq()),
        sorted_by(b, lex_leq()),
        a.to_multiset() == b.to_multiset(),
    ensures
        a == b,
    decreases a.len(),
{
    broadcast use vstd::seq_lib::group_to_multiset_ensures;

    if a.len() == 0 {
        assert(a.to_multiset().len() == 0);
        assert(b.to_multiset().len() == b.len());
        assert(b.len() == 0);
        assert(a =~= b);
    } else {
        assert(a.to_multiset().len() == a.len());
        assert(b.to_multiset().len() == b.len());
        assert(b.len() == a.len());
        assert(b.len() > 0);
        assert(lex_le(b[0], a[0])) by {
            assert(a.contains(a[0]));
            assert(a.to_multiset().count(a[0]) > 0);
            assert(b.contains(a[0]));
            let k = choose|k: int| 0 <= k < b.len() && b[k] == a[0];
            if k > 0 {
                assert((lex_leq())(b[0], b[k]));
            } else {
                crate::text::lemma_lex_le_reflexive(b[0]);
            }
        }
        assert(lex_le(a[0], b[0])) by {
            assert(b.contains(b[0]));
            assert(b.to_multiset().count(b[0]) > 0);
            assert(a.contains(b[0]));
            let k = choose|k: int| 0 <= k < a.len() && a[k] == b[0];
            if k > 0 {
                assert((lex_leq())(a[0], a[k]));
            } else {
                crate::text::lemma_lex_le_reflexive(a[0]);
            }
        }
        lemma_lex_le_antisymmetric(a[0], b[0]);
        let ta = a.remove(0);
        let tb = b.remove(0);
        assert(ta.to_multiset() == tb.to_multiset()) by {
            assert(ta.to_multiset() == a.to_multiset().remove(a[0]));
            assert(tb.to_multiset() == b.to_multiset().remove(b[0]));
        }
        assert(sorted_by(ta, lex_leq())) by {
            assert forall|p: int, q: int| 0 <= p < q < ta.len() implies (lex_leq())(
                #[trigger] ta[p],
                #[trigger] ta[q],
            ) by {
                assert(ta[p] == a[p + 1]);
                assert(ta[q] == a[q + 1]);
                assert((lex_leq())(a[p + 1], a[q + 1]));
            }
        }
        assert(sorted_by(tb, lex_leq())) by {
            assert forall|p: int, q: int| 0 <= p < q < tb.len() implies (lex_leq())(
                #[trigger] tb[p],
                #[trigger] tb[q],
            ) by {
                assert(tb[p] == b[p + 1]);
                assert(tb[q] == b[q + 1]);
                assert((lex_leq())(b[p + 1], b[q + 1]));
            }
        }
        lemma_sorted_arrangement_unique(ta, tb);
        assert forall|i: int| 0 <= i < a.len() implies a[i] == b[i] by {
            if i > 0 {
                assert(a[i] == ta[i - 1]);
                assert(b[i] == tb[i - 1]);
            }
        }
        assert(a =~= b);
    }
}

} // verus!
