//! Sorting decimals by value, as `sort` on `Decimal`s does: ascending and
//! stable, so that decimals of one value keep the order they came in.

use crate::decimal::{all_wf, dec_compare, Dec};
use vstd::prelude::*;

verus! {

/// Ascending by value.
pub open spec fn sorted_by_value(s: Seq<Dec>) -> bool {
    forall|i: int, j: int| 0 <= i <= j < s.len() ==> #[trigger] s[i].units() <= #[trigger] s[j].units()
}

/// `x` placed after the last element of `s` that is not greater than it.
pub open spec fn insert_by_value(s: Seq<Dec>, x: Dec) -> Seq<Dec>
    decreases s.len(),
{
    if s.len() == 0 {
        seq![x]
    } else if s.last().units() <= x.units() {
        s.push(x)
    } else {
        insert_by_value(s.drop_last(), x).push(s.last())
    }
}

/// The stable ascending sort of `s`: each element in turn is placed after the
/// elements before it that are not greater.
pub open spec fn sort_by_value(s: Seq<Dec>) -> Seq<Dec>
    decreases s.len(),
{
    if s.len() == 0 {
        s
    } else {
        insert_by_value(sort_by_value(s.drop_last()), s.last())
    }
}

proof fn lemma_insert_at(s: Seq<Dec>, x: Dec, j: int)
    requires
        sorted_by_value(s),
        0 <= j <= s.len(),
        j > 0 ==> s[j - 1].units() <= x.units(),
        forall|k: int| j <= k < s.len() ==> #[trigger] s[k].units() > x.units(),
    ensures
        insert_by_value(s, x) == s.insert(j, x),
    decreases s.len(),
{
    if s.len() == 0 {
        assert(s.insert(j, x) =~= seq![x]);
    } else if s.last().units() <= x.units() {
        assert(j == s.len());
        assert(s.insert(j, x) =~= s.push(x));
    } else {
        assert(j < s.len());
        let t = s.drop_last();
        assert forall|k: int| j <= k < t.len() implies #[trigger] t[k].units() > x.units() by {
            assert(t[k] == s[k]);
        }
        lemma_insert_at(t, x, j);
        assert(t.insert(j, x).push(s.last()) =~= s.insert(j, x));
    }
}

/// Inserting into a sorted sequence keeps it sorted, keeps every element and
/// adds `x` once.
pub proof fn lemma_insert_by_value(s: Seq<Dec>, x: Dec)
    requires
        sorted_by_value(s),
    ensures
        sorted_by_value(insert_by_value(s, x)),
        insert_by_value(s, x).to_multiset() == s.to_multiset().insert(x),
        insert_by_value(s, x).len() == s.len() + 1,
    decreases s.len(),
{
    broadcast use vstd::seq_lib::group_to_multiset_ensures;
    if s.len() == 0 {
        assert(seq![x] =~= Seq::<Dec>::empty().push(x));
    } else if s.last().units() <= x.units() {
    } else {
        let t = s.drop_last();
        lemma_insert_by_value(t, x);
        let u = insert_by_value(t, x);
        assert(s =~= t.push(s.last()));
        assert forall|i: int, j: int| 0 <= i <= j < u.push(s.last()).len() implies #[trigger] u.push(
            s.last(),
        )[i].units() <= #[trigger] u.push(s.last())[j].units() by {
            if j == u.len() && i < u.len() {
                let e = u[i];
                assert(u.to_multiset().count(e) > 0);
                assert(u.contains(e));
                assert(s.to_multiset() == t.to_multiset().insert(s.last()));
                if e == x {
                } else {
                    assert(t.to_multiset().count(e) > 0);
                    assert(t.contains(e));
                    let k = choose|k: int| 0 <= k < t.len() && t[k] == e;
                    assert(s[k] == e);
                }
            }
        }
    }
}

/// The sort is sorted, as long as its input, and holds the same elements.
pub proof fn lemma_sort_by_value(s: Seq<Dec>)
    ensures
        sorted_by_value(sort_by_value(s)),
        sort_by_value(s).to_multiset() == s.to_multiset(),
        sort_by_value(s).len() == s.len(),
    decreases s.len(),
{
    broadcast use vstd::seq_lib::group_to_multiset_ensures;
    if s.len() > 0 {
        lemma_sort_by_value(s.drop_last());
        lemma_insert_by_value(sort_by_value(s.drop_last()), s.last());
        assert(s =~= s.drop_last().push(s.last()));
    }
}

/// Every element of the sort is an element of the input.
pub proof fn lemma_sort_elements(s: Seq<Dec>, i: int)
    requires
        0 <= i < s.len(),
    ensures
        s.contains(sort_by_value(s)[i]),
{
    broadcast use vstd::seq_lib::group_to_multiset_ensures;
    lemma_sort_by_value(s);
    let e = sort_by_value(s)[i];
    assert(sort_by_value(s).to_multiset().count(e) > 0);
}

/// The sort of valid decimals holds valid decimals only.
pub proof fn lemma_sort_all_wf(s: Seq<Dec>)
    requires
        all_wf(s),
    ensures
        all_wf(sort_by_value(s)),
{
    lemma_sort_by_value(s);
    assert forall|i: int| 0 <= i < sort_by_value(s).len() implies #[trigger] sort_by_value(s)[i].wf() by {
        lemma_sort_elements(s, i);
    }
}

/// A sequence of one repeated decimal is its own sort.
pub proof fn lemma_sort_constant(s: Seq<Dec>, c: Dec)
    requires
        forall|i: int| 0 <= i < s.len() ==> #[trigger] s[i] == c,
    ensures
        sort_by_value(s) == s,
    decreases s.len(),
{
    if s.len() > 0 {
        let rest = s.drop_last();
        assert forall|i: int| 0 <= i < rest.len() implies #[trigger] rest[i] == c by {
            assert(rest[i] == s[i]);
        }
        lemma_sort_constant(rest, c);
        assert(s.last() == c);
        if rest.len() > 0 {
            assert(rest.last() == c);
        }
        assert(rest.push(s.last()) =~= s);
    }
}

fn insert_sorted(v: &mut Vec<Dec>, x: Dec)
    requires
        sorted_by_value(old(v)@),
        all_wf(old(v)@),
        x.wf(),
    ensures
        final(v)@ == insert_by_value(old(v)@, x),
{
    let mut j = v.len();
    while j > 0
        invariant
            j <= v.len(),
            all_wf(v@),
            x.wf(),
            forall|k: int| j <= k < v.len() ==> #[trigger] v@[k].units() > x.units(),
        ensures
            j <= v.len(),
            forall|k: int| j <= k < v.len() ==> #[trigger] v@[k].units() > x.units(),
            j > 0 ==> v@[j - 1].units() <= x.units(),
        decreases j,
    {
        let before = v[j - 1];
        if dec_compare(before, x) <= 0 {
            break;
        }
        j = j - 1;
    }
    proof {
        lemma_insert_at(v@, x, j as int);
    }
    v.insert(j, x);
}

/// The values sorted ascending, stably.
pub fn sort_values(values: &[Dec]) -> (r: Vec<Dec>)
    requires
        all_wf(values@),
    ensures
        r@ == sort_by_value(values@),
{
    let mut r: Vec<Dec> = Vec::new();
    let n = values.len();
    for i in 0..n
        invariant
            n == values.len(),
            all_wf(values@),
            r@ == sort_by_value(values@.take(i as int)),
    {
        proof {
            lemma_sort_by_value(values@.take(i as int));
            lemma_sort_all_wf(values@.take(i as int));
            assert(values@.take(i + 1).drop_last() =~= values@.take(i as int));
        }
        insert_sorted(&mut r, values[i]);
    }
    proof {
        assert(values@.take(n as int) =~= values@);
    }
    r
}

/// Two sequences sorted by value that hold the same decimals agree in value
/// position by position (decimals of one value may stand in another order).
pub proof fn lemma_sorted_permutations_agree(x: Seq<Dec>, y: Seq<Dec>)
    requires
        sorted_by_value(x),
        sorted_by_value(y),
        x.to_multiset() == y.to_multiset(),
    ensures
        x.len() == y.len(),
        forall|k: int| 0 <= k < x.len() ==> #[trigger] x[k].units() == y[k].units(),
    decreases x.len(),
{
    broadcast use vstd::seq_lib::group_to_multiset_ensures;
    assert(x.len() == x.to_multiset().len());
    assert(y.len() == y.to_multiset().len());
    if x.len() > 0 {
        assert(x.contains(x[0]));
        assert(y.to_multiset().count(x[0]) > 0);
        assert(y.contains(x[0]));
        let i = choose|i: int| 0 <= i < y.len() && y[i] == x[0];
        assert(y.contains(y[0]));
        assert(x.to_multiset().count(y[0]) > 0);
        assert(x.contains(y[0]));
        let j = choose|j: int| 0 <= j < x.len() && x[j] == y[0];
        assert(x[0].units() <= x[j].units());
        assert(y[0].units() <= y[i].units());
        let xr = x.remove(0);
        let yr = y.remove(i);
        assert(xr.to_multiset() == x.to_multiset().remove(x[0]));
        assert(yr.to_multiset() == y.to_multiset().remove(y[i]));
        assert forall|a: int, b: int| 0 <= a <= b < yr.len() implies #[trigger] yr[a].units() <= #[trigger] yr[b].units() by {
            let a2 = if a < i { a } else { a + 1 };
            let b2 = if b < i { b } else { b + 1 };
            assert(yr[a] == y[a2] && yr[b] == y[b2]);
            assert(y[a2].units() <= y[b2].units());
        }
        assert forall|a: int, b: int| 0 <= a <= b < xr.len() implies #[trigger] xr[a].units() <= #[trigger] xr[b].units() by {
            assert(xr[a] == x[a + 1] && xr[b] == x[b + 1]);
            assert(x[a + 1].units() <= x[b + 1].units());
        }
        lemma_sorted_permutations_agree(xr, yr);
        assert forall|k: int| 0 <= k < x.len() implies #[trigger] x[k].units() == y[k].units() by {
            if k > 0 {
                assert(x[k] == xr[k - 1]);
                assert(xr[k - 1].units() == yr[k - 1].units());
                if k - 1 < i {
                    assert(yr[k - 1] == y[k - 1]);
                    assert(y[0].units() <= y[k - 1].units() <= y[k].units() <= y[i].units());
                } else {
                    assert(yr[k - 1] == y[k]);
                }
            }
        }
    }
}

} // verus!
