//! The order of a listing.

use vstd::prelude::*;

use crate::report::{in_order, place_for, precedes, Listed};
use crate::text::Text;

verus! {

/// A listing holds every profile that was found and no other, in the order of
/// their names.
pub proof fn a_listing_is_complete_and_in_order(ps: Seq<Listed>)
    ensures
        in_order(ps).to_multiset() == ps.to_multiset(),
        forall|i: int, j: int|
            0 <= i < j < in_order(ps).len() ==> !precedes(
                #[trigger] in_order(ps)[j].name,
                #[trigger] in_order(ps)[i].name,
            ),
    decreases ps.len(),
{
    if ps.len() == 0 {
        assert(in_order(ps) =~= ps);
    } else {
        let shorter = ps.drop_last();
        let p = ps.last();
        let before = in_order(shorter);
        a_listing_is_complete_and_in_order(shorter);
        let k: int = place_for(before, p.name, 0);
        lemma_place(before, p.name, 0);
        let all = before.insert(k, p);
        assert(shorter.push(p) =~= ps);
        vstd::seq_lib::to_multiset_build(shorter, p);
        vstd::seq_lib::to_multiset_insert(before, k, p);
        assert forall|i: int, j: int| 0 <= i < j < all.len() implies !precedes(
            #[trigger] all[j].name,
            #[trigger] all[i].name,
        ) by {
            let a = all[i].name;
            let b = all[j].name;
            if j < k {
                assert(all[i] == before[i] && all[j] == before[j]);
            } else if j == k {
                assert(all[i] == before[i] && all[j] == p);
            } else if i == k {
                assert(all[i] == p && all[j] == before[j - 1]);
                assert(precedes(p.name, before[k].name));
                lemma_one_way(p.name, before[k].name);
                if j - 1 > k {
                    assert(!precedes(before[j - 1].name, before[k].name));
                    lemma_transitive(p.name, before[k].name, before[j - 1].name);
                }
            } else {
                assert(all[j] == before[j - 1]);
                if i < k {
                    assert(all[i] == before[i]);
                } else {
                    assert(all[i] == before[i - 1]);
                }
            }
        }
    }
}

/// The order of names is that of a dictionary: the first character that differs
/// decides, and where none does, the shorter name comes first.
pub proof fn names_are_ordered_as_in_a_dictionary(common: Text, a: Text, b: Text)
    requires
        a.len() > 0 && b.len() > 0 ==> a[0] != b[0],
    ensures
        precedes(common + a, common + b) <==> b.len() > 0 && (a.len() == 0 || a[0] < b[0]),
    decreases common.len(),
{
    if common.len() == 0 {
        assert(common + a =~= a);
        assert(common + b =~= b);
    } else {
        let rest = common.drop_first();
        names_are_ordered_as_in_a_dictionary(rest, a, b);
        assert((common + a).drop_first() =~= rest + a);
        assert((common + b).drop_first() =~= rest + b);
    }
}

proof fn lemma_place(ps: Seq<Listed>, name: Text, i: int)
    requires
        0 <= i <= ps.len(),
    ensures
        i <= place_for(ps, name, i) <= ps.len(),
        forall|j: int| i <= j < place_for(ps, name, i) ==> !precedes(name, #[trigger] ps[j].name),
        place_for(ps, name, i) < ps.len() ==> precedes(name, ps[place_for(ps, name, i)].name),
    decreases ps.len() - i,
{
    if i < ps.len() && !precedes(name, ps[i].name) {
        lemma_place(ps, name, i + 1);
    }
}

proof fn lemma_one_way(a: Text, b: Text)
    requires
        precedes(a, b),
    ensures
        !precedes(b, a),
    decreases a.len(),
{
    if a.len() > 0 && a[0] == b[0] {
        lemma_one_way(a.drop_first(), b.drop_first());
    }
}

proof fn lemma_transitive(a: Text, b: Text, c: Text)
    requires
        !precedes(b, a),
        !precedes(c, b),
    ensures
        !precedes(c, a),
    decreases a.len(),
{
    if a.len() > 0 && b.len() > 0 && c.len() > 0 && a[0] == b[0] && b[0] == c[0] {
        lemma_transitive(a.drop_first(), b.drop_first(), c.drop_first());
    }
}

} // verus!
