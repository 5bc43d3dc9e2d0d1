//! Keeping rows in the order of a rank.
//!
//! A rank is a strict order (irreflexive and transitive) that need not tell
//! every two rows apart: rows that it does not order may stand either way round. A sequence is in rank order
//! where no row ranks before one that stands earlier.

use vstd::prelude::*;

verus! {

/// A type whose values have a rank.
pub trait Ranked: Sized {
    /// `self` belongs strictly before `other`.
    spec fn ranks_before(&self, other: &Self) -> bool;

    /// Nothing ranks before itself.
    proof fn lemma_rank_is_irreflexive(a: &Self)
        ensures
            !a.ranks_before(a),
    ;

    /// The rank is transitive.
    proof fn lemma_rank_is_transitive(a: &Self, b: &Self, c: &Self)
        requires
            a.ranks_before(b),
            b.ranks_before(c),
        ensures
            a.ranks_before(c),
    ;

    /// True where `self` belongs strictly before `other`.
    fn is_ranked_before(&self, other: &Self) -> (r: bool)
        ensures
            r == self.ranks_before(other),
    ;
}

/// No row ranks before one that stands earlier.
pub open spec fn in_rank_order<T: Ranked>(rows: Seq<T>) -> bool {
    forall|i: int, j: int|
        #![trigger rows[i], rows[j]]
        0 <= i < j < rows.len() ==> !rows[j].ranks_before(&rows[i])
}

/// Inserting a row adds it, once, to what the sequence holds.
pub proof fn lemma_insert_adds_one<T>(rows: Seq<T>, position: int, item: T)
    requires
        0 <= position <= rows.len(),
    ensures
        rows.insert(position, item).to_multiset() == rows.to_multiset().insert(item),
{
    broadcast use vstd::seq_lib::group_to_multiset_ensures;

    let longer = rows.insert(position, item);
    assert(longer.remove(position) =~= rows);
    assert(longer.to_multiset().remove(longer[position]) =~= rows.to_multiset());
    assert(longer.contains(item)) by {
        assert(longer[position] == item);
    }
    assert(longer.to_multiset() =~= rows.to_multiset().insert(item));
}

/// Puts `item` into `rows`, which are in rank order, before the first row that
/// it ranks before, and says where. The rows stay in rank order.
pub fn insert_in_rank<T: Ranked>(rows: &mut Vec<T>, item: T) -> (position: usize)
    requires
        in_rank_order(old(rows)@),
    ensures
        position <= old(rows)@.len(),
        final(rows)@ == old(rows)@.insert(position as int, item),
        in_rank_order(final(rows)@),
        final(rows)@.to_multiset() == old(rows)@.to_multiset().insert(item),
        forall|k: int|
            #![trigger old(rows)@[k]]
            0 <= k < position ==> !item.ranks_before(&old(rows)@[k]),
        position < old(rows)@.len() ==> item.ranks_before(&old(rows)@[position as int]),
{
    let ghost before = rows@;
    let mut position: usize = 0;
    while position < rows.len() && !item.is_ranked_before(&rows[position])
        invariant
            rows@ == before,
            in_rank_order(before),
            position <= rows@.len(),
            forall|k: int| #![trigger rows@[k]] 0 <= k < position ==> !item.ranks_before(&rows@[k]),
        decreases rows@.len() - position,
    {
        position = position + 1;
    }
    proof {
        let after = before.insert(position as int, item);
        before.insert_ensures(position as int, item);
        assert forall|i: int, j: int|
            #![trigger after[i], after[j]]
            0 <= i < j < after.len() implies !after[j].ranks_before(&after[i]) by {
            if j < position {
                assert(after[i] == before[i] && after[j] == before[j]);
            } else if j == position {
                assert(after[i] == before[i]);
            } else if i < position {
                assert(after[i] == before[i] && after[j] == before[j - 1]);
            } else if i == position {
                assert(after[j] == before[j - 1]);
                if after[j].ranks_before(&item) {
                    T::lemma_rank_is_transitive(&after[j], &item, &before[position as int]);
                    T::lemma_rank_is_irreflexive(&before[position as int]);
                    assert(before[j - 1].ranks_before(&before[position as int]));
                }
            } else {
                assert(after[i] == before[i - 1] && after[j] == before[j - 1]);
            }
        }
        lemma_insert_adds_one(before, position as int, item);
    }
    rows.insert(position, item);
    position
}

/// The rows of `items` in rank order.
pub fn sort_by_rank<T: Ranked>(items: Vec<T>) -> (r: Vec<T>)
    ensures
        in_rank_order(r@),
        r@.to_multiset() == items@.to_multiset(),
{
    broadcast use vstd::seq_lib::group_to_multiset_ensures;

    let ghost all = items@;
    let mut rest: Vec<T> = items;
    let mut r: Vec<T> = Vec::new();
    while rest.len() > 0
        invariant
            in_rank_order(r@),
            r@.to_multiset().add(rest@.to_multiset()) == all.to_multiset(),
        decreases rest@.len(),
    {
        let ghost rest_before = rest@;
        let ghost r_before = r@;
        let item: T = match rest.pop() {
            Some(item) => item,
            None => {
                assert(false);
                return r;
            },
        };
        proof {
            assert(rest_before =~= rest@.push(item));
            vstd::seq_lib::to_multiset_build(rest@, item);
        }
        let _: usize = insert_in_rank(&mut r, item);
        proof {
            assert(r@.to_multiset().add(rest@.to_multiset()) =~= r_before.to_multiset().add(
                rest_before.to_multiset(),
            ));
        }
    }
    proof {
        assert(rest@ =~= Seq::<T>::empty());
        assert(r@.to_multiset().add(rest@.to_multiset()) =~= r@.to_multiset());
    }
    r
}

} // verus!
