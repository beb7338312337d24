//! Lists without their repetitions.

use vstd::prelude::*;

verus! {

/// A set of pairs of numbers, kept in a `hashbrown::HashSet`. What it
/// holds is known through `pairs_in` alone.
#[verifier::external_body]
pub struct PairSet {
    set: hashbrown::HashSet<(i32, i32)>,
}

/// The pairs that a set holds.
pub uninterp spec fn pairs_in(set: PairSet) -> Set<(i32, i32)>;

/// Calls `hashbrown::HashSet::new`: the new set holds nothing.
#[verifier::external_body]
fn empty_set() -> (made: PairSet)
    ensures
        pairs_in(made) =~= Set::empty(),
{
    PairSet { set: hashbrown::HashSet::new() }
}

/// Calls `hashbrown::HashSet::insert`: afterwards the set holds the pair,
/// and the answer says whether it is new to the set.
#[verifier::external_body]
fn insert_pair(set: &mut PairSet, pair: (i32, i32)) -> (is_new: bool)
    ensures
        is_new == !pairs_in(*old(set)).contains(pair),
        pairs_in(*final(set)) == pairs_in(*old(set)).insert(pair),
{
    set.set.insert(pair)
}

/// The items in their order, each where it first occurs and nowhere
/// else.
pub open spec fn first_occurrences(items: Seq<(i32, i32)>) -> Seq<(i32, i32)>
    decreases items.len(),
{
    if items.len() == 0 {
        items
    } else if items.drop_last().contains(items.last()) {
        first_occurrences(items.drop_last())
    } else {
        first_occurrences(items.drop_last()).push(items.last())
    }
}

/// Leaves out of a list every item that occurred in it before.
pub fn without_duplicates(items: &[(i32, i32)]) -> (kept: Vec<(i32, i32)>)
    ensures
        kept@ == first_occurrences(items@),
{
    let mut set = empty_set();
    let mut kept: Vec<(i32, i32)> = Vec::new();
    let mut i: usize = 0;
    while i < items.len()
        invariant
            i <= items@.len(),
            kept@ == first_occurrences(items@.take(i as int)),
            forall|pair: (i32, i32)|
                pairs_in(set).contains(pair) <==> items@.take(i as int).contains(pair),
        decreases items@.len() - i,
    {
        let item = items[i];
        proof {
            let next = items@.take(i + 1);
            assert(next.drop_last() =~= items@.take(i as int));
            assert(next.last() == item);
            assert forall|pair: (i32, i32)|
                pairs_in(set).insert(item).contains(pair) <==> next.contains(pair) by {
                if next.contains(pair) {
                    let k = choose|k: int| 0 <= k < next.len() && next[k] == pair;
                    if k < i {
                        assert(items@.take(i as int)[k] == pair);
                    }
                }
                if items@.take(i as int).contains(pair) {
                    let k = choose|k: int| 0 <= k < i && items@.take(i as int)[k] == pair;
                    assert(next[k] == pair);
                }
                if pair == item {
                    assert(next[i as int] == pair);
                }
            }
        }
        if insert_pair(&mut set, item) {
            kept.push(item);
        }
        i = i + 1;
    }
    proof {
        assert(items@.take(items@.len() as int) =~= items@);
    }
    kept
}

} // verus!
