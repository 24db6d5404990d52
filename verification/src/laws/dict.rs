use vstd::prelude::*;
use crate::grammar::{key_index, with_entry};
use crate::laws::soundness::lemma_key_index_from;
use crate::value::Term;

verus! {

/// Whether no key comes twice in `entries`.
pub open spec fn distinct_keys(entries: Seq<(Term, Term)>) -> bool {
    forall|i: int, j: int|
        0 <= i < j < entries.len() ==> (#[trigger] entries[i]).0 != (#[trigger] entries[j]).0
}

/// The mapping that the pairs `entries` write, a later pair replacing an
/// earlier one with the same key.
pub open spec fn mapping(entries: Seq<(Term, Term)>) -> Map<Term, Term>
    decreases entries.len(),
{
    if entries.len() == 0 {
        Map::empty()
    } else {
        mapping(entries.drop_last()).insert(entries.last().0, entries.last().1)
    }
}

/// The mapping of pairs with distinct keys holds just those keys, each with
/// the value of its pair.
pub proof fn lemma_mapping_contents(entries: Seq<(Term, Term)>)
    requires
        distinct_keys(entries),
    ensures
        forall|i: int|
            0 <= i < entries.len() ==> mapping(entries).dom().contains(
                (#[trigger] entries[i]).0,
            ) && mapping(entries)[entries[i].0] == entries[i].1,
        forall|key: Term| #[trigger]
            mapping(entries).dom().contains(key) ==> exists|i: int|
                0 <= i < entries.len() && (#[trigger] entries[i]).0 == key,
    decreases entries.len(),
{
    if entries.len() > 0 {
        let front = entries.drop_last();
        let last = entries.last();
        assert forall|i: int, j: int| 0 <= i < j < front.len() implies (#[trigger] front[i]).0 != (
        #[trigger] front[j]).0 by {
            assert(front[i] == entries[i]);
            assert(front[j] == entries[j]);
        }
        lemma_mapping_contents(front);
        assert forall|i: int| 0 <= i < entries.len() implies mapping(entries).dom().contains(
            (#[trigger] entries[i]).0,
        ) && mapping(entries)[entries[i].0] == entries[i].1 by {
            if i < front.len() {
                assert(front[i] == entries[i]);
                assert(entries[i].0 != entries[entries.len() - 1].0);
            }
        }
        assert forall|key: Term| #[trigger]
            mapping(entries).dom().contains(key) implies exists|i: int|
            0 <= i < entries.len() && (#[trigger] entries[i]).0 == key by {
            if key == last.0 {
                assert(entries[entries.len() - 1].0 == key);
            } else {
                assert(mapping(front).dom().contains(key));
                let i = choose|i: int| 0 <= i < front.len() && (#[trigger] front[i]).0 == key;
                assert(entries[i].0 == key);
            }
        }
    }
}

/// Last write wins.  Giving a key a value in a dictionary gives the mapping
/// of the dictionary with that key set to that value, whether the key was
/// there or not, and the keys stay distinct.
pub proof fn lemma_with_entry_mapping(entries: Seq<(Term, Term)>, key: Term, value: Term)
    requires
        distinct_keys(entries),
    ensures
        distinct_keys(with_entry(entries, key, value)),
        mapping(with_entry(entries, key, value)) == mapping(entries).insert(key, value),
{
    let after = with_entry(entries, key, value);
    let index = key_index(entries, key);
    lemma_key_index_from(entries, key, 0);
    assert forall|i: int, j: int| 0 <= i < j < after.len() implies (#[trigger] after[i]).0 != (
    #[trigger] after[j]).0 by {
        if index < entries.len() {
            assert(after[i].0 == entries[i].0);
            assert(after[j].0 == entries[j].0);
        } else if j < entries.len() {
            assert(after[i] == entries[i]);
            assert(after[j] == entries[j]);
        } else {
            assert(after[i] == entries[i]);
        }
    }
    if index < entries.len() {
        lemma_mapping_contents(entries);
        lemma_mapping_contents(after);
        let want = mapping(entries).insert(key, value);
        assert forall|k: Term| mapping(after).dom().contains(k) <==> want.dom().contains(k) by {
            if mapping(after).dom().contains(k) {
                let i = choose|i: int| 0 <= i < after.len() && (#[trigger] after[i]).0 == k;
                assert(entries[i].0 == k);
            }
            if want.dom().contains(k) && k != key {
                let i = choose|i: int| 0 <= i < entries.len() && (#[trigger] entries[i]).0 == k;
                assert(after[i].0 == k);
            }
            if k == key {
                assert(after[index].0 == key);
            }
        }
        assert forall|k: Term| mapping(after).dom().contains(k) implies mapping(after)[k]
            == want[k] by {
            let i = choose|i: int| 0 <= i < after.len() && (#[trigger] after[i]).0 == k;
            assert(mapping(after)[after[i].0] == after[i].1);
            if i != index {
                assert(after[i] == entries[i]);
                assert(mapping(entries)[entries[i].0] == entries[i].1);
            }
        }
        assert(mapping(after) =~= want);
    } else {
        assert(after.drop_last() =~= entries);
    }
}

} // verus!
