//! Maps from names to values kept as lists of pairs, in the order the pairs
//! were inserted; a later pair for a name replaces an earlier one.
use vstd::prelude::*;
use crate::text::str_eq;

verus! {

/// The map that inserting `entries` in order builds.
pub open spec fn assoc_map<V>(entries: Seq<(String, V)>) -> Map<Seq<char>, V>
    decreases entries.len(),
{
    if entries.len() == 0 {
        Map::empty()
    } else {
        assoc_map(entries.drop_last()).insert(entries.last().0@, entries.last().1)
    }
}

proof fn lemma_assoc_suffix<V>(entries: Seq<(String, V)>, key: Seq<char>, j: int)
    requires
        0 <= j <= entries.len(),
        forall|k: int| j <= k < entries.len() ==> #[trigger] entries[k].0@ != key,
    ensures
        assoc_map(entries).contains_key(key) == assoc_map(entries.take(j)).contains_key(key),
        assoc_map(entries)[key] == assoc_map(entries.take(j))[key],
    decreases entries.len(),
{
    if entries.len() > j {
        assert(entries.drop_last().take(j) =~= entries.take(j));
        lemma_assoc_suffix(entries.drop_last(), key, j);
    } else {
        assert(entries.take(j) =~= entries);
    }
}

/// The value the map holds for `key`.
pub fn assoc_get<'a, V>(entries: &'a [(String, V)], key: &str) -> (res: Option<&'a V>)
    ensures
        match res {
            Some(v) => assoc_map(entries@).contains_key(key@) && assoc_map(entries@)[key@] == *v,
            None => !assoc_map(entries@).contains_key(key@),
        },
{
    let mut j = entries.len();
    while j > 0
        invariant
            j <= entries@.len(),
            forall|k: int| j <= k < entries@.len() ==> #[trigger] entries@[k].0@ != key@,
        decreases j,
    {
        if str_eq(entries[j - 1].0.as_str(), key) {
            proof {
                lemma_assoc_suffix(entries@, key@, j as int);
                assert(entries@.take(j as int).drop_last() =~= entries@.take(j - 1));
            }
            return Some(&entries[j - 1].1);
        }
        j = j - 1;
    }
    proof {
        lemma_assoc_suffix(entries@, key@, 0);
        assert(entries@.take(0) =~= Seq::<(String, V)>::empty());
    }
    None
}

} // verus!
