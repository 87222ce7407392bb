//! Walking a time index in the order of its times.

use crate::time_map::{has_time, inner_maps, is_time_counts, TimeCount};
use core::cmp::Ordering;
use std::collections::BTreeMap;
use vstd::prelude::*;
use vstd::std_specs::btree::increasing_seq;
use vstd::std_specs::cmp::OrdSpec;
use vstd::std_specs::iter::IteratorSpec;

verus! {

/// The times of the map in ascending order, each with the number of its
/// channels.
pub fn count_by_time(map: &BTreeMap<u64, BTreeMap<usize, (usize, usize)>>) -> (counts: Vec<TimeCount>)
    ensures
        is_time_counts(inner_maps(map@), counts@),
{
    broadcast use vstd::std_specs::btree::group_btree_axioms;
    broadcast use vstd::laws_cmp::group_laws_cmp;

    let mut counts: Vec<TimeCount> = Vec::new();
    for item in it: map.iter()
        invariant
            it.seq() == map.iter().remaining(),
            increasing_seq(
                it.seq().map_values(|item: (&u64, &BTreeMap<usize, (usize, usize)>)| *item.0),
            ),
            counts@.len() == it.index(),
            forall|i: int|
                0 <= i < counts@.len() ==> (#[trigger] counts@[i]).unix_time_ms == *it.seq()[i].0
                    && counts@[i].num_channels == (*it.seq()[i].1)@.len(),
    {
        counts.push(TimeCount { unix_time_ms: *item.0, num_channels: item.1.len() });
    }
    proof {
        let all = map.iter().remaining();
        let times = all.map_values(|item: (&u64, &BTreeMap<usize, (usize, usize)>)| *item.0);
        let maps = inner_maps(map@);
        assert forall|i: int, j: int| 0 <= i < j < counts@.len() implies (
        #[trigger] counts@[i]).unix_time_ms < (#[trigger] counts@[j]).unix_time_ms by {
            assert(times[i].cmp_spec(&times[j]) == Ordering::Less);
            assert(times[i] == counts@[i].unix_time_ms && times[j] == counts@[j].unix_time_ms);
        }
        assert forall|t: u64|
            #![trigger maps.contains_key(t)]
            #![trigger has_time(counts@, t)]
            maps.contains_key(t) <==> has_time(counts@, t) by {
            if has_time(counts@, t) {
                let i = choose|i: int| 0 <= i < counts@.len() && (#[trigger] counts@[i]).unix_time_ms == t;
                assert(map@.contains_key(*all[i].0));
            }
            if maps.contains_key(t) {
                assert(all.contains((&t, &map@[t])));
                let i = choose|i: int| 0 <= i < all.len() && all[i] == (&t, &map@[t]);
                assert(counts@[i].unix_time_ms == t);
            }
        }
        assert forall|i: int| 0 <= i < counts@.len() implies (#[trigger] counts@[i]).num_channels
            == maps[counts@[i].unix_time_ms].len() by {
            assert(map@.contains_key(*all[i].0) && map@[*all[i].0] == *all[i].1);
        }
    }
    counts
}

} // verus!
