//! The time index: for each time at which some data file holds a record,
//! and for each channel, where that record is.

use crate::error::ErrorKind;
use crate::gpubox::{batch_channels, batches_wf, file_at, GPUBoxBatch, GPUBoxFile};
use crate::ordered::count_by_time;
use crate::sorted::strictly_ascending;
use std::collections::BTreeMap;
use vstd::prelude::*;
use vstd::set_lib::lemma_map_size;

verus! {

/// What is known of one data record of a file before it is read in full.
#[derive(Debug, Clone, Copy, PartialEq, Eq, Structural)]
pub struct HduInfo {
    /// Start of the record in UNIX time, in milliseconds.
    pub unix_time_ms: u64,
    /// Length of the record's fastest-varying axis.
    pub naxis1: usize,
    /// Length of the record's slowest-varying axis.
    pub naxis2: usize,
}

/// What a time index says: for each time the channels that have a record
/// of that time, by channel identifier, with the place of the record; and
/// the channel identifiers of the observation in ascending order, by which
/// a channel is known by its place in a batch.
///
/// The place of a record is the batch, and the record within the file,
/// counted from 1 (record 0 is the file's primary record, which holds no
/// data).
pub struct TimeIndexView {
    pub map: Map<u64, Map<usize, (usize, usize)>>,
    pub channels: Seq<usize>,
}

/// The maps that the inner maps of a time index stand for.
pub open spec fn inner_maps(map: Map<u64, BTreeMap<usize, (usize, usize)>>) -> Map<
    u64,
    Map<usize, (usize, usize)>,
> {
    Map::new(|t: u64| map.contains_key(t), |t: u64| map[t]@)
}

/// What a map of times and a list of channels say together.
pub open spec fn view_of(
    map: BTreeMap<u64, BTreeMap<usize, (usize, usize)>>,
    channels: Seq<usize>,
) -> TimeIndexView {
    TimeIndexView { map: inner_maps(map@), channels }
}

/// Where the record of time `t` and of the channel at place `c` is, if
/// the index knows one.
pub open spec fn lookup(index: TimeIndexView, t: u64, c: int) -> Option<(usize, usize)> {
    if index.map.contains_key(t) && index.map[t].contains_key(index.channels[c]) {
        Some(index.map[t][index.channels[c]])
    } else {
        None
    }
}

/// The times and channels for which the index knows a record.
pub open spec fn entries(index: TimeIndexView) -> Set<(u64, int)> {
    Set::new(
        |key: (u64, int)| 0 <= key.1 < index.channels.len() && lookup(index, key.0, key.1) is Some,
    )
}

/// Records that the index knows.
pub open spec fn index_len(index: TimeIndexView) -> nat {
    entries(index).len()
}

/// Whether a time holds a record of some channel.
pub open spec fn occupied(channels: Map<usize, (usize, usize)>) -> bool {
    exists|channel: usize| channels.contains_key(channel)
}

/// Whether the channels are in ascending order, every time of the index
/// holds a record, and every record is of one of the channels.
pub open spec fn index_wf(index: TimeIndexView) -> bool {
    &&& strictly_ascending(index.channels)
    &&& entries(index).finite()
    &&& forall|t: u64| #[trigger] index.map.contains_key(t) ==> occupied(index.map[t])
    &&& forall|t: u64, channel: usize|
        index.map.contains_key(t) && #[trigger] index.map[t].contains_key(channel)
            ==> index.channels.contains(channel)
}

/// Enters a record into the index, unless it holds a record of that time
/// and channel already.
pub fn insert_location(
    map: BTreeMap<u64, BTreeMap<usize, (usize, usize)>>,
    channels: &Vec<usize>,
    t: u64,
    c: usize,
    location: (usize, usize),
) -> (out: BTreeMap<u64, BTreeMap<usize, (usize, usize)>>)
    requires
        index_wf(view_of(map, channels@)),
        c < channels@.len(),
    ensures
        index_wf(view_of(out, channels@)),
        lookup(view_of(out, channels@), t, c as int) == (if lookup(
            view_of(map, channels@),
            t,
            c as int,
        ) is Some {
            lookup(view_of(map, channels@), t, c as int)
        } else {
            Some(location)
        }),
        forall|t1: u64, c1: int|
            0 <= c1 < channels@.len() && !(t1 == t && c1 == c) ==> #[trigger] lookup(
                view_of(out, channels@),
                t1,
                c1,
            ) == lookup(view_of(map, channels@), t1, c1),
        index_len(view_of(out, channels@)) == index_len(view_of(map, channels@)) + (if lookup(
            view_of(map, channels@),
            t,
            c as int,
        ) is Some {
            0nat
        } else {
            1nat
        }),
{
    broadcast use vstd::std_specs::btree::group_btree_axioms;

    let ghost before = view_of(map, channels@);
    let channel: usize = channels[c];
    let mut out = map;
    let mut inner: BTreeMap<usize, (usize, usize)> = match out.remove(&t) {
        Some(inner) => inner,
        None => BTreeMap::new(),
    };
    if !inner.contains_key(&channel) {
        inner.insert(channel, location);
    }
    let ghost filled = inner@;
    out.insert(t, inner);
    proof {
        let after = view_of(out, channels@);
        assert(after.map.contains_key(t) && after.map[t] == filled);
        assert(forall|t1: u64|
            t1 != t ==> after.map.contains_key(t1) == before.map.contains_key(t1) && (
            before.map.contains_key(t1) ==> after.map[t1] == before.map[t1]));
        assert forall|t1: u64, c1: int|
            0 <= c1 < channels@.len() && !(t1 == t && c1 == c) implies #[trigger] lookup(
            after,
            t1,
            c1,
        ) == lookup(before, t1, c1) by {
            if t1 == t {
                if c1 < c {
                    assert(channels@[c1] < channels@[c as int]);
                } else {
                    assert(channels@[c as int] < channels@[c1]);
                }
            }
        }
        assert(occupied(after.map[t])) by {
            assert(after.map[t].contains_key(channel));
        }
        assert forall|t1: u64| #[trigger] after.map.contains_key(t1) implies occupied(
            after.map[t1],
        ) by {
            if t1 != t {
                assert(before.map.contains_key(t1));
            }
        }
        assert forall|t1: u64, channel1: usize|
            after.map.contains_key(t1) && #[trigger] after.map[t1].contains_key(
                channel1,
            ) implies channels@.contains(channel1) by {
            if t1 != t {
                assert(before.map.contains_key(t1) && before.map[t1].contains_key(channel1));
            } else if channel1 == channel {
                assert(channels@[c as int] == channel);
            } else {
                assert(before.map.contains_key(t) && before.map[t].contains_key(channel1));
            }
        }
        if lookup(before, t, c as int) is Some {
            assert(entries(after) =~= entries(before));
        } else {
            assert(entries(after) =~= entries(before).insert((t, c as int)));
        }
    }
    out
}

/// The time index of an observation.
#[derive(Debug, Clone)]
pub struct GpuboxTimeMap {
    /// The channel identifiers of the observation's files, ascending. The
    /// place of a channel in this list is its place in each batch.
    pub channels: Vec<usize>,
    /// For each time at which some file holds a record, and for each channel
    /// that has a record of that time, by channel identifier: the batch that
    /// holds the record, and the record within the file, counted from 1.
    pub map: BTreeMap<u64, BTreeMap<usize, (usize, usize)>>,
}

impl View for GpuboxTimeMap {
    type V = TimeIndexView;

    open spec fn view(&self) -> TimeIndexView {
        view_of(self.map, self.channels@)
    }
}

impl GpuboxTimeMap {
    /// The channels are in ascending order, no time is without a record,
    /// and every record is of one of the channels.
    pub open spec fn wf(&self) -> bool {
        index_wf(self@)
    }

    /// Where the record of the time `t` and of the channel at place `c`
    /// is: the batch, and the record within the file. `None` where no file
    /// holds such a record.
    pub fn get(&self, t: u64, c: usize) -> (location: Option<(usize, usize)>)
        requires
            c < self.channels@.len(),
        ensures
            location == lookup(self@, t, c as int),
    {
        broadcast use vstd::std_specs::btree::group_btree_axioms;

        let channel: usize = self.channels[c];
        match self.map.get(&t) {
            Some(inner) => match inner.get(&channel) {
                Some(location) => Some(*location),
                None => None,
            },
            None => None,
        }
    }
}

/// The data records of the file at place `c` of batch `b`, in the order
/// of the file.
pub open spec fn hdus_of(batches: Seq<GPUBoxBatch>, hdus: Seq<Vec<HduInfo>>, b: int, c: int) -> Seq<
    HduInfo,
> {
    hdus[file_at(batches, b, c).file_index as int]@
}

/// Whether the file at place `c` of batch `b` holds a data record `h`.
/// Data records are counted from 1.
pub open spec fn is_record(
    batches: Seq<GPUBoxBatch>,
    hdus: Seq<Vec<HduInfo>>,
    b: int,
    c: int,
    h: int,
) -> bool {
    &&& 0 <= b < batches.len()
    &&& 0 <= c < batches[0].gpubox_files@.len()
    &&& 1 <= h <= hdus_of(batches, hdus, b, c).len()
}

/// Data record `h` of the file at place `c` of batch `b`.
pub open spec fn record_at(
    batches: Seq<GPUBoxBatch>,
    hdus: Seq<Vec<HduInfo>>,
    b: int,
    c: int,
    h: int,
) -> HduInfo {
    hdus_of(batches, hdus, b, c)[h - 1]
}

/// Whether one record is looked at before another: batch by batch, within
/// a batch file by file, within a file record by record.
pub open spec fn comes_before(b1: int, c1: int, h1: int, b2: int, c2: int, h2: int) -> bool {
    b1 < b2 || (b1 == b2 && (c1 < c2 || (c1 == c2 && h1 < h2)))
}

/// Scalars that a record holds.
pub open spec fn hdu_size(info: HduInfo) -> int {
    info.naxis1 * info.naxis2
}

/// Whether record `h` of batch `b` is the first record of the channel at
/// place `c` that has the time `t`.
pub open spec fn is_first_record_at(
    batches: Seq<GPUBoxBatch>,
    hdus: Seq<Vec<HduInfo>>,
    t: u64,
    c: int,
    b: int,
    h: int,
) -> bool {
    &&& is_record(batches, hdus, b, c, h)
    &&& record_at(batches, hdus, b, c, h).unix_time_ms == t
    &&& forall|b2: int, h2: int|
        is_record(batches, hdus, b2, c, h2) && comes_before(b2, c, h2, b, c, h) ==> (#[trigger] record_at(
            batches,
            hdus,
            b2,
            c,
            h2,
        )).unix_time_ms != t
}

/// Whether each location that the index holds is that of the first
/// record of its time and channel, among the records that are looked at
/// before (`b`, `c`, `h`).
pub open spec fn faithful_upto(
    index: TimeIndexView,
    batches: Seq<GPUBoxBatch>,
    hdus: Seq<Vec<HduInfo>>,
    b: int,
    c: int,
    h: int,
) -> bool {
    forall|t: u64, c1: int|
        0 <= c1 < batches[0].gpubox_files@.len() && (#[trigger] lookup(index, t, c1)) is Some ==> {
            let location = lookup(index, t, c1).unwrap();
            &&& is_first_record_at(batches, hdus, t, c1, location.0 as int, location.1 as int)
            &&& comes_before(location.0 as int, c1, location.1 as int, b, c, h)
        }
}

/// Whether the index knows a record for the time and channel of each
/// record that is looked at before (`b`, `c`, `h`).
pub open spec fn complete_upto(
    index: TimeIndexView,
    batches: Seq<GPUBoxBatch>,
    hdus: Seq<Vec<HduInfo>>,
    b: int,
    c: int,
    h: int,
) -> bool {
    forall|b1: int, c1: int, h1: int|
        is_record(batches, hdus, b1, c1, h1) && comes_before(b1, c1, h1, b, c, h) ==> lookup(
            index,
            (#[trigger] record_at(batches, hdus, b1, c1, h1)).unix_time_ms,
            c1,
        ) is Some
}

/// Whether every record that is looked at before (`b`, `c`, `h`) holds
/// `size` scalars.
pub open spec fn sizes_upto(
    batches: Seq<GPUBoxBatch>,
    hdus: Seq<Vec<HduInfo>>,
    size: int,
    b: int,
    c: int,
    h: int,
) -> bool {
    forall|b1: int, c1: int, h1: int|
        is_record(batches, hdus, b1, c1, h1) && comes_before(b1, c1, h1, b, c, h) ==> hdu_size(
            #[trigger] record_at(batches, hdus, b1, c1, h1),
        ) == size
}

/// Whether some record is looked at before (`b`, `c`, `h`).
pub open spec fn any_upto(
    batches: Seq<GPUBoxBatch>,
    hdus: Seq<Vec<HduInfo>>,
    b: int,
    c: int,
    h: int,
) -> bool {
    exists|b1: int, c1: int, h1: int|
        is_record(batches, hdus, b1, c1, h1) && #[trigger] comes_before(b1, c1, h1, b, c, h)
}

/// Whether each file of the batches has its list of records.
pub open spec fn files_listed(batches: Seq<GPUBoxBatch>, num_files: int) -> bool {
    forall|b: int, c: int|
        0 <= b < batches.len() && 0 <= c < batches[b].gpubox_files@.len() ==> (#[trigger] file_at(
            batches,
            b,
            c,
        )).file_index < num_files
}

/// What the walk over the records has found so far.
pub open spec fn walk_state(
    index: TimeIndexView,
    expected: Option<usize>,
    batches: Seq<GPUBoxBatch>,
    hdus: Seq<Vec<HduInfo>>,
    b: int,
    c: int,
    h: int,
) -> bool {
    &&& index_wf(index)
    &&& index.channels == batch_channels(batches)
    &&& faithful_upto(index, batches, hdus, b, c, h)
    &&& complete_upto(index, batches, hdus, b, c, h)
    &&& expected is Some <==> any_upto(batches, hdus, b, c, h)
    &&& expected matches Some(size) ==> sizes_upto(batches, hdus, size as int, b, c, h)
    &&& index_len(index) <= records_before(batches, hdus, b, c, h)
    &&& distinct_times(batches, hdus) ==> index_len(index) == records_before(
        batches,
        hdus,
        b,
        c,
        h,
    )
}

/// Records of the first `upto` files of batch `b`.
pub open spec fn records_in_batch(
    batches: Seq<GPUBoxBatch>,
    hdus: Seq<Vec<HduInfo>>,
    b: int,
    upto: int,
) -> nat
    decreases upto,
{
    if upto <= 0 {
        0
    } else {
        records_in_batch(batches, hdus, b, upto - 1) + hdus_of(batches, hdus, b, upto - 1).len()
    }
}

/// Records of the files of the first `upto` batches.
pub open spec fn records_in_batches(batches: Seq<GPUBoxBatch>, hdus: Seq<Vec<HduInfo>>, upto: int) -> nat
    decreases upto,
{
    if upto <= 0 {
        0
    } else {
        records_in_batches(batches, hdus, upto - 1) + records_in_batch(
            batches,
            hdus,
            upto - 1,
            batches[0].gpubox_files@.len() as int,
        )
    }
}

/// Records that are looked at before (`b`, `c`, `h`).
pub open spec fn records_before(
    batches: Seq<GPUBoxBatch>,
    hdus: Seq<Vec<HduInfo>>,
    b: int,
    c: int,
    h: int,
) -> int {
    records_in_batches(batches, hdus, b) + records_in_batch(batches, hdus, b, c) + (h - 1)
}

/// Whether no two records of one channel have the same time.
pub open spec fn distinct_times(batches: Seq<GPUBoxBatch>, hdus: Seq<Vec<HduInfo>>) -> bool {
    forall|b1: int, h1: int, b2: int, h2: int, c: int|
        is_record(batches, hdus, b1, c, h1) && is_record(batches, hdus, b2, c, h2) && (b1 != b2
            || h1 != h2) ==> (#[trigger] record_at(batches, hdus, b1, c, h1)).unix_time_ms != (
        #[trigger] record_at(batches, hdus, b2, c, h2)).unix_time_ms
}

/// The walk stands the same before the first record of a file and after
/// the last record of the file before it.
proof fn lemma_walk_next_file(
    index: TimeIndexView,
    expected: Option<usize>,
    batches: Seq<GPUBoxBatch>,
    hdus: Seq<Vec<HduInfo>>,
    b: int,
    c: int,
)
    requires
        0 <= b < batches.len(),
        0 <= c < batches[0].gpubox_files@.len(),
        walk_state(
            index,
            expected,
            batches,
            hdus,
            b,
            c,
            hdus_of(batches, hdus, b, c).len() as int + 1,
        ),
    ensures
        walk_state(index, expected, batches, hdus, b, c + 1, 1),
{
    let h = hdus_of(batches, hdus, b, c).len() as int + 1;
    assert forall|b1: int, c1: int, h1: int| is_record(batches, hdus, b1, c1, h1) implies (
    #[trigger] comes_before(b1, c1, h1, b, c + 1, 1) <==> comes_before(b1, c1, h1, b, c, h)) by {}
    assert(any_upto(batches, hdus, b, c, h) <==> any_upto(batches, hdus, b, c + 1, 1)) by {
        if any_upto(batches, hdus, b, c, h) {
            let (b1, c1, h1) = choose|b1: int, c1: int, h1: int|
                is_record(batches, hdus, b1, c1, h1) && #[trigger] comes_before(b1, c1, h1, b, c, h);
            assert(comes_before(b1, c1, h1, b, c + 1, 1));
        }
        if any_upto(batches, hdus, b, c + 1, 1) {
            let (b1, c1, h1) = choose|b1: int, c1: int, h1: int|
                is_record(batches, hdus, b1, c1, h1) && #[trigger] comes_before(
                    b1,
                    c1,
                    h1,
                    b,
                    c + 1,
                    1,
                );
            assert(comes_before(b1, c1, h1, b, c, h));
        }
    }
    assert forall|t: u64, c1: int|
        0 <= c1 < batches[0].gpubox_files@.len() && (#[trigger] lookup(index, t, c1)) is Some implies {
        let location = lookup(index, t, c1).unwrap();
        &&& is_first_record_at(batches, hdus, t, c1, location.0 as int, location.1 as int)
        &&& comes_before(location.0 as int, c1, location.1 as int, b, c + 1, 1)
    } by {
        let location = lookup(index, t, c1).unwrap();
        assert(comes_before(location.0 as int, c1, location.1 as int, b, c, h));
    }
}

/// The walk stands the same before the first file of a batch and after
/// the last file of the batch before it.
proof fn lemma_walk_next_batch(
    index: TimeIndexView,
    expected: Option<usize>,
    batches: Seq<GPUBoxBatch>,
    hdus: Seq<Vec<HduInfo>>,
    b: int,
)
    requires
        0 <= b < batches.len(),
        walk_state(index, expected, batches, hdus, b, batches[0].gpubox_files@.len() as int, 1),
    ensures
        walk_state(index, expected, batches, hdus, b + 1, 0, 1),
{
    let c = batches[0].gpubox_files@.len() as int;
    assert forall|b1: int, c1: int, h1: int| is_record(batches, hdus, b1, c1, h1) implies (
    #[trigger] comes_before(b1, c1, h1, b + 1, 0, 1) <==> comes_before(b1, c1, h1, b, c, 1)) by {}
    assert(any_upto(batches, hdus, b, c, 1) <==> any_upto(batches, hdus, b + 1, 0, 1)) by {
        if any_upto(batches, hdus, b, c, 1) {
            let (b1, c1, h1) = choose|b1: int, c1: int, h1: int|
                is_record(batches, hdus, b1, c1, h1) && #[trigger] comes_before(b1, c1, h1, b, c, 1);
            assert(comes_before(b1, c1, h1, b + 1, 0, 1));
        }
        if any_upto(batches, hdus, b + 1, 0, 1) {
            let (b1, c1, h1) = choose|b1: int, c1: int, h1: int|
                is_record(batches, hdus, b1, c1, h1) && #[trigger] comes_before(
                    b1,
                    c1,
                    h1,
                    b + 1,
                    0,
                    1,
                );
            assert(comes_before(b1, c1, h1, b, c, 1));
        }
    }
    assert forall|t: u64, c1: int|
        0 <= c1 < batches[0].gpubox_files@.len() && (#[trigger] lookup(index, t, c1)) is Some implies {
        let location = lookup(index, t, c1).unwrap();
        &&& is_first_record_at(batches, hdus, t, c1, location.0 as int, location.1 as int)
        &&& comes_before(location.0 as int, c1, location.1 as int, b + 1, 0, 1)
    } by {
        let location = lookup(index, t, c1).unwrap();
        assert(comes_before(location.0 as int, c1, location.1 as int, b, c, 1));
    }
}

/// Entering record (`b`, `c`, `h`) takes the walk one record on.
proof fn lemma_walk_step(
    before: TimeIndexView,
    after: TimeIndexView,
    expected: Option<usize>,
    batches: Seq<GPUBoxBatch>,
    hdus: Seq<Vec<HduInfo>>,
    b: int,
    c: int,
    h: int,
)
    requires
        is_record(batches, hdus, b, c, h),
        b <= usize::MAX && h <= usize::MAX,
        walk_state(before, expected, batches, hdus, b, c, h),
        expected matches Some(size) ==> hdu_size(record_at(batches, hdus, b, c, h)) == size,
        index_wf(after),
        after.channels == batch_channels(batches),
        index_len(after) == index_len(before) + (if lookup(
            before,
            record_at(batches, hdus, b, c, h).unix_time_ms,
            c,
        ) is Some {
            0nat
        } else {
            1nat
        }),
        ({
            let t = record_at(batches, hdus, b, c, h).unix_time_ms;
            &&& lookup(after, t, c) == (if lookup(before, t, c) is Some {
                lookup(before, t, c)
            } else {
                Some((b as usize, h as usize))
            })
            &&& forall|t1: u64, c1: int|
                0 <= c1 < batches[0].gpubox_files@.len() && !(t1 == t && c1 == c)
                    ==> #[trigger] lookup(after, t1, c1) == lookup(before, t1, c1)
        }),
    ensures
        walk_state(
            after,
            Some(hdu_size(record_at(batches, hdus, b, c, h)) as usize),
            batches,
            hdus,
            b,
            c,
            h + 1,
        ) || hdu_size(record_at(batches, hdus, b, c, h)) > usize::MAX,
{
    let t = record_at(batches, hdus, b, c, h).unix_time_ms;
    let size = hdu_size(record_at(batches, hdus, b, c, h));
    if distinct_times(batches, hdus) && lookup(before, t, c) is Some {
        let location = lookup(before, t, c).unwrap();
        assert(is_first_record_at(batches, hdus, t, c, location.0 as int, location.1 as int));
        assert(comes_before(location.0 as int, c, location.1 as int, b, c, h));
        assert(record_at(batches, hdus, location.0 as int, c, location.1 as int).unix_time_ms
            == record_at(batches, hdus, b, c, h).unix_time_ms);
        assert(false);
    }
    assert forall|b1: int, c1: int, h1: int| is_record(batches, hdus, b1, c1, h1) implies (
    #[trigger] comes_before(b1, c1, h1, b, c, h + 1) <==> comes_before(b1, c1, h1, b, c, h) || (b1
        == b && c1 == c && h1 == h)) by {}
    assert(any_upto(batches, hdus, b, c, h + 1)) by {
        assert(comes_before(b, c, h, b, c, h + 1));
    }
    if size <= usize::MAX {
        assert(sizes_upto(batches, hdus, size, b, c, h + 1)) by {
            assert forall|b1: int, c1: int, h1: int|
                is_record(batches, hdus, b1, c1, h1) && comes_before(b1, c1, h1, b, c, h + 1) implies hdu_size(
                #[trigger] record_at(batches, hdus, b1, c1, h1),
            ) == size by {
                if !(b1 == b && c1 == c && h1 == h) {
                    assert(comes_before(b1, c1, h1, b, c, h));
                    assert(any_upto(batches, hdus, b, c, h));
                }
            }
        }
    }
    assert(complete_upto(after, batches, hdus, b, c, h + 1)) by {
        assert forall|b1: int, c1: int, h1: int|
            is_record(batches, hdus, b1, c1, h1) && comes_before(b1, c1, h1, b, c, h + 1) implies lookup(
            after,
            (#[trigger] record_at(batches, hdus, b1, c1, h1)).unix_time_ms,
            c1,
        ) is Some by {
            let t1 = record_at(batches, hdus, b1, c1, h1).unix_time_ms;
            if !(b1 == b && c1 == c && h1 == h) {
                assert(comes_before(b1, c1, h1, b, c, h));
                assert(lookup(before, t1, c1) is Some);
                if !(t1 == t && c1 == c) {
                    assert(lookup(after, t1, c1) == lookup(before, t1, c1));
                }
            }
        }
    }
    assert(faithful_upto(after, batches, hdus, b, c, h + 1)) by {
        assert forall|t1: u64, c1: int|
            0 <= c1 < batches[0].gpubox_files@.len() && (#[trigger] lookup(after, t1, c1)) is Some implies {
            let location = lookup(after, t1, c1).unwrap();
            &&& is_first_record_at(batches, hdus, t1, c1, location.0 as int, location.1 as int)
            &&& comes_before(location.0 as int, c1, location.1 as int, b, c, h + 1)
        } by {
            if t1 == t && c1 == c && lookup(before, t, c) is None {
                assert forall|b2: int, h2: int|
                    is_record(batches, hdus, b2, c, h2) && comes_before(b2, c, h2, b, c, h) implies (
                #[trigger] record_at(batches, hdus, b2, c, h2)).unix_time_ms != t by {
                    assert(lookup(before, record_at(batches, hdus, b2, c, h2).unix_time_ms, c) is Some);
                }
                assert(comes_before(b, c, h, b, c, h + 1));
            } else {
                assert(lookup(after, t1, c1) == lookup(before, t1, c1));
                let location = lookup(before, t1, c1).unwrap();
                assert(comes_before(location.0 as int, c1, location.1 as int, b, c, h));
            }
        }
    }
}

/// Whether record (`b`, `c`, `h`) is the first that stops the walk, and
/// `e` says why: its size does not fit the machine, or it differs from
/// the size of the records before it.
pub open spec fn stops_walk(
    batches: Seq<GPUBoxBatch>,
    hdus: Seq<Vec<HduInfo>>,
    e: ErrorKind,
    b: int,
    c: int,
    h: int,
) -> bool {
    let size = hdu_size(record_at(batches, hdus, b, c, h));
    let file_index = file_at(batches, b, c).file_index;
    &&& is_record(batches, hdus, b, c, h)
    &&& if size > usize::MAX {
        &&& e == ErrorKind::HduSizeOverflow { file_index }
        &&& exists|expected: int| sizes_upto(batches, hdus, expected, b, c, h)
    } else {
        exists|expected: usize|
            {
                &&& e == (ErrorKind::UnequalHduSizes { file_index, expected, actual: size as usize })
                &&& expected != size
                &&& any_upto(batches, hdus, b, c, h)
                &&& #[trigger] sizes_upto(batches, hdus, expected as int, b, c, h)
            }
    }
}

/// Builds the time index from the records of every file, and finds the
/// size that all records share.
///
/// The files are walked batch by batch, within a batch in the order of
/// its files, and each file record by record. Where two records of one
/// channel have the same time, the index keeps the first. The size of
/// the first record is the size that every other record must have; it is
/// 0 where there is no record at all.
pub fn create_time_map(batches: &Vec<GPUBoxBatch>, hdus: &Vec<Vec<HduInfo>>) -> (result: Result<
    (GpuboxTimeMap, usize),
    ErrorKind,
>)
    requires
        batches_wf(batches@),
        files_listed(batches@, hdus@.len() as int),
    ensures
        match result {
            Ok((time_map, size)) => {
                let end = batches@.len() as int;
                &&& time_map.wf()
                &&& time_map.channels@ == batch_channels(batches@)
                &&& faithful_upto(time_map@, batches@, hdus@, end, 0, 1)
                &&& complete_upto(time_map@, batches@, hdus@, end, 0, 1)
                &&& sizes_upto(batches@, hdus@, size as int, end, 0, 1)
                &&& !any_upto(batches@, hdus@, end, 0, 1) ==> size == 0
                &&& index_len(time_map@) <= records_in_batches(batches@, hdus@, end)
                &&& distinct_times(batches@, hdus@) ==> index_len(time_map@)
                    == records_in_batches(batches@, hdus@, end)
            },
            Err(e) => exists|b: int, c: int, h: int| #[trigger]
                stops_walk(batches@, hdus@, e, b, c, h),
        },
{
    let num_channels: usize = batches[0].gpubox_files.len();
    let ghost nc = num_channels as int;
    let mut channels: Vec<usize> = Vec::new();
    let mut c: usize = 0;
    while c < num_channels
        invariant
            batches_wf(batches@),
            num_channels == batches@[0].gpubox_files@.len(),
            c <= num_channels,
            channels@.len() == c,
            forall|c1: int| 0 <= c1 < c ==> channels@[c1] == batch_channels(batches@)[c1],
        decreases num_channels - c,
    {
        let file: GPUBoxFile = batches[0].gpubox_files[c];
        assert(file == file_at(batches@, 0, c as int));
        channels.push(file.channel_identifier);
        c = c + 1;
    }
    assert(channels@ =~= batch_channels(batches@));
    let mut map: BTreeMap<u64, BTreeMap<usize, (usize, usize)>> = BTreeMap::new();
    let mut expected: Option<usize> = None;
    let mut b: usize = 0;
    assert(walk_state(view_of(map, channels@), expected, batches@, hdus@, 0, 0, 1)) by {
        assert(entries(view_of(map, channels@)) =~= Set::<(u64, int)>::empty());
    }
    while b < batches.len()
        invariant
            batches_wf(batches@),
            files_listed(batches@, hdus@.len() as int),
            nc == num_channels,
            nc == batches@[0].gpubox_files@.len(),
            channels@ == batch_channels(batches@),
            b <= batches@.len(),
            walk_state(view_of(map, channels@), expected, batches@, hdus@, b as int, 0, 1),
        decreases batches@.len() - b,
    {
        let mut c: usize = 0;
        while c < num_channels
            invariant
                batches_wf(batches@),
                files_listed(batches@, hdus@.len() as int),
                nc == num_channels,
                nc == batches@[0].gpubox_files@.len(),
                channels@ == batch_channels(batches@),
                b < batches@.len(),
                c <= num_channels,
                walk_state(view_of(map, channels@), expected, batches@, hdus@, b as int, c as int, 1),
            decreases num_channels - c,
        {
            assert(batches@[b as int].gpubox_files@.len() == nc);
            let file: GPUBoxFile = batches[b].gpubox_files[c];
            assert(file == file_at(batches@, b as int, c as int));
            let records: &Vec<HduInfo> = &hdus[file.file_index];
            assert(records@ == hdus_of(batches@, hdus@, b as int, c as int));
            let count: usize = records.len();
            let mut r: usize = 0;
            while r < count
                invariant
                    batches_wf(batches@),
                    nc == num_channels,
                    nc == batches@[0].gpubox_files@.len(),
                    channels@ == batch_channels(batches@),
                    b < batches@.len(),
                    c < num_channels,
                    r <= count,
                    count == records@.len(),
                    records@ == hdus_of(batches@, hdus@, b as int, c as int),
                    file == file_at(batches@, b as int, c as int),
                    walk_state(view_of(map, channels@), expected, batches@, hdus@, b as int, c as int, r + 1),
                decreases count - r,
            {
                let info: HduInfo = records[r];
                let ghost h = r as int + 1;
                assert(is_record(batches@, hdus@, b as int, c as int, h));
                assert(info == record_at(batches@, hdus@, b as int, c as int, h));
                let size: usize = match info.naxis1.checked_mul(info.naxis2) {
                    Some(size) => size,
                    None => {
                        proof {
                            match expected {
                                Some(s) => {
                                    assert(sizes_upto(
                                        batches@,
                                        hdus@,
                                        s as int,
                                        b as int,
                                        c as int,
                                        h,
                                    ));
                                },
                                None => {
                                    assert(sizes_upto(batches@, hdus@, 0, b as int, c as int, h));
                                },
                            }
                            assert(stops_walk(
                                batches@,
                                hdus@,
                                ErrorKind::HduSizeOverflow { file_index: file.file_index },
                                b as int,
                                c as int,
                                h,
                            ));
                        }
                        return Err(ErrorKind::HduSizeOverflow { file_index: file.file_index });
                    },
                };
                match expected {
                    Some(s) => {
                        if s != size {
                            let e = ErrorKind::UnequalHduSizes {
                                file_index: file.file_index,
                                expected: s,
                                actual: size,
                            };
                            proof {
                                assert(sizes_upto(batches@, hdus@, s as int, b as int, c as int, h));
                                assert(stops_walk(batches@, hdus@, e, b as int, c as int, h));
                            }
                            return Err(e);
                        }
                    },
                    None => {},
                }
                let ghost before = view_of(map, channels@);
                map = insert_location(map, &channels, info.unix_time_ms, c, (b, r + 1));
                proof {
                    lemma_walk_step(before, view_of(map, channels@), expected, batches@, hdus@, b as int, c as int, h);
                }
                expected = Some(size);
                r = r + 1;
            }
            proof {
                lemma_walk_next_file(view_of(map, channels@), expected, batches@, hdus@, b as int, c as int);
            }
            c = c + 1;
        }
        proof {
            lemma_walk_next_batch(view_of(map, channels@), expected, batches@, hdus@, b as int);
        }
        b = b + 1;
    }
    let size: usize = match expected {
        Some(size) => size,
        None => 0,
    };
    proof {
        if expected is None {
            assert(sizes_upto(batches@, hdus@, 0, batches@.len() as int, 0, 1));
        }
    }
    Ok((GpuboxTimeMap { channels, map: map }, size))
}

/// A time of the index, and the channels that have a record of it.
#[derive(Debug, Clone, Copy, PartialEq, Eq, Structural)]
pub struct TimeCount {
    /// The time, in UNIX milliseconds.
    pub unix_time_ms: u64,
    /// Channels that have a record of the time.
    pub num_channels: usize,
}

/// Whether `t` is one of the times.
pub open spec fn has_time(counts: Seq<TimeCount>, t: u64) -> bool {
    exists|i: int| 0 <= i < counts.len() && (#[trigger] counts[i]).unix_time_ms == t
}

/// Whether the times are in ascending order.
pub open spec fn ascending_times(counts: Seq<TimeCount>) -> bool {
    forall|i: int, j: int|
        0 <= i < j < counts.len() ==> (#[trigger] counts[i]).unix_time_ms < (
        #[trigger] counts[j]).unix_time_ms
}

/// Whether `counts` lists the times of `map` in ascending order, each
/// with the number of its channels.
pub open spec fn is_time_counts(
    map: Map<u64, Map<usize, (usize, usize)>>,
    counts: Seq<TimeCount>,
) -> bool {
    &&& ascending_times(counts)
    &&& forall|t: u64|
        #![trigger map.contains_key(t)]
        #![trigger has_time(counts, t)]
        map.contains_key(t) <==> has_time(counts, t)
    &&& forall|i: int|
        0 <= i < counts.len() ==> (#[trigger] counts[i]).num_channels
            == map[counts[i].unix_time_ms].len()
}

/// The times of the index in ascending order, each with the number of its
/// channels.
pub open spec fn time_counts(index: TimeIndexView) -> Seq<TimeCount> {
    choose|counts: Seq<TimeCount>| is_time_counts(index.map, counts)
}

/// There is one way only to list the times of a map in ascending order.
pub proof fn lemma_time_counts_unique(
    map: Map<u64, Map<usize, (usize, usize)>>,
    a: Seq<TimeCount>,
    b: Seq<TimeCount>,
)
    requires
        is_time_counts(map, a),
        is_time_counts(map, b),
    ensures
        a == b,
    decreases a.len(),
{
    if a.len() == 0 {
        if b.len() > 0 {
            assert(has_time(b, b[0].unix_time_ms));
            assert(map.contains_key(b[0].unix_time_ms));
            assert(has_time(a, b[0].unix_time_ms));
        }
        assert(a =~= b);
    } else {
        let la = a.last();
        assert(has_time(a, la.unix_time_ms));
        assert(map.contains_key(la.unix_time_ms));
        assert(has_time(b, la.unix_time_ms));
        let lb = b.last();
        assert(has_time(b, lb.unix_time_ms));
        assert(map.contains_key(lb.unix_time_ms));
        assert(has_time(a, lb.unix_time_ms));
        let ja = choose|i: int| 0 <= i < a.len() && (#[trigger] a[i]).unix_time_ms == lb.unix_time_ms;
        let jb = choose|i: int| 0 <= i < b.len() && (#[trigger] b[i]).unix_time_ms == la.unix_time_ms;
        if ja < a.len() - 1 {
            assert(a[ja].unix_time_ms < a[a.len() - 1].unix_time_ms);
        }
        if jb < b.len() - 1 {
            assert(b[jb].unix_time_ms < b[b.len() - 1].unix_time_ms);
        }
        assert(la.unix_time_ms == lb.unix_time_ms);
        assert(la == lb);
        let rest = map.remove(la.unix_time_ms);
        let ra = a.drop_last();
        let rb = b.drop_last();
        assert forall|t: u64|
            #![trigger rest.contains_key(t)]
            #![trigger has_time(ra, t)]
            rest.contains_key(t) <==> has_time(ra, t) by {
            if rest.contains_key(t) {
                assert(map.contains_key(t));
                assert(has_time(a, t));
                let i = choose|i: int| 0 <= i < a.len() && (#[trigger] a[i]).unix_time_ms == t;
                assert(ra[i].unix_time_ms == t);
            }
            if has_time(ra, t) {
                let i = choose|i: int| 0 <= i < ra.len() && (#[trigger] ra[i]).unix_time_ms == t;
                assert(a[i].unix_time_ms < a[a.len() - 1].unix_time_ms);
                assert(has_time(a, a[i].unix_time_ms));
            }
        }
        assert forall|t: u64|
            #![trigger rest.contains_key(t)]
            #![trigger has_time(rb, t)]
            rest.contains_key(t) <==> has_time(rb, t) by {
            if rest.contains_key(t) {
                assert(map.contains_key(t));
                assert(has_time(b, t));
                let i = choose|i: int| 0 <= i < b.len() && (#[trigger] b[i]).unix_time_ms == t;
                assert(rb[i].unix_time_ms == t);
            }
            if has_time(rb, t) {
                let i = choose|i: int| 0 <= i < rb.len() && (#[trigger] rb[i]).unix_time_ms == t;
                assert(b[i].unix_time_ms < b[b.len() - 1].unix_time_ms);
                assert(has_time(b, b[i].unix_time_ms));
            }
        }
        assert(is_time_counts(rest, ra)) by {
            assert forall|i: int| 0 <= i < ra.len() implies (#[trigger] ra[i]).num_channels
                == rest[ra[i].unix_time_ms].len() by {
                assert(a[i].unix_time_ms < a[a.len() - 1].unix_time_ms);
                assert(a[i].num_channels == map[a[i].unix_time_ms].len());
            }
        }
        assert(is_time_counts(rest, rb)) by {
            assert forall|i: int| 0 <= i < rb.len() implies (#[trigger] rb[i]).num_channels
                == rest[rb[i].unix_time_ms].len() by {
                assert(b[i].unix_time_ms < b[b.len() - 1].unix_time_ms);
                assert(b[i].num_channels == map[b[i].unix_time_ms].len());
            }
        }
        lemma_time_counts_unique(rest, ra, rb);
        assert(a =~= ra.push(la));
        assert(b =~= rb.push(lb));
    }
}

/// The largest number of channels that any of the first `upto` times
/// holds.
pub open spec fn max_channel_count(counts: Seq<TimeCount>, upto: int) -> nat
    decreases upto,
{
    if upto <= 0 {
        0
    } else {
        let rest = max_channel_count(counts, upto - 1);
        let here = counts[upto - 1].num_channels as nat;
        if here > rest {
            here
        } else {
            rest
        }
    }
}

/// Whether time `i` is complete: it holds as many channels as the fullest
/// time of the index.
pub open spec fn is_complete(counts: Seq<TimeCount>, i: int) -> bool {
    counts[i].num_channels == max_channel_count(counts, counts.len() as int)
}

/// The complete times among the first `upto`, in order.
pub open spec fn complete_times(counts: Seq<TimeCount>, upto: int) -> Seq<u64>
    decreases upto,
{
    if upto <= 0 {
        Seq::empty()
    } else if is_complete(counts, upto - 1) {
        complete_times(counts, upto - 1).push(counts[upto - 1].unix_time_ms)
    } else {
        complete_times(counts, upto - 1)
    }
}

/// The complete times of the index, in ascending order: the times that
/// hold as many channels as the fullest time of the index.
pub open spec fn complete_times_of(index: TimeIndexView) -> Seq<u64> {
    complete_times(time_counts(index), time_counts(index).len() as int)
}

/// No time holds more channels than the fullest, and some time holds as
/// many.
pub proof fn lemma_max_channel_count(counts: Seq<TimeCount>, upto: int)
    requires
        0 <= upto <= counts.len(),
    ensures
        forall|i: int|
            0 <= i < upto ==> (#[trigger] counts[i]).num_channels <= max_channel_count(counts, upto),
        upto > 0 ==> exists|i: int|
            0 <= i < upto && (#[trigger] counts[i]).num_channels == max_channel_count(counts, upto),
    decreases upto,
{
    if upto > 0 {
        lemma_max_channel_count(counts, upto - 1);
        let here = counts[upto - 1].num_channels as nat;
        let rest = max_channel_count(counts, upto - 1);
        if here > rest || upto == 1 {
            assert(counts[upto - 1].num_channels == max_channel_count(counts, upto));
        } else {
            let i = choose|i: int| 0 <= i < upto - 1 && (#[trigger] counts[i]).num_channels == rest;
            assert(counts[i].num_channels == max_channel_count(counts, upto));
        }
    }
}

impl GpuboxTimeMap {
    /// The times of the index in ascending order, each with the number of
    /// its channels.
    pub fn count_channels_by_time(&self) -> (counts: Vec<TimeCount>)
        ensures
            counts@ == time_counts(self@),
            is_time_counts(self@.map, counts@),
    {
        let counts: Vec<TimeCount> = count_by_time(&self.map);
        proof {
            lemma_time_counts_unique(self@.map, counts@, time_counts(self@));
        }
        counts
    }

    /// The largest number of channels that any time of the index holds;
    /// 0 for an empty index.
    pub fn max_channels(&self) -> (count: usize)
        ensures
            count == max_channel_count(time_counts(self@), time_counts(self@).len() as int),
    {
        let counts: Vec<TimeCount> = self.count_channels_by_time();
        let mut count: usize = 0;
        let mut i: usize = 0;
        while i < counts.len()
            invariant
                i <= counts@.len(),
                count == max_channel_count(counts@, i as int),
            decreases counts@.len() - i,
        {
            if counts[i].num_channels > count {
                count = counts[i].num_channels;
            }
            i = i + 1;
        }
        count
    }

    /// The complete times, in ascending order.
    pub fn complete_bucket_times(&self) -> (times: Vec<u64>)
        ensures
            times@ == complete_times_of(self@),
            is_time_counts(self@.map, time_counts(self@)),
    {
        let counts: Vec<TimeCount> = self.count_channels_by_time();
        let most: usize = self.max_channels();
        let mut times: Vec<u64> = Vec::new();
        let mut i: usize = 0;
        while i < counts.len()
            invariant
                i <= counts@.len(),
                most == max_channel_count(counts@, counts@.len() as int),
                times@ == complete_times(counts@, i as int),
            decreases counts@.len() - i,
        {
            if counts[i].num_channels == most {
                times.push(counts[i].unix_time_ms);
            }
            i = i + 1;
        }
        times
    }
}

/// When an observation starts and ends, and how long it lasts.
#[derive(Debug, Clone, Copy, PartialEq, Eq, Structural)]
pub struct ObsTimes {
    /// Time of the first complete bucket, in UNIX milliseconds.
    pub start_millisec: u64,
    /// Time of the last complete bucket, in UNIX milliseconds.
    pub end_millisec: u64,
    /// From the start of the first complete record to the end of the
    /// last, in milliseconds.
    pub duration_millisec: u64,
}

impl ObsTimes {
    /// The window from `start_millisec` to the end of the record that
    /// starts at `end_millisec` and lasts `integration_time_ms`.
    pub fn new(start_millisec: u64, end_millisec: u64, integration_time_ms: u64) -> (result: Result<
        ObsTimes,
        ErrorKind,
    >)
        ensures
            match result {
                Ok(times) => {
                    &&& start_millisec <= end_millisec
                    &&& times.start_millisec == start_millisec
                    &&& times.end_millisec == end_millisec
                    &&& times.duration_millisec == end_millisec - start_millisec
                        + integration_time_ms
                },
                Err(e) => if end_millisec < start_millisec {
                    e == (ErrorKind::NegativeDuration {
                        start_ms: start_millisec,
                        end_ms: end_millisec,
                    })
                } else {
                    e == ErrorKind::DurationOverflow && end_millisec - start_millisec
                        + integration_time_ms > u64::MAX
                },
            },
    {
        if end_millisec < start_millisec {
            return Err(
                ErrorKind::NegativeDuration { start_ms: start_millisec, end_ms: end_millisec },
            );
        }
        match (end_millisec - start_millisec).checked_add(integration_time_ms) {
            Some(duration_millisec) => Ok(
                ObsTimes { start_millisec, end_millisec, duration_millisec },
            ),
            None => Err(ErrorKind::DurationOverflow),
        }
    }
}

/// Whether `t` is the time of a complete bucket among the first `upto`.
pub open spec fn is_complete_time(counts: Seq<TimeCount>, upto: int, t: u64) -> bool {
    exists|i: int|
        0 <= i < upto && is_complete(counts, i) && (#[trigger] counts[i]).unix_time_ms == t
}

/// The times of the complete counts are just that, and in ascending
/// order: the first is the earliest, the last is the latest.
pub proof fn lemma_complete_times_ascending(counts: Seq<TimeCount>, upto: int)
    requires
        ascending_times(counts),
        0 <= upto <= counts.len(),
    ensures
        forall|k: int|
            0 <= k < complete_times(counts, upto).len() ==> is_complete_time(
                counts,
                upto,
                #[trigger] complete_times(counts, upto)[k],
            ),
        forall|i: int|
            0 <= i < upto && is_complete(counts, i) ==> complete_times(counts, upto).contains(
                (#[trigger] counts[i]).unix_time_ms,
            ),
        forall|k1: int, k2: int|
            0 <= k1 < k2 < complete_times(counts, upto).len() ==> complete_times(counts, upto)[k1]
                < complete_times(counts, upto)[k2],
    decreases upto,
{
    if upto > 0 {
        lemma_complete_times_ascending(counts, upto - 1);
        let rest = complete_times(counts, upto - 1);
        let all = complete_times(counts, upto);
        assert forall|k: int| 0 <= k < rest.len() implies is_complete_time(
            counts,
            upto,
            #[trigger] rest[k],
        ) by {
            assert(is_complete_time(counts, upto - 1, rest[k]));
            let i = choose|i: int|
                0 <= i < upto - 1 && is_complete(counts, i) && (#[trigger] counts[i]).unix_time_ms
                    == rest[k];
            assert(counts[i].unix_time_ms == rest[k]);
        }
        if is_complete(counts, upto - 1) {
            let t = counts[upto - 1].unix_time_ms;
            assert(all == rest.push(t));
            assert forall|k: int| 0 <= k < all.len() implies is_complete_time(
                counts,
                upto,
                #[trigger] all[k],
            ) by {
                if k < rest.len() {
                    assert(all[k] == rest[k]);
                } else {
                    assert(counts[upto - 1].unix_time_ms == all[k]);
                }
            }
            assert forall|i: int| 0 <= i < upto && is_complete(counts, i) implies all.contains(
                (#[trigger] counts[i]).unix_time_ms,
            ) by {
                if i < upto - 1 {
                    let k = choose|k: int| 0 <= k < rest.len() && rest[k] == counts[i].unix_time_ms;
                    assert(all[k] == counts[i].unix_time_ms);
                } else {
                    assert(all[rest.len() as int] == t);
                }
            }
            assert forall|k1: int, k2: int| 0 <= k1 < k2 < all.len() implies all[k1] < all[k2] by {
                if k2 == rest.len() {
                    assert(is_complete_time(counts, upto - 1, rest[k1]));
                    let i = choose|i: int|
                        0 <= i < upto - 1 && is_complete(counts, i) && (
                        #[trigger] counts[i]).unix_time_ms == rest[k1];
                    assert(counts[i].unix_time_ms < counts[upto - 1].unix_time_ms);
                } else {
                    assert(rest[k1] < rest[k2]);
                }
            }
        }
    }
}

/// When the observation starts and ends by the time index: at the first
/// and at the last time for which the index holds as many channels as for
/// its fullest time. Times with fewer channels do not count.
pub fn determine_obs_times(time_map: &GpuboxTimeMap, integration_time_ms: u64) -> (result: Result<
    ObsTimes,
    ErrorKind,
>)
    ensures
        match result {
            Ok(times) => {
                let complete = complete_times_of(time_map@);
                &&& complete.len() > 0
                &&& times.start_millisec == complete.first()
                &&& times.end_millisec == complete.last()
                &&& times.duration_millisec == complete.last() - complete.first()
                    + integration_time_ms
            },
            Err(e) => if time_counts(time_map@).len() == 0 {
                e == ErrorKind::EmptyTimeIndex
            } else {
                let complete = complete_times_of(time_map@);
                &&& e == ErrorKind::DurationOverflow
                &&& complete.len() > 0
                &&& complete.last() - complete.first() + integration_time_ms > u64::MAX
            },
        },
{
    let complete: Vec<u64> = time_map.complete_bucket_times();
    proof {
        let counts = time_counts(time_map@);
        lemma_complete_times_ascending(counts, counts.len() as int);
        lemma_max_channel_count(counts, counts.len() as int);
        if counts.len() > 0 {
            let i = choose|i: int|
                0 <= i < counts.len() && (#[trigger] counts[i]).num_channels == max_channel_count(
                    counts,
                    counts.len() as int,
                );
            assert(is_complete(counts, i));
            assert(complete@.contains(counts[i].unix_time_ms));
        }
    }
    if complete.len() == 0 {
        return Err(ErrorKind::EmptyTimeIndex);
    }
    let start: u64 = complete[0];
    let end: u64 = complete[complete.len() - 1];
    assert(start <= end) by {
        if complete@.len() > 1 {
            assert(complete@[0] < complete@[complete@.len() - 1]);
        }
    }
    ObsTimes::new(start, end, integration_time_ms)
}

/// No two keys of the index lead to the same record: where two of time
/// and channel differ in either, they differ in channel or in where the
/// record is.
pub proof fn lemma_index_keys_distinct(
    index: TimeIndexView,
    batches: Seq<GPUBoxBatch>,
    hdus: Seq<Vec<HduInfo>>,
    t1: u64,
    c1: int,
    t2: u64,
    c2: int,
)
    requires
        faithful_upto(index, batches, hdus, batches.len() as int, 0, 1),
        0 <= c1 < batches[0].gpubox_files@.len(),
        0 <= c2 < batches[0].gpubox_files@.len(),
        lookup(index, t1, c1) is Some,
        lookup(index, t2, c2) is Some,
        t1 != t2 || c1 != c2,
    ensures
        c1 != c2 || lookup(index, t1, c1) != lookup(index, t2, c2),
{
    let first = lookup(index, t1, c1).unwrap();
    let second = lookup(index, t2, c2).unwrap();
    assert(is_first_record_at(batches, hdus, t1, c1, first.0 as int, first.1 as int));
    assert(is_first_record_at(batches, hdus, t2, c2, second.0 as int, second.1 as int));
}

/// Where no two records of one channel have the same time, the index
/// holds every record under its own time and channel.
pub proof fn lemma_every_record_indexed(
    index: TimeIndexView,
    batches: Seq<GPUBoxBatch>,
    hdus: Seq<Vec<HduInfo>>,
    b: int,
    c: int,
    h: int,
)
    requires
        faithful_upto(index, batches, hdus, batches.len() as int, 0, 1),
        complete_upto(index, batches, hdus, batches.len() as int, 0, 1),
        distinct_times(batches, hdus),
        is_record(batches, hdus, b, c, h),
        b <= usize::MAX && h <= usize::MAX,
    ensures
        lookup(index, record_at(batches, hdus, b, c, h).unix_time_ms, c) == Some(
            (b as usize, h as usize),
        ),
{
    let t = record_at(batches, hdus, b, c, h).unix_time_ms;
    assert(comes_before(b, c, h, batches.len() as int, 0, 1));
    let found = lookup(index, t, c).unwrap();
    assert(is_first_record_at(batches, hdus, t, c, found.0 as int, found.1 as int));
    if found.0 != b || found.1 != h {
        assert(record_at(batches, hdus, found.0 as int, c, found.1 as int).unix_time_ms
            == record_at(batches, hdus, b, c, h).unix_time_ms);
    }
}

/// Where every file holds `per_file` records, the first `upto` files of a
/// batch hold `upto` times as many.
pub proof fn lemma_records_in_uniform_batch(
    batches: Seq<GPUBoxBatch>,
    hdus: Seq<Vec<HduInfo>>,
    per_file: nat,
    b: int,
    upto: int,
)
    requires
        0 <= b < batches.len(),
        0 <= upto <= batches[0].gpubox_files@.len(),
        forall|c: int|
            0 <= c < batches[0].gpubox_files@.len() ==> (#[trigger] hdus_of(batches, hdus, b, c)).len()
                == per_file,
    ensures
        records_in_batch(batches, hdus, b, upto) == upto * per_file,
    decreases upto,
{
    if upto > 0 {
        lemma_records_in_uniform_batch(batches, hdus, per_file, b, upto - 1);
        assert((upto - 1) * per_file + per_file == upto * per_file) by (nonlinear_arith);
    } else {
        assert(0 * per_file == 0) by (nonlinear_arith);
    }
}

/// Where every file holds `per_file` records, the files hold as many
/// records as there are files, times `per_file`.
pub proof fn lemma_records_in_uniform_files(
    batches: Seq<GPUBoxBatch>,
    hdus: Seq<Vec<HduInfo>>,
    per_file: nat,
    upto: int,
)
    requires
        0 <= upto <= batches.len(),
        forall|b: int, c: int|
            0 <= b < batches.len() && 0 <= c < batches[0].gpubox_files@.len() ==> (
            #[trigger] hdus_of(batches, hdus, b, c)).len() == per_file,
    ensures
        records_in_batches(batches, hdus, upto) == (upto * batches[0].gpubox_files@.len())
            * per_file,
    decreases upto,
{
    let nc = batches[0].gpubox_files@.len() as int;
    if upto > 0 {
        lemma_records_in_uniform_files(batches, hdus, per_file, upto - 1);
        lemma_records_in_uniform_batch(batches, hdus, per_file, upto - 1, nc);
        assert(((upto - 1) * nc) * per_file + nc * per_file == (upto * nc) * per_file)
            by (nonlinear_arith);
    } else {
        assert((0 * nc) * per_file == 0) by (nonlinear_arith);
    }
}

/// The time index holds each record once: where no two records of one
/// channel have the same time and every file holds `per_file` records, the
/// index holds as many records as there are files, times `per_file`.
pub proof fn lemma_index_holds_every_record(
    index: TimeIndexView,
    batches: Seq<GPUBoxBatch>,
    hdus: Seq<Vec<HduInfo>>,
    per_file: nat,
)
    requires
        distinct_times(batches, hdus),
        distinct_times(batches, hdus) ==> index_len(index) == records_in_batches(
            batches,
            hdus,
            batches.len() as int,
        ),
        forall|b: int, c: int|
            0 <= b < batches.len() && 0 <= c < batches[0].gpubox_files@.len() ==> (
            #[trigger] hdus_of(batches, hdus, b, c)).len() == per_file,
    ensures
        index_len(index) == (batches.len() * batches[0].gpubox_files@.len()) * per_file,
{
    lemma_records_in_uniform_files(batches, hdus, per_file, batches.len() as int);
}

/// The place of the record that the index knows for a time and a
/// channel: the channel by its place, the batch, and the record.
pub open spec fn place_of(index: TimeIndexView) -> spec_fn((u64, int)) -> (int, usize, usize) {
    |key: (u64, int)|
        (key.1, lookup(index, key.0, key.1).unwrap().0, lookup(index, key.0, key.1).unwrap().1)
}

/// The places of the records that the index knows.
pub open spec fn located(index: TimeIndexView) -> Set<(int, usize, usize)> {
    entries(index).map(place_of(index))
}

/// The index knows as many places of records as it has keys: no two keys
/// lead to the same record.
pub proof fn lemma_located_as_many_as_keys(
    index: TimeIndexView,
    batches: Seq<GPUBoxBatch>,
    hdus: Seq<Vec<HduInfo>>,
)
    requires
        index_wf(index),
        index.channels == batch_channels(batches),
        faithful_upto(index, batches, hdus, batches.len() as int, 0, 1),
    ensures
        located(index).finite(),
        located(index).len() == index_len(index),
{
    let f = place_of(index);
    assert forall|k1: (u64, int), k2: (u64, int)|
        entries(index).contains(k1) && entries(index).contains(k2) && #[trigger] f(k1)
            == #[trigger] f(k2) implies k1 == k2 by {
        if k1.0 != k2.0 || k1.1 != k2.1 {
            lemma_index_keys_distinct(index, batches, hdus, k1.0, k1.1, k2.0, k2.1);
        }
    }
    lemma_map_size(entries(index), located(index), f);
}

} // verus!
