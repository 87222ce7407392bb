//! What an observation's header says, as plain values, and what is worked
//! out from it alone.

use crate::error::ErrorKind;
use crate::gpubox::is_digit;
use crate::rfinput::mwalibRFInput;
use vstd::prelude::*;
use vstd::string::StringExecFns;
use vstd::string::StringSliceAdditionalSpecFns;

verus! {

/// The number list that the bytes of `text` write from `pos` on, where
/// `current` is the value of the digits of the number that `pos` stands
/// in, if there are any before `pos`.
///
/// A list is made of decimal numbers with a comma between each two. The
/// characters `'` and `&`, which the header's long strings are padded and
/// continued with, count for nothing wherever they stand. Anything else,
/// a number without digits, or a number beyond the machine's range, spoils
/// the list.
pub open spec fn number_list_from(text: Seq<u8>, pos: int, current: Option<int>) -> Option<
    Seq<usize>,
>
    decreases text.len() - pos,
{
    if pos < 0 || pos >= text.len() {
        match current {
            Some(v) => Some(seq![v as usize]),
            None => None,
        }
    } else if text[pos] == 39 || text[pos] == 38 {
        number_list_from(text, pos + 1, current)
    } else if text[pos] == 44 {
        match current {
            Some(v) => match number_list_from(text, pos + 1, None) {
                Some(rest) => Some(seq![v as usize] + rest),
                None => None,
            },
            None => None,
        }
    } else if is_digit(text[pos]) {
        let v = (match current {
            Some(v) => v,
            None => 0,
        }) * 10 + (text[pos] - 48);
        if v > usize::MAX {
            None
        } else {
            number_list_from(text, pos + 1, Some(v))
        }
    } else {
        None
    }
}

/// The number list that the bytes of `text` write, if they write one.
pub open spec fn number_list(text: Seq<u8>) -> Option<Seq<usize>> {
    number_list_from(text, 0, None)
}

/// The list that follows `done` where `rest` follows it.
pub open spec fn continued(done: Seq<usize>, rest: Option<Seq<usize>>) -> Option<Seq<usize>> {
    match rest {
        Some(rest) => Some(done + rest),
        None => None,
    }
}

/// Reads a list of numbers as the header writes it: `1,2,3`, with `'` and
/// `&` anywhere in it ignored.
pub fn parse_number_list(text: &str) -> (result: Result<Vec<usize>, ErrorKind>)
    ensures
        match result {
            Ok(numbers) => number_list(text.spec_bytes()) == Some(numbers@),
            Err(e) => e == ErrorKind::ParseInt && number_list(text.spec_bytes()) is None,
        },
{
    let bytes: &[u8] = text.as_bytes();
    let n: usize = bytes.len();
    let mut numbers: Vec<usize> = Vec::new();
    let mut current: Option<usize> = None;
    let mut pos: usize = 0;
    proof {
        if number_list(bytes@) is Some {
            assert(Seq::<usize>::empty() + number_list(bytes@).unwrap() =~= number_list(
                bytes@,
            ).unwrap());
        }
    }
    while pos < n
        invariant
            n == bytes@.len(),
            bytes@ == text.spec_bytes(),
            pos <= n,
            number_list(bytes@) == continued(
                numbers@,
                number_list_from(
                    bytes@,
                    pos as int,
                    match current {
                        Some(v) => Some(v as int),
                        None => None,
                    },
                ),
            ),
        decreases n - pos,
    {
        let c: u8 = bytes[pos];
        let ghost cur: Option<int> = match current {
            Some(v) => Some(v as int),
            None => None,
        };
        let ghost here = number_list_from(bytes@, pos as int, cur);
        if c == 39 || c == 38 {
            assert(here == number_list_from(bytes@, pos as int + 1, cur));
        } else if c == 44 {
            match current {
                Some(v) => {
                    proof {
                        let rest = number_list_from(bytes@, pos as int + 1, None);
                        if rest is Some {
                            assert(numbers@ + (seq![v] + rest.unwrap()) =~= numbers@.push(v)
                                + rest.unwrap());
                        }
                    }
                    numbers.push(v);
                    current = None;
                },
                None => {
                    assert(here is None);
                    return Err(ErrorKind::ParseInt);
                },
            }
        } else if c >= 48 && c <= 57 {
            let so_far: usize = match current {
                Some(v) => v,
                None => 0,
            };
            let digit: usize = (c - 48) as usize;
            assert(is_digit(c));
            match so_far.checked_mul(10) {
                Some(tens) => match tens.checked_add(digit) {
                    Some(v) => {
                        assert(here == number_list_from(bytes@, pos as int + 1, Some(v as int)));
                        current = Some(v);
                    },
                    None => {
                        assert(here is None);
                        return Err(ErrorKind::ParseInt);
                    },
                },
                None => {
                    assert(here is None);
                    return Err(ErrorKind::ParseInt);
                },
            }
        } else {
            assert(!is_digit(c));
            assert(here is None);
            return Err(ErrorKind::ParseInt);
        }
        pos = pos + 1;
    }
    match current {
        Some(v) => {
            assert(numbers@ + seq![v] =~= numbers@.push(v));
            numbers.push(v);
            Ok(numbers)
        },
        None => Err(ErrorKind::ParseInt),
    }
}

/// Milliseconds from the start of 1970 in UTC to the moment that `text`
/// writes as RFC 3339 prescribes, such as `2014-12-01T21:08:16+00:00`, as
/// `chrono` reads it; `None` where `chrono` does not accept `text`.
pub uninterp spec fn rfc3339_timestamp_millis(text: Seq<char>) -> Option<i64>;

/// Calls `chrono::DateTime::parse_from_rfc3339` and, where that accepts
/// the text, `timestamp_millis` on what it gives. The result is what the
/// name above stands for: nothing is claimed of it but that the same text
/// gives the same result.
#[verifier::external_body]
fn parse_rfc3339_millis(text: &str) -> (millis: Option<i64>)
    ensures
        millis == rfc3339_timestamp_millis(text@),
{
    match chrono::DateTime::parse_from_rfc3339(text) {
        Ok(moment) => Some(moment.timestamp_millis()),
        Err(_) => None,
    }
}

/// The scheduled start of an observation as a UNIX time in milliseconds,
/// from the header's `DATE-OBS`, which is in UTC and carries no offset.
pub fn parse_date_obs(date_obs: &str) -> (millis: Option<i64>)
    ensures
        millis == rfc3339_timestamp_millis(date_obs@ + "+00:00"@),
{
    let text: String = String::from_str(date_obs).concat("+00:00");
    parse_rfc3339_millis(text.as_str())
}

/// The moments of an observation's schedule that follow from its start
/// and its length.
#[derive(Debug, Clone, Copy, PartialEq, Eq, Structural)]
pub struct Schedule {
    /// Scheduled start in UTC, in milliseconds from the start of 1970.
    pub start_utc_ms: i64,
    /// Scheduled end in UTC, in milliseconds from the start of 1970.
    pub end_utc_ms: i64,
    /// Scheduled start in GPS time, in milliseconds.
    pub start_gpstime_ms: u64,
    /// Scheduled end in GPS time, in milliseconds.
    pub end_gpstime_ms: u64,
    /// Scheduled start in UNIX time, in milliseconds.
    pub start_unix_time_ms: u64,
    /// Scheduled end in UNIX time, in milliseconds.
    pub end_unix_time_ms: u64,
    /// Scheduled length, in milliseconds.
    pub duration_ms: u64,
}

/// Whether the schedule of an observation fits the machine's numbers.
pub open spec fn schedule_fits(
    start_utc_ms: i64,
    obsid: u32,
    exposure_seconds: u64,
    quack_time_ms: u64,
    good_time_unix_ms: u64,
) -> bool {
    &&& exposure_seconds * 1000 <= i64::MAX
    &&& start_utc_ms + exposure_seconds * 1000 <= i64::MAX
    &&& obsid * 1000 + exposure_seconds * 1000 <= u64::MAX
    &&& quack_time_ms <= good_time_unix_ms
    &&& good_time_unix_ms - quack_time_ms + exposure_seconds * 1000 <= u64::MAX
}

/// The schedule of an observation: it starts in GPS time at its
/// identifier, which is in seconds, and in UNIX time the quack time before
/// its first good moment, and it ends its exposure later.
pub fn scheduled_times(
    start_utc_ms: i64,
    obsid: u32,
    exposure_seconds: u64,
    quack_time_ms: u64,
    good_time_unix_ms: u64,
) -> (result: Result<Schedule, ErrorKind>)
    ensures
        match result {
            Ok(schedule) => {
                &&& schedule_fits(
                    start_utc_ms,
                    obsid,
                    exposure_seconds,
                    quack_time_ms,
                    good_time_unix_ms,
                )
                &&& schedule.duration_ms == exposure_seconds * 1000
                &&& schedule.start_utc_ms == start_utc_ms
                &&& schedule.end_utc_ms == start_utc_ms + schedule.duration_ms
                &&& schedule.start_gpstime_ms == obsid * 1000
                &&& schedule.end_gpstime_ms == obsid * 1000 + schedule.duration_ms
                &&& schedule.start_unix_time_ms == good_time_unix_ms - quack_time_ms
                &&& schedule.end_unix_time_ms == good_time_unix_ms - quack_time_ms
                    + schedule.duration_ms
            },
            Err(e) => e == ErrorKind::InvalidMetadata && !schedule_fits(
                start_utc_ms,
                obsid,
                exposure_seconds,
                quack_time_ms,
                good_time_unix_ms,
            ),
        },
{
    let duration_ms: u64 = match exposure_seconds.checked_mul(1000) {
        Some(d) => d,
        None => {
            return Err(ErrorKind::InvalidMetadata);
        },
    };
    if duration_ms > i64::MAX as u64 {
        return Err(ErrorKind::InvalidMetadata);
    }
    let end_utc_ms: i64 = match start_utc_ms.checked_add(duration_ms as i64) {
        Some(e) => e,
        None => {
            return Err(ErrorKind::InvalidMetadata);
        },
    };
    let start_gpstime_ms: u64 = (obsid as u64) * 1000;
    let end_gpstime_ms: u64 = match start_gpstime_ms.checked_add(duration_ms) {
        Some(e) => e,
        None => {
            return Err(ErrorKind::InvalidMetadata);
        },
    };
    if quack_time_ms > good_time_unix_ms {
        return Err(ErrorKind::InvalidMetadata);
    }
    let start_unix_time_ms: u64 = good_time_unix_ms - quack_time_ms;
    let end_unix_time_ms: u64 = match start_unix_time_ms.checked_add(duration_ms) {
        Some(e) => e,
        None => {
            return Err(ErrorKind::InvalidMetadata);
        },
    };
    Ok(
        Schedule {
            start_utc_ms,
            end_utc_ms,
            start_gpstime_ms,
            end_gpstime_ms,
            start_unix_time_ms,
            end_unix_time_ms,
            duration_ms,
        },
    )
}

/// Whether `sorted` holds the inputs of `given`, each once, in ascending
/// order of target position, and inputs of one target position in the
/// order in which `given` has them. `places[k]` is the place in `given` of
/// the input at place `k` of `sorted`.
pub open spec fn is_stable_sort(
    sorted: Seq<mwalibRFInput>,
    given: Seq<mwalibRFInput>,
    places: Seq<int>,
) -> bool {
    &&& sorted.len() == given.len()
    &&& places.len() == given.len()
    &&& forall|k: int|
        0 <= k < places.len() ==> 0 <= #[trigger] places[k] < given.len() && sorted[k]
            == given[places[k]]
    &&& forall|k1: int, k2: int|
        0 <= k1 < k2 < places.len() ==> #[trigger] places[k1] != #[trigger] places[k2]
    &&& forall|k1: int, k2: int|
        0 <= k1 < k2 < sorted.len() ==> (#[trigger] sorted[k1]).subfile_order <= (
        #[trigger] sorted[k2]).subfile_order
    &&& forall|k1: int, k2: int|
        0 <= k1 < k2 < places.len() && sorted[k1].subfile_order == sorted[k2].subfile_order
            ==> #[trigger] places[k1] < #[trigger] places[k2]
}

/// The receiver inputs in ascending order of their target position;
/// inputs of one target position stay in the order in which they come.
pub fn sort_by_subfile_order(rf_inputs: Vec<mwalibRFInput>) -> (sorted: Vec<mwalibRFInput>)
    ensures
        exists|places: Seq<int>| is_stable_sort(sorted@, rf_inputs@, places),
        sorted@.to_multiset() == rf_inputs@.to_multiset(),
        sorted@.len() == rf_inputs@.len(),
        forall|i: int, j: int|
            0 <= i < j < sorted@.len() ==> sorted@[i].subfile_order <= sorted@[j].subfile_order,
{
    let ghost given = rf_inputs@;
    let mut rest: Vec<mwalibRFInput> = rf_inputs;
    let mut sorted: Vec<mwalibRFInput> = Vec::new();
    let ghost mut sorted_places: Seq<int> = Seq::empty();
    let ghost mut rest_places: Seq<int> = Seq::new(given.len(), |i: int| i);
    proof {
        vstd::seq_lib::to_multiset_len(sorted@);
        vstd::multiset::lemma_multiset_empty_len(sorted@.to_multiset());
        assert(sorted@.to_multiset().add(rest@.to_multiset()) =~= given.to_multiset());
    }
    while rest.len() > 0
        invariant
            sorted@.to_multiset().add(rest@.to_multiset()) == given.to_multiset(),
            sorted@.len() + rest@.len() == given.len(),
            rest_places.len() == rest@.len(),
            sorted_places.len() == sorted@.len(),
            forall|j: int|
                0 <= j < rest@.len() ==> 0 <= #[trigger] rest_places[j] < given.len() && rest@[j]
                    == given[rest_places[j]],
            forall|j1: int, j2: int|
                0 <= j1 < j2 < rest@.len() ==> #[trigger] rest_places[j1] < #[trigger] rest_places[j2],
            forall|k: int|
                0 <= k < sorted@.len() ==> 0 <= #[trigger] sorted_places[k] < given.len()
                    && sorted@[k] == given[sorted_places[k]],
            forall|k1: int, k2: int|
                0 <= k1 < k2 < sorted@.len() ==> #[trigger] sorted_places[k1]
                    != #[trigger] sorted_places[k2],
            forall|k: int, j: int|
                0 <= k < sorted@.len() && 0 <= j < rest@.len() ==> #[trigger] sorted_places[k]
                    != #[trigger] rest_places[j],
            forall|i: int, j: int|
                0 <= i < j < sorted@.len() ==> (#[trigger] sorted@[i]).subfile_order <= (
                #[trigger] sorted@[j]).subfile_order,
            forall|k1: int, k2: int|
                0 <= k1 < k2 < sorted@.len() && sorted@[k1].subfile_order
                    == sorted@[k2].subfile_order ==> #[trigger] sorted_places[k1]
                    < #[trigger] sorted_places[k2],
            forall|i: int, j: int|
                0 <= i < sorted@.len() && 0 <= j < rest@.len() ==> (
                #[trigger] sorted@[i]).subfile_order <= (#[trigger] rest@[j]).subfile_order,
            forall|k: int, j: int|
                0 <= k < sorted@.len() && 0 <= j < rest@.len() && sorted@[k].subfile_order
                    == rest@[j].subfile_order ==> #[trigger] sorted_places[k]
                    < #[trigger] rest_places[j],
        decreases rest@.len(),
    {
        let mut least: usize = 0;
        let mut k: usize = 1;
        while k < rest.len()
            invariant
                rest@.len() > 0,
                least < k,
                k <= rest@.len(),
                forall|j: int|
                    0 <= j < k ==> rest@[least as int].subfile_order <= (
                    #[trigger] rest@[j]).subfile_order,
                forall|j: int|
                    0 <= j < least ==> rest@[least as int].subfile_order < (
                    #[trigger] rest@[j]).subfile_order,
            decreases rest@.len() - k,
        {
            if rest[k].subfile_order < rest[least].subfile_order {
                least = k;
            }
            k = k + 1;
        }
        let ghost before_rest = rest@;
        let ghost before_sorted = sorted@;
        let ghost before_rest_places = rest_places;
        let ghost before_sorted_places = sorted_places;
        let next: mwalibRFInput = rest.remove(least);
        sorted.push(next);
        proof {
            rest_places = before_rest_places.remove(least as int);
            sorted_places = before_sorted_places.push(before_rest_places[least as int]);
            vstd::seq_lib::to_multiset_remove(before_rest, least as int);
            vstd::seq_lib::to_multiset_build(before_sorted, next);
            assert(before_rest.to_multiset().count(next) > 0) by {
                assert(before_rest[least as int] == next);
                assert(before_rest.contains(next));
                vstd::seq_lib::to_multiset_contains(before_rest, next);
            }
            assert(sorted@.to_multiset().add(rest@.to_multiset()) =~= before_sorted.to_multiset().add(
                before_rest.to_multiset(),
            ));
            let last = before_sorted.len() as int;
            assert forall|j: int| 0 <= j < rest@.len() implies rest@[j] == before_rest[if j < least {
                j
            } else {
                j + 1
            }] && #[trigger] rest_places[j] == before_rest_places[if j < least {
                j
            } else {
                j + 1
            }] by {}
            assert forall|j: int|
                0 <= j < rest@.len() implies 0 <= #[trigger] rest_places[j] < given.len() && rest@[j]
                == given[rest_places[j]] by {
                let j0 = if j < least {
                    j
                } else {
                    j + 1
                };
                assert(before_rest[j0] == given[before_rest_places[j0]]);
            }
            assert forall|j1: int, j2: int| 0 <= j1 < j2 < rest@.len() implies #[trigger] rest_places[j1]
                < #[trigger] rest_places[j2] by {
                let a = if j1 < least {
                    j1
                } else {
                    j1 + 1
                };
                let b = if j2 < least {
                    j2
                } else {
                    j2 + 1
                };
                assert(before_rest_places[a] < before_rest_places[b]);
            }
            assert forall|k: int|
                0 <= k < sorted@.len() implies 0 <= #[trigger] sorted_places[k] < given.len()
                && sorted@[k] == given[sorted_places[k]] by {
                if k < last {
                    assert(before_sorted[k] == given[before_sorted_places[k]]);
                } else {
                    assert(before_rest[least as int] == given[before_rest_places[least as int]]);
                }
            }
            assert forall|k1: int, k2: int| 0 <= k1 < k2 < sorted@.len() implies #[trigger] sorted_places[k1]
                != #[trigger] sorted_places[k2] by {
                if k2 < last {
                    assert(before_sorted_places[k1] != before_sorted_places[k2]);
                } else {
                    assert(before_sorted_places[k1] != before_rest_places[least as int]);
                }
            }
            assert forall|k: int, j: int|
                0 <= k < sorted@.len() && 0 <= j < rest@.len() implies #[trigger] sorted_places[k]
                != #[trigger] rest_places[j] by {
                let j0 = if j < least {
                    j
                } else {
                    j + 1
                };
                if k < last {
                    assert(before_sorted_places[k] != before_rest_places[j0]);
                } else if j0 < least {
                    assert(before_rest_places[j0] < before_rest_places[least as int]);
                } else {
                    assert(before_rest_places[least as int] < before_rest_places[j0]);
                }
            }
            assert forall|i: int, j: int| 0 <= i < j < sorted@.len() implies (
            #[trigger] sorted@[i]).subfile_order <= (#[trigger] sorted@[j]).subfile_order by {
                if j < last {
                    assert(before_sorted[i].subfile_order <= before_sorted[j].subfile_order);
                } else {
                    assert(before_sorted[i].subfile_order <= before_rest[least as int].subfile_order);
                }
            }
            assert forall|k1: int, k2: int|
                0 <= k1 < k2 < sorted@.len() && sorted@[k1].subfile_order
                    == sorted@[k2].subfile_order implies #[trigger] sorted_places[k1]
                < #[trigger] sorted_places[k2] by {
                if k2 < last {
                    assert(before_sorted_places[k1] < before_sorted_places[k2]);
                } else {
                    assert(before_sorted[k1].subfile_order == before_rest[least as int].subfile_order);
                    assert(before_sorted_places[k1] < before_rest_places[least as int]);
                }
            }
            assert forall|i: int, j: int|
                0 <= i < sorted@.len() && 0 <= j < rest@.len() implies (
            #[trigger] sorted@[i]).subfile_order <= (#[trigger] rest@[j]).subfile_order by {
                let j0 = if j < least {
                    j
                } else {
                    j + 1
                };
                if i < last {
                    assert(before_sorted[i].subfile_order <= before_rest[j0].subfile_order);
                } else {
                    assert(before_rest[least as int].subfile_order <= before_rest[j0].subfile_order);
                }
            }
            assert forall|k: int, j: int|
                0 <= k < sorted@.len() && 0 <= j < rest@.len() && sorted@[k].subfile_order
                    == rest@[j].subfile_order implies #[trigger] sorted_places[k]
                < #[trigger] rest_places[j] by {
                let j0 = if j < least {
                    j
                } else {
                    j + 1
                };
                if k < last {
                    assert(before_sorted[k].subfile_order == before_rest[j0].subfile_order);
                    assert(before_sorted_places[k] < before_rest_places[j0]);
                } else {
                    if j0 < least {
                        assert(before_rest[least as int].subfile_order < before_rest[j0].subfile_order);
                    }
                    assert(before_rest_places[least as int] < before_rest_places[j0]);
                }
            }
        }
    }
    proof {
        vstd::seq_lib::to_multiset_len(rest@);
        vstd::multiset::lemma_multiset_empty_len(rest@.to_multiset());
        assert(sorted@.to_multiset().add(rest@.to_multiset()) =~= sorted@.to_multiset());
        assert(is_stable_sort(sorted@, given, sorted_places));
    }
    sorted
}

} // verus!
