//! The timesteps of an observation.

use crate::misc::{
    convert_gpstime_to_unixtime, convert_unixtime_to_gpstime, gpstime_to_unixtime,
    unixtime_to_gpstime,
};
use crate::time_map::{complete_times_of, time_counts, GpuboxTimeMap};
use vstd::arithmetic::div_mod::{lemma_fundamental_div_mod, lemma_fundamental_div_mod_converse};
use vstd::prelude::*;

verus! {

/// A timestep of an observation, in both time references. Correlator
/// timesteps come with UNIX time and voltage timesteps with GPS time; the
/// other is worked out from the scheduled start of the observation.
#[derive(Debug, Clone, Copy, PartialEq, Eq, Structural)]
pub struct TimeStep {
    /// UNIX time, in milliseconds.
    pub unix_time_ms: u64,
    /// GPS time, in milliseconds.
    pub gps_time_ms: u64,
}

/// Timesteps that start at `start_gps_time_ms` or later and before
/// `end_gps_time_ms`, `interval_ms` apart.
pub open spec fn voltage_timestep_count(
    start_gps_time_ms: u64,
    end_gps_time_ms: u64,
    interval_ms: u64,
) -> int {
    if end_gps_time_ms <= start_gps_time_ms {
        0
    } else {
        (end_gps_time_ms - start_gps_time_ms - 1) / (interval_ms as int) + 1
    }
}

impl TimeStep {
    /// A timestep with the given times.
    pub fn new(unix_time_ms: u64, gps_time_ms: u64) -> (timestep: Self)
        ensures
            timestep.unix_time_ms == unix_time_ms,
            timestep.gps_time_ms == gps_time_ms,
    {
        TimeStep { unix_time_ms, gps_time_ms }
    }

    /// The timesteps of a correlator observation: one for each time for
    /// which the time index is complete, that is, holds as many channels as
    /// for its fullest time. `None` where the index is empty.
    pub fn populate_correlator_timesteps(
        gpubox_time_map: &GpuboxTimeMap,
        scheduled_starttime_gps_ms: u64,
        scheduled_starttime_unix_ms: u64,
    ) -> (result: Option<Vec<Self>>)
        ensures
            result is None <==> time_counts(gpubox_time_map@).len() == 0,
            result matches Some(timesteps) ==> {
                let times = complete_times_of(gpubox_time_map@);
                &&& timesteps@.len() == times.len()
                &&& forall|i: int|
                    0 <= i < times.len() ==> (#[trigger] timesteps@[i]).unix_time_ms == times[i]
                        && timesteps@[i].gps_time_ms == unixtime_to_gpstime(
                        times[i],
                        scheduled_starttime_gps_ms,
                        scheduled_starttime_unix_ms,
                    )
            },
    {
        if gpubox_time_map.count_channels_by_time().len() == 0 {
            return None;
        }
        let times: Vec<u64> = gpubox_time_map.complete_bucket_times();
        let mut timesteps: Vec<TimeStep> = Vec::new();
        let mut i: usize = 0;
        while i < times.len()
            invariant
                i <= times@.len(),
                timesteps@.len() == i,
                forall|j: int|
                    0 <= j < i ==> (#[trigger] timesteps@[j]).unix_time_ms == times@[j]
                        && timesteps@[j].gps_time_ms == unixtime_to_gpstime(
                        times@[j],
                        scheduled_starttime_gps_ms,
                        scheduled_starttime_unix_ms,
                    ),
            decreases times@.len() - i,
        {
            let unix_time_ms: u64 = times[i];
            let gps_time_ms: u64 = convert_unixtime_to_gpstime(
                unix_time_ms,
                scheduled_starttime_gps_ms,
                scheduled_starttime_unix_ms,
            );
            timesteps.push(TimeStep::new(unix_time_ms, gps_time_ms));
            i = i + 1;
        }
        Some(timesteps)
    }

    /// The timesteps of a voltage observation: from `start_gps_time_ms`
    /// on and before `end_gps_time_ms`, one every
    /// `voltage_file_interval_ms`.
    pub fn populate_voltage_timesteps(
        start_gps_time_ms: u64,
        end_gps_time_ms: u64,
        voltage_file_interval_ms: u64,
        scheduled_starttime_gps_ms: u64,
        scheduled_starttime_unix_ms: u64,
    ) -> (timesteps: Vec<Self>)
        requires
            voltage_file_interval_ms > 0,
        ensures
            timesteps@.len() == voltage_timestep_count(
                start_gps_time_ms,
                end_gps_time_ms,
                voltage_file_interval_ms,
            ),
            forall|i: int|
                0 <= i < timesteps@.len() ==> (#[trigger] timesteps@[i]).gps_time_ms
                    == start_gps_time_ms + i * voltage_file_interval_ms
                    && timesteps@[i].unix_time_ms == gpstime_to_unixtime(
                    timesteps@[i].gps_time_ms,
                    scheduled_starttime_gps_ms,
                    scheduled_starttime_unix_ms,
                ),
    {
        let mut timesteps: Vec<TimeStep> = Vec::new();
        let ghost total = voltage_timestep_count(
            start_gps_time_ms,
            end_gps_time_ms,
            voltage_file_interval_ms,
        );
        let ghost step = voltage_file_interval_ms as int;
        let ghost span = end_gps_time_ms - start_gps_time_ms;
        let mut gps_time: u64 = start_gps_time_ms;
        if end_gps_time_ms <= start_gps_time_ms {
            return timesteps;
        }
        proof {
            lemma_fundamental_div_mod(span - 1, step);
            assert(start_gps_time_ms + 0 * step == start_gps_time_ms) by (nonlinear_arith);
            assert(((span - 1) / step) * step >= 0 ==> (span - 1) / step >= 0) by (nonlinear_arith)
                requires
                    step > 0,
            ;
            assert(step * ((span - 1) / step) == ((span - 1) / step) * step) by (nonlinear_arith);
        }
        while gps_time < end_gps_time_ms
            invariant
                step == voltage_file_interval_ms,
                step > 0,
                span == end_gps_time_ms - start_gps_time_ms,
                span > 0,
                total == (span - 1) / step + 1,
                timesteps@.len() <= total,
                timesteps@.len() < total ==> gps_time == start_gps_time_ms + timesteps@.len() * step
                    && gps_time < end_gps_time_ms,
                timesteps@.len() == total ==> gps_time == end_gps_time_ms,
                forall|i: int|
                    0 <= i < timesteps@.len() ==> (#[trigger] timesteps@[i]).gps_time_ms
                        == start_gps_time_ms + i * step && timesteps@[i].unix_time_ms
                        == gpstime_to_unixtime(
                        timesteps@[i].gps_time_ms,
                        scheduled_starttime_gps_ms,
                        scheduled_starttime_unix_ms,
                    ),
            decreases end_gps_time_ms - gps_time,
        {
            let ghost k = timesteps@.len() as int;
            let unix_time_ms: u64 = convert_gpstime_to_unixtime(
                gps_time,
                scheduled_starttime_gps_ms,
                scheduled_starttime_unix_ms,
            );
            timesteps.push(TimeStep::new(unix_time_ms, gps_time));
            if end_gps_time_ms - gps_time <= voltage_file_interval_ms {
                proof {
                    let rest = span - 1 - k * step;
                    assert(0 <= rest < step);
                    lemma_fundamental_div_mod_converse(span - 1, step, k, rest);
                }
                gps_time = end_gps_time_ms;
            } else {
                proof {
                    lemma_fundamental_div_mod(span - 1, step);
                    let q = (span - 1) / step;
                    assert(step * q == q * step) by (nonlinear_arith);
                    assert((k + 1) * step == k * step + step) by (nonlinear_arith);
                    assert(q >= k + 1) by (nonlinear_arith)
                        requires
                            q * step + (span - 1) % step == span - 1,
                            (span - 1) % step < step,
                            (k + 1) * step <= span - 1,
                            step > 0,
                    ;
                }
                gps_time = gps_time + voltage_file_interval_ms;
            }
        }
        timesteps
    }
}

/// A timestep of a correlator observation.
#[allow(non_camel_case_types)]
#[derive(Debug, Clone, Copy, PartialEq, Eq, Structural)]
pub struct mwalibTimeStep {
    /// UNIX time at which the timestep starts, in milliseconds.
    pub unix_time_ms: u64,
}

/// The timesteps that start at the given times.
pub open spec fn timesteps_of(times: Seq<u64>) -> Seq<mwalibTimeStep> {
    Seq::new(times.len(), |i: int| mwalibTimeStep { unix_time_ms: times[i] })
}

impl mwalibTimeStep {
    /// A timestep that starts at the given time.
    pub fn new(unix_time_ms: u64) -> (timestep: Self)
        ensures
            timestep.unix_time_ms == unix_time_ms,
    {
        mwalibTimeStep { unix_time_ms }
    }

    /// The timesteps of an observation: one for each time for which the
    /// time index is complete, that is, holds as many channels as for its
    /// fullest time. `None` where the index is empty.
    pub fn populate_timesteps(gpubox_time_map: &GpuboxTimeMap) -> (result: Option<Vec<Self>>)
        ensures
            result is None <==> time_counts(gpubox_time_map@).len() == 0,
            result matches Some(timesteps) ==> timesteps@ == timesteps_of(
                complete_times_of(gpubox_time_map@),
            ),
    {
        if gpubox_time_map.count_channels_by_time().len() == 0 {
            return None;
        }
        let times: Vec<u64> = gpubox_time_map.complete_bucket_times();
        let mut timesteps: Vec<mwalibTimeStep> = Vec::new();
        let mut i: usize = 0;
        while i < times.len()
            invariant
                i <= times@.len(),
                timesteps@.len() == i,
                forall|j: int| 0 <= j < i ==> (#[trigger] timesteps@[j]).unix_time_ms == times@[j],
            decreases times@.len() - i,
        {
            timesteps.push(mwalibTimeStep::new(times[i]));
            i = i + 1;
        }
        assert(timesteps@ =~= timesteps_of(times@));
        Some(timesteps)
    }
}

} // verus!
