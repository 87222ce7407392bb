//! What a binding to another language needs of the library, in safe
//! terms: a context that may be missing, a buffer of a given length, and
//! errors as messages.

use crate::baseline::Baseline;
use crate::coarse_channel::mwalibCoarseChannel;
use crate::context::mwalibContext;
use crate::misc::baseline_count;
use crate::timestep::mwalibTimeStep;
use crate::visibility_pol::VisibilityPol;
use vstd::prelude::*;
use vstd::string::StringExecFns;

verus! {

/// The bytes that go into a caller's message buffer of `error_buffer_len`
/// bytes for the message `in_message`, or `None` where nothing is written:
/// the buffer has no room but for the terminator, or the message holds a
/// zero byte.
///
/// A message that is longer than the buffer is cut to one byte less than
/// the buffer, so that the terminator fits.
pub open spec fn error_message_bytes(in_message: Seq<u8>, error_buffer_len: usize) -> Option<
    Seq<u8>,
> {
    let kept = if in_message.len() > error_buffer_len {
        in_message.take(error_buffer_len - 1)
    } else {
        in_message
    };
    if error_buffer_len < 2 || kept.contains(0u8) || kept.len() >= error_buffer_len {
        None
    } else {
        Some(kept.push(0u8))
    }
}

/// The bytes to write into a caller's message buffer: the message, cut
/// where it is too long, and a terminating zero.
pub fn set_error_message(in_message: &[u8], error_buffer_len: usize) -> (bytes: Option<Vec<u8>>)
    ensures
        match bytes {
            Some(bytes) => error_message_bytes(in_message@, error_buffer_len) == Some(bytes@),
            None => error_message_bytes(in_message@, error_buffer_len) is None,
        },
{
    if error_buffer_len < 2 {
        return None;
    }
    let keep: usize = if in_message.len() > error_buffer_len {
        error_buffer_len - 1
    } else {
        in_message.len()
    };
    if keep >= error_buffer_len {
        assert(in_message@.len() == error_buffer_len);
        return None;
    }
    let ghost kept = in_message@.take(keep as int);
    assert(in_message@.len() <= error_buffer_len ==> kept =~= in_message@);
    let mut bytes: Vec<u8> = Vec::new();
    let mut i: usize = 0;
    while i < keep
        invariant
            keep <= in_message@.len(),
            error_buffer_len >= 2,
            kept == in_message@.take(keep as int),
            kept == (if in_message@.len() > error_buffer_len {
                in_message@.take(error_buffer_len - 1)
            } else {
                in_message@
            }),
            i <= keep,
            bytes@ == kept.take(i as int),
            !bytes@.contains(0u8),
        decreases keep - i,
    {
        let b: u8 = in_message[i];
        if b == 0 {
            assert(kept[i as int] == 0u8);
            assert(kept.contains(0u8));
            return None;
        }
        let ghost before = bytes@;
        bytes.push(b);
        proof {
            assert(bytes@ =~= kept.take(i as int + 1));
            assert forall|k: int| 0 <= k < bytes@.len() implies bytes@[k] != 0u8 by {
                if k < i {
                    assert(before.contains(before[k]));
                }
            }
        }
        i = i + 1;
    }
    assert(bytes@ =~= kept);
    bytes.push(0);
    Some(bytes)
}

/// The baselines of a correlator observation, or a message where there is
/// no context.
pub fn mwalib_correlator_baselines_get(correlator_context: Option<&mwalibContext>) -> (result:
    Result<Vec<Baseline>, String>)
    requires
        correlator_context matches Some(context) ==> baseline_count(context.num_antennas as int)
            <= usize::MAX,
    ensures
        match correlator_context {
            Some(context) => result matches Ok(baselines) && baselines@.len() == baseline_count(
                context.num_antennas as int,
            ) && (context.wf() ==> baselines@.len() == context.num_baselines) && forall|
                a1: int,
                a2: int,
            |
                0 <= a1 <= a2 < context.num_antennas ==> baselines@[#[trigger] crate::misc::baseline_index(
                    a1,
                    a2,
                    context.num_antennas as int,
                )] == (Baseline { ant1_index: a1 as usize, ant2_index: a2 as usize }),
            None => result matches Err(message) && message@
                == "mwalib_correlator_baselines_get() ERROR: null pointer for correlator_context_ptr passed in"@,
        },
{
    match correlator_context {
        Some(context) => Ok(Baseline::populate_baselines(context.num_antennas)),
        None => Err(
            String::from_str(
                "mwalib_correlator_baselines_get() ERROR: null pointer for correlator_context_ptr passed in",
            ),
        ),
    }
}

/// The polarisation products of a correlator observation, or a message
/// where there is no context.
pub fn mwalib_correlator_visibility_pols_get(correlator_context: Option<&mwalibContext>) -> (result:
    Result<Vec<VisibilityPol>, String>)
    ensures
        match correlator_context {
            Some(context) => result matches Ok(pols) && pols@.len() == 4 && pols@[0].polarisation@
                == "XX"@ && pols@[1].polarisation@ == "XY"@ && pols@[2].polarisation@ == "YX"@
                && pols@[3].polarisation@ == "YY"@,
            None => result matches Err(message) && message@
                == "mwalib_correlator_visibility_pols_get() ERROR: null pointer for correlator_context_ptr passed in"@,
        },
{
    match correlator_context {
        Some(_) => Ok(VisibilityPol::populate_visibility_pols()),
        None => Err(
            String::from_str(
                "mwalib_correlator_visibility_pols_get() ERROR: null pointer for correlator_context_ptr passed in",
            ),
        ),
    }
}

/// The timestep at `timestep_index` of a context, or `None` where the
/// index is beyond the last timestep.
pub fn timestep_get(context: &mwalibContext, timestep_index: usize) -> (timestep: Option<mwalibTimeStep>)
    ensures
        timestep == (if timestep_index < context.timesteps@.len() {
            Some(context.timesteps@[timestep_index as int])
        } else {
            None
        }),
{
    if timestep_index < context.timesteps.len() {
        Some(context.timesteps[timestep_index])
    } else {
        None
    }
}

/// The coarse channel at `coarse_channel_index` of a context, or `None`
/// where the index is beyond the last coarse channel.
pub fn coarse_channel_get(context: &mwalibContext, coarse_channel_index: usize) -> (channel: Option<
    mwalibCoarseChannel,
>)
    ensures
        channel == (if coarse_channel_index < context.coarse_channels@.len() {
            Some(context.coarse_channels@[coarse_channel_index as int])
        } else {
            None
        }),
{
    if coarse_channel_index < context.coarse_channels.len() {
        Some(context.coarse_channels[coarse_channel_index])
    } else {
        None
    }
}

} // verus!
