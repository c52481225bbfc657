//! The 16-bit-only variant of decoding and joining clips.

use vstd::prelude::*;
use crate::audio_processor::{ChannelSamples, joined};

verus! {

/// The samples that one decoded channel contributes when only native
/// 16-bit channels are kept: every other format contributes nothing.
pub open spec fn s16_only(chan: ChannelSamples) -> Seq<i16> {
    match chan {
        ChannelSamples::S16(v) => v@,
        _ => Seq::empty(),
    }
}

/// Appends one decoded channel to `samples` if it holds 16-bit samples,
/// and skips it otherwise.
pub fn append_decoded(samples: &mut Vec<i16>, chan: &ChannelSamples)
    ensures
        final(samples)@ == old(samples)@ + s16_only(*chan),
{
    if let ChannelSamples::S16(v) = chan {
        let ghost start = samples@;
        for i in 0..v.len()
            invariant
                samples@ == start + v@.take(i as int),
        {
            samples.push(v[i]);
            assert(v@.take(i + 1) == v@.take(i as int).push(v@[i as int]));
        }
        assert(v@.take(v.len() as int) == v@);
    } else {
        assert(old(samples)@ + s16_only(*chan) == old(samples)@);
    }
}

/// Joins decoded clips, in order, into one sample stream.
pub fn concat_audio(parts: &[Vec<i16>]) -> (result: Vec<i16>)
    ensures
        result@ == joined(parts@),
{
    crate::audio_processor::concat_audio(parts)
}

} // verus!
