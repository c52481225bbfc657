//! Turning decoded audio channels into 16-bit samples and joining clips.

use vstd::prelude::*;

verus! {

/// The first channel of one decoded packet, as plain integer samples.
///
/// `S24` holds the 24-bit samples in the low bits of an `i32`, as the
/// decoder stores them. Formats that are not converted are `Other`.
pub enum ChannelSamples {
    S8(Vec<i8>),
    S16(Vec<i16>),
    S24(Vec<i32>),
    S32(Vec<i32>),
    Other,
}

/// An 8-bit sample widened to 16 bits (scaled by 256).
pub open spec fn s8_to_i16(s: i8) -> i16 {
    (s * 256) as i16
}

/// A 24-bit sample narrowed to 16 bits: its top 16 bits.
pub open spec fn s24_to_i16(s: i32) -> i16 {
    (s >> 8u32) as i16
}

/// A 32-bit sample narrowed to 16 bits: its top 16 bits.
pub open spec fn s32_to_i16(s: i32) -> i16 {
    (s >> 16u32) as i16
}

/// The 16-bit samples that one decoded channel contributes.
pub open spec fn channel_to_i16(chan: ChannelSamples) -> Seq<i16> {
    match chan {
        ChannelSamples::S8(v) => v@.map_values(|s: i8| s8_to_i16(s)),
        ChannelSamples::S16(v) => v@,
        ChannelSamples::S24(v) => v@.map_values(|s: i32| s24_to_i16(s)),
        ChannelSamples::S32(v) => v@.map_values(|s: i32| s32_to_i16(s)),
        ChannelSamples::Other => Seq::empty(),
    }
}

/// The concatenation of the views of a list of clips.
pub open spec fn joined(parts: Seq<Vec<i16>>) -> Seq<i16> {
    parts.map_values(|v: Vec<i16>| v@).flatten()
}

/// Appends the 16-bit form of one decoded channel to `samples`.
pub fn append_decoded(samples: &mut Vec<i16>, chan: &ChannelSamples)
    ensures
        final(samples)@ == old(samples)@ + channel_to_i16(*chan),
{
    let ghost start = samples@;
    match chan {
        ChannelSamples::S8(v) => {
            for i in 0..v.len()
                invariant
                    samples@ == start + v@.take(i as int).map_values(|s: i8| s8_to_i16(s)),
            {
                let s = v[i];
                let w: i16 = (s as i16) * 256;
                samples.push(w);
                assert(v@.take(i + 1) == v@.take(i as int).push(s));
            }
            assert(v@.take(v.len() as int) == v@);
        },
        ChannelSamples::S16(v) => {
            for i in 0..v.len()
                invariant
                    samples@ == start + v@.take(i as int),
            {
                samples.push(v[i]);
                assert(v@.take(i + 1) == v@.take(i as int).push(v@[i as int]));
            }
            assert(v@.take(v.len() as int) == v@);
        },
        ChannelSamples::S24(v) => {
            for i in 0..v.len()
                invariant
                    samples@ == start + v@.take(i as int).map_values(|s: i32| s24_to_i16(s)),
            {
                let s = v[i];
                samples.push((s >> 8u32) as i16);
                assert(v@.take(i + 1) == v@.take(i as int).push(s));
            }
            assert(v@.take(v.len() as int) == v@);
        },
        ChannelSamples::S32(v) => {
            for i in 0..v.len()
                invariant
                    samples@ == start + v@.take(i as int).map_values(|s: i32| s32_to_i16(s)),
            {
                let s = v[i];
                samples.push((s >> 16u32) as i16);
                assert(v@.take(i + 1) == v@.take(i as int).push(s));
            }
            assert(v@.take(v.len() as int) == v@);
        },
        ChannelSamples::Other => {
            assert(samples@ == start + Seq::<i16>::empty());
        },
    }
}

/// Joins decoded clips, in order, into one sample stream.
pub fn concat_audio(parts: &[Vec<i16>]) -> (result: Vec<i16>)
    ensures
        result@ == joined(parts@),
{
    let mut result: Vec<i16> = Vec::new();
    for k in 0..parts.len()
        invariant
            result@ == joined(parts@.take(k as int)),
    {
        let part = &parts[k];
        let ghost before = result@;
        for i in 0..part.len()
            invariant
                result@ == before + part@.take(i as int),
        {
            result.push(part[i]);
            assert(part@.take(i + 1) == part@.take(i as int).push(part@[i as int]));
        }
        proof {
            assert(part@.take(part@.len() as int) == part@);
            let ps = parts@.take(k as int).map_values(|v: Vec<i16>| v@);
            assert(parts@.take(k + 1).map_values(|v: Vec<i16>| v@) == ps.push(part@));
            ps.lemma_flatten_push(part@);
        }
    }
    assert(parts@.take(parts@.len() as int) == parts@);
    result
}

} // verus!
