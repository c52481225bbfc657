use huoziyinshua_rs::audio_processor::{self, ChannelSamples};
use huoziyinshua_rs::connect;

#[test]
fn eight_bit_samples_are_scaled() {
    let mut out = vec![7];
    audio_processor::append_decoded(&mut out, &ChannelSamples::S8(vec![-128, 0, 1, 127]));
    assert_eq!(out, vec![7, -32768, 0, 256, 32512]);
}

#[test]
fn sixteen_bit_samples_pass_through() {
    let mut out = Vec::new();
    audio_processor::append_decoded(&mut out, &ChannelSamples::S16(vec![-5, 0, 32767]));
    assert_eq!(out, vec![-5, 0, 32767]);
}

#[test]
fn wide_samples_keep_their_top_bits() {
    let mut out = Vec::new();
    audio_processor::append_decoded(&mut out, &ChannelSamples::S24(vec![0x7f_ffff, -0x80_0000, 256, -1]));
    assert_eq!(out, vec![32767, -32768, 1, -1]);
    let mut out = Vec::new();
    audio_processor::append_decoded(&mut out, &ChannelSamples::S32(vec![i32::MAX, i32::MIN, 65536, -1]));
    assert_eq!(out, vec![32767, -32768, 1, -1]);
}

#[test]
fn other_formats_are_skipped() {
    let mut out = vec![1, 2];
    audio_processor::append_decoded(&mut out, &ChannelSamples::Other);
    assert_eq!(out, vec![1, 2]);
}

#[test]
fn sixteen_bit_only_decoder_skips_other_formats() {
    let mut out = vec![3];
    connect::append_decoded(&mut out, &ChannelSamples::S8(vec![1, 2]));
    connect::append_decoded(&mut out, &ChannelSamples::S32(vec![65536]));
    connect::append_decoded(&mut out, &ChannelSamples::S16(vec![9, -9]));
    assert_eq!(out, vec![3, 9, -9]);
}

#[test]
fn clips_are_joined_in_order() {
    let parts = vec![vec![1, 2], vec![], vec![3]];
    assert_eq!(audio_processor::concat_audio(&parts), vec![1, 2, 3]);
    assert_eq!(connect::concat_audio(&parts), vec![1, 2, 3]);
    assert_eq!(audio_processor::concat_audio(&[]), Vec::<i16>::new());
}

#[test]
fn joining_splits_like_the_list() {
    let x = vec![vec![1, 2], vec![3]];
    let y = vec![vec![4], vec![5, 6]];
    let mut xy = x.clone();
    xy.extend(y.clone());
    let mut expected = audio_processor::concat_audio(&x);
    expected.extend(audio_processor::concat_audio(&y));
    assert_eq!(audio_processor::concat_audio(&xy), expected);
}
