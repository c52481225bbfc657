use huoziyinshua_rs::audio_processor::{self, ChannelSamples};
use huoziyinshua_rs::connect;
use huoziyinshua_rs::{ascii_to_pinyin, Huoziyinshua};

fn with_audio(samples: Vec<i16>) -> Huoziyinshua {
    let mut h = Huoziyinshua::default();
    h.set_audio_data(samples);
    h
}

#[test]
fn eight_bit_widening_is_exact_on_values() {
    for s in [i8::MIN, -1, 0, 1, i8::MAX] {
        let mut out = Vec::new();
        audio_processor::append_decoded(&mut out, &ChannelSamples::S8(vec![s]));
        assert_eq!(out, vec![256 * s as i16]);
    }
}

#[test]
fn decoders_agree_on_sixteen_bit_values() {
    let chan = ChannelSamples::S16(vec![5, -6, 7]);
    let mut a = Vec::new();
    let mut b = Vec::new();
    audio_processor::append_decoded(&mut a, &chan);
    connect::append_decoded(&mut b, &chan);
    assert_eq!(a, b);
    assert_eq!(a, vec![5, -6, 7]);
}

#[test]
fn joining_one_clip_gives_it() {
    assert_eq!(audio_processor::concat_audio(&[vec![4, 5, 6]]), vec![4, 5, 6]);
}

#[test]
fn reverse_keeps_samples_on_values() {
    let mut h = with_audio(vec![3, 1, 3, 2]);
    h.reverse().unwrap();
    let mut got = h.get_audio_data().unwrap().clone();
    got.sort();
    assert_eq!(got, vec![1, 2, 3, 3]);
}

#[test]
fn distortion_is_bounded_on_values() {
    let mut h = with_audio(vec![i16::MIN, -7, 7, i16::MAX]);
    h.distortion(5).unwrap();
    assert!(h.get_audio_data().unwrap().iter().all(|s| (-5..=5).contains(s)));
}

#[test]
fn quiet_audio_survives_distortion() {
    let mut h = with_audio(vec![-3, 0, 3]);
    h.distortion(3).unwrap();
    assert_eq!(h.get_audio_data(), Some(&vec![-3, 0, 3]));
}

#[test]
fn smoothing_stays_between_neighbours_on_values() {
    let input: Vec<i16> = vec![10, -20, 30, -40, 50, 7];
    let mut h = with_audio(input.clone());
    h.smooth().unwrap();
    let out = h.get_audio_data().unwrap();
    assert_eq!(out.len(), input.len());
    assert_eq!(out[0], input[0]);
    assert_eq!(out[5], input[5]);
    for i in 1..input.len() - 1 {
        let lo = input[i - 1].min(input[i]).min(input[i + 1]);
        let hi = input[i - 1].max(input[i]).max(input[i + 1]);
        assert!(lo <= out[i] && out[i] <= hi);
    }
}

#[test]
fn constant_audio_survives_smoothing() {
    let mut h = with_audio(vec![-9; 6]);
    h.smooth().unwrap();
    assert_eq!(h.get_audio_data(), Some(&vec![-9; 6]));
}

#[test]
fn clip_table_keys_are_stems_on_values() {
    let files: Vec<String> = ["a.b.c", ".x", "", "ni", "hao.wav"].iter().map(|s| s.to_string()).collect();
    let h = Huoziyinshua::new("d", &files, '/');
    // "a" and "ni" and "hao" are keys; the dotfile and the empty name are not.
    assert_eq!(h.generate("啊", false), vec!["d/a.b.c"]);
    assert_eq!(h.generate("你好", false), vec!["d/ni", "d/hao.wav"]);
}

#[test]
fn generated_paths_come_from_the_table() {
    let files: Vec<String> = ["ni.wav", "hao.wav"].iter().map(|s| s.to_string()).collect();
    let h = Huoziyinshua::new("d", &files, '/');
    let paths = h.generate("你好你好吗", false);
    assert_eq!(paths.len(), 4);
    assert!(paths.iter().all(|p| p == "d/ni.wav" || p == "d/hao.wav"));
}

#[test]
fn text_without_alnum_or_whitespace_is_kept() {
    assert_eq!(ascii_to_pinyin("说得道理！"), "说得道理！");
}

#[test]
fn generation_ignores_case_and_rewriting_on_values() {
    let files: Vec<String> = ["ei.wav", "bi.wav", "xi.wav", "silence.wav"].iter().map(|s| s.to_string()).collect();
    let h = Huoziyinshua::new("d", &files, '/');
    let a = h.generate("AbC!", false);
    assert_eq!(a, h.generate("aBc!", false));
    assert_eq!(a, h.generate(&ascii_to_pinyin("AbC!"), false));
    assert!(!a.is_empty());
}

#[test]
fn generation_ignores_held_audio_on_values() {
    let files: Vec<String> = ["ni.wav", "hao.wav"].iter().map(|s| s.to_string()).collect();
    let mut h1 = Huoziyinshua::new("d", &files, '/');
    let h2 = Huoziyinshua::new("d", &files, '/');
    h1.set_audio_data(vec![1, 2, 3]);
    assert_eq!(h1.generate("你好", true), h2.generate("你好", true));
    h1.set_audio_data(vec![9]);
    assert_eq!(h1.get_audio_data(), Some(&vec![9]));
}
