use huoziyinshua_rs::{HuoziError, Huoziyinshua};

fn names(list: &[&str]) -> Vec<String> {
    list.iter().map(|s| s.to_string()).collect()
}

fn sample_generator() -> Huoziyinshua {
    let files = names(&["ni.wav", "hao.wav", "sddl.wav", "silence.wav", "pin.mp3", ".hidden", ""]);
    Huoziyinshua::new("./sources", &files, '/')
}

#[test]
fn new_holds_no_audio() {
    let h = sample_generator();
    assert!(h.get_audio_data().is_none());
    let d = Huoziyinshua::default();
    assert!(d.get_audio_data().is_none());
    assert!(d.generate("你好", false).is_empty());
}

#[test]
fn generate_looks_up_each_syllable() {
    let h = sample_generator();
    assert_eq!(h.generate("你好", false), vec!["./sources/ni.wav", "./sources/hao.wav"]);
    assert_eq!(
        h.generate("你!好", false),
        vec!["./sources/ni.wav", "./sources/silence.wav", "./sources/hao.wav"]
    );
    assert!(h.generate("", true).is_empty());
}

#[test]
fn generate_skips_words_without_a_clip() {
    let h = sample_generator();
    assert_eq!(h.generate("你们好", false), vec!["./sources/ni.wav", "./sources/hao.wav"]);
}

#[test]
fn generate_uses_original_sound_phrases() {
    let h = sample_generator();
    assert_eq!(h.generate("说得道理", true), vec!["./sources/sddl.wav"]);
    assert!(h.generate("说得道理", false).is_empty());
}

#[test]
fn separator_follows_the_directory_name() {
    let files = names(&["ni.wav"]);
    let h = Huoziyinshua::new("dir/", &files, '/');
    assert_eq!(h.generate("你", false), vec!["dir/ni.wav"]);
    let h = Huoziyinshua::new("dir\\", &files, '/');
    assert_eq!(h.generate("你", false), vec!["dir\\ni.wav"]);
    let h = Huoziyinshua::new("dir", &files, '\\');
    assert_eq!(h.generate("你", false), vec!["dir\\ni.wav"]);
    let h = Huoziyinshua::new("", &files, '/');
    assert_eq!(h.generate("你", false), vec!["ni.wav"]);
}

#[test]
fn later_file_with_same_stem_wins() {
    let files = names(&["ni.wav", "ni.backup.mp3"]);
    let h = Huoziyinshua::new("s", &files, '/');
    assert_eq!(h.generate("你", false), vec!["s/ni.backup.mp3"]);
}

#[test]
fn stored_audio_is_read_back() {
    let mut h = sample_generator();
    h.set_audio_data(vec![1, -2, 3]);
    assert_eq!(h.get_audio_data(), Some(&vec![1, -2, 3]));
    assert_eq!(h.save_wav(), Ok(&vec![1, -2, 3]));
}

#[test]
fn save_without_audio_is_refused() {
    let h = sample_generator();
    assert_eq!(h.save_wav(), Err(HuoziError::NoDataToSave));
}

#[test]
fn transforms_without_audio_are_refused() {
    let mut h = sample_generator();
    assert_eq!(h.reverse(), Err(HuoziError::NoDataToTransform));
    assert_eq!(h.distortion(10), Err(HuoziError::NoDataToTransform));
    assert_eq!(h.distortion(-10), Err(HuoziError::NoDataToTransform));
    assert_eq!(h.smooth(), Err(HuoziError::NoDataToTransform));
    assert_eq!(h.volume(|s| s as i32), Err(HuoziError::NoDataToTransform));
    assert_eq!(h.echo(1, |s| s), Err(HuoziError::NoDataToTransform));
    assert!(h.get_audio_data().is_none());
}

#[test]
fn reverse_reverses() {
    let mut h = Huoziyinshua::default();
    h.set_audio_data(vec![1, 2, 3]);
    assert_eq!(h.reverse(), Ok(()));
    assert_eq!(h.get_audio_data(), Some(&vec![3, 2, 1]));
    assert_eq!(h.reverse(), Ok(()));
    assert_eq!(h.get_audio_data(), Some(&vec![1, 2, 3]));
}

#[test]
fn distortion_clips() {
    let mut h = Huoziyinshua::default();
    h.set_audio_data(vec![-300, -100, 0, 100, 300, i16::MIN, i16::MAX]);
    assert_eq!(h.distortion(200), Ok(()));
    assert_eq!(h.get_audio_data(), Some(&vec![-200, -100, 0, 100, 200, -200, 200]));
    assert_eq!(h.distortion(200), Ok(()));
    assert_eq!(h.get_audio_data(), Some(&vec![-200, -100, 0, 100, 200, -200, 200]));
    assert_eq!(h.distortion(0), Ok(()));
    assert_eq!(h.get_audio_data(), Some(&vec![0; 7]));
}

#[test]
fn distortion_of_empty_audio_accepts_any_threshold() {
    let mut h = Huoziyinshua::default();
    h.set_audio_data(vec![]);
    assert_eq!(h.distortion(-5), Ok(()));
    assert_eq!(h.get_audio_data(), Some(&vec![]));
}

#[test]
fn smooth_averages_inner_samples() {
    let mut h = Huoziyinshua::default();
    h.set_audio_data(vec![3, 6, 9, 1, -1, -1, 0]);
    assert_eq!(h.smooth(), Ok(()));
    // (3+6+9)/3=6, (6+9+1)/3=5, (9+1-1)/3=3, (1-1-1)/3=0, (-1-1+0)/3=0
    assert_eq!(h.get_audio_data(), Some(&vec![3, 6, 5, 3, 0, 0, 0]));
}

#[test]
fn smooth_rounds_toward_zero() {
    let mut h = Huoziyinshua::default();
    h.set_audio_data(vec![-5, -5, -5, -6]);
    assert_eq!(h.smooth(), Ok(()));
    // (-5-5-5)/3=-5, (-5-5-6)/3=-16/3 -> -5
    assert_eq!(h.get_audio_data(), Some(&vec![-5, -5, -5, -6]));
    h.set_audio_data(vec![i16::MAX, i16::MAX, i16::MAX]);
    assert_eq!(h.smooth(), Ok(()));
    assert_eq!(h.get_audio_data(), Some(&vec![i16::MAX; 3]));
}

#[test]
fn smooth_needs_three_samples() {
    let mut h = Huoziyinshua::default();
    h.set_audio_data(vec![1, 2]);
    assert_eq!(h.smooth(), Err(HuoziError::NotEnoughDataToSmooth));
    assert_eq!(h.get_audio_data(), Some(&vec![1, 2]));
}

#[test]
fn volume_clamps_to_sixteen_bits() {
    let mut h = Huoziyinshua::default();
    h.set_audio_data(vec![100, -100, 20000, -20000]);
    assert_eq!(h.volume(|s| s as i32 * 2), Ok(()));
    assert_eq!(h.get_audio_data(), Some(&vec![200, -200, 32767, -32768]));
}

#[test]
fn echo_feeds_back_echoed_samples() {
    let mut h = Huoziyinshua::default();
    h.set_audio_data(vec![100, 0, 0, 0, 0]);
    assert_eq!(h.echo(2, |s| s / 2), Ok(()));
    assert_eq!(h.get_audio_data(), Some(&vec![100, 0, 50, 0, 25]));
}

#[test]
fn echo_with_zero_delay_uses_the_sample_itself() {
    let mut h = Huoziyinshua::default();
    h.set_audio_data(vec![10, -20, 30000]);
    assert_eq!(h.echo(0, |s| s), Ok(()));
    assert_eq!(h.get_audio_data(), Some(&vec![20, -40, 32767]));
}

#[test]
fn echo_longer_than_audio_changes_nothing() {
    let mut h = Huoziyinshua::default();
    h.set_audio_data(vec![1, 2, 3]);
    assert_eq!(h.echo(10, |s| s), Ok(()));
    assert_eq!(h.get_audio_data(), Some(&vec![1, 2, 3]));
}
