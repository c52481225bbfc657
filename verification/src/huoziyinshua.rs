//! The speech generator: a table from syllable words to clip files, and the
//! current 16-bit mono sample stream with its transformations.

use vstd::prelude::*;
use vstd::hash_map::StringHashMap;
use crate::text::{
    chars_of, push_char, views, ascii_to_pinyin, pinyin_line, apply_original_sound, original_sound_walk,
    split_whitespace, is_table_walk, spec_ascii_to_pinyin, spec_pinyin_line,
    spec_apply_original_sound, spec_split_whitespace,
};

verus! {

/// Why an operation on the sample stream was refused.
#[derive(Debug, Clone, Copy, PartialEq, Eq, Structural)]
pub enum HuoziError {
    /// `save_wav` was asked for while no audio has been generated.
    NoDataToSave,
    /// A transformation was asked for while no audio has been generated.
    NoDataToTransform,
    /// `smooth` needs at least three samples.
    NotEnoughDataToSmooth,
}

/// The generator: which clip file holds which syllable word, and the audio
/// generated last (none before the first generation).
pub struct Huoziyinshua {
    word_map: StringHashMap<String>,
    audio_data: Option<Vec<i16>>,
}

// ---------------------------------------------------------------------------
// The clip table
// ---------------------------------------------------------------------------

/// The stem of a file name: everything before its first `.`.
pub open spec fn file_stem(name: Seq<char>) -> Seq<char>
    decreases name.len(),
{
    if name.len() == 0 || name[0] == '.' {
        Seq::empty()
    } else {
        seq![name[0]] + file_stem(name.drop_first())
    }
}

/// What goes between the directory and a file name: nothing when the
/// directory is empty or already ends in `/` or `\`, the platform's main
/// separator otherwise.
pub open spec fn path_separator(path: Seq<char>, main_separator: char) -> Seq<char> {
    if path.len() == 0 || path.last() == '/' || path.last() == '\\' {
        Seq::empty()
    } else {
        seq![main_separator]
    }
}

/// The clip table built from the files of directory `path`, listed in
/// `names` order: each file with a non-empty stem is entered under its stem,
/// and a later file overrides an earlier one with the same stem.
pub open spec fn spec_word_map(path: Seq<char>, sep: Seq<char>, names: Seq<Seq<char>>) -> Map<
    Seq<char>,
    Seq<char>,
>
    decreases names.len(),
{
    if names.len() == 0 {
        Map::empty()
    } else {
        let table = spec_word_map(path, sep, names.drop_last());
        let name = names.last();
        if file_stem(name).len() == 0 {
            table
        } else {
            table.insert(file_stem(name), path + sep + name)
        }
    }
}

/// The clip paths of the words that the table holds, in word order; words
/// that the table does not hold are skipped.
pub open spec fn spec_word_paths(table: Map<Seq<char>, Seq<char>>, words: Seq<Seq<char>>) -> Seq<
    Seq<char>,
>
    decreases words.len(),
{
    if words.len() == 0 {
        Seq::empty()
    } else {
        let paths = spec_word_paths(table, words.drop_last());
        if table.contains_key(words.last()) {
            paths.push(table[words.last()])
        } else {
            paths
        }
    }
}

/// The syllable line of a sentence: its characters rewritten, read as
/// pinyin, and, when `original_sound` is set, with the original-sound
/// phrases replaced in the table order `order`.
pub open spec fn spec_syllable_line(sentence: Seq<char>, original_sound: bool, order: Seq<usize>) -> Seq<
    char,
> {
    let line = spec_pinyin_line(spec_ascii_to_pinyin(sentence));
    if original_sound {
        spec_apply_original_sound(line, order)
    } else {
        line
    }
}

/// The clip paths generated for `sentence` from clip table `table`, when
/// the phrase table is walked in `order`.
pub open spec fn spec_generate(
    table: Map<Seq<char>, Seq<char>>,
    sentence: Seq<char>,
    original_sound: bool,
    order: Seq<usize>,
) -> Seq<Seq<char>> {
    spec_word_paths(
        table,
        spec_split_whitespace(spec_syllable_line(sentence, original_sound, order)),
    )
}

fn stem_of(name: &str) -> (r: String)
    ensures
        r@ == file_stem(name@),
{
    let chars = chars_of(name);
    let mut r = String::new();
    let mut i: usize = 0;
    assert(chars@.subrange(0, chars@.len() as int) == chars@);
    while i < chars.len() && chars[i] != '.'
        invariant
            chars@ == name@,
            i <= chars@.len(),
            r@ + file_stem(chars@.subrange(i as int, chars@.len() as int)) == file_stem(name@),
        decreases chars@.len() - i,
    {
        let ghost rest = chars@.subrange(i as int, chars@.len() as int);
        assert(rest.drop_first() == chars@.subrange(i + 1, chars@.len() as int));
        push_char(&mut r, chars[i]);
        i = i + 1;
    }
    proof {
        let rest = chars@.subrange(i as int, chars@.len() as int);
        assert(file_stem(rest) == Seq::<char>::empty());
    }
    r
}

impl Huoziyinshua {
    /// The clip table: syllable word to clip path.
    pub closed spec fn words(&self) -> Map<Seq<char>, Seq<char>> {
        self.word_map@.map_values(|p: String| p@)
    }

    /// The audio generated last, if any.
    pub closed spec fn audio(&self) -> Option<Seq<i16>> {
        match self.audio_data {
            Some(v) => Some(v@),
            None => None,
        }
    }

    /// Builds the clip table from the names of the files of directory
    /// `path` (in the order they were listed; a name that could not be read
    /// is passed as the empty string and skipped). `main_separator` is the
    /// platform's path separator. No audio is held yet.
    pub fn new(path: &str, file_names: &[String], main_separator: char) -> (h: Self)
        ensures
            h.words() == spec_word_map(
                path@,
                path_separator(path@, main_separator),
                views(file_names@),
            ),
            h.audio() is None,
    {
        let path_chars = chars_of(path);
        let mut sep = String::new();
        if path_chars.len() > 0 {
            let last = path_chars[path_chars.len() - 1];
            if last != '/' && last != '\\' {
                push_char(&mut sep, main_separator);
            }
        }
        assert(sep@ == path_separator(path@, main_separator));
        let mut word_map: StringHashMap<String> = StringHashMap::new();
        for k in 0..file_names.len()
            invariant
                sep@ == path_separator(path@, main_separator),
                word_map@.map_values(|p: String| p@) == spec_word_map(
                    path@,
                    sep@,
                    views(file_names@.take(k as int)),
                ),
        {
            let name = &file_names[k];
            let stem = stem_of(name.as_str());
            let ghost names = views(file_names@.take(k as int));
            proof {
                assert(views(file_names@.take(k + 1)) == names.push(name@));
                assert(views(file_names@.take(k + 1)).drop_last() == names);
            }
            if !stem.as_str().is_empty() {
                let mut full = String::from_str(path);
                full.append(sep.as_str());
                full.append(name.as_str());
                let ghost before = word_map@;
                word_map.insert(stem, full);
                proof {
                    assert(word_map@.map_values(|p: String| p@) =~= before.map_values(
                        |p: String| p@,
                    ).insert(file_stem(name@), path@ + sep@ + name@));
                }
            }
        }
        assert(file_names@.take(file_names@.len() as int) == file_names@);
        Huoziyinshua { word_map, audio_data: None }
    }
}

impl Huoziyinshua {
    /// The clip paths for the words of `words` that the table holds, in
    /// order.
    fn word_paths(&self, words: &Vec<String>) -> (paths: Vec<String>)
        ensures
            views(paths@) == spec_word_paths(self.words(), views(words@)),
    {
        let mut paths: Vec<String> = Vec::new();
        for k in 0..words.len()
            invariant
                views(paths@) == spec_word_paths(self.words(), views(words@.take(k as int))),
        {
            let w = &words[k];
            let ghost ws = views(words@.take(k as int));
            proof {
                assert(views(words@.take(k + 1)) == ws.push(w@));
                assert(views(words@.take(k + 1)).drop_last() == ws);
            }
            match self.word_map.get(w.as_str()) {
                Some(p) => {
                    let ghost before = views(paths@);
                    paths.push(p.clone());
                    assert(views(paths@) == before.push(p@));
                },
                None => {},
            }
        }
        assert(words@.take(words@.len() as int) == words@);
        paths
    }

    /// Works out which clips to play for `sentence`: letters and digits are
    /// spelled out, every character is read as a pinyin syllable
    /// (`silence` where it has none), the original-sound phrases are
    /// replaced when `original_sound` is set (in the order of a walk of the
    /// phrase table, which a hash set decides), and the words of the line
    /// are looked up in the clip table; words without a clip are skipped.
    /// Returns the clip paths in order; decoding them and storing the
    /// joined samples (`set_audio_data`) completes the generation.
    pub fn generate(&self, sentence: &str, original_sound: bool) -> (paths: Vec<String>)
        ensures
            exists|order: Seq<usize>|
                is_table_walk(order) && views(paths@) == spec_generate(
                    self.words(),
                    sentence@,
                    original_sound,
                    order,
                ),
    {
        let order = original_sound_walk();
        let converted = ascii_to_pinyin(sentence);
        let mut line = pinyin_line(converted.as_str());
        if original_sound {
            line = apply_original_sound(line.as_str(), order.as_slice());
        }
        let words = split_whitespace(line.as_str());
        let paths = self.word_paths(&words);
        assert(views(paths@) == spec_generate(self.words(), sentence@, original_sound, order@));
        paths
    }

    /// Stores `samples` as the generated audio.
    pub fn set_audio_data(&mut self, samples: Vec<i16>)
        ensures
            final(self).words() == old(self).words(),
            final(self).audio() == Some(samples@),
    {
        self.audio_data = Some(samples);
    }

    /// The generated audio, or `None` if nothing has been generated yet.
    pub fn get_audio_data(&self) -> (r: Option<&Vec<i16>>)
        ensures
            match r {
                Some(v) => self.audio() == Some(v@),
                None => self.audio() is None,
            },
    {
        self.audio_data.as_ref()
    }

    /// The samples to write to a WAV file, or `NoDataToSave` if nothing has
    /// been generated yet.
    pub fn save_wav(&self) -> (r: Result<&Vec<i16>, HuoziError>)
        ensures
            match r {
                Ok(v) => self.audio() == Some(v@),
                Err(e) => self.audio() is None && e == HuoziError::NoDataToSave,
            },
    {
        match &self.audio_data {
            Some(v) => Ok(v),
            None => Err(HuoziError::NoDataToSave),
        }
    }
}

// ---------------------------------------------------------------------------
// Sample transformations
// ---------------------------------------------------------------------------

/// Calls `hound::Sample::as_i16` on a 16-bit sample; hound's implementation
/// for `i16` returns the sample itself.
#[verifier::external_body]
fn sample_as_i16(s: i16) -> (r: i16)
    ensures
        r == s,
{
    hound::Sample::as_i16(s)
}

/// A sample clipped to `[-threshold, threshold]`.
pub open spec fn clip(s: i16, threshold: i16) -> i16 {
    if s < -threshold {
        (-threshold) as i16
    } else if s > threshold {
        threshold
    } else {
        s
    }
}

/// Every sample clipped to `[-threshold, threshold]`.
pub open spec fn spec_distortion(a: Seq<i16>, threshold: i16) -> Seq<i16> {
    a.map_values(|s: i16| clip(s, threshold))
}

/// `v` clamped into the range of `i16`.
pub open spec fn clamp_to_i16(v: i32) -> i16 {
    if v < i16::MIN {
        i16::MIN
    } else if v > i16::MAX {
        i16::MAX
    } else {
        v as i16
    }
}

/// The sum of two samples, held at the bounds of `i16` instead of
/// overflowing.
pub open spec fn saturating_add_i16(a: i16, b: i16) -> i16 {
    if a + b > i16::MAX {
        i16::MAX
    } else if a + b < i16::MIN {
        i16::MIN
    } else {
        (a + b) as i16
    }
}

/// Integer division by three, rounding toward zero.
pub open spec fn third_toward_zero(v: int) -> int {
    if v >= 0 {
        v / 3
    } else {
        -((-v) / 3)
    }
}

/// Every inner sample replaced by the mean (rounded toward zero) of itself
/// and its two neighbours in `a`; the first and last samples stay.
pub open spec fn spec_smooth(a: Seq<i16>) -> Seq<i16> {
    Seq::new(
        a.len(),
        |i: int|
            if 0 < i < a.len() - 1 {
                third_toward_zero(a[i - 1] + a[i] + a[i + 1]) as i16
            } else {
                a[i]
            },
    )
}

/// `out` is a value that `scale` may give for `s`, clamped into the range
/// of `i16`.
pub open spec fn is_rescaled<F: Fn(i16) -> i32>(scale: F, s: i16, out: i16) -> bool {
    exists|v: i32| #[trigger] call_ensures(scale, (s,), v) && out == clamp_to_i16(v)
}

/// `new` is `old` with every sample rescaled by `scale` and clamped into
/// the range of `i16`.
pub open spec fn is_volume_of<F: Fn(i16) -> i32>(old: Seq<i16>, new: Seq<i16>, scale: F) -> bool {
    &&& new.len() == old.len()
    &&& forall|i: int| 0 <= i < old.len() ==> is_rescaled(scale, old[i], #[trigger] new[i])
}

/// The sample that the echo at position `i` is taken from: the sample
/// `delay` places earlier, as already echoed, or the sample itself when
/// `delay` is zero.
pub open spec fn echo_source(old: Seq<i16>, new: Seq<i16>, delay: usize, i: int) -> i16 {
    if delay == 0 {
        old[i]
    } else {
        new[i - delay]
    }
}

/// `new` is `old` with, from position `delay` on, an attenuated copy of the
/// echo source added to each sample (saturating at the bounds of `i16`).
pub open spec fn is_echo_of<F: Fn(i16) -> i16>(
    old: Seq<i16>,
    new: Seq<i16>,
    delay: usize,
    attenuate: F,
) -> bool {
    &&& new.len() == old.len()
    &&& forall|i: int| 0 <= i < old.len() && i < delay ==> #[trigger] new[i] == old[i]
    &&& forall|i: int|
        0 <= i < old.len() && delay <= i ==> is_echoed(
            attenuate,
            echo_source(old, new, delay, i),
            old[i],
            #[trigger] new[i],
        )
}

/// `out` is `s` plus a value that `attenuate` may give for `source`,
/// saturating at the bounds of `i16`.
pub open spec fn is_echoed<F: Fn(i16) -> i16>(attenuate: F, source: i16, s: i16, out: i16) -> bool {
    exists|e: i16| #[trigger] call_ensures(attenuate, (source,), e) && out == saturating_add_i16(s, e)
}

fn reversed(v: &Vec<i16>) -> (r: Vec<i16>)
    ensures
        r@ == v@.reverse(),
{
    let n = v.len();
    let mut r: Vec<i16> = Vec::new();
    for k in 0..n
        invariant
            n == v@.len(),
            r@.len() == k,
            forall|j: int| 0 <= j < k ==> r@[j] == v@[n - 1 - j],
    {
        r.push(v[n - 1 - k]);
    }
    assert(r@ == v@.reverse());
    r
}

fn distorted(v: &Vec<i16>, threshold: i16) -> (r: Vec<i16>)
    requires
        v@.len() > 0 ==> threshold >= 0,
    ensures
        r@ == spec_distortion(v@, threshold),
{
    let mut r: Vec<i16> = Vec::new();
    for k in 0..v.len()
        invariant
            v@.len() > 0 ==> threshold >= 0,
            r@.len() == k,
            forall|j: int| 0 <= j < k ==> r@[j] == clip(v@[j], threshold),
    {
        let s = sample_as_i16(v[k]);
        let low: i16 = -threshold;
        let c: i16 = if s < low {
            low
        } else if s > threshold {
            threshold
        } else {
            s
        };
        r.push(c);
    }
    assert(r@ == spec_distortion(v@, threshold));
    r
}

fn smoothed(v: &Vec<i16>) -> (r: Vec<i16>)
    requires
        v@.len() >= 3,
    ensures
        r@ == spec_smooth(v@),
{
    let n = v.len();
    let mut r: Vec<i16> = Vec::new();
    r.push(v[0]);
    for i in 1..n - 1
        invariant
            n == v@.len(),
            n >= 3,
            r@.len() == i,
            forall|j: int| 0 <= j < i ==> r@[j] == spec_smooth(v@)[j],
    {
        let total: i32 = v[i - 1] as i32 + v[i] as i32 + v[i + 1] as i32;
        let third: i32 = total / 3;
        assert(third == third_toward_zero(total as int));
        r.push(third as i16);
    }
    r.push(v[n - 1]);
    assert(r@ == spec_smooth(v@));
    r
}

fn rescaled<F: Fn(i16) -> i32>(v: &Vec<i16>, scale: &F) -> (r: Vec<i16>)
    requires
        forall|s: i16| call_requires(*scale, (s,)),
    ensures
        is_volume_of(v@, r@, *scale),
{
    let mut r: Vec<i16> = Vec::new();
    for k in 0..v.len()
        invariant
            forall|s: i16| call_requires(*scale, (s,)),
            r@.len() == k,
            forall|j: int| 0 <= j < k ==> is_rescaled(*scale, v@[j], #[trigger] r@[j]),
    {
        let x = scale(v[k]);
        let c: i16 = if x < i16::MIN as i32 {
            i16::MIN
        } else if x > i16::MAX as i32 {
            i16::MAX
        } else {
            x as i16
        };
        r.push(c);
        assert(is_rescaled(*scale, v@[k as int], r@[k as int]));
    }
    r
}

fn echoed<F: Fn(i16) -> i16>(v: &mut Vec<i16>, delay: usize, attenuate: &F)
    requires
        forall|s: i16| call_requires(*attenuate, (s,)),
    ensures
        is_echo_of(old(v)@, final(v)@, delay, *attenuate),
{
    let ghost start = v@;
    let n = v.len();
    let mut i: usize = delay;
    while i < n
        invariant
            forall|s: i16| call_requires(*attenuate, (s,)),
            n == v@.len(),
            n == start.len(),
            delay <= i || n <= i,
            forall|j: int| i <= j < n ==> #[trigger] v@[j] == start[j],
            forall|j: int| 0 <= j < n && j < delay ==> #[trigger] v@[j] == start[j],
            forall|j: int|
                0 <= j < n && delay <= j < i ==> is_echoed(
                    *attenuate,
                    echo_source(start, v@, delay, j),
                    start[j],
                    #[trigger] v@[j],
                ),
        decreases n - i,
    {
        let src = v[i - delay];
        let e = attenuate(src);
        let sum: i32 = v[i] as i32 + e as i32;
        let value: i16 = if sum > i16::MAX as i32 {
            i16::MAX
        } else if sum < i16::MIN as i32 {
            i16::MIN
        } else {
            sum as i16
        };
        let ghost before = v@;
        v.set(i, value);
        proof {
            assert(src == echo_source(start, v@, delay, i as int));
            assert(is_echoed(*attenuate, src, start[i as int], value));
            assert forall|j: int| 0 <= j < n && delay <= j < i + 1 implies is_echoed(
                *attenuate,
                echo_source(start, v@, delay, j),
                start[j],
                #[trigger] v@[j],
            ) by {
                if j < i {
                    assert(echo_source(start, v@, delay, j) == echo_source(start, before, delay, j));
                }
            }
        }
        i = i + 1;
    }
}

impl Huoziyinshua {
    /// Rescales every sample: `scale` gives the rescaled value of a sample,
    /// and it is clamped into the range of `i16`. `NoDataToTransform` when
    /// no audio has been generated, which leaves the generator unchanged.
    pub fn volume<F: Fn(i16) -> i32>(&mut self, scale: F) -> (r: Result<(), HuoziError>)
        requires
            forall|s: i16| call_requires(scale, (s,)),
        ensures
            final(self).words() == old(self).words(),
            match old(self).audio() {
                None => r == Err::<(), HuoziError>(HuoziError::NoDataToTransform)
                    && final(self).audio() is None,
                Some(a) => r is Ok && final(self).audio() is Some && is_volume_of(
                    a,
                    final(self).audio()->0,
                    scale,
                ),
            },
    {
        match self.audio_data.take() {
            None => Err(HuoziError::NoDataToTransform),
            Some(data) => {
                let out = rescaled(&data, &scale);
                self.audio_data = Some(out);
                Ok(())
            },
        }
    }

    /// Reverses the audio. `NoDataToTransform` when no audio has been
    /// generated, which leaves the generator unchanged.
    pub fn reverse(&mut self) -> (r: Result<(), HuoziError>)
        ensures
            final(self).words() == old(self).words(),
            match old(self).audio() {
                None => r == Err::<(), HuoziError>(HuoziError::NoDataToTransform)
                    && final(self).audio() is None,
                Some(a) => r is Ok && final(self).audio() == Some(a.reverse()),
            },
    {
        match self.audio_data.take() {
            None => Err(HuoziError::NoDataToTransform),
            Some(data) => {
                self.audio_data = Some(reversed(&data));
                Ok(())
            },
        }
    }

    /// Clips every sample to `[-threshold, threshold]`. `NoDataToTransform`
    /// when no audio has been generated, which leaves the generator
    /// unchanged. A negative threshold is refused for non-empty audio (the
    /// clipping range would be empty).
    pub fn distortion(&mut self, threshold: i16) -> (r: Result<(), HuoziError>)
        requires
            old(self).audio() matches Some(a) && a.len() > 0 ==> threshold >= 0,
        ensures
            final(self).words() == old(self).words(),
            match old(self).audio() {
                None => r == Err::<(), HuoziError>(HuoziError::NoDataToTransform)
                    && final(self).audio() is None,
                Some(a) => r is Ok && final(self).audio() == Some(spec_distortion(a, threshold)),
            },
    {
        match self.audio_data.take() {
            None => Err(HuoziError::NoDataToTransform),
            Some(data) => {
                self.audio_data = Some(distorted(&data, threshold));
                Ok(())
            },
        }
    }

    /// Adds an echo: from position `delay` on, each sample gets `attenuate`
    /// of the sample `delay` places earlier (as already echoed) added to it,
    /// saturating at the bounds of `i16`. `NoDataToTransform` when no audio
    /// has been generated, which leaves the generator unchanged.
    pub fn echo<F: Fn(i16) -> i16>(&mut self, delay: usize, attenuate: F) -> (r: Result<
        (),
        HuoziError,
    >)
        requires
            forall|s: i16| call_requires(attenuate, (s,)),
        ensures
            final(self).words() == old(self).words(),
            match old(self).audio() {
                None => r == Err::<(), HuoziError>(HuoziError::NoDataToTransform)
                    && final(self).audio() is None,
                Some(a) => r is Ok && final(self).audio() is Some && is_echo_of(
                    a,
                    final(self).audio()->0,
                    delay,
                    attenuate,
                ),
            },
    {
        match self.audio_data.take() {
            None => Err(HuoziError::NoDataToTransform),
            Some(data) => {
                let mut data = data;
                echoed(&mut data, delay, &attenuate);
                self.audio_data = Some(data);
                Ok(())
            },
        }
    }

    /// Smooths the audio with a three-sample moving mean (rounded toward
    /// zero), keeping the first and last samples. `NoDataToTransform` when
    /// no audio has been generated, `NotEnoughDataToSmooth` when it has
    /// fewer than three samples; both leave the generator unchanged.
    pub fn smooth(&mut self) -> (r: Result<(), HuoziError>)
        ensures
            final(self).words() == old(self).words(),
            match old(self).audio() {
                None => r == Err::<(), HuoziError>(HuoziError::NoDataToTransform)
                    && final(self).audio() is None,
                Some(a) => if a.len() < 3 {
                    r == Err::<(), HuoziError>(HuoziError::NotEnoughDataToSmooth)
                        && final(self).audio() == Some(a)
                } else {
                    r is Ok && final(self).audio() == Some(spec_smooth(a))
                },
            },
    {
        match self.audio_data.take() {
            None => Err(HuoziError::NoDataToTransform),
            Some(data) => {
                if data.len() < 3 {
                    self.audio_data = Some(data);
                    return Err(HuoziError::NotEnoughDataToSmooth);
                }
                self.audio_data = Some(smoothed(&data));
                Ok(())
            },
        }
    }
}

impl Default for Huoziyinshua {
    /// A generator with an empty clip table and no audio.
    fn default() -> (h: Self)
        ensures
            h.words() == Map::<Seq<char>, Seq<char>>::empty(),
            h.audio() is None,
    {
        let h = Huoziyinshua { word_map: StringHashMap::new(), audio_data: None };
        assert(h.words() =~= Map::<Seq<char>, Seq<char>>::empty());
        h
    }
}

} // verus!
