//! Properties of the library that span its functions.

use vstd::prelude::*;
use crate::audio_processor::{ChannelSamples, channel_to_i16, joined, s8_to_i16};
use crate::connect::s16_only;
use crate::huoziyinshua::{
    Huoziyinshua, file_stem, spec_distortion, spec_generate, spec_smooth, spec_word_map,
    spec_word_paths,
};
use crate::text::{
    alnum_spelling, char_rewrite, is_ascii_alnum, is_unicode_whitespace, spec_ascii_to_pinyin,
};

verus! {

// ---------------------------------------------------------------------------
// Decoding and joining
// ---------------------------------------------------------------------------

/// Widening an 8-bit sample to 16 bits is exact: it multiplies by 256.
pub proof fn law_s8_widening_is_exact(s: i8)
    ensures
        s8_to_i16(s) == 256 * s,
{
}

/// Both decoders take a 16-bit channel as it is, so they agree on it.
pub proof fn law_decoders_agree_on_16_bit(v: Vec<i16>)
    ensures
        channel_to_i16(ChannelSamples::S16(v)) == s16_only(ChannelSamples::S16(v)),
        s16_only(ChannelSamples::S16(v)) == v@,
{
}

/// Joining clips is compatible with splitting the list of clips: joining
/// `x + y` is joining `x`, then joining `y`.
pub proof fn law_join_splits(x: Seq<Vec<i16>>, y: Seq<Vec<i16>>)
    ensures
        joined(x + y) == joined(x) + joined(y),
{
    let f = |v: Vec<i16>| v@;
    assert((x + y).map_values(f) =~= x.map_values(f) + y.map_values(f));
    vstd::seq_lib::lemma_flatten_concat(x.map_values(f), y.map_values(f));
}

/// Joining a single clip gives that clip.
pub proof fn law_join_single(v: Vec<i16>)
    ensures
        joined(seq![v]) == v@,
{
    let s = seq![v].map_values(|w: Vec<i16>| w@);
    assert(s.len() == 1);
    s.lemma_flatten_singleton();
}

// ---------------------------------------------------------------------------
// Transformations
// ---------------------------------------------------------------------------

/// Reversing the audio twice gives the audio back.
pub proof fn law_reverse_twice(a: Seq<i16>)
    ensures
        a.reverse().reverse() == a,
{
    assert(a.reverse().reverse() =~= a);
}

/// Reversing keeps every sample: the same samples, as often as before.
pub proof fn law_reverse_keeps_samples(a: Seq<i16>)
    ensures
        a.reverse().len() == a.len(),
        a.reverse().to_multiset() == a.to_multiset(),
{
    a.lemma_reverse_to_multiset();
}

/// Distorted audio lies within `[-threshold, threshold]`.
pub proof fn law_distortion_bounded(a: Seq<i16>, threshold: i16)
    requires
        threshold >= 0,
    ensures
        spec_distortion(a, threshold).len() == a.len(),
        forall|i: int|
            0 <= i < a.len() ==> -threshold <= #[trigger] spec_distortion(a, threshold)[i]
                <= threshold,
{
}

/// Distorting twice with the same threshold is distorting once.
pub proof fn law_distortion_idempotent(a: Seq<i16>, threshold: i16)
    requires
        threshold >= 0,
    ensures
        spec_distortion(spec_distortion(a, threshold), threshold) == spec_distortion(a, threshold),
{
    assert(spec_distortion(spec_distortion(a, threshold), threshold) =~= spec_distortion(
        a,
        threshold,
    ));
}

/// Audio that already lies within `[-threshold, threshold]` is not changed
/// by distortion.
pub proof fn law_distortion_keeps_quiet_audio(a: Seq<i16>, threshold: i16)
    requires
        forall|i: int| 0 <= i < a.len() ==> -threshold <= #[trigger] a[i] <= threshold,
    ensures
        spec_distortion(a, threshold) == a,
{
    assert(spec_distortion(a, threshold) =~= a);
}

/// Smoothing keeps the length and the two end samples, and every smoothed
/// sample lies between the smallest and the largest of the three samples it
/// is the mean of.
pub proof fn law_smooth_stays_between_neighbours(a: Seq<i16>)
    requires
        a.len() >= 3,
    ensures
        spec_smooth(a).len() == a.len(),
        spec_smooth(a)[0] == a[0],
        spec_smooth(a)[a.len() - 1] == a[a.len() - 1],
        forall|i: int|
            0 < i < a.len() - 1 ==> {
                let lo = min3(a[i - 1], a[i], a[i + 1]);
                let hi = max3(a[i - 1], a[i], a[i + 1]);
                lo <= #[trigger] spec_smooth(a)[i] <= hi
            },
{
}

/// The smallest of three samples.
pub open spec fn min3(x: i16, y: i16, z: i16) -> i16 {
    if x <= y && x <= z {
        x
    } else if y <= z {
        y
    } else {
        z
    }
}

/// The largest of three samples.
pub open spec fn max3(x: i16, y: i16, z: i16) -> i16 {
    if x >= y && x >= z {
        x
    } else if y >= z {
        y
    } else {
        z
    }
}

/// Smoothing leaves a constant signal as it is.
pub proof fn law_smooth_keeps_constant(a: Seq<i16>)
    requires
        forall|i: int| 0 <= i < a.len() ==> #[trigger] a[i] == a[0],
    ensures
        spec_smooth(a) == a,
{
    assert(spec_smooth(a) =~= a);
}

// ---------------------------------------------------------------------------
// The clip table and generation
// ---------------------------------------------------------------------------

/// Every key of the clip table is a non-empty file stem without a dot, and
/// every listed file whose stem is not empty can be found under its stem.
pub proof fn law_clip_table_keys(path: Seq<char>, sep: Seq<char>, names: Seq<Seq<char>>)
    ensures
        forall|k: Seq<char>|
            #[trigger] spec_word_map(path, sep, names).contains_key(k) ==> k.len() > 0
                && !k.contains('.'),
        forall|i: int|
            0 <= i < names.len() && file_stem(names[i]).len() > 0 ==> spec_word_map(
                path,
                sep,
                names,
            ).contains_key(#[trigger] file_stem(names[i])),
    decreases names.len(),
{
    if names.len() > 0 {
        law_clip_table_keys(path, sep, names.drop_last());
        lemma_stem_has_no_dot(names.last());
        let prev = spec_word_map(path, sep, names.drop_last());
        assert forall|k: Seq<char>| #[trigger] spec_word_map(path, sep, names).contains_key(
            k,
        ) implies k.len() > 0 && !k.contains('.') by {
            if k != file_stem(names.last()) {
                assert(prev.contains_key(k));
            }
        }
        assert forall|i: int|
            0 <= i < names.len() && file_stem(names[i]).len() > 0 implies spec_word_map(
            path,
            sep,
            names,
        ).contains_key(#[trigger] file_stem(names[i])) by {
            if i < names.len() - 1 {
                assert(names.drop_last()[i] == names[i]);
            }
        }
    }
}

proof fn lemma_stem_has_no_dot(name: Seq<char>)
    ensures
        !file_stem(name).contains('.'),
    decreases name.len(),
{
    if name.len() > 0 && name[0] != '.' {
        lemma_stem_has_no_dot(name.drop_first());
        let rest = file_stem(name.drop_first());
        assert forall|j: int| 0 <= j < file_stem(name).len() implies file_stem(name)[j] != '.' by {
            if j > 0 {
                assert(file_stem(name)[j] == rest[j - 1]);
            }
        }
    }
}

/// Generation only ever returns clips of the table, at most one per word.
pub proof fn law_paths_are_clips(table: Map<Seq<char>, Seq<char>>, words: Seq<Seq<char>>)
    ensures
        spec_word_paths(table, words).len() <= words.len(),
        forall|i: int|
            0 <= i < spec_word_paths(table, words).len() ==> table.contains_value(
                #[trigger] spec_word_paths(table, words)[i],
            ),
    decreases words.len(),
{
    if words.len() > 0 {
        law_paths_are_clips(table, words.drop_last());
        let prev = spec_word_paths(table, words.drop_last());
        assert forall|i: int| 0 <= i < spec_word_paths(table, words).len() implies table.contains_value(
            #[trigger] spec_word_paths(table, words)[i],
        ) by {
            if i < prev.len() {
                assert(spec_word_paths(table, words)[i] == prev[i]);
            } else {
                assert(table.contains_key(words.last()));
            }
        }
    }
}

// ---------------------------------------------------------------------------
// Rewriting a sentence
// ---------------------------------------------------------------------------

/// A character that the rewriting leaves as it is.
pub open spec fn is_kept_by_rewrite(c: char) -> bool {
    char_rewrite(c) == seq![c]
}

proof fn lemma_rewrite_keeps_kept(s: Seq<char>)
    requires
        forall|i: int| 0 <= i < s.len() ==> is_kept_by_rewrite(#[trigger] s[i]),
    ensures
        spec_ascii_to_pinyin(s) == s,
    decreases s.len(),
{
    if s.len() > 0 {
        let f = |c: char| char_rewrite(c);
        lemma_rewrite_keeps_kept(s.drop_first());
        assert(is_kept_by_rewrite(s[0]));
        assert(s.map_values(f).drop_first() =~= s.drop_first().map_values(f));
        assert(seq![s[0]] + s.drop_first() =~= s);
    }
}

/// A sentence without ASCII letters, digits and whitespace is not changed by
/// the rewriting.
pub proof fn law_rewrite_keeps_other_text(s: Seq<char>)
    requires
        forall|i: int|
            0 <= i < s.len() ==> !is_ascii_alnum(#[trigger] s[i]) && !is_unicode_whitespace(s[i]),
    ensures
        spec_ascii_to_pinyin(s) == s,
{
    assert forall|i: int| 0 <= i < s.len() implies is_kept_by_rewrite(#[trigger] s[i]) by {
        assert(!is_ascii_alnum(s[i]) && !is_unicode_whitespace(s[i]));
    }
    lemma_rewrite_keeps_kept(s);
}

/// Every character of the rewritten sentence is left as it is by a second
/// rewriting.
proof fn lemma_rewrite_output_is_kept(s: Seq<char>)
    ensures
        forall|i: int|
            0 <= i < spec_ascii_to_pinyin(s).len() ==> is_kept_by_rewrite(
                #[trigger] spec_ascii_to_pinyin(s)[i],
            ),
    decreases s.len(),
{
    if s.len() > 0 {
        let f = |c: char| char_rewrite(c);
        lemma_rewrite_output_is_kept(s.drop_first());
        lemma_rewrite_char_is_kept(s[0]);
        assert(s.map_values(f).drop_first() =~= s.drop_first().map_values(f));
        let head = char_rewrite(s[0]);
        let tail = spec_ascii_to_pinyin(s.drop_first());
        assert(spec_ascii_to_pinyin(s) == head + tail);
        assert forall|i: int| 0 <= i < spec_ascii_to_pinyin(s).len() implies is_kept_by_rewrite(
            #[trigger] spec_ascii_to_pinyin(s)[i],
        ) by {
            if i < head.len() {
                assert(spec_ascii_to_pinyin(s)[i] == head[i]);
            } else {
                assert(spec_ascii_to_pinyin(s)[i] == tail[i - head.len()]);
            }
        }
    }
}

/// Rewriting is idempotent: rewriting a rewritten sentence changes nothing.
pub proof fn law_rewrite_idempotent(s: Seq<char>)
    ensures
        spec_ascii_to_pinyin(spec_ascii_to_pinyin(s)) == spec_ascii_to_pinyin(s),
{
    lemma_rewrite_output_is_kept(s);
    lemma_rewrite_keeps_kept(spec_ascii_to_pinyin(s));
}

/// An ASCII upper-case letter turned into lower case; any other character
/// is left as it is.
pub open spec fn ascii_fold(c: char) -> char {
    if 'A' <= c && c <= 'Z' {
        (c as u32 + 32) as char
    } else {
        c
    }
}

/// The rewriting ignores the case of ASCII letters: two sentences that
/// differ only in the case of ASCII letters are rewritten alike.
pub proof fn law_rewrite_ignores_case(s: Seq<char>, t: Seq<char>)
    requires
        s.len() == t.len(),
        forall|i: int| 0 <= i < s.len() ==> ascii_fold(#[trigger] s[i]) == ascii_fold(t[i]),
    ensures
        spec_ascii_to_pinyin(s) == spec_ascii_to_pinyin(t),
{
    let f = |c: char| char_rewrite(c);
    assert forall|i: int| 0 <= i < s.len() implies #[trigger] s.map_values(f)[i] == t.map_values(
        f,
    )[i] by {
        lemma_rewrite_ignores_case(s[i]);
        lemma_rewrite_ignores_case(t[i]);
        assert(ascii_fold(s[i]) == ascii_fold(t[i]));
    }
    assert(s.map_values(f) =~= t.map_values(f));
}

proof fn lemma_rewrite_ignores_case(c: char)
    ensures
        char_rewrite(c) == char_rewrite(ascii_fold(c)),
{
}

/// The rewritten sentence holds no ASCII letter or digit: every one is
/// spelled out in Chinese characters.
pub proof fn law_rewrite_spells_out_alnum(s: Seq<char>)
    ensures
        forall|i: int|
            0 <= i < spec_ascii_to_pinyin(s).len() ==> !is_ascii_alnum(
                #[trigger] spec_ascii_to_pinyin(s)[i],
            ),
    decreases s.len(),
{
    if s.len() > 0 {
        let f = |c: char| char_rewrite(c);
        law_rewrite_spells_out_alnum(s.drop_first());
        lemma_rewrite_char_not_alnum(s[0]);
        assert(s.map_values(f).drop_first() =~= s.drop_first().map_values(f));
        let head = char_rewrite(s[0]);
        let tail = spec_ascii_to_pinyin(s.drop_first());
        assert(spec_ascii_to_pinyin(s) == head + tail);
        assert forall|i: int| 0 <= i < spec_ascii_to_pinyin(s).len() implies !is_ascii_alnum(
            #[trigger] spec_ascii_to_pinyin(s)[i],
        ) by {
            if i < head.len() {
                assert(spec_ascii_to_pinyin(s)[i] == head[i]);
            } else {
                assert(spec_ascii_to_pinyin(s)[i] == tail[i - head.len()]);
            }
        }
    }
}

proof fn lemma_rewrite_char_not_alnum(c: char)
    ensures
        forall|i: int| 0 <= i < char_rewrite(c).len() ==> !is_ascii_alnum(
            #[trigger] char_rewrite(c)[i],
        ),
{
    reveal_strlit("诶");
    reveal_strlit("比");
    reveal_strlit("西");
    reveal_strlit("迪");
    reveal_strlit("伊");
    reveal_strlit("艾弗");
    reveal_strlit("吉");
    reveal_strlit("诶尺");
    reveal_strlit("艾");
    reveal_strlit("杰");
    reveal_strlit("开");
    reveal_strlit("艾勒");
    reveal_strlit("艾姆");
    reveal_strlit("摁");
    reveal_strlit("哦");
    reveal_strlit("屁");
    reveal_strlit("亏有");
    reveal_strlit("阿");
    reveal_strlit("艾丝");
    reveal_strlit("提");
    reveal_strlit("伊吾");
    reveal_strlit("维");
    reveal_strlit("大不留");
    reveal_strlit("艾克斯");
    reveal_strlit("吾艾");
    reveal_strlit("贼");
    reveal_strlit("零");
    reveal_strlit("一");
    reveal_strlit("二");
    reveal_strlit("三");
    reveal_strlit("四");
    reveal_strlit("五");
    reveal_strlit("六");
    reveal_strlit("七");
    reveal_strlit("八");
    reveal_strlit("九");
    reveal_strlit(" ");
    let spelled = alnum_spelling(c);
    assert(forall|i: int| 0 <= i < spelled.len() ==> !is_ascii_alnum(#[trigger] spelled[i]));
}

proof fn lemma_rewrite_char_is_kept(c: char)
    ensures
        forall|i: int| 0 <= i < char_rewrite(c).len() ==> is_kept_by_rewrite(
            #[trigger] char_rewrite(c)[i],
        ),
{
    lemma_rewrite_char_not_alnum(c);
    reveal_strlit("诶");
    reveal_strlit("比");
    reveal_strlit("西");
    reveal_strlit("迪");
    reveal_strlit("伊");
    reveal_strlit("艾弗");
    reveal_strlit("吉");
    reveal_strlit("诶尺");
    reveal_strlit("艾");
    reveal_strlit("杰");
    reveal_strlit("开");
    reveal_strlit("艾勒");
    reveal_strlit("艾姆");
    reveal_strlit("摁");
    reveal_strlit("哦");
    reveal_strlit("屁");
    reveal_strlit("亏有");
    reveal_strlit("阿");
    reveal_strlit("艾丝");
    reveal_strlit("提");
    reveal_strlit("伊吾");
    reveal_strlit("维");
    reveal_strlit("大不留");
    reveal_strlit("艾克斯");
    reveal_strlit("吾艾");
    reveal_strlit("贼");
    reveal_strlit("零");
    reveal_strlit("一");
    reveal_strlit("二");
    reveal_strlit("三");
    reveal_strlit("四");
    reveal_strlit("五");
    reveal_strlit("六");
    reveal_strlit("七");
    reveal_strlit("八");
    reveal_strlit("九");
    reveal_strlit(" ");
    let r = char_rewrite(c);
    assert forall|i: int| 0 <= i < r.len() implies is_kept_by_rewrite(#[trigger] r[i]) by {
        assert(!is_ascii_alnum(r[i]));
    }
}

// ---------------------------------------------------------------------------
// Generation as a whole
// ---------------------------------------------------------------------------

/// Generation reads the clip table and the sentence and nothing else: two
/// generators with the same clip table, whatever audio either holds, give
/// the same clips for a sentence under the same walk of the phrase table.
/// (Storing the decoded clips then replaces the held audio outright: see
/// `set_audio_data`.)
pub proof fn law_generation_ignores_held_audio(
    h1: Huoziyinshua,
    h2: Huoziyinshua,
    sentence: Seq<char>,
    original_sound: bool,
    order: Seq<usize>,
)
    requires
        h1.words() == h2.words(),
    ensures
        spec_generate(h1.words(), sentence, original_sound, order) == spec_generate(
            h2.words(),
            sentence,
            original_sound,
            order,
        ),
{
}

/// A sentence gives the same clips as its rewritten form (letters and digits
/// spelled out, whitespace made single spaces), under the same walk of the
/// phrase table.
pub proof fn law_generation_of_rewritten_sentence(
    table: Map<Seq<char>, Seq<char>>,
    sentence: Seq<char>,
    original_sound: bool,
    order: Seq<usize>,
)
    ensures
        spec_generate(table, spec_ascii_to_pinyin(sentence), original_sound, order)
            == spec_generate(table, sentence, original_sound, order),
{
    law_rewrite_idempotent(sentence);
}

/// Generation ignores the case of ASCII letters: two sentences that differ
/// only in it give the same clips under the same walk of the phrase table.
pub proof fn law_generation_ignores_case(
    table: Map<Seq<char>, Seq<char>>,
    s: Seq<char>,
    t: Seq<char>,
    original_sound: bool,
    order: Seq<usize>,
)
    requires
        s.len() == t.len(),
        forall|i: int| 0 <= i < s.len() ==> ascii_fold(#[trigger] s[i]) == ascii_fold(t[i]),
    ensures
        spec_generate(table, s, original_sound, order) == spec_generate(
            table,
            t,
            original_sound,
            order,
        ),
{
    law_rewrite_ignores_case(s, t);
}

} // verus!
