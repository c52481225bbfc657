//! What each operation's result is, stated over all inputs: the clip
//! lookup, file stems, the spelling and phrase tables, and saturating echo.

use vstd::prelude::*;
use crate::audio_processor::{ChannelSamples, channel_to_i16, s24_to_i16, s32_to_i16};
use crate::connect::s16_only;
use crate::huoziyinshua::{
    is_volume_of, clamp_to_i16, echo_source, file_stem, is_echo_of, is_echoed, path_separator,
    saturating_add_i16, spec_distortion, spec_generate, spec_smooth, spec_word_map,
    spec_word_paths,
};
use crate::text::{
    is_table_walk, alnum_spelling, char_rewrite, is_ascii_alnum, is_unicode_whitespace, original_sound,
    pinyin_plain, spec_apply_original_sound, spec_ascii_to_pinyin, spec_pinyin_line,
    spec_replace, spec_split_whitespace, syllable, words_from, pending_word, ORIGINAL_SOUND_COUNT,
};

verus! {

// ---------------------------------------------------------------------------
// Clip lookup
// ---------------------------------------------------------------------------

/// Each further word adds exactly its own clip when the table holds it, and
/// nothing otherwise, whatever the words before it are.
pub proof fn law_each_word_adds_its_clip(
    table: Map<Seq<char>, Seq<char>>,
    words: Seq<Seq<char>>,
    x: Seq<char>,
)
    ensures
        table.contains_key(x) ==> spec_word_paths(table, words.push(x)) == spec_word_paths(
            table,
            words,
        ).push(table[x]),
        !table.contains_key(x) ==> spec_word_paths(table, words.push(x)) == spec_word_paths(
            table,
            words,
        ),
{
    assert(words.push(x).drop_last() == words);
}

/// A word said `n` times in a row gives its clip `n` times.
pub proof fn law_repeated_word_repeats_its_clip(
    table: Map<Seq<char>, Seq<char>>,
    x: Seq<char>,
    n: nat,
)
    requires
        table.contains_key(x),
    ensures
        spec_word_paths(table, Seq::new(n, |i: int| x)) == Seq::new(n, |i: int| table[x]),
    decreases n,
{
    if n > 0 {
        law_repeated_word_repeats_its_clip(table, x, (n - 1) as nat);
        assert(Seq::new(n, |i: int| x) == Seq::new((n - 1) as nat, |i: int| x).push(x));
        law_each_word_adds_its_clip(table, Seq::new((n - 1) as nat, |i: int| x), x);
        assert(Seq::new(n, |i: int| table[x]) == Seq::new((n - 1) as nat, |i: int| table[x]).push(
            table[x],
        ));
    } else {
        assert(Seq::new(n, |i: int| x) == Seq::<Seq<char>>::empty());
        assert(Seq::new(n, |i: int| table[x]) == Seq::<Seq<char>>::empty());
    }
}

// ---------------------------------------------------------------------------
// File stems
// ---------------------------------------------------------------------------

/// The stem of a file name is the part before its first `.`: a name without
/// a dot is its own stem, and `p.q` (with `p` free of dots) has stem `p`.
pub proof fn law_stem_is_part_before_first_dot(p: Seq<char>, q: Seq<char>)
    requires
        !p.contains('.'),
    ensures
        file_stem(p) == p,
        file_stem(p + seq!['.'] + q) == p,
    decreases p.len(),
{
    if p.len() == 0 {
        assert(p + seq!['.'] + q == seq!['.'] + q);
        assert((seq!['.'] + q)[0] == '.');
        assert(p == Seq::<char>::empty());
    } else {
        let r = p.drop_first();
        assert(!r.contains('.')) by {
            assert forall|j: int| 0 <= j < r.len() implies r[j] != '.' by {
                assert(r[j] == p[j + 1]);
            }
        }
        law_stem_is_part_before_first_dot(r, q);
        assert(p[0] != '.');
        assert((p + seq!['.'] + q).drop_first() == r + seq!['.'] + q);
        assert((p + seq!['.'] + q)[0] == p[0]);
        assert(seq![p[0]] + r == p);
    }
}

// ---------------------------------------------------------------------------
// Spelling table
// ---------------------------------------------------------------------------

/// The Chinese numerals, zero to nine.
pub open spec fn numerals() -> Seq<char> {
    "零一二三四五六七八九"@
}

/// Each digit is spelled by the Chinese numeral of its value.
pub proof fn law_digits_spelled_by_numerals(d: int)
    requires
        0 <= d < 10,
    ensures
        alnum_spelling(('0' as int + d) as char) == seq![numerals()[d]],
{
    reveal_strlit("零一二三四五六七八九");
    reveal_strlit("零");
    reveal_strlit("一");
    reveal_strlit("二");
    reveal_strlit("三");
    reveal_strlit("四");
    reveal_strlit("五");
    reveal_strlit("六");
    reveal_strlit("七");
    reveal_strlit("八");
    reveal_strlit("九");
}

/// How the letters a to z are read aloud.
pub open spec fn letter_names() -> Seq<Seq<char>> {
    seq![
        "诶"@,
        "比"@,
        "西"@,
        "迪"@,
        "伊"@,
        "艾弗"@,
        "吉"@,
        "诶尺"@,
        "艾"@,
        "杰"@,
        "开"@,
        "艾勒"@,
        "艾姆"@,
        "摁"@,
        "哦"@,
        "屁"@,
        "亏有"@,
        "阿"@,
        "艾丝"@,
        "提"@,
        "伊吾"@,
        "维"@,
        "大不留"@,
        "艾克斯"@,
        "吾艾"@,
        "贼"@
    ]
}

/// Each ASCII letter, in either case, is spelled by its name in
/// `letter_names`.
pub proof fn law_letters_spelled_by_name(k: int)
    requires
        0 <= k < 26,
    ensures
        alnum_spelling(('a' as int + k) as char) == letter_names()[k],
        alnum_spelling(('A' as int + k) as char) == letter_names()[k],
{
}

// ---------------------------------------------------------------------------
// Phrase table
// ---------------------------------------------------------------------------

/// The catchphrases and the names of their recorded clips.
pub open spec fn phrases() -> Seq<(Seq<char>, Seq<char>)> {
    seq![
        ("ai ni zen me si le"@, "anzmsl"@),
        ("ei ni zen me si le"@, "anzmsl"@),
        ("shuo de dao li"@, "sddl"@),
        ("da jia hao a"@, "djha"@),
        ("ji bai"@, "jibai"@),
        ("jin tian lai dian da jia xiang kan de dong xi a"@, "jtlaidian"@),
        ("xiong di ni dong a"@, "xdnda"@),
        ("kui you"@, "Q"@),
        ("wo shi dian gun"@, "wsdg"@),
        ("a mi yu shuo de dao li"@, "miyu"@),
        ("ei wu zi"@, "euz"@),
        ("a ma bo bi shi wo die"@, "bobi"@),
        ("jiu cai he zi"@, "jchz"@),
        ("hao han"@, "hh"@),
        ("ou nei de shou"@, "onds"@),
        ("ou xi gei"@, "oxg"@),
        ("zou wei"@, "zw"@),
        ("wa ao"@, "waao"@)
    ]
}

/// The phrase table holds exactly the catchphrases of `phrases`, in order.
pub proof fn law_phrase_table(i: usize)
    requires
        i < ORIGINAL_SOUND_COUNT,
    ensures
        phrases().len() == ORIGINAL_SOUND_COUNT,
        original_sound(i) == phrases()[i as int],
{
}

// ---------------------------------------------------------------------------
// Saturating arithmetic
// ---------------------------------------------------------------------------

/// The echoed sum is the true sum when it fits in `i16`, and the nearer
/// bound of `i16` when it does not.
pub proof fn law_saturating_add(a: i16, b: i16)
    ensures
        i16::MIN <= a + b <= i16::MAX ==> saturating_add_i16(a, b) == a + b,
        a + b < i16::MIN ==> saturating_add_i16(a, b) == i16::MIN,
        a + b > i16::MAX ==> saturating_add_i16(a, b) == i16::MAX,
{
}

/// An echo never moves a sample the wrong way: adding an echo that is never
/// positive never raises the sample, and one that is never negative never
/// lowers it.
pub proof fn law_echo_moves_toward_its_sign<F: Fn(i16) -> i16>(
    attenuate: F,
    source: i16,
    s: i16,
    out: i16,
)
    requires
        is_echoed(attenuate, source, s, out),
    ensures
        (forall|e: i16| #[trigger] call_ensures(attenuate, (source,), e) ==> e <= 0) ==> out <= s,
        (forall|e: i16| #[trigger] call_ensures(attenuate, (source,), e) ==> e >= 0) ==> out >= s,
{
}

/// Rescaled samples are the rescaled value when it fits in `i16`, and the
/// nearer bound of `i16` when it does not.
pub proof fn law_clamp_to_i16(v: i32)
    ensures
        i16::MIN <= v <= i16::MAX ==> clamp_to_i16(v) == v,
        v < i16::MIN ==> clamp_to_i16(v) == i16::MIN,
        v > i16::MAX ==> clamp_to_i16(v) == i16::MAX,
{
}

// ---------------------------------------------------------------------------
// Rewriting a sentence, character by character
// ---------------------------------------------------------------------------

/// The rewriting works character by character: rewriting `s + t` is
/// rewriting `s`, then `t`.
pub proof fn law_rewrite_concatenates(s: Seq<char>, t: Seq<char>)
    ensures
        spec_ascii_to_pinyin(s + t) == spec_ascii_to_pinyin(s) + spec_ascii_to_pinyin(t),
{
    let f = |c: char| char_rewrite(c);
    assert((s + t).map_values(f) =~= s.map_values(f) + t.map_values(f));
    vstd::seq_lib::lemma_flatten_concat(s.map_values(f), t.map_values(f));
}

/// A single character is rewritten as follows: a whitespace character
/// becomes one space, and a character that is neither an ASCII letter or
/// digit nor whitespace stays as it is.
pub proof fn law_rewrite_of_one_char(c: char)
    ensures
        is_unicode_whitespace(c) ==> spec_ascii_to_pinyin(seq![c]) == seq![' '],
        !is_unicode_whitespace(c) && !is_ascii_alnum(c) ==> spec_ascii_to_pinyin(seq![c])
            == seq![c],
        is_ascii_alnum(c) ==> spec_ascii_to_pinyin(seq![c]) == alnum_spelling(c),
{
    let m = seq![c].map_values(|c: char| char_rewrite(c));
    assert(m.len() == 1);
    m.lemma_flatten_singleton();
    assert(m[0] == char_rewrite(c));
    if is_unicode_whitespace(c) {
        assert(!is_ascii_alnum(c));
    }
}

// ---------------------------------------------------------------------------
// The syllable line
// ---------------------------------------------------------------------------

/// A character's syllable is its plain reading, or `silence` when it has
/// none.
pub proof fn law_syllable(c: char)
    ensures
        pinyin_plain(c) is Some ==> syllable(c) == pinyin_plain(c)->0,
        pinyin_plain(c) is None ==> syllable(c) == "silence"@,
{
}

/// The line holds one syllable per character, separated by single spaces:
/// one character gives its syllable, and each further character adds a
/// space and its syllable.
pub proof fn law_line_adds_space_and_syllable(s: Seq<char>, c: char)
    ensures
        spec_pinyin_line(Seq::empty()) == Seq::<char>::empty(),
        spec_pinyin_line(seq![c]) == syllable(c),
        s.len() > 0 ==> spec_pinyin_line(s.push(c)) == spec_pinyin_line(s) + seq![' '] + syllable(
            c,
        ),
{
    let f = |c: char| syllable(c);
    assert(seq![c].map_values(f).len() == 1);
    assert(s.push(c).map_values(f) == s.map_values(f).push(syllable(c)));
    assert(s.push(c).map_values(f).drop_last() == s.map_values(f));
}

// ---------------------------------------------------------------------------
// Replacing and the phrase walk
// ---------------------------------------------------------------------------

/// Whether `from` occurs in `s` at position `i`.
pub open spec fn occurs_at(s: Seq<char>, from: Seq<char>, i: int) -> bool {
    0 <= i && i + from.len() <= s.len() && s.subrange(i, i + from.len()) == from
}

/// A text in which `from` (non-empty) does not occur is left as it is.
pub proof fn law_replace_without_match_keeps_text(s: Seq<char>, from: Seq<char>, to: Seq<char>)
    requires
        from.len() > 0,
        forall|i: int| !#[trigger] occurs_at(s, from, i),
    ensures
        spec_replace(s, from, to) == s,
    decreases s.len(),
{
    if s.len() > 0 {
        let r = s.drop_first();
        assert forall|i: int| !#[trigger] occurs_at(r, from, i) by {
            if occurs_at(r, from, i) {
                assert(s.subrange(i + 1, i + 1 + from.len()) == r.subrange(i, i + from.len()));
                assert(occurs_at(s, from, i + 1));
            }
        }
        law_replace_without_match_keeps_text(r, from, to);
        assert(!occurs_at(s, from, 0));
        assert(seq![s[0]] + r == s);
    }
}

/// A text that starts with `from` (non-empty) has it replaced by `to`, and
/// the replacing goes on after it.
pub proof fn law_replace_at_start(from: Seq<char>, rest: Seq<char>, to: Seq<char>)
    requires
        from.len() > 0,
    ensures
        spec_replace(from + rest, from, to) == to + spec_replace(rest, from, to),
{
    let s = from + rest;
    assert(s.subrange(0, from.len() as int) == from);
    assert(s.subrange(from.len() as int, s.len() as int) == rest);
}

/// Walking the phrase table in `o1` and then `o2` is walking it in `o1 + o2`:
/// the phrases are replaced one after another, in walk order.
pub proof fn law_walk_applies_in_order(text: Seq<char>, o1: Seq<usize>, o2: Seq<usize>)
    ensures
        spec_apply_original_sound(text, o1 + o2) == spec_apply_original_sound(
            spec_apply_original_sound(text, o1),
            o2,
        ),
    decreases o2.len(),
{
    if o2.len() == 0 {
        assert(o1 + o2 == o1);
    } else {
        law_walk_applies_in_order(text, o1, o2.drop_last());
        assert((o1 + o2).drop_last() == o1 + o2.drop_last());
        assert((o1 + o2).last() == o2.last());
    }
}

/// Walking a single phrase replaces that phrase.
pub proof fn law_walk_of_one_phrase(text: Seq<char>, i: usize)
    ensures
        spec_apply_original_sound(text, seq![i]) == spec_replace(
            text,
            original_sound(i).0,
            original_sound(i).1,
        ),
{
    assert(seq![i].drop_last() == Seq::<usize>::empty());
    assert(seq![i].last() == i);
    assert(spec_apply_original_sound(text, Seq::<usize>::empty()) == text);
}

// ---------------------------------------------------------------------------
// Splitting into words
// ---------------------------------------------------------------------------

/// Whether `s` holds no whitespace character.
pub open spec fn no_whitespace(s: Seq<char>) -> bool {
    forall|i: int| 0 <= i < s.len() ==> !is_unicode_whitespace(#[trigger] s[i])
}

proof fn lemma_words_from_no_whitespace(p: Seq<char>, cur: Seq<char>)
    requires
        no_whitespace(p),
    ensures
        words_from(p, cur) == pending_word(cur + p),
    decreases p.len(),
{
    if p.len() == 0 {
        assert(cur + p == cur);
    } else {
        assert(!is_unicode_whitespace(p[0]));
        let r = p.drop_first();
        assert(no_whitespace(r)) by {
            assert forall|i: int| 0 <= i < r.len() implies !is_unicode_whitespace(#[trigger] r[i]) by {
                assert(r[i] == p[i + 1]);
            }
        }
        lemma_words_from_no_whitespace(r, cur.push(p[0]));
        assert(cur.push(p[0]) + r == cur + p);
    }
}

proof fn lemma_words_from_split(a: Seq<char>, w: char, b: Seq<char>, cur: Seq<char>)
    requires
        is_unicode_whitespace(w),
    ensures
        words_from(a + seq![w] + b, cur) == words_from(a, cur) + words_from(b, Seq::empty()),
    decreases a.len(),
{
    if a.len() == 0 {
        assert(a + seq![w] + b == seq![w] + b);
        assert((seq![w] + b).drop_first() == b);
    } else {
        let s = a + seq![w] + b;
        assert(s[0] == a[0]);
        assert(s.drop_first() == a.drop_first() + seq![w] + b);
        if is_unicode_whitespace(a[0]) {
            lemma_words_from_split(a.drop_first(), w, b, Seq::empty());
            assert(pending_word(cur) + (words_from(a.drop_first(), Seq::empty()) + words_from(
                b,
                Seq::empty(),
            )) == pending_word(cur) + words_from(a.drop_first(), Seq::empty()) + words_from(
                b,
                Seq::empty(),
            ));
        } else {
            lemma_words_from_split(a.drop_first(), w, b, cur.push(a[0]));
        }
    }
}

/// The words of a text: a whitespace character separates the words before
/// it from the words after it, and a non-empty run without whitespace is a
/// single word.
pub proof fn law_split_at_whitespace(a: Seq<char>, w: char, b: Seq<char>)
    requires
        is_unicode_whitespace(w),
    ensures
        spec_split_whitespace(a + seq![w] + b) == spec_split_whitespace(a)
            + spec_split_whitespace(b),
{
    lemma_words_from_split(a, w, b, Seq::empty());
}

/// A non-empty text without whitespace is one word; an empty one has none.
pub proof fn law_split_of_one_word(p: Seq<char>)
    requires
        no_whitespace(p),
    ensures
        p.len() > 0 ==> spec_split_whitespace(p) == seq![p],
        p.len() == 0 ==> spec_split_whitespace(p) == Seq::<Seq<char>>::empty(),
{
    lemma_words_from_no_whitespace(p, Seq::empty());
    assert(Seq::<char>::empty() + p == p);
}

// ---------------------------------------------------------------------------
// Decoded channels
// ---------------------------------------------------------------------------

/// A 24-bit sample narrowed to 16 bits is its value divided by 256, rounded
/// down.
pub proof fn law_s24_is_floor_of_256th(s: i32)
    requires
        -0x80_0000 <= s < 0x80_0000,
    ensures
        256 * s24_to_i16(s) <= s < 256 * s24_to_i16(s) + 256,
{
    let r: i32 = s >> 8u32;
    assert(256 * r <= s && s < 256 * r + 256) by (bit_vector)
        requires
            r == s >> 8u32,
    ;
    assert(-0x8000 <= r && r < 0x8000) by (bit_vector)
        requires
            -0x80_0000 <= s && s < 0x80_0000,
            r == s >> 8u32,
    ;
    assert(r as i16 == r);
}

/// A 32-bit sample narrowed to 16 bits is its value divided by 65536,
/// rounded down.
pub proof fn law_s32_is_floor_of_65536th(s: i32)
    ensures
        65536 * s32_to_i16(s) <= s < 65536 * s32_to_i16(s) + 65536,
{
    let r: i32 = s >> 16u32;
    assert(65536 * r <= s && s < 65536 * r + 65536) by (bit_vector)
        requires
            r == s >> 16u32,
    ;
    assert(-0x8000 <= r && r < 0x8000) by (bit_vector)
        requires
            r == s >> 16u32,
    ;
    assert(r as i16 == r);
}

/// Every integer channel gives one 16-bit sample per sample, and other
/// formats give none; the 16-bit-only decoder gives nothing for any format
/// but 16-bit.
pub proof fn law_decoded_lengths(chan: ChannelSamples)
    ensures
        match chan {
            ChannelSamples::S8(v) => channel_to_i16(chan).len() == v@.len(),
            ChannelSamples::S16(v) => channel_to_i16(chan).len() == v@.len(),
            ChannelSamples::S24(v) => channel_to_i16(chan).len() == v@.len(),
            ChannelSamples::S32(v) => channel_to_i16(chan).len() == v@.len(),
            ChannelSamples::Other => channel_to_i16(chan).len() == 0,
        },
        !(chan is S16) ==> s16_only(chan).len() == 0,
{
}

// ---------------------------------------------------------------------------
// Transformations
// ---------------------------------------------------------------------------

/// Distortion moves each sample outside `[-threshold, threshold]` to the
/// nearer end of that range and leaves the others as they are.
pub proof fn law_distortion_clips_to_nearer_end(a: Seq<i16>, threshold: i16, i: int)
    requires
        threshold >= 0,
        0 <= i < a.len(),
    ensures
        spec_distortion(a, threshold).len() == a.len(),
        a[i] > threshold ==> spec_distortion(a, threshold)[i] == threshold,
        a[i] < -threshold ==> spec_distortion(a, threshold)[i] == -threshold,
        -threshold <= a[i] <= threshold ==> spec_distortion(a, threshold)[i] == a[i],
{
}

/// Each inner smoothed sample is the sum of itself and its neighbours
/// divided by three, rounded toward zero.
pub proof fn law_smooth_rounds_toward_zero(a: Seq<i16>, i: int)
    requires
        0 < i < a.len() - 1,
    ensures
        ({
            let sum = a[i - 1] + a[i] + a[i + 1];
            let out = spec_smooth(a)[i];
            &&& sum >= 0 ==> 3 * out <= sum < 3 * out + 3
            &&& sum < 0 ==> 3 * out - 3 < sum <= 3 * out
        }),
{
}

/// With no delay each sample is echoed from itself as it was; with a delay
/// it is echoed from the sample `delay` places earlier as already echoed;
/// samples before the delay are left as they are.
pub proof fn law_echo_sources<F: Fn(i16) -> i16>(
    old: Seq<i16>,
    new: Seq<i16>,
    delay: usize,
    attenuate: F,
    i: int,
)
    requires
        is_echo_of(old, new, delay, attenuate),
        0 <= i < old.len(),
    ensures
        i < delay ==> new[i] == old[i],
        delay == 0 ==> is_echoed(attenuate, old[i], old[i], new[i]),
        0 < delay <= i ==> is_echoed(attenuate, new[i - delay], old[i], new[i]),
{
}

// ---------------------------------------------------------------------------
// The clip table
// ---------------------------------------------------------------------------

/// Between the directory and a file name there is nothing when the
/// directory is empty or ends in `/` or `\`, and the main separator
/// otherwise.
pub proof fn law_separator(path: Seq<char>, main_separator: char)
    ensures
        path.len() == 0 ==> path_separator(path, main_separator) == Seq::<char>::empty(),
        path.len() > 0 && (path.last() == '/' || path.last() == '\\') ==> path_separator(
            path,
            main_separator,
        ) == Seq::<char>::empty(),
        path.len() > 0 && path.last() != '/' && path.last() != '\\' ==> path_separator(
            path,
            main_separator,
        ) == seq![main_separator],
{
}

/// Listing one more file with a non-empty stem enters it under its stem,
/// with the directory, separator and file name as its path, overriding an
/// earlier file of that stem and leaving every other entry as it was; a
/// file with an empty stem changes nothing.
pub proof fn law_listing_one_more_file(
    path: Seq<char>,
    sep: Seq<char>,
    names: Seq<Seq<char>>,
    name: Seq<char>,
    k: Seq<char>,
)
    ensures
        file_stem(name).len() > 0 ==> spec_word_map(path, sep, names.push(name)).contains_key(
            file_stem(name),
        ) && spec_word_map(path, sep, names.push(name))[file_stem(name)] == path + sep + name,
        k != file_stem(name) ==> (spec_word_map(path, sep, names.push(name)).contains_key(k)
            <==> spec_word_map(path, sep, names).contains_key(k)),
        k != file_stem(name) && spec_word_map(path, sep, names).contains_key(k) ==> spec_word_map(
            path,
            sep,
            names.push(name),
        )[k] == spec_word_map(path, sep, names)[k],
        file_stem(name).len() == 0 ==> spec_word_map(path, sep, names.push(name))
            == spec_word_map(path, sep, names),
{
    assert(names.push(name).drop_last() == names);
    assert(names.push(name).last() == name);
}

// ---------------------------------------------------------------------------
// Generation
// ---------------------------------------------------------------------------

/// Without the phrase replacement the walk order plays no part: every walk
/// gives the same clips, the lookup of the words of the plain syllable line.
pub proof fn law_plain_generation_ignores_walk(
    table: Map<Seq<char>, Seq<char>>,
    sentence: Seq<char>,
    o1: Seq<usize>,
    o2: Seq<usize>,
)
    ensures
        spec_generate(table, sentence, false, o1) == spec_generate(table, sentence, false, o2),
        spec_generate(table, sentence, false, o1) == spec_word_paths(
            table,
            spec_split_whitespace(spec_pinyin_line(spec_ascii_to_pinyin(sentence))),
        ),
        spec_generate(table, sentence, true, o1) == spec_word_paths(
            table,
            spec_split_whitespace(
                spec_apply_original_sound(spec_pinyin_line(spec_ascii_to_pinyin(sentence)), o1),
            ),
        ),
{
}

/// Every walk of the phrase table visits every phrase.
pub proof fn law_walk_visits_every_phrase(order: Seq<usize>, k: usize)
    requires
        is_table_walk(order),
        k < ORIGINAL_SOUND_COUNT,
    ensures
        order.contains(k),
{
    let n = ORIGINAL_SOUND_COUNT as int;
    let q = order.map_values(|x: usize| x as int);
    assert(q.no_duplicates()) by {
        assert forall|a: int, b: int| 0 <= a < q.len() && 0 <= b < q.len() && a != b implies q[a]
            != q[b] by {
            assert(order[a] != order[b]);
        }
    }
    q.unique_seq_to_set();
    vstd::set_lib::lemma_int_range(0, n);
    let range = vstd::set_lib::set_int_range(0, n);
    assert(q.to_set().subset_of(range)) by {
        assert forall|x: int| q.to_set().contains(x) implies range.contains(x) by {
            let j = choose|j: int| 0 <= j < q.len() && q[j] == x;
            assert(order[j] < ORIGINAL_SOUND_COUNT);
        }
    }
    vstd::set_lib::lemma_len_subset(q.to_set(), range);
    vstd::set_lib::lemma_subset_equality(q.to_set(), range);
    assert(range.contains(k as int));
    assert(q.to_set().contains(k as int));
    let j = choose|j: int| 0 <= j < q.len() && q[j] == k as int;
    assert(order[j] == k);
}

/// Each rescaled sample is a value that the scaling gives for the sample,
/// or the nearer bound of `i16` when that value does not fit.
pub proof fn law_volume_samples<F: Fn(i16) -> i32>(old: Seq<i16>, new: Seq<i16>, scale: F, i: int)
    requires
        is_volume_of(old, new, scale),
        0 <= i < old.len(),
    ensures
        new.len() == old.len(),
        exists|v: i32|
            #[trigger] call_ensures(scale, (old[i],), v) && (i16::MIN <= v <= i16::MAX ==> new[i]
                == v) && (v < i16::MIN ==> new[i] == i16::MIN) && (v > i16::MAX ==> new[i]
                == i16::MAX),
{
    assert(crate::huoziyinshua::is_rescaled(scale, old[i], new[i]));
}

/// Each echoed sample is the sample plus a value that the attenuation gives
/// for its source, or the nearer bound of `i16` when that sum does not fit.
pub proof fn law_echoed_sample<F: Fn(i16) -> i16>(attenuate: F, source: i16, s: i16, out: i16)
    requires
        is_echoed(attenuate, source, s, out),
    ensures
        exists|e: i16|
            #[trigger] call_ensures(attenuate, (source,), e) && (i16::MIN <= s + e <= i16::MAX
                ==> out == s + e) && (s + e < i16::MIN ==> out == i16::MIN) && (s + e > i16::MAX
                ==> out == i16::MAX),
{
}

} // verus!
