//! From a sentence to the list of syllable words that name the clips.

use vstd::prelude::*;

verus! {

broadcast use vstd::string::group_string_axioms;

// ---------------------------------------------------------------------------
// Whitespace
// ---------------------------------------------------------------------------

/// Whether `c` has the Unicode `White_Space` property (the set that std's
/// `char::is_whitespace` tests): the ASCII controls tab to carriage return,
/// the space, NEXT LINE, NO-BREAK SPACE, OGHAM SPACE MARK, the spaces
/// U+2000 to U+200A, LINE and PARAGRAPH SEPARATOR, NARROW NO-BREAK SPACE,
/// MEDIUM MATHEMATICAL SPACE and IDEOGRAPHIC SPACE.
pub open spec fn is_unicode_whitespace(c: char) -> bool {
    ||| ('\u{9}' <= c && c <= '\u{d}')
    ||| c == ' '
    ||| c == '\u{85}'
    ||| c == '\u{a0}'
    ||| c == '\u{1680}'
    ||| ('\u{2000}' <= c && c <= '\u{200a}')
    ||| c == '\u{2028}'
    ||| c == '\u{2029}'
    ||| c == '\u{202f}'
    ||| c == '\u{205f}'
    ||| c == '\u{3000}'
}

/// Whether `c` is whitespace in the sense of `is_unicode_whitespace`.
pub fn char_is_whitespace(c: char) -> (r: bool)
    ensures
        r == is_unicode_whitespace(c),
{
    ('\u{9}' <= c && c <= '\u{d}') || c == ' ' || c == '\u{85}' || c == '\u{a0}' || c
        == '\u{1680}' || ('\u{2000}' <= c && c <= '\u{200a}') || c == '\u{2028}' || c
        == '\u{2029}' || c == '\u{202f}' || c == '\u{205f}' || c == '\u{3000}'
}

// ---------------------------------------------------------------------------
// Trusted items: std's `String::push`, and the `pinyin` crate's reading of a
// single character.
// ---------------------------------------------------------------------------

/// Appends a character to a string: std's `String::push`, which its
/// documentation describes as appending the given char to the end.
#[verifier::external_body]
pub(crate) fn push_char(s: &mut String, c: char)
    ensures
        final(s)@ == old(s)@.push(c),
{
    s.push(c)
}

/// The toneless ("plain") pinyin reading of a character, as the `pinyin`
/// crate's table gives it, or `None` for a character it has no reading for.
pub uninterp spec fn pinyin_plain(c: char) -> Option<Seq<char>>;

/// Calls `pinyin::ToPinyin::to_pinyin` on one character and, when there is a
/// reading, `Pinyin::plain` on it. The result is a function of the character
/// alone (a static table lookup); it is named by `pinyin_plain` and not
/// described further.
#[verifier::external_body]
fn char_pinyin_plain(c: char) -> (r: Option<String>)
    ensures
        match r {
            Some(s) => pinyin_plain(c) == Some(s@),
            None => pinyin_plain(c) is None,
        },
{
    match pinyin::ToPinyin::to_pinyin(&c) {
        Some(p) => Some(p.plain().to_string()),
        None => None,
    }
}

// ---------------------------------------------------------------------------
// Characters of a string
// ---------------------------------------------------------------------------

/// The characters of `s`, in order.
pub fn chars_of(s: &str) -> (v: Vec<char>)
    ensures
        v@ == s@,
{
    let mut v: Vec<char> = Vec::new();
    for c in it: s.chars()
        invariant
            it.seq() == s@,
            v@ == it.seq().take(it.index() as int),
    {
        assert(c == it.seq()[it.index() as int]);
        assert(it.seq().take(it.index() + 1) == it.seq().take(it.index() as int).push(c));
        v.push(c);
    }
    v
}

// ---------------------------------------------------------------------------
// Spelling out ASCII letters and digits
// ---------------------------------------------------------------------------

/// ASCII letters and digits: the characters that are spelled out.
pub open spec fn is_ascii_alnum(c: char) -> bool {
    ('0' <= c && c <= '9') || ('a' <= c && c <= 'z') || ('A' <= c && c <= 'Z')
}

/// How an ASCII letter (either case) or digit is read aloud, in Chinese
/// characters. Any other character has no spelling (a single space).
pub open spec fn alnum_spelling(c: char) -> Seq<char> {
    match c {
        'a' | 'A' => "诶"@,
        'b' | 'B' => "比"@,
        'c' | 'C' => "西"@,
        'd' | 'D' => "迪"@,
        'e' | 'E' => "伊"@,
        'f' | 'F' => "艾弗"@,
        'g' | 'G' => "吉"@,
        'h' | 'H' => "诶尺"@,
        'i' | 'I' => "艾"@,
        'j' | 'J' => "杰"@,
        'k' | 'K' => "开"@,
        'l' | 'L' => "艾勒"@,
        'm' | 'M' => "艾姆"@,
        'n' | 'N' => "摁"@,
        'o' | 'O' => "哦"@,
        'p' | 'P' => "屁"@,
        'q' | 'Q' => "亏有"@,
        'r' | 'R' => "阿"@,
        's' | 'S' => "艾丝"@,
        't' | 'T' => "提"@,
        'u' | 'U' => "伊吾"@,
        'v' | 'V' => "维"@,
        'w' | 'W' => "大不留"@,
        'x' | 'X' => "艾克斯"@,
        'y' | 'Y' => "吾艾"@,
        'z' | 'Z' => "贼"@,
        '0' => "零"@,
        '1' => "一"@,
        '2' => "二"@,
        '3' => "三"@,
        '4' => "四"@,
        '5' => "五"@,
        '6' => "六"@,
        '7' => "七"@,
        '8' => "八"@,
        '9' => "九"@,
        _ => " "@,
    }
}

/// What one character of a sentence becomes before the pinyin lookup:
/// letters and digits are spelled out, whitespace becomes a single space,
/// and every other character stays as it is.
pub open spec fn char_rewrite(c: char) -> Seq<char> {
    if is_ascii_alnum(c) {
        alnum_spelling(c)
    } else if is_unicode_whitespace(c) {
        seq![' ']
    } else {
        seq![c]
    }
}

/// A whole sentence with every character rewritten by `char_rewrite`.
pub open spec fn spec_ascii_to_pinyin(s: Seq<char>) -> Seq<char> {
    s.map_values(|c: char| char_rewrite(c)).flatten()
}

fn is_ascii_alnum_exec(c: char) -> (r: bool)
    ensures
        r == is_ascii_alnum(c),
{
    ('0' <= c && c <= '9') || ('a' <= c && c <= 'z') || ('A' <= c && c <= 'Z')
}

fn alnum_spelling_exec(c: char) -> (r: &'static str)
    ensures
        r@ == alnum_spelling(c),
{
    match c {
        'a' | 'A' => "诶",
        'b' | 'B' => "比",
        'c' | 'C' => "西",
        'd' | 'D' => "迪",
        'e' | 'E' => "伊",
        'f' | 'F' => "艾弗",
        'g' | 'G' => "吉",
        'h' | 'H' => "诶尺",
        'i' | 'I' => "艾",
        'j' | 'J' => "杰",
        'k' | 'K' => "开",
        'l' | 'L' => "艾勒",
        'm' | 'M' => "艾姆",
        'n' | 'N' => "摁",
        'o' | 'O' => "哦",
        'p' | 'P' => "屁",
        'q' | 'Q' => "亏有",
        'r' | 'R' => "阿",
        's' | 'S' => "艾丝",
        't' | 'T' => "提",
        'u' | 'U' => "伊吾",
        'v' | 'V' => "维",
        'w' | 'W' => "大不留",
        'x' | 'X' => "艾克斯",
        'y' | 'Y' => "吾艾",
        'z' | 'Z' => "贼",
        '0' => "零",
        '1' => "一",
        '2' => "二",
        '3' => "三",
        '4' => "四",
        '5' => "五",
        '6' => "六",
        '7' => "七",
        '8' => "八",
        '9' => "九",
        _ => " ",
    }
}

/// Spells out ASCII letters and digits in Chinese characters, turns each
/// whitespace character into one space and keeps every other character.
pub fn ascii_to_pinyin(s: &str) -> (r: String)
    ensures
        r@ == spec_ascii_to_pinyin(s@),
{
    let chars = chars_of(s);
    let mut r = String::new();
    for i in 0..chars.len()
        invariant
            chars@ == s@,
            r@ == spec_ascii_to_pinyin(chars@.take(i as int)),
    {
        let c = chars[i];
        let ghost before = chars@.take(i as int).map_values(|c: char| char_rewrite(c));
        if is_ascii_alnum_exec(c) {
            r.append(alnum_spelling_exec(c));
        } else if char_is_whitespace(c) {
            push_char(&mut r, ' ');
        } else {
            push_char(&mut r, c);
        }
        proof {
            assert(chars@.take(i + 1) == chars@.take(i as int).push(c));
            assert(chars@.take(i + 1).map_values(|c: char| char_rewrite(c))
                == before.push(char_rewrite(c)));
            before.lemma_flatten_push(char_rewrite(c));
        }
    }
    assert(chars@.take(chars@.len() as int) == chars@);
    r
}

// ---------------------------------------------------------------------------
// Reading a sentence as a line of pinyin syllables
// ---------------------------------------------------------------------------

/// The syllable for one character: its plain pinyin, or `silence` for a
/// character without a reading.
pub open spec fn syllable(c: char) -> Seq<char> {
    match pinyin_plain(c) {
        Some(p) => p,
        None => "silence"@,
    }
}

/// Words joined with one space between neighbours.
pub open spec fn join_with_spaces(words: Seq<Seq<char>>) -> Seq<char>
    decreases words.len(),
{
    if words.len() == 0 {
        Seq::empty()
    } else if words.len() == 1 {
        words[0]
    } else {
        join_with_spaces(words.drop_last()) + seq![' '] + words.last()
    }
}

/// The syllables of every character of `s`, separated by single spaces.
pub open spec fn spec_pinyin_line(s: Seq<char>) -> Seq<char> {
    join_with_spaces(s.map_values(|c: char| syllable(c)))
}

/// Reads every character of `s` as its plain pinyin syllable (`silence`
/// where there is none) and joins the syllables with single spaces.
pub fn pinyin_line(s: &str) -> (r: String)
    ensures
        r@ == spec_pinyin_line(s@),
{
    let chars = chars_of(s);
    let mut r = String::new();
    for i in 0..chars.len()
        invariant
            chars@ == s@,
            r@ == spec_pinyin_line(chars@.take(i as int)),
    {
        let c = chars[i];
        let ghost words = chars@.take(i as int).map_values(|c: char| syllable(c));
        if i > 0 {
            push_char(&mut r, ' ');
        }
        match char_pinyin_plain(c) {
            Some(p) => r.append(p.as_str()),
            None => r.append("silence"),
        }
        proof {
            assert(chars@.take(i + 1) == chars@.take(i as int).push(c));
            let words2 = chars@.take(i + 1).map_values(|c: char| syllable(c));
            assert(words2 == words.push(syllable(c)));
            assert(words2.drop_last() == words);
            if i == 0 {
                assert(words2.len() == 1);
            }
        }
    }
    assert(chars@.take(chars@.len() as int) == chars@);
    r
}

// ---------------------------------------------------------------------------
// Replacing phrases
// ---------------------------------------------------------------------------

/// `s` with every occurrence of `from` replaced by `to`, matches taken from
/// the left and not overlapping. An empty `from` matches at every character
/// boundary, so `to` is put before every character and at the end.
pub open spec fn spec_replace(s: Seq<char>, from: Seq<char>, to: Seq<char>) -> Seq<char>
    decreases s.len(),
{
    if from.len() == 0 {
        if s.len() == 0 {
            to
        } else {
            to + seq![s[0]] + spec_replace(s.drop_first(), from, to)
        }
    } else if s.len() == 0 {
        s
    } else if from.len() <= s.len() && s.subrange(0, from.len() as int) == from {
        to + spec_replace(s.subrange(from.len() as int, s.len() as int), from, to)
    } else {
        seq![s[0]] + spec_replace(s.drop_first(), from, to)
    }
}

fn matches_at(s: &Vec<char>, i: usize, pat: &Vec<char>) -> (b: bool)
    requires
        i + pat@.len() <= s@.len(),
    ensures
        b == (s@.subrange(i as int, i + pat@.len()) == pat@),
{
    let mut k: usize = 0;
    while k < pat.len()
        invariant
            i + pat@.len() <= s@.len(),
            s@.len() == s.len(),
            k <= pat@.len(),
            forall|j: int| 0 <= j < k ==> s@[i + j] == pat@[j],
        decreases pat@.len() - k,
    {
        if s[i + k] != pat[k] {
            assert(s@.subrange(i as int, i + pat@.len())[k as int] != pat@[k as int]);
            return false;
        }
        k = k + 1;
    }
    assert(s@.subrange(i as int, i + pat@.len()) == pat@);
    true
}

/// Replaces every occurrence of `from` in `s` by `to`, scanning from the
/// left; matches do not overlap. An empty `from` matches at every character
/// boundary, as with std's `str::replace`.
pub fn replace_all(s: &str, from: &str, to: &str) -> (r: String)
    ensures
        r@ == spec_replace(s@, from@, to@),
{
    let sc = chars_of(s);
    let fc = chars_of(from);
    let n = sc.len();
    let m = fc.len();
    let mut r = String::new();
    let mut i: usize = 0;
    assert(sc@.subrange(0, n as int) == sc@);
    while i < n
        invariant
            sc@ == s@,
            fc@ == from@,
            n == sc@.len(),
            m == fc@.len(),
            i <= n,
            r@ + spec_replace(sc@.subrange(i as int, n as int), from@, to@)
                == spec_replace(s@, from@, to@),
        decreases n - i,
    {
        let ghost rest = sc@.subrange(i as int, n as int);
        if m == 0 {
            proof {
                assert(rest.drop_first() == sc@.subrange(i + 1, n as int));
            }
            r.append(to);
            push_char(&mut r, sc[i]);
            i = i + 1;
        } else if m <= n - i && matches_at(&sc, i, &fc) {
            proof {
                assert(rest.subrange(0, m as int) == sc@.subrange(i as int, i + m));
                assert(rest.subrange(m as int, rest.len() as int)
                    == sc@.subrange(i + m, n as int));
            }
            r.append(to);
            i = i + m;
        } else {
            proof {
                if m <= rest.len() {
                    assert(rest.subrange(0, m as int) == sc@.subrange(i as int, i + m));
                }
                assert(rest.drop_first() == sc@.subrange(i + 1, n as int));
            }
            push_char(&mut r, sc[i]);
            i = i + 1;
        }
    }
    assert(sc@.subrange(n as int, n as int) == Seq::<char>::empty());
    if m == 0 {
        r.append(to);
    }
    r
}

// ---------------------------------------------------------------------------
// Original-sound phrases
// ---------------------------------------------------------------------------

/// The number of original-sound phrases.
pub const ORIGINAL_SOUND_COUNT: usize = 18;

/// The original-sound phrase table: a syllable line to look for, and the
/// name of the recorded phrase clip that replaces it.
pub open spec fn original_sound(i: usize) -> (Seq<char>, Seq<char>) {
    match i {
        0 => ("ai ni zen me si le"@, "anzmsl"@),
        1 => ("ei ni zen me si le"@, "anzmsl"@),
        2 => ("shuo de dao li"@, "sddl"@),
        3 => ("da jia hao a"@, "djha"@),
        4 => ("ji bai"@, "jibai"@),
        5 => ("jin tian lai dian da jia xiang kan de dong xi a"@, "jtlaidian"@),
        6 => ("xiong di ni dong a"@, "xdnda"@),
        7 => ("kui you"@, "Q"@),
        8 => ("wo shi dian gun"@, "wsdg"@),
        9 => ("a mi yu shuo de dao li"@, "miyu"@),
        10 => ("ei wu zi"@, "euz"@),
        11 => ("a ma bo bi shi wo die"@, "bobi"@),
        12 => ("jiu cai he zi"@, "jchz"@),
        13 => ("hao han"@, "hh"@),
        14 => ("ou nei de shou"@, "onds"@),
        15 => ("ou xi gei"@, "oxg"@),
        16 => ("zou wei"@, "zw"@),
        17 => ("wa ao"@, "waao"@),
        _ => (Seq::empty(), Seq::empty()),
    }
}

fn original_sound_entry(i: usize) -> (r: (&'static str, &'static str))
    requires
        i < ORIGINAL_SOUND_COUNT,
    ensures
        r.0@ == original_sound(i).0,
        r.1@ == original_sound(i).1,
{
    match i {
        0 => ("ai ni zen me si le", "anzmsl"),
        1 => ("ei ni zen me si le", "anzmsl"),
        2 => ("shuo de dao li", "sddl"),
        3 => ("da jia hao a", "djha"),
        4 => ("ji bai", "jibai"),
        5 => ("jin tian lai dian da jia xiang kan de dong xi a", "jtlaidian"),
        6 => ("xiong di ni dong a", "xdnda"),
        7 => ("kui you", "Q"),
        8 => ("wo shi dian gun", "wsdg"),
        9 => ("a mi yu shuo de dao li", "miyu"),
        10 => ("ei wu zi", "euz"),
        11 => ("a ma bo bi shi wo die", "bobi"),
        12 => ("jiu cai he zi", "jchz"),
        13 => ("hao han", "hh"),
        14 => ("ou nei de shou", "onds"),
        15 => ("ou xi gei", "oxg"),
        16 => ("zou wei", "zw"),
        17 => ("wa ao", "waao"),
        _ => ("", ""),
    }
}

/// A walk of the phrase table: every entry exactly once, in some order.
pub open spec fn is_table_walk(order: Seq<usize>) -> bool {
    &&& order.len() == ORIGINAL_SOUND_COUNT
    &&& order.no_duplicates()
    &&& forall|k: int| 0 <= k < order.len() ==> #[trigger] order[k] < ORIGINAL_SOUND_COUNT
}

/// `text` after the replacements of the entries listed in `order`, applied
/// one after another in that order.
pub open spec fn spec_apply_original_sound(text: Seq<char>, order: Seq<usize>) -> Seq<char>
    decreases order.len(),
{
    if order.len() == 0 {
        text
    } else {
        let entry = original_sound(order.last());
        spec_replace(spec_apply_original_sound(text, order.drop_last()), entry.0, entry.1)
    }
}

/// Applies the original-sound replacements of the table entries listed in
/// `order`, one entry after another.
pub fn apply_original_sound(text: &str, order: &[usize]) -> (r: String)
    requires
        forall|k: int| 0 <= k < order@.len() ==> #[trigger] order@[k] < ORIGINAL_SOUND_COUNT,
    ensures
        r@ == spec_apply_original_sound(text@, order@),
{
    let mut cur = String::from_str(text);
    for k in 0..order.len()
        invariant
            forall|j: int| 0 <= j < order@.len() ==> #[trigger] order@[j] < ORIGINAL_SOUND_COUNT,
            cur@ == spec_apply_original_sound(text@, order@.take(k as int)),
    {
        let (from, to) = original_sound_entry(order[k]);
        cur = replace_all(cur.as_str(), from, to);
        proof {
            let t = order@.take(k + 1);
            assert(t.drop_last() == order@.take(k as int));
            assert(t.last() == order@[k as int]);
        }
    }
    assert(order@.take(order@.len() as int) == order@);
    cur
}

/// Walks the phrase table in the order of a std `HashSet` of its indices:
/// every entry once, in an order that the set's hasher decides.
pub fn original_sound_walk() -> (order: Vec<usize>)
    ensures
        is_table_walk(order@),
{
    broadcast use vstd::std_specs::hash::group_hash_axioms;

    let mut set: std::collections::HashSet<usize> = std::collections::HashSet::new();
    for i in 0..ORIGINAL_SOUND_COUNT
        invariant
            set@.finite(),
            set@.len() == i,
            forall|j: usize| set@.contains(j) <==> j < i,
    {
        assert(!set@.contains(i));
        set.insert(i);
    }
    let mut order: Vec<usize> = Vec::new();
    for k in it: set.iter()
        invariant
            forall|j: usize| set@.contains(j) <==> j < ORIGINAL_SOUND_COUNT,
            it.seq().unref().to_set() == set@,
            it.seq().no_duplicates(),
            it.seq().len() == ORIGINAL_SOUND_COUNT,
            order@ == it.seq().take(it.index() as int).unref(),
            order@.len() == it.index(),
            order@.no_duplicates(),
            forall|j: int| 0 <= j < order@.len() ==> #[trigger] order@[j] < ORIGINAL_SOUND_COUNT,
    {
        proof {
            let q = it.seq();
            let i = it.index() as int;
            assert(*k == q[i]);
            assert(q.unref().to_set().contains(q.unref()[i]));
            assert forall|j: int| 0 <= j < order@.len() implies order@[j] != *k by {
                assert(q[j] != q[i]);
            }
            assert(q.take(i + 1).unref() == q.take(i).unref().push(*k));
        }
        order.push(*k);
    }
    order
}

// ---------------------------------------------------------------------------
// Splitting into words
// ---------------------------------------------------------------------------

/// `cur`, as a list of at most one word: empty when `cur` is empty.
pub open spec fn pending_word(cur: Seq<char>) -> Seq<Seq<char>> {
    if cur.len() == 0 {
        Seq::empty()
    } else {
        seq![cur]
    }
}

/// The words of `s` when the word being read so far is `cur`: the maximal
/// runs of characters that are not whitespace.
pub open spec fn words_from(s: Seq<char>, cur: Seq<char>) -> Seq<Seq<char>>
    decreases s.len(),
{
    if s.len() == 0 {
        pending_word(cur)
    } else if is_unicode_whitespace(s[0]) {
        pending_word(cur) + words_from(s.drop_first(), Seq::empty())
    } else {
        words_from(s.drop_first(), cur.push(s[0]))
    }
}

/// The words of `s`: its maximal runs of non-whitespace characters, in order.
pub open spec fn spec_split_whitespace(s: Seq<char>) -> Seq<Seq<char>> {
    words_from(s, Seq::empty())
}

/// The views of a list of strings.
pub open spec fn views(v: Seq<String>) -> Seq<Seq<char>> {
    v.map_values(|w: String| w@)
}

/// Splits `s` into its words, the maximal runs of non-whitespace characters.
pub fn split_whitespace(s: &str) -> (words: Vec<String>)
    ensures
        views(words@) == spec_split_whitespace(s@),
{
    let sc = chars_of(s);
    let n = sc.len();
    let mut words: Vec<String> = Vec::new();
    let mut cur = String::new();
    let mut i: usize = 0;
    assert(sc@.subrange(0, n as int) == sc@);
    while i < n
        invariant
            sc@ == s@,
            n == sc@.len(),
            i <= n,
            views(words@) + words_from(sc@.subrange(i as int, n as int), cur@)
                == spec_split_whitespace(s@),
        decreases n - i,
    {
        let c = sc[i];
        let ghost rest = sc@.subrange(i as int, n as int);
        let ghost old_words = views(words@);
        assert(rest[0] == c);
        assert(rest.drop_first() == sc@.subrange(i + 1, n as int));
        if char_is_whitespace(c) {
            if !cur.as_str().is_empty() {
                let w = cur;
                words.push(w);
                cur = String::new();
                assert(views(words@) == old_words + pending_word(w@));
            } else {
                assert(cur@ == Seq::<char>::empty());
                assert(old_words + pending_word(cur@) == old_words);
            }
        } else {
            push_char(&mut cur, c);
        }
        i = i + 1;
    }
    assert(sc@.subrange(n as int, n as int) == Seq::<char>::empty());
    if !cur.as_str().is_empty() {
        let ghost old_words = views(words@);
        let w = cur;
        words.push(w);
        assert(views(words@) == old_words + pending_word(w@));
    }
    words
}

} // verus!
