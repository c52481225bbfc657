use huoziyinshua_rs::ascii_to_pinyin;
use huoziyinshua_rs::text::{
    apply_original_sound, char_is_whitespace, chars_of, original_sound_walk, pinyin_line, replace_all,
    split_whitespace, ORIGINAL_SOUND_COUNT,
};

#[test]
fn ascii_letters_and_digits_are_spelled_out() {
    assert_eq!(ascii_to_pinyin("ab1"), "诶比一");
    assert_eq!(ascii_to_pinyin("QZ9"), "亏有贼九");
    assert_eq!(ascii_to_pinyin("Hello"), "诶尺伊艾勒艾勒哦");
}

#[test]
fn whitespace_becomes_one_space_and_other_text_stays() {
    assert_eq!(ascii_to_pinyin("a\tb\n!"), "诶 比 !");
    assert_eq!(ascii_to_pinyin("你好，世界"), "你好，世界");
    assert_eq!(ascii_to_pinyin("\u{3000}"), " ");
    assert_eq!(ascii_to_pinyin(""), "");
}

#[test]
fn rewritten_sentence_has_no_ascii_alnum() {
    let out = ascii_to_pinyin("abc XYZ 0123456789 mixed 中文!");
    assert!(!out.chars().any(|c| c.is_ascii_alphanumeric()));
}

#[test]
fn pinyin_line_reads_each_character() {
    assert_eq!(pinyin_line("拼音"), "pin yin");
    assert_eq!(pinyin_line("你好！"), "ni hao silence");
    assert_eq!(pinyin_line(" "), "silence");
    assert_eq!(pinyin_line(""), "");
}

#[test]
fn chars_of_lists_characters() {
    assert_eq!(chars_of("a中b"), vec!['a', '中', 'b']);
}

#[test]
fn replace_all_scans_from_the_left_without_overlap() {
    assert_eq!(replace_all("aaa", "aa", "b"), "ba");
    assert_eq!(replace_all("shuo de dao li", "shuo de dao li", "sddl"), "sddl");
    assert_eq!(replace_all("x hao han y hao han", "hao han", "hh"), "x hh y hh");
    assert_eq!(replace_all("hua ao", "wa ao", "waao"), "hua ao");
    assert_eq!(replace_all("abc", "", "z"), "zazbzcz");
    assert_eq!(replace_all("", "", "z"), "z");
    assert_eq!(replace_all("说得", "", "-"), "说得".replace("", "-"));
}

#[test]
fn replace_all_matches_inside_words() {
    // Matches are plain substrings, not whole words.
    assert_eq!(replace_all("hua ao", "a ao", "X"), "huX");
}

#[test]
fn original_sound_order_matters() {
    let line = "a mi yu shuo de dao li";
    assert_eq!(apply_original_sound(line, &[9]), "miyu");
    assert_eq!(apply_original_sound(line, &[2, 9]), "a mi yu sddl");
    assert_eq!(apply_original_sound(line, &[9, 2]), "miyu");
    assert_eq!(apply_original_sound(line, &[]), line);
}

#[test]
fn original_sound_replaces_each_phrase() {
    let all: Vec<usize> = (0..ORIGINAL_SOUND_COUNT).collect();
    assert_eq!(apply_original_sound("ei ni zen me si le", &all), "anzmsl");
    assert_eq!(apply_original_sound("kui you wa ao", &all), "Q waao");
    assert_eq!(apply_original_sound("ni hao", &all), "ni hao");
}

#[test]
fn walk_visits_every_phrase_once() {
    let mut order = original_sound_walk();
    assert_eq!(order.len(), ORIGINAL_SOUND_COUNT);
    order.sort();
    let expected: Vec<usize> = (0..ORIGINAL_SOUND_COUNT).collect();
    assert_eq!(order, expected);
}

#[test]
fn split_whitespace_keeps_maximal_runs() {
    assert_eq!(split_whitespace("  ni  hao\tma "), vec!["ni", "hao", "ma"]);
    assert_eq!(split_whitespace("ni\u{3000}hao"), vec!["ni", "hao"]);
    assert_eq!(split_whitespace(""), Vec::<String>::new());
    assert_eq!(split_whitespace("   "), Vec::<String>::new());
    assert_eq!(split_whitespace("sddl"), vec!["sddl"]);
}

#[test]
fn whitespace_set_matches_std() {
    for code in 0u32..=0x10FFFF {
        if let Some(c) = char::from_u32(code) {
            assert_eq!(char_is_whitespace(c), c.is_whitespace(), "U+{:04X}", code);
        }
    }
}

#[test]
fn replace_all_matches_std_replace() {
    let cases = [("a mi yu shuo de dao li", "shuo de dao li", "sddl"), ("aaaa", "aa", "b"), ("abc", "", "-"), ("", "x", "y"), ("xyx", "x", "")];
    for (s, from, to) in cases {
        assert_eq!(replace_all(s, from, to), s.replace(from, to));
    }
}

#[test]
fn rewriting_is_idempotent_on_values() {
    for s in ["Hello, 世界 42!", "a\tb\u{3000}c", "", "QQQQQ!"] {
        let once = ascii_to_pinyin(s);
        assert_eq!(ascii_to_pinyin(&once), once);
    }
}

#[test]
fn rewriting_ignores_case_on_values() {
    assert_eq!(ascii_to_pinyin("Hello World 9"), ascii_to_pinyin("hELLO wORLD 9"));
    assert_eq!(ascii_to_pinyin("ABCXYZ"), ascii_to_pinyin("abcxyz"));
}
