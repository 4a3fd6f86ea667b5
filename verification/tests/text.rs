use asr_compare_tui::config::hotwords;
use asr_compare_tui::models::{model_descs, OfflineFamily, SlotKind};
use asr_compare_tui::number::{
    dec2_text, dec_text, parse_number, parse_size, signed_text, size_text,
};
use asr_compare_tui::text::{
    begins_with, chars_of, contains_text, count_words, find_from, is_blank, is_whitespace,
    join_texts, lowered, matches_at, pieces_of, replace_text, same_text, split_text, text_bytes,
    text_of, to_ascii_lower, trim_text, utf8_len, word_spans,
};
use asr_compare_tui::util::{humantime_elapsed, push_capped, push_log};

fn chars(s: &str) -> Vec<char> {
    s.chars().collect()
}

fn strings(list: &[&str]) -> Vec<String> {
    list.iter().map(|s| s.to_string()).collect()
}

#[test]
fn white_space_is_what_std_says() {
    for u in 0..0x11_0000u32 {
        if let Some(c) = char::from_u32(u) {
            assert_eq!(is_whitespace(c), c.is_whitespace(), "{u:x}");
            assert_eq!(utf8_len(c), c.len_utf8(), "{u:x}");
        }
    }
}

#[test]
fn texts_are_trimmed_as_std_does() {
    for s in ["", " ", " a", "a ", " a b ", "\u{3000}日本\u{85}", "\n\t x \r\n"] {
        assert_eq!(trim_text(s), s.trim());
        assert_eq!(is_blank(s), s.trim().is_empty());
        assert_eq!(trim_text(&trim_text(s)), trim_text(s));
    }
}

#[test]
fn words_are_those_of_std() {
    for s in ["", "  ", "one", " one  two\nthree ", "日本 語\u{3000}x"] {
        let list = chars(s);
        let words: Vec<String> =
            word_spans(&list).into_iter().map(|(a, b)| list[a..b].iter().collect()).collect();
        let expected: Vec<String> = s.split_whitespace().map(str::to_string).collect();
        assert_eq!(words, expected);
        assert_eq!(count_words(s), expected.len());
    }
}

#[test]
fn bytes_and_characters_are_counted() {
    assert_eq!(text_bytes("aé日𝄞"), 10);
    assert_eq!(chars_of("aé日𝄞").len(), 4);
    assert_eq!(text_of(&chars("abcdef"), 2, 4), "cd");
    assert!(same_text("ab", "ab"));
    assert!(!same_text("ab", "abc"));
}

#[test]
fn texts_are_found() {
    let s = chars("one two two");
    assert_eq!(find_from(&s, &chars("two"), 0), Some(4));
    assert_eq!(find_from(&s, &chars("two"), 5), Some(8));
    assert_eq!(find_from(&s, &chars("three"), 0), None);
    assert_eq!(find_from(&s, &[], 11), Some(11));
    assert!(matches_at(&s, &chars("two"), 4));
    assert!(begins_with(&s, &chars("one")));
    assert!(!begins_with(&s, &chars("two")));
    assert!(contains_text(&s, &chars(" two ")));
}

#[test]
fn texts_are_split_as_std_does() {
    for s in ["", "a", "a\n\nb", "\n\n\n", "a\n\n\n\nb\n", "x\n\n"] {
        let expected: Vec<&str> = s.split("\n\n").collect();
        assert_eq!(split_text(s, "\n\n"), expected);
    }
    for s in ["", "a,b", ",\n,", "a\nb,c "] {
        let expected: Vec<&str> = s.split([',', '\n']).collect();
        assert_eq!(pieces_of(s, ',', '\n'), expected);
    }
}

#[test]
fn texts_are_joined_and_replaced() {
    assert_eq!(join_texts(&strings(&["a", "b", "c"]), "; "), "a; b; c");
    assert_eq!(join_texts(&[], "; "), "");
    assert_eq!(replace_text("a\r\nb\r\r\nc", "\r\n", "\n"), "a\nb\r\nc");
    assert_eq!(replace_text("aaa", "aa", "b"), "ba");
}

#[test]
fn only_ascii_capitals_become_small() {
    assert_eq!(to_ascii_lower('A'), 'a');
    assert_eq!(to_ascii_lower('É'), 'É');
    assert_eq!(lowered(&chars("SiLERO 9É")), chars("silero 9É"));
}

#[test]
fn numbers_are_written_as_std_does() {
    for n in [0u64, 7, 10, 99, 100, 12345, u64::MAX] {
        assert_eq!(dec_text(n), n.to_string());
        assert_eq!(dec2_text(n), format!("{n:02}"));
        assert_eq!(parse_number(&dec_text(n)), Some(n));
        assert_eq!(parse_number(&dec2_text(n)), Some(n));
    }
    assert_eq!(size_text(42), "42");
    for n in [0i64, -1, 560947818, i64::MIN, i64::MAX] {
        assert_eq!(signed_text(n), n.to_string());
    }
}

#[test]
fn numbers_are_read_as_std_does() {
    for s in [
        "", "+", "-1", "1", "+1", "++1", "007", " 1", "1 ", "1a", "１", "18446744073709551615",
        "18446744073709551616", "99999999999999999999999",
    ] {
        assert_eq!(parse_number(s), s.parse::<u64>().ok(), "{s:?}");
        assert_eq!(parse_size(s), s.parse::<usize>().ok(), "{s:?}");
    }
}

#[test]
fn hot_words_are_separated_by_commas_and_lines() {
    assert_eq!(hotwords(" ARC Raiders, Embark\n\n, Nexus ,"), vec!["ARC Raiders", "Embark", "Nexus"]);
    assert!(hotwords(" ,\n , ").is_empty());
}

#[test]
fn histories_keep_the_latest() {
    let mut log = Vec::new();
    for i in 0..205 {
        push_log(&mut log, format!("line {i}"));
    }
    assert_eq!(log.len(), 200);
    assert_eq!(log[0], "line 5");
    assert_eq!(log[199], "line 204");
    let mut few = strings(&["a", "b"]);
    push_capped(&mut few, "c".to_string(), 2);
    assert_eq!(few, vec!["b", "c"]);
}

#[test]
fn durations_are_minutes_and_seconds() {
    assert_eq!(humantime_elapsed(0), "0分0秒");
    assert_eq!(humantime_elapsed(125), "2分5秒");
    assert_eq!(humantime_elapsed(3600), "60分0秒");
}

#[test]
fn models_are_listed_in_order() {
    let descs = model_descs();
    let names: Vec<&str> = descs.iter().map(|d| d.name).collect();
    assert_eq!(
        names,
        vec![
            "Zipformer-zh",
            "Zipformer-en",
            "Zipformer-en (加强版)",
            "Nemotron-en",
            "Canary-180m-flash",
            "Parakeet-TDT-CTC-110M"
        ]
    );
    let enhanced: Vec<bool> = descs.iter().map(|d| d.is_enhanced()).collect();
    assert_eq!(enhanced, vec![false, false, true, false, false, false]);
    assert!(descs[0].files_present(&[]));
    assert!(descs[0].files_present(&[false]));
    assert!(descs[4].files_present(&[true, true, true]));
    assert!(!descs[4].files_present(&[true, false, true]));
    assert_eq!(descs[0].missing_files_hint(), None);
    assert_eq!(descs[4].missing_files_hint(), Some("./scripts/download-canary.sh"));
    assert_eq!(descs[5].kind, SlotKind::Offline(OfflineFamily::ParakeetNemoCtc));
    assert_eq!(OfflineFamily::ParakeetNemoCtc.as_str(), "parakeet_nemo_ctc");
    assert_eq!(OfflineFamily::ParakeetNemoCtc.required_files(), vec!["model.int8.onnx", "tokens.txt"]);
    assert_eq!(OfflineFamily::Canary.required_files().len(), 3);
}
