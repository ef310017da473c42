use quest_scrcpy::text;
use quest_scrcpy::text::CharClass;

#[test]
fn agrees_with_std_on_white_space() {
    for n in 0..=0x10ffffu32 {
        if let Some(c) = char::from_u32(n) {
            assert_eq!(text::is_whitespace(c), c.is_whitespace());
        }
    }
}

#[test]
fn agrees_with_std_on_splitting() {
    let samples =
        ["", "a", " a  b\t\u{a0}c ", "a\r\nb\n\nc\r", "\n", "\r\n", "=x=y=", "a,b,,c", "ä=ö\u{2003}"];
    for s in samples {
        assert_eq!(text::trim(s), s.trim());
        assert_eq!(text::split_whitespace(s), s.split_whitespace().collect::<Vec<_>>());
        assert_eq!(text::split_lines(s), s.lines().collect::<Vec<_>>());
        assert_eq!(text::split_char(s, ','), s.split(',').collect::<Vec<_>>());
        assert_eq!(text::cut_at(s, '='), s.split_once('='));
        assert_eq!(text::after_prefix(s, "a"), s.strip_prefix("a"));
        assert_eq!(text::contains(s, "b"), s.contains("b"));
        assert_eq!(text::contains(s, ""), s.contains(""));
        assert_eq!(text::contains_char(s, '\n'), s.contains('\n'));
        assert_eq!(text::trim_front(s, &CharClass::Only('a' as u32)), s.trim_start_matches('a'));
        assert_eq!(text::trim_back(s, &CharClass::Only('=' as u32)), s.trim_end_matches('='));
    }
}

#[test]
fn agrees_with_std_on_numbers() {
    for s in ["", "+", "0", "007", "+5", "-1", "4294967295", "4294967296", "99999999999999999999999", "1_0", "٣"] {
        assert_eq!(text::parse_u32(s), s.parse::<u32>().ok());
    }
    for n in [0, 9, 10, 12345, u64::MAX] {
        assert_eq!(text::dec(n), n.to_string());
    }
    assert_eq!(text::hex_digits(0xabc, 8), "00000abc");
    assert_eq!(text::hex_digits(0xabcdef, 2), "ef");
}

#[test]
fn handles_lists() {
    let list = vec!["a".to_string(), "b".to_string(), "a".to_string()];
    assert_eq!(text::join(&list, " "), "a b a");
    assert_eq!(text::join(&vec![], " "), "");
    assert!(text::any_same(&list, "b") && !text::any_same(&list, "c"));
    assert!(text::same_list(&text::copy_list(&list), &list));
    assert!(!text::same_list(&list, &vec![]));
    assert_eq!(text::remove_all(&list, "a"), vec!["b"]);
    assert_eq!((text::truth_str(true), text::truth_str(false)), ("true", "false"));
}
