use funcode::text::{
    byte_len, char_count, contains, contains_any, count, decimal, first_word, insert_at, join,
    join_range, joined, joined3, lines, remove_at, replace, replace_once, same_text,
    signed_decimal, trim, white_space, IntoText,
};

const SAMPLES: [&str; 14] = [
    "", "a", " ", "\n", "\r\n", "a\nb", "a\r\nb\r\n", "\r", "a\r", " a b ", "\u{3000}日本\u{a0}",
    "aXbXc", "aaaa", "\n\n\n",
];

#[test]
fn searching_agrees_with_str() {
    for s in SAMPLES {
        for p in ["", "a", "aa", "X", "b\r", "日", "zz"] {
            assert_eq!(contains(s, p), s.contains(p), "{:?} {:?}", s, p);
            assert_eq!(count(s, p), s.matches(p).count() as u128, "{:?} {:?}", s, p);
            assert_eq!(replace(s, p, "<>"), s.replace(p, "<>"), "{:?} {:?}", s, p);
            assert_eq!(replace_once(s, p, "<>"), s.replacen(p, "<>", 1), "{:?} {:?}", s, p);
        }
    }
    assert!(contains_any("one two", &["x", "two"]));
    assert!(!contains_any("one two", &["x", "three"]));
    assert!(!contains_any("one two", &[]));
}

#[test]
fn replacing_changes_the_length_by_occurrence() {
    let replaced = replace("abcabc", "bc", "x");
    assert_eq!(replaced.len(), 6 - 2 * count("abcabc", "bc") as usize + 2);
}

#[test]
fn lines_agree_with_str() {
    for s in SAMPLES {
        let expected: Vec<String> = s.lines().map(|l| l.to_string()).collect();
        assert_eq!(lines(s), expected, "{:?}", s);
    }
}

#[test]
fn lines_join_to_the_text() {
    for s in ["", "a", "a\nb\n\nc", "\n\nx"] {
        assert_eq!(join(&lines(s), "\n"), s);
    }
}

#[test]
fn trimming_agrees_with_str() {
    for s in SAMPLES {
        assert_eq!(trim(s), s.trim(), "{:?}", s);
        assert_eq!(first_word(s), s.split_whitespace().next().unwrap_or(""), "{:?}", s);
    }
}

#[test]
fn white_space_agrees_with_char() {
    for code in 0..=0x10FFFFu32 {
        if let Some(c) = char::from_u32(code) {
            assert_eq!(white_space(c), c.is_whitespace(), "{:x}", code);
        }
    }
}

#[test]
fn numbers_are_written_in_decimal() {
    for n in [0u128, 7, 9, 10, 99, 100, 1234567890, u128::MAX] {
        assert_eq!(decimal(n), n.to_string());
    }
    for n in [0, 1, -1, 42, -10, i32::MAX, i32::MIN] {
        assert_eq!(signed_decimal(n), n.to_string());
    }
}

#[test]
fn texts_are_put_together() {
    assert_eq!(joined("a", "b"), "ab");
    assert_eq!(joined3("a", "", "c"), "ac");
    let parts = vec!["a".to_string(), "b".to_string(), "c".to_string()];
    assert_eq!(join(&parts, ", "), "a, b, c");
    assert_eq!(join_range(&parts, 1, 3, "-"), "b-c");
    assert_eq!(join_range(&parts, 1, 1, "-"), "");
    assert!(same_text("日", "日"));
    assert!(!same_text("a", "b"));
    assert_eq!(byte_len("日本"), 6);
}

#[test]
fn characters_go_in_and_out() {
    assert_eq!(insert_at("日本", 1, 'x'), "日x本");
    assert_eq!(insert_at("", 0, '本'), "本");
    assert_eq!(insert_at("ab", 2, 'c'), "abc");
    assert_eq!(remove_at("日x本", 1), "日本");
    assert_eq!(remove_at("日本", 0), "本");
    for (s, n) in [("", 0), ("abc", 3), ("日本", 2), ("aé日🦊", 4)] {
        assert_eq!(char_count(s), n);
        for i in 0..=n {
            assert_eq!(remove_at(&insert_at(s, i, 'é'), i), s);
        }
    }
}

#[test]
fn texts_are_taken_in_any_form() {
    let owned = "a".to_string();
    assert_eq!((&owned).into_text(), "a");
    assert_eq!("a".into_text(), owned);
    assert_eq!(owned.into_text(), "a");
}
