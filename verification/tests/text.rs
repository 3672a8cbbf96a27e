use updown::table::Table;
use updown::text::{
    begins, chars_of, cut, decimal_of, ends, find_in, holds, last_place, read_i64, read_u32,
    read_u64, same_text, text_of, trimmed, without_end, words_of,
};

#[test]
fn characters_and_back() {
    for s in ["", "abc", "a\u{e9}\u{1f600}"] {
        let v: Vec<char> = chars_of(s);
        assert_eq!(v, s.chars().collect::<Vec<char>>());
        assert_eq!(text_of(&v), s);
    }
}

#[test]
fn searching() {
    assert!(holds("hello", "ell"));
    assert!(holds("hello", ""));
    assert!(!holds("hello", "elo"));
    assert!(begins("0xab", "0x"));
    assert!(!begins("0", "0x"));
    assert!(ends("a-et", "-et"));
    assert!(!ends("et", "-et"));
    assert!(same_text("up", "up"));
    assert!(!same_text("up", "Up"));
    let v: Vec<char> = chars_of("a-b-c");
    assert_eq!(find_in(&v, &['-']), Some(1));
    assert_eq!(find_in(&v, &['x']), None);
    assert_eq!(last_place(&v, '-'), Some(3));
    assert_eq!(last_place(&v, 'x'), None);
}

#[test]
fn splitting() {
    let v: Vec<char> = chars_of("a=b=c");
    let (head, tail) = cut(&v, '=').unwrap();
    assert_eq!(text_of(head), "a");
    assert_eq!(text_of(tail), "b=c");
    assert!(cut(&v, ';').is_none());
    let w: Vec<char> = chars_of("11amam");
    assert_eq!(text_of(without_end(&w, &['a', 'm'])), "11");
    let x: Vec<char> = chars_of(" \t a b\u{3000}\n");
    assert_eq!(text_of(trimmed(&x)), "a b");
    let y: Vec<char> = chars_of("  one\u{a0}two \n three ");
    assert_eq!(words_of(&y), vec!["one", "two", "three"]);
    assert!(words_of(&[]).is_empty());
}

#[test]
fn trimming_and_words_are_those_of_std() {
    for code in 0u32..0x3100 {
        if let Some(c) = char::from_u32(code) {
            let s: String = format!("{}a{}b{}", c, c, c);
            let v: Vec<char> = chars_of(&s);
            assert_eq!(text_of(trimmed(&v)), s.trim(), "{:x}", code);
            let words: Vec<String> = words_of(&v);
            assert_eq!(words, s.split_whitespace().collect::<Vec<&str>>(), "{:x}", code);
        }
    }
}

#[test]
fn numbers_are_read_as_by_std() {
    for s in [
        "", "+", "-", "0", "+0", "-0", "007", "12a", " 1", "18446744073709551615",
        "18446744073709551616", "9223372036854775807", "9223372036854775808",
        "-9223372036854775808", "-9223372036854775809", "4294967295", "4294967296", "++1", "+-1",
        "99999999999999999999999999", "\u{0663}",
    ] {
        let v: Vec<char> = chars_of(s);
        assert_eq!(read_u64(&v), s.parse::<u64>().ok(), "{}", s);
        assert_eq!(read_u32(&v), s.parse::<u32>().ok(), "{}", s);
        assert_eq!(read_i64(&v), s.parse::<i64>().ok(), "{}", s);
    }
}

#[test]
fn written_numbers_are_read_back() {
    for n in [0, 7, 10, 99, 100, 1770091200, u64::MAX] {
        let s: String = decimal_of(n);
        assert_eq!(s, n.to_string());
        assert_eq!(read_u64(&chars_of(&s)), Some(n));
    }
}

#[test]
fn a_table_keeps_one_value_under_a_key() {
    let mut t: Table<u64> = Table::new();
    assert!(t.get("a").is_none());
    t.insert("a", 1);
    t.insert("b", 2);
    t.insert("a", 3);
    assert_eq!(t.get("a"), Some(&3));
    assert_eq!(t.get("b"), Some(&2));
    assert_eq!(t.keys(), vec!["a", "b"]);
    t.remove("a");
    t.remove("c");
    assert!(t.get("a").is_none());
    assert_eq!(t.keys(), vec!["b"]);
    t.clear();
    assert!(t.keys().is_empty());
}
