use rsmap::order::{compare, compare_chars, Rank};
use rsmap::strmap::StrMap;
use rsmap::strset::{SetMap, StrSet};
use rsmap::text::{
    chars_eq, find_char, find_char_from, find_from_exec, from_chars, from_chars_range, join_exec,
    join_strs, lines_exec, matches_at_exec, push_decimal, push_padded, push_repeat, rfind_char,
    rfind_exec, slice_chars, split_exec, starts_with_exec, str_eq, strip_prefix_exec, to_chars,
    trim_exec, utf8_len_exec, words_exec,
};

fn chars(s: &str) -> Vec<char> {
    s.chars().collect()
}

fn texts(v: &[Vec<char>]) -> Vec<String> {
    v.iter().map(|c| c.iter().collect()).collect()
}

#[test]
fn characters_and_back() {
    assert_eq!(to_chars("héllo"), vec!['h', 'é', 'l', 'l', 'o']);
    assert!(to_chars("").is_empty());
    assert_eq!(from_chars(&chars("héllo")), "héllo");
    assert_eq!(from_chars_range(&chars("héllo"), 1, 3), "él");
    assert_eq!(from_chars_range(&chars("abc"), 2, 2), "");
    assert_eq!(slice_chars(&chars("abcdef"), 2, 5), chars("cde"));
}

#[test]
fn finding_texts() {
    let s = chars("a::b::c");
    let sep = chars("::");
    assert!(matches_at_exec(&s, &sep, 1));
    assert!(!matches_at_exec(&s, &sep, 2));
    assert!(!matches_at_exec(&s, &sep, 6));
    assert!(!matches_at_exec(&s, &sep, 99));
    assert!(matches_at_exec(&s, &chars(""), 7));
    assert_eq!(find_from_exec(&s, &sep, 0), Some(1));
    assert_eq!(find_from_exec(&s, &sep, 2), Some(4));
    assert_eq!(find_from_exec(&s, &sep, 5), None);
    assert_eq!(find_from_exec(&s, &chars(""), 0), None);
    assert_eq!(find_from_exec(&chars(":"), &sep, 0), None);
    assert_eq!(rfind_exec(&s, &sep), Some(4));
    assert_eq!(rfind_exec(&chars("a:::b"), &sep), Some(2));
    assert_eq!(rfind_exec(&chars("abc"), &sep), None);
    assert_eq!(rfind_exec(&chars(""), &sep), None);
    assert!(starts_with_exec(&s, &chars("a:")));
    assert!(!starts_with_exec(&s, &chars("b")));
    assert!(starts_with_exec(&s, &chars("")));
    assert_eq!(strip_prefix_exec(&s, &chars("a::")), Some(chars("b::c")));
    assert_eq!(strip_prefix_exec(&s, &chars("b")), None);
}

#[test]
fn finding_characters() {
    let s = chars("a<b<c>d>");
    assert_eq!(find_char(&s, '<'), Some(1));
    assert_eq!(rfind_char(&s, '>'), Some(7));
    assert_eq!(rfind_char(&s, '<'), Some(3));
    assert_eq!(find_char(&s, 'x'), None);
    assert_eq!(rfind_char(&chars(""), 'x'), None);
    assert_eq!(find_char_from(&s, '<', 2), Some(1));
    assert_eq!(find_char_from(&s, '<', 4), None);
    assert_eq!(find_char_from(&s, 'a', 8), None);
}

#[test]
fn splitting_and_joining() {
    let sep = chars("::");
    let split = |s: &str| texts(&split_exec(&chars(s), &sep));
    assert_eq!(split("a::b::c"), vec!["a", "b", "c"]);
    assert_eq!(split(""), vec![""]);
    assert_eq!(split("a"), vec!["a"]);
    assert_eq!(split("::"), vec!["", ""]);
    assert_eq!(split("a:::b"), vec!["a", ":b"]);
    assert_eq!(split("::a::"), vec!["", "a", ""]);
    assert_eq!(split("a::::b"), vec!["a", "", "b"]);
    let parts = vec![chars("x"), chars(""), chars("yz")];
    assert_eq!(from_chars(&join_exec(&parts, &chars(", "))), "x, , yz");
    assert_eq!(from_chars(&join_exec(&vec![], &chars(", "))), "");
    assert_eq!(from_chars(&join_exec(&vec![chars("one")], &chars(", "))), "one");
    assert_eq!(
        join_strs(&vec!["a".to_string(), "b".to_string()], " + "),
        "a + b"
    );
    assert_eq!(join_strs(&vec![], " + "), "");
}

#[test]
fn lines_of_a_text() {
    let lines = |s: &str| texts(&lines_exec(&chars(s)));
    assert_eq!(lines("a\nb"), vec!["a", "b"]);
    assert_eq!(lines("a\nb\n"), vec!["a", "b"]);
    assert_eq!(lines("a\r\nb\r\n"), vec!["a", "b"]);
    assert_eq!(lines("\n"), vec![""]);
    assert_eq!(lines("\n\n"), vec!["", ""]);
    assert_eq!(lines("a\n\nb"), vec!["a", "", "b"]);
    assert_eq!(lines("a\r"), vec!["a\r"]);
    assert_eq!(lines("a\r\r\n"), vec!["a\r"]);
    assert_eq!(lines("\r\n"), vec![""]);
    assert!(lines("").is_empty());
    for s in ["", "a", "a\n", "\na", "a\r\nb\rc\n\n", "\r", "\r\n\r\n", "x\n\r"] {
        let expected: Vec<String> = s.lines().map(|l| l.to_string()).collect();
        assert_eq!(lines(s), expected, "{:?}", s);
    }
}

#[test]
fn trimming_and_words() {
    assert_eq!(from_chars(&trim_exec(&chars("  a b \t\n"))), "a b");
    assert_eq!(from_chars(&trim_exec(&chars("ab"))), "ab");
    assert_eq!(from_chars(&trim_exec(&chars(" \u{a0}\u{3000} "))), "");
    assert_eq!(from_chars(&trim_exec(&chars(""))), "");
    let words = |s: &str| texts(&words_exec(&chars(s)));
    assert_eq!(words("  a  bc\td \n"), vec!["a", "bc", "d"]);
    assert_eq!(words("abc"), vec!["abc"]);
    assert!(words("").is_empty());
    assert!(words(" \t ").is_empty());
    for s in ["", " ", "a", " a", "a ", "a  b", "\u{2003}x\u{a0}y\r\n z"] {
        let expected: Vec<String> = s.split_whitespace().map(|w| w.to_string()).collect();
        assert_eq!(words(s), expected, "{:?}", s);
        assert_eq!(from_chars(&trim_exec(&chars(s))), s.trim(), "{:?}", s);
    }
}

#[test]
fn equality_and_lengths() {
    assert!(str_eq("abc", "abc"));
    assert!(!str_eq("abc", "abd"));
    assert!(!str_eq("abc", "ab"));
    assert!(str_eq("", ""));
    assert!(chars_eq(&chars("é"), &chars("é")));
    assert!(!chars_eq(&chars("e"), &chars("é")));
    assert_eq!(utf8_len_exec(&chars("aé€😀"), 0, 4), 10);
    assert_eq!(utf8_len_exec(&chars("aé€😀"), 1, 2), 2);
    assert_eq!(utf8_len_exec(&chars("abc"), 1, 1), 0);
}

#[test]
fn padding_repeating_and_numbers() {
    let mut out = String::from("[");
    push_padded(&mut out, "ab", 5);
    out.push(']');
    assert_eq!(out, "[ab   ]");
    let mut tight = String::new();
    push_padded(&mut tight, "abcdef", 3);
    assert_eq!(tight, "abcdef");
    let mut wide = String::new();
    push_padded(&mut wide, "éé", 3);
    assert_eq!(wide, "éé ");
    let mut rep = String::from("x");
    push_repeat(&mut rep, "ab", 3);
    push_repeat(&mut rep, "z", 0);
    assert_eq!(rep, "xababab");
    for n in [0usize, 7, 10, 42, 100, 999, 1000, 1234567890, usize::MAX] {
        let mut digits = String::from("#");
        push_decimal(&mut digits, n);
        assert_eq!(digits, format!("#{}", n));
    }
}

#[test]
fn the_order_of_names() {
    assert_eq!(compare("a", "b"), Rank::Before);
    assert_eq!(compare("b", "a"), Rank::After);
    assert_eq!(compare("a", "a"), Rank::Same);
    assert_eq!(compare("", ""), Rank::Same);
    assert_eq!(compare("", "a"), Rank::Before);
    assert_eq!(compare("ab", "a"), Rank::After);
    assert_eq!(compare("Z", "a"), Rank::Before);
    assert_eq!(compare("a::b", "a:b"), Rank::Before);
    assert_eq!(compare_chars(&chars("é"), &chars("z")), Rank::After);
    let mut names = vec!["b", "", "é", "a::b", "a", "Z", "a:b", "😀", "ab", "€"];
    names.sort();
    for i in 0..names.len() {
        for j in 0..names.len() {
            let expected = if i < j {
                Rank::Before
            } else if i == j {
                Rank::Same
            } else {
                Rank::After
            };
            assert_eq!(compare(names[i], names[j]), expected, "{} {}", names[i], names[j]);
        }
    }
}

#[test]
fn a_map_keeps_its_names_in_order() {
    let mut m: StrMap<u32> = StrMap::new();
    assert!(m.is_empty());
    assert_eq!(m.insert("m".to_string(), 1), None);
    assert_eq!(m.insert("a".to_string(), 2), None);
    assert_eq!(m.insert("z".to_string(), 3), None);
    assert_eq!(m.insert("b".to_string(), 4), None);
    assert_eq!(m.insert("m".to_string(), 5), Some(1));
    assert_eq!(m.len(), 4);
    let keys: Vec<&str> = (0..m.len()).map(|i| m.key_at(i).as_str()).collect();
    assert_eq!(keys, vec!["a", "b", "m", "z"]);
    let values: Vec<u32> = (0..m.len()).map(|i| *m.value_at(i)).collect();
    assert_eq!(values, vec![2, 4, 5, 3]);
    assert_eq!(m.get("m"), Some(&5));
    assert_eq!(m.get("x"), None);
    assert!(m.contains_key("z"));
    assert!(!m.contains_key(""));
    assert_eq!(m.remove("b"), Some(4));
    assert_eq!(m.remove("b"), None);
    assert_eq!(m.remove("a"), Some(2));
    assert_eq!(m.len(), 2);
    assert_eq!(m.key_at(0), "m");
    assert_eq!(m.key_at(1), "z");
}

#[test]
fn a_set_keeps_each_name_once_and_in_order() {
    let mut s = StrSet::new();
    assert!(s.is_empty());
    assert!(s.insert("pear".to_string()));
    assert!(s.insert("apple".to_string()));
    assert!(!s.insert("pear".to_string()));
    assert!(s.insert("fig".to_string()));
    assert_eq!(s.len(), 3);
    assert_eq!(s.to_vec(), vec!["apple", "fig", "pear"]);
    assert_eq!(s.get(1), "fig");
    assert!(s.contains("apple"));
    assert!(!s.contains("plum"));
}

#[test]
fn a_map_of_sets() {
    let mut m = SetMap::new();
    assert!(m.is_empty());
    m.add("b", "2".to_string());
    m.add("a", "9".to_string());
    m.add("b", "1".to_string());
    m.add("b", "2".to_string());
    m.touch("c");
    m.touch("a");
    assert_eq!(m.len(), 3);
    assert_eq!(m.keys_vec(), vec!["a", "b", "c"]);
    assert_eq!(m.set_at(0).to_vec(), vec!["9"]);
    assert_eq!(m.set_at(1).to_vec(), vec!["1", "2"]);
    assert!(m.set_at(2).is_empty());
    assert_eq!(m.key_at(1), "b");
    assert_eq!(m.get("b").unwrap().len(), 2);
    assert!(m.get("d").is_none());
}

fn short_texts() -> Vec<String> {
    let alphabet = ['a', ':', ' ', '\n', '\r', '<', 'é'];
    let mut all = vec![String::new()];
    let mut last = vec![String::new()];
    for _ in 0..4 {
        let mut next = Vec::new();
        for s in &last {
            for c in alphabet {
                let mut t = s.clone();
                t.push(c);
                next.push(t);
            }
        }
        all.extend(next.iter().cloned());
        last = next;
    }
    all
}

#[test]
fn lines_trim_and_words_agree_with_the_standard_library() {
    for s in short_texts() {
        let c = chars(&s);
        let expected_lines: Vec<String> = s.lines().map(|l| l.to_string()).collect();
        assert_eq!(texts(&lines_exec(&c)), expected_lines, "{:?}", s);
        assert_eq!(from_chars(&trim_exec(&c)), s.trim(), "{:?}", s);
        let expected_words: Vec<String> = s.split_whitespace().map(|w| w.to_string()).collect();
        assert_eq!(texts(&words_exec(&c)), expected_words, "{:?}", s);
    }
}

#[test]
fn splitting_and_finding_agree_with_the_standard_library() {
    let sep = chars("::");
    for s in short_texts() {
        let c = chars(&s);
        let expected: Vec<String> = s.split("::").map(|p| p.to_string()).collect();
        assert_eq!(texts(&split_exec(&c, &sep)), expected, "{:?}", s);
        let char_index = |byte: usize| s[..byte].chars().count();
        assert_eq!(find_from_exec(&c, &sep, 0), s.find("::").map(char_index), "{:?}", s);
        assert_eq!(rfind_exec(&c, &sep), s.rfind("::").map(char_index), "{:?}", s);
        assert_eq!(find_char(&c, '<'), s.find('<').map(char_index), "{:?}", s);
        assert_eq!(rfind_char(&c, '<'), s.rfind('<').map(char_index), "{:?}", s);
        assert_eq!(
            strip_prefix_exec(&c, &chars("a:")).map(|r| from_chars(&r)),
            s.strip_prefix("a:").map(|r| r.to_string()),
            "{:?}",
            s
        );
        assert_eq!(utf8_len_exec(&c, 0, c.len()), s.len(), "{:?}", s);
    }
}

#[test]
fn the_order_agrees_with_the_standard_library() {
    let all = short_texts();
    for a in all.iter().step_by(37) {
        for b in all.iter().step_by(41) {
            let expected = if a < b {
                Rank::Before
            } else if a == b {
                Rank::Same
            } else {
                Rank::After
            };
            assert_eq!(compare(a, b), expected, "{:?} {:?}", a, b);
        }
    }
}
