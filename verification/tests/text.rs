use cloggen::chars::{trimmed, Class};
use cloggen::text::{chars_of, contains_text, found_at, join_parts, split_lines, string_of, substitute};
use cloggen::text_map::{same_text, TextMap};

fn chars(s: &str) -> Vec<char> {
    s.chars().collect()
}

fn lines(s: &str) -> Vec<String> {
    split_lines(&chars(s)).iter().map(string_of).collect()
}

#[test]
fn chars_and_strings() {
    assert_eq!(chars_of("Vprašanje"), chars("Vprašanje"));
    assert_eq!(string_of(&chars("Vprašanje")), "Vprašanje");
    assert_eq!(chars_of(""), Vec::new());
    assert_eq!(string_of(&Vec::new()), "");
}

#[test]
fn lines_are_those_of_the_standard_library() {
    let texts = [
        "", "a", "a\n", "a\nb", "a\r\nb", "a\rb", "a\n\nb", "\n", "\n\n", "a\r", "\r\n", "a\r\r\n",
        "\r", "a\n\r", "a\r\nb\r\n", "\n\ra", "a\n\n",
    ];
    for text in texts {
        let expected: Vec<String> = text.lines().map(|l| l.to_string()).collect();
        assert_eq!(lines(text), expected, "lines of {text:?}");
    }
}

#[test]
fn lines_end_at_line_feeds() {
    assert_eq!(lines("a\r\nb\n\nc"), vec!["a", "b", "", "c"]);
    assert_eq!(lines("a\n"), vec!["a"]);
    assert_eq!(lines("a\r"), vec!["a\r"]);
}

#[test]
fn trimming_is_that_of_the_standard_library() {
    let texts =
        ["", " ", ";,a,;", "\u{a0}a b\u{a0}", " \t;x;\t ", ";;;", "\u{a0};a", "a", ",\u{2003}a\u{2003},", "\r"];
    for text in texts {
        let separators = string_of(&trimmed(&chars(text), Class::Separator));
        assert_eq!(separators, text.trim_matches([',', ';', '\t', ' ']), "separators of {text:?}");
        let space = string_of(&trimmed(&chars(text), Class::Space));
        assert_eq!(space, text.trim(), "white space of {text:?}");
    }
}

#[test]
fn substitution_is_that_of_the_standard_library() {
    let cases = [
        ("aaa", "aa", "b"),
        ("abcabc", "bc", ""),
        ("abc", "abc", "x"),
        ("abc", "abcd", "x"),
        ("", "a", "x"),
        ("aXbXc", "X", "XX"),
        ("{MEAN}{MEAN", "{MEAN}", "1"),
        ("ššš", "š", "s"),
    ];
    for (text, pattern, with) in cases {
        let got = string_of(&substitute(&chars(text), &chars(pattern), &chars(with)));
        assert_eq!(got, text.replace(pattern, with), "{text:?} {pattern:?} {with:?}");
    }
}

#[test]
fn substitution_of_the_empty_pattern_changes_nothing() {
    assert_eq!(string_of(&substitute(&chars("abc"), &Vec::new(), &chars("x"))), "abc");
}

#[test]
fn search() {
    assert!(contains_text(&chars("abc"), &chars("bc")));
    assert!(contains_text(&chars("abc"), &chars("")));
    assert!(contains_text(&chars(""), &chars("")));
    assert!(!contains_text(&chars("abc"), &chars("cb")));
    assert!(!contains_text(&chars("ab"), &chars("abc")));
    assert!(found_at(&chars("abc"), &chars("bc"), 1));
    assert!(!found_at(&chars("abc"), &chars("bc"), 2));
    assert!(found_at(&chars("abc"), &chars(""), 3));
    assert!(!found_at(&chars("abc"), &chars(""), 4));
}

#[test]
fn joining() {
    let parts = vec![chars("a"), chars(""), chars("b")];
    assert_eq!(string_of(&join_parts(&parts, &chars(", "))), "a, , b");
    assert_eq!(string_of(&join_parts(&Vec::new(), &chars(", "))), "");
    assert_eq!(string_of(&join_parts(&vec![chars("a")], &chars(", "))), "a");
}

#[test]
fn text_map_keeps_the_first_place_of_a_key() {
    let mut map = TextMap::new();
    map.insert("b", 1);
    map.insert("a", 2);
    map.insert("b", 3);
    assert_eq!(map.len(), 2);
    assert_eq!(map.get("b"), Some(&3));
    assert_eq!(map.get("a"), Some(&2));
    assert_eq!(map.get("c"), None);
    assert!(map.contains_key("a") && !map.contains_key(""));
    assert_eq!(map.entry(0), (&"b".to_string(), &3));
    assert_eq!(map.entry(1), (&"a".to_string(), &2));
    assert!(same_text("a", "a") && !same_text("a", "b") && !same_text("a", "ab"));
}
