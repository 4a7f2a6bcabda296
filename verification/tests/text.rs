use udl_codegen::text::{
    chars_of, contains, find, join, matches_at, push_text, same_text, spells, without,
};

fn chars(s: &str) -> Vec<char> {
    s.chars().collect()
}

#[test]
fn characters_of_a_string() {
    assert_eq!(chars_of("a?b"), vec!['a', '?', 'b']);
    assert_eq!(chars_of(""), Vec::<char>::new());
    assert_eq!(chars_of("héllo"), vec!['h', 'é', 'l', 'l', 'o']);
}

#[test]
fn pattern_at_a_position() {
    assert!(matches_at(&chars("1...10"), &chars("..."), 1));
    assert!(!matches_at(&chars("1...10"), &chars("..."), 0));
    assert!(!matches_at(&chars("1...10"), &chars("..."), 2));
    assert!(!matches_at(&chars("1.."), &chars("..."), 1));
    assert!(matches_at(&chars("abc"), &chars(""), 3));
    assert!(!matches_at(&chars("abc"), &chars(""), 4));
    assert!(matches_at(&chars("abc"), &chars("abc"), 0));
}

#[test]
fn leftmost_occurrence() {
    assert_eq!(find(&chars("1..5..10"), &chars(".."), 0), Some(1));
    assert_eq!(find(&chars("1..5..10"), &chars(".."), 1), Some(1));
    assert_eq!(find(&chars("1..5..10"), &chars(".."), 2), Some(4));
    assert_eq!(find(&chars("1..5..10"), &chars(".."), 5), None);
    assert_eq!(find(&chars("1..5..10"), &chars("..."), 0), None);
    assert_eq!(find(&chars("...."), &chars(".."), 1), Some(1));
    assert_eq!(find(&chars("abc"), &chars("abcd"), 0), None);
    assert_eq!(find(&chars("abc"), &chars("c"), 9), None);
    assert_eq!(find(&chars("abc"), &chars(""), 3), Some(3));
}

#[test]
fn occurrence_anywhere() {
    assert!(contains(&chars("1...10"), &chars("...")));
    assert!(contains(&chars("..."), &chars("...")));
    assert!(!contains(&chars("1..10"), &chars("...")));
    assert!(!contains(&chars(""), &chars(".")));
    assert!(contains(&chars(""), &chars("")));
}

#[test]
fn equal_texts() {
    assert!(same_text("true", "true"));
    assert!(!same_text("true", "True"));
    assert!(!same_text("true", "tru"));
    assert!(!same_text("tru", "true"));
    assert!(same_text("", ""));
    assert!(spells(&chars("int"), "int"));
    assert!(!spells(&chars("int"), "int8"));
    assert!(!spells(&chars("int8"), "int"));
}

#[test]
fn removal_of_a_pattern() {
    assert_eq!(without("string?", "?"), "string");
    assert_eq!(without("?a??b?", "?"), "ab");
    assert_eq!(without("$enum::Status", "$enum::"), "Status");
    assert_eq!(without("a$enum::b$enum::", "$enum::"), "ab");
    assert_eq!(without("$enum:Status", "$enum::"), "$enum:Status");
    assert_eq!(without("", "?"), "");
    assert_eq!(without("ab", "abc"), "ab");
    assert_eq!(without("aaa", "aa"), "a");
    assert_eq!(without("$enum$enum::::", "$enum::"), "$enum::");
}

#[test]
fn removal_agrees_with_replace() {
    for text in ["string?", "int?^", "$enum::A", "$enum$enum::::", "aaaa", "abab", "", "::$enum::"] {
        for pat in ["?", "^", "$enum::", "aa", "ab", "::"] {
            assert_eq!(without(text, pat), text.replace(pat, ""), "{:?} {:?}", text, pat);
        }
    }
}

#[test]
fn joining_of_pieces() {
    let mut parts: Vec<String> = Vec::new();
    assert_eq!(join(&parts, ", "), "");
    push_text(&mut parts, "a".to_string());
    assert_eq!(join(&parts, ", "), "a");
    push_text(&mut parts, "".to_string());
    push_text(&mut parts, "c".to_string());
    assert_eq!(parts, vec!["a", "", "c"]);
    assert_eq!(join(&parts, ", "), "a, , c");
    assert_eq!(join(&parts, ""), "ac");
}
