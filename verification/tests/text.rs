use tv_renamer::order::text_le;
use tv_renamer::text::{chars_of, contains_text, found_at, push_chars, remove_all, same_text, string_of, trim};

fn chars(text: &str) -> Vec<char> {
    text.chars().collect()
}

#[test]
fn chars_and_strings_convert_both_ways() {
    assert_eq!(chars_of("añb"), vec!['a', 'ñ', 'b']);
    assert_eq!(chars_of(""), Vec::<char>::new());
    assert_eq!(string_of(&chars("añb")), "añb");
    let mut out = chars("x");
    push_chars(&mut out, "yz");
    assert_eq!(out, chars("xyz"));
}

#[test]
fn same_text_compares_all_characters() {
    assert!(same_text(&chars("season"), "season"));
    assert!(!same_text(&chars("season"), "seasons"));
    assert!(!same_text(&chars("seasons"), "season"));
    assert!(!same_text(&chars("seasoN"), "season"));
    assert!(same_text(&chars(""), ""));
}

#[test]
fn trim_cuts_white_space_at_both_ends_only() {
    for text in ["", " ", "  a  ", "a b", "\t a\u{a0}b \n", "\u{3000}x", "x\r\n", "   "] {
        assert_eq!(string_of(&trim(&chars(text))), text.trim(), "{:?}", text);
    }
}

#[test]
fn patterns_are_found_where_they_stand() {
    assert!(found_at(&chars("abcabc"), &chars("bc"), 1));
    assert!(found_at(&chars("abcabc"), &chars("bc"), 4));
    assert!(!found_at(&chars("abcabc"), &chars("bc"), 0));
    assert!(!found_at(&chars("abcabc"), &chars("bc"), 5));
    assert!(!found_at(&chars("abc"), &chars("bc"), 7));
    assert!(found_at(&chars("abc"), &chars(""), 3));
    assert!(contains_text(&chars("my season 1"), &chars("season")));
    assert!(!contains_text(&chars("my seaso"), &chars("season")));
    assert!(contains_text(&chars(""), &chars("")));
    assert!(!contains_text(&chars(""), &chars("a")));
}

#[test]
fn removing_a_pattern_is_replacing_it_by_nothing() {
    let cases = [
        ("season 1", "season"),
        ("seaseasonson", "season"),
        ("a b  c ", " "),
        ("aaaa", "aa"),
        ("aaa", "aa"),
        ("abc", ""),
        ("", "x"),
        ("xyz", "xyzz"),
    ];
    for (text, pattern) in cases {
        assert_eq!(
            string_of(&remove_all(&chars(text), &chars(pattern))),
            text.replace(pattern, ""),
            "{:?} {:?}",
            text,
            pattern
        );
    }
}

#[test]
fn texts_are_ordered_as_strings_are() {
    let texts = ["", "a", "A", "ab", "b", "é", "z", "zz", "Z", "10", "9", "\u{10000}", "\u{ffff}"];
    for left in texts {
        for right in texts {
            assert_eq!(text_le(&chars(left), &chars(right)), left <= right, "{:?} {:?}", left, right);
        }
    }
}
