use bashdoc::extract::is_within_limit;
use bashdoc::text::{
    contains_char, find, push_all, split_whitespace, string_of, to_chars, trim_bounds,
};

fn chars(s: &str) -> Vec<char> {
    s.chars().collect()
}

#[test]
fn to_chars_and_back() {
    for s in ["", "a", "# cd()\n", "naïve → λ\u{1F600}"] {
        let v = to_chars(s);
        assert_eq!(v, chars(s));
        assert_eq!(string_of(&v), s);
    }
}

#[test]
fn find_gives_the_first_occurrence() {
    let hay = chars("abcabcabd");
    assert_eq!(find(&hay, &chars("abc"), 0), Some(0));
    assert_eq!(find(&hay, &chars("abc"), 1), Some(3));
    assert_eq!(find(&hay, &chars("abc"), 4), None);
    assert_eq!(find(&hay, &chars("abd"), 0), Some(6));
    assert_eq!(find(&hay, &chars("abd"), 6), Some(6));
    assert_eq!(find(&hay, &chars("abd"), 7), None);
    assert_eq!(find(&hay, &chars("x"), 0), None);
    assert_eq!(find(&hay, &chars("abcabcabda"), 0), None);
    assert_eq!(find(&hay, &hay, 0), Some(0));
}

#[test]
fn find_handles_overlapping_beginnings() {
    let hay = chars("aaab#\"#;");
    assert_eq!(find(&hay, &chars("aab"), 0), Some(1));
    assert_eq!(find(&hay, &chars("#;"), 0), Some(6));
    assert_eq!(find(&hay, &chars("#\""), 0), Some(4));
}

#[test]
fn find_an_empty_needle() {
    let hay = chars("abc");
    assert_eq!(find(&hay, &[], 0), Some(0));
    assert_eq!(find(&hay, &[], 2), Some(2));
    assert_eq!(find(&hay, &[], 3), Some(3));
    assert_eq!(find(&hay, &[], 4), None);
    assert_eq!(find(&[], &[], 0), Some(0));
    assert_eq!(find(&[], &chars("a"), 0), None);
}

#[test]
fn find_agrees_with_std() {
    let text = "the cat sat on the mat at the hat";
    let hay = chars(text);
    for needle in ["the", "at", "hat", " ", "t t", "dog", "the cat sat on the mat at the hat"] {
        for from in 0..=text.len() {
            let expected = text[from..].find(needle).map(|i| i + from);
            assert_eq!(find(&hay, &chars(needle), from), expected);
        }
    }
}

#[test]
fn trim_bounds_cut_whitespace_at_both_ends() {
    for s in [
        "",
        " ",
        " \t\n ",
        "a",
        "  a",
        "a  ",
        " a b  c \n",
        "\u{a0}x\u{2003}",
        "no-trim",
    ] {
        let v = chars(s);
        let (a, b) = trim_bounds(&v);
        assert!(a <= b && b <= v.len());
        assert_eq!(string_of(&v[a..b]), s.trim());
    }
}

#[test]
fn split_whitespace_gives_the_words() {
    for s in [
        "",
        "   ",
        "one",
        " one two  three ",
        "CTRL-O to open with `open` command,",
        "tab\tand\nnewline\r\nand\u{3000}wide",
    ] {
        let v = chars(s);
        let words: Vec<String> = split_whitespace(&v)
            .iter()
            .map(|(a, b)| string_of(&v[*a..*b]))
            .collect();
        let expected: Vec<String> = s.split_whitespace().map(String::from).collect();
        assert_eq!(words, expected);
    }
}

#[test]
fn push_all_appends() {
    let mut out = chars("ab");
    push_all(&mut out, &chars("cd"));
    push_all(&mut out, &[]);
    push_all(&mut out, &chars("e"));
    assert_eq!(out, chars("abcde"));
}

#[test]
fn contains_char_looks_at_every_place() {
    let v = chars("key: value");
    assert!(contains_char(&v, ':'));
    assert!(contains_char(&v, 'k'));
    assert!(contains_char(&v, 'e'));
    assert!(!contains_char(&v, ';'));
    assert!(!contains_char(&[], ':'));
}

#[test]
fn ordinary_texts_are_within_the_limit() {
    assert!(is_within_limit(""));
    assert!(is_within_limit("#;\n# cd()\n#\"\n"));
}
