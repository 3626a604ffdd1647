use bashdoc::error::DocError;
use bashdoc::kv::{as_kv, KV};

#[test]
fn new_kv() {
    let kv = KV::new(String::from("a"), String::from("b"));
    assert_eq!(String::from("a"), kv.key);
    assert_eq!(String::from("b"), kv.value);
}

#[test]
fn cmp_kv() {
    let kv1 = KV::new(String::from("a"), String::from("b"));
    let kv2 = KV::new(String::from("a"), String::from("b"));
    let kv = KV::new(String::from("b"), String::from("a"));
    assert_eq!(kv1, kv2);
    assert_ne!(kv1, kv);
}

#[test]
fn is_as_kv() {
    let conv = as_kv("type: mp4 or gif");
    assert_eq!(
        KV {
            key: String::from("type"),
            value: String::from("mp4 or gif")
        },
        conv.unwrap()
    );
}

#[test]
fn is_as_kv_white() {
    let conv = as_kv("CTRL-O to open with `open` command,");
    assert_eq!(
        KV {
            key: String::from("CTRL-O"),
            value: String::from("to open with `open` command,")
        },
        conv.unwrap()
    );
}

#[test]
fn as_kv_whitespace_form_with_quotes() {
    let conv = as_kv("CTRL-O to open with 'open' command,");
    assert_eq!(
        KV::new(
            String::from("CTRL-O"),
            String::from("to open with 'open' command,")
        ),
        conv.unwrap()
    );
}

#[test]
fn as_kv_splits_at_first_colon_space_only() {
    let kv = as_kv(" url: see http://host: 80 ").unwrap();
    assert_eq!(kv.key, "url");
    assert_eq!(kv.value, "see http://host: 80");
}

#[test]
fn as_kv_colon_without_space_is_all_key() {
    let kv = as_kv("  nothing:").unwrap();
    assert_eq!(kv.key, "nothing:");
    assert_eq!(kv.value, "");
}

#[test]
fn as_kv_single_word_has_empty_value() {
    let kv = as_kv(" void").unwrap();
    assert_eq!(kv.key, "void");
    assert_eq!(kv.value, "");
}

#[test]
fn as_kv_rejoins_words_with_single_spaces() {
    let kv = as_kv("\tname   first \u{a0} second\t third  ").unwrap();
    assert_eq!(kv.key, "name");
    assert_eq!(kv.value, "first second third");
}

#[test]
fn as_kv_empty_line_is_an_error() {
    assert_eq!(as_kv("").unwrap_err(), DocError::EmptyAnnotationLine);
    assert_eq!(as_kv(" \t ").unwrap_err(), DocError::EmptyAnnotationLine);
}

#[test]
fn as_kv_agrees_with_std_on_colon_lines() {
    let line = "  key with space : value: more  ";
    let kv = as_kv(line).unwrap();
    let at = line.find(": ").unwrap();
    assert_eq!(kv.key, line[..at].trim());
    assert_eq!(kv.value, line[at + 2..].trim());
}

#[test]
fn as_kv_agrees_with_std_on_word_lines() {
    let line = " \u{2003}alpha\u{3000}beta\ngamma ";
    let kv = as_kv(line).unwrap();
    let words: Vec<&str> = line.split_whitespace().collect();
    assert_eq!(kv.key, words[0]);
    assert_eq!(kv.value, words[1..].join(" "));
}

#[test]
fn default_kv_is_empty() {
    let kv = KV::default();
    assert_eq!(kv.key, "");
    assert_eq!(kv.value, "");
}
