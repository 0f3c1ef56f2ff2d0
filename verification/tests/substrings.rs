use indexmap::IndexMap;
use webman::substrings::{replacement_map, Substrings};

fn strings(v: &[&str]) -> Vec<String> {
    v.iter().map(|s| s.to_string()).collect()
}

#[test]
fn new_splits_words_and_punctuation() {
    let s = Substrings::new("hello, world!");
    assert_eq!(s.substrings, strings(&["hello", ",", "world", "!"]));
    assert_eq!(s.substring_chars, strings(&["hello", ",", " ", "world", "!"]));
    assert_eq!(s.to_string(), "hello, world!");
}

#[test]
fn new_keeps_apostrophes_in_words() {
    let s = Substrings::new("it's a test.");
    assert_eq!(s.substrings, strings(&["it's", "a", "test", "."]));
    assert_eq!(s.to_string(), "it's a test.");
}

#[test]
fn new_joins_symbols_followed_by_word_characters() {
    let s = Substrings::new("x = y+1");
    assert_eq!(s.substrings, strings(&["x", "=", "y+1"]));
    let s = Substrings::new("f(x)");
    assert_eq!(s.substrings, strings(&["f(x", ")"]));
}

#[test]
fn new_drops_single_final_word_character_after_space() {
    let s = Substrings::new("a b");
    assert_eq!(s.substrings, strings(&["a", ""]));
    assert_eq!(s.substring_chars, strings(&["a", " "]));
    assert_eq!(s.to_string(), "a ");
}

#[test]
fn new_drops_final_whitespace_and_keeps_leading() {
    let s = Substrings::new("trail ");
    assert_eq!(s.substring_chars, strings(&["trail"]));
    let s = Substrings::new(" lead");
    assert_eq!(s.substring_chars, strings(&[" ", "lead"]));
    assert_eq!(s.substrings, strings(&["lead"]));
}

#[test]
fn new_of_empty_string_is_empty() {
    let s = Substrings::new("");
    assert!(s.substrings.is_empty());
    assert!(s.substring_chars.is_empty());
    assert_eq!(s.to_string(), "");
}

#[test]
fn from_flags_uses_the_given_word_flags() {
    let cs: Vec<char> = "ab-cd".chars().collect();
    let s = Substrings::from_flags(&cs, &vec![true, true, false, true, true]);
    assert_eq!(s.substrings, strings(&["ab-cd"]));
    let s = Substrings::from_flags(&cs, &vec![true, true, false, false, true]);
    assert_eq!(s.substrings, strings(&["ab", "-", "cd"]));
}

#[test]
fn set_then_get() {
    let mut s = Substrings::new("ab cd ef");
    s.set(1, "XY");
    assert_eq!(s.get(1), "XY");
    assert_eq!(s.to_string(), "ab XY ef");
    assert_eq!(s.get(0), "ab");
}

#[test]
fn set_out_of_range_changes_nothing() {
    let mut s = Substrings::new("ab cd");
    let before = s.to_string();
    s.set(5, "zz");
    assert_eq!(s.to_string(), before);
}

#[test]
fn find_returns_positions_in_order() {
    let s = Substrings::new("a = ? and b = ?");
    assert_eq!(s.find("?"), vec![2, 6]);
    assert_eq!(s.find("="), vec![1, 5]);
    assert!(s.find("zz").is_empty());
}

#[test]
fn find_and_replace_replaces_in_order() {
    let mut s = Substrings::new("SELECT * FROM `t` WHERE `a` = ? AND `b` = ?");
    s.find_and_replace("?", vec!["1".to_string(), "'x'".to_string()]);
    assert_eq!(s.to_string(), "SELECT * FROM `t` WHERE `a` = 1 AND `b` = 'x'");
}

#[test]
fn replace_follows_map_order() {
    let mut s = Substrings::new("aa bb cc");
    let mut map: IndexMap<usize, String> = IndexMap::new();
    map.insert(2, "z".to_string());
    map.insert(0, "x".to_string());
    s.replace(map);
    assert_eq!(s.to_string(), "x bb z");
}

#[test]
fn update_applies_function_to_every_token() {
    let mut s = Substrings::new("ab cd ef");
    s.update(|t| t.to_uppercase());
    assert_eq!(s.to_string(), "AB CD EF");
    assert_eq!(s.substrings, strings(&["AB", "CD", "EF"]));
}

#[test]
fn update_with_blank_result_shifts_later_positions() {
    let mut s = Substrings::new("ab cd ef");
    s.update(|t| if t == "ab" { "".to_string() } else { format!("<{t}>") });
    assert_eq!(s.substring_chars, strings(&["", " ", "cd", " ", "<cd>"]));
    assert_eq!(s.substrings, strings(&["", "<cd>", "ef"]));
}

#[test]
fn into_iter_gives_the_tokens_in_order() {
    let s = Substrings::new("Hello, my world's end");
    let tokens = s.substrings.clone();
    let collected: Vec<String> = s.into_iter().collect();
    assert_eq!(collected, tokens);
    let mut count = 0;
    for t in Substrings::new("one two three") {
        assert!(!t.is_empty());
        count += 1;
    }
    assert_eq!(count, 3);
}

#[test]
fn replacement_map_keeps_first_place_and_last_text() {
    let m = replacement_map(&vec![(1, "p".to_string()), (0, "q".to_string()), (1, "r".to_string())]);
    let entries: Vec<(usize, String)> = m.clone().into_iter().collect();
    assert_eq!(entries, vec![(1, "r".to_string()), (0, "q".to_string())]);
    let mut s = Substrings::new("aa bb cc");
    s.replace(m);
    assert_eq!(s.to_string(), "q r cc");
}

#[test]
fn clean_endings_round_trip_and_tokens_are_the_non_blank_pieces() {
    for text in ["Hello, my world's end.", "x = y+1;", "a  b\tc!", ""] {
        let s = Substrings::new(text);
        assert_eq!(s.to_string(), text);
        let nonblank: Vec<String> =
            s.substring_chars.iter().filter(|t| !t.trim().is_empty()).cloned().collect();
        assert_eq!(s.substrings, nonblank);
    }
}
