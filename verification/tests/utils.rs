use webman::regex_ops::preg_replace;
use webman::utils::{
    dot_file_extension, random_alphabets, random_characters, random_digits, random_hex,
    random_varchar, unique_characters_from_fs, unique_characters_from_vec, unique_digits_from_fs,
    unique_digits_from_vec, unique_from_fs, unique_from_vec, unique_fs_candidate, unique_hex_from_fs,
    unique_vec_candidate, UniqueFromFsContext,
};

#[test]
fn random_digits_are_digits_of_the_length_asked() {
    let s = random_digits(12);
    assert_eq!(s.chars().count(), 12);
    assert!(s.chars().all(|c| c.is_ascii_digit()));
    assert_eq!(random_digits(0), "");
}

#[test]
fn random_alphabets_are_lower_case_letters() {
    let s = random_alphabets(30);
    assert_eq!(s.len(), 30);
    assert!(s.chars().all(|c| c.is_ascii_lowercase()));
}

#[test]
fn random_hex_is_lower_case_hex() {
    let s = random_hex(40);
    assert_eq!(s.len(), 40);
    assert!(s.chars().all(|c| c.is_ascii_digit() || ('a'..='f').contains(&c)));
}

#[test]
fn random_characters_are_letters_and_digits() {
    let s = random_characters(50);
    assert_eq!(s.len(), 50);
    assert!(s.chars().all(|c| c.is_ascii_alphanumeric()));
}

#[test]
fn random_varchar_draws_from_the_charset() {
    let s = random_varchar(b"xy", 20);
    assert_eq!(s.len(), 20);
    assert!(s.chars().all(|c| c == 'x' || c == 'y'));
    assert_eq!(random_varchar(b"", 0), "");
}

#[test]
fn dot_file_extension_cases() {
    assert_eq!(dot_file_extension(Some("json")), ".json");
    assert_eq!(dot_file_extension(Some(".json")), ".json");
    assert_eq!(dot_file_extension(Some("  .tar.gz  ")), ".tar.gz");
    assert_eq!(dot_file_extension(Some("..x")), "..x");
    assert_eq!(dot_file_extension(Some("   ")), "");
    assert_eq!(dot_file_extension(Some("")), "");
    assert_eq!(dot_file_extension(None), "");
}

#[test]
fn dot_file_extension_of_its_result_is_the_result() {
    for e in ["json", ".json", " ..a ", ".", "a b"] {
        let once = dot_file_extension(Some(e));
        assert_eq!(dot_file_extension(Some(&once)), once);
    }
}

#[test]
fn unique_fs_candidate_has_name_then_extension() {
    let c = unique_fs_candidate(7, Some("json"), &UniqueFromFsContext::Hex);
    assert_eq!(c.len(), 12);
    assert!(c.ends_with(".json"));
    assert!(c[..7].chars().all(|ch| ch.is_ascii_digit() || ('a'..='f').contains(&ch)));
    let d = unique_fs_candidate(5, None, &UniqueFromFsContext::Digits);
    assert_eq!(d.len(), 5);
    assert!(d.chars().all(|ch| ch.is_ascii_digit()));
    let e = unique_fs_candidate(6, Some(" "), &UniqueFromFsContext::Characters);
    assert_eq!(e.len(), 6);
    assert!(e.chars().all(|ch| ch.is_ascii_alphanumeric()));
}

#[test]
fn unique_vec_candidate_avoids_taken_values() {
    let taken: Vec<String> = (0..10).map(|d| d.to_string()).collect();
    assert_eq!(unique_vec_candidate(&taken, 1, "digits"), None);
    let free = unique_vec_candidate(&vec![], 4, "digits").unwrap();
    assert_eq!(free.len(), 4);
    assert!(free.chars().all(|c| c.is_ascii_digit()));
    let chars = unique_vec_candidate(&taken, 8, "characters").unwrap();
    assert_eq!(chars.len(), 8);
    assert!(chars.chars().all(|c| c.is_ascii_alphanumeric()));
}

#[test]
fn unique_from_vec_finds_the_one_free_value() {
    let taken: Vec<String> = ["0", "1", "2", "3", "4", "5", "6", "8", "9"].iter().map(|s| s.to_string()).collect();
    assert_eq!(unique_from_vec(taken.clone(), 1, "digits"), Some("7".to_string()));
    assert_eq!(unique_digits_from_vec(taken, 1), Some("7".to_string()));
}

#[test]
fn unique_characters_from_vec_avoids_taken_values() {
    let taken = vec!["abc".to_string()];
    let s = unique_characters_from_vec(taken, 3).unwrap();
    assert_eq!(s.len(), 3);
    assert_ne!(s, "abc");
    assert!(s.chars().all(|c| c.is_ascii_alphanumeric()));
}

#[test]
fn unique_from_fs_finds_the_one_free_name() {
    let exists = |p: &str| p != "/srv/tmp/3.txt";
    assert_eq!(unique_digits_from_fs("/srv/tmp", 1, Some("txt"), exists), Some("3.txt".to_string()));
    assert_eq!(
        unique_from_fs("/srv/tmp", 1, Some(".txt"), UniqueFromFsContext::Digits, exists),
        Some("3.txt".to_string())
    );
}

#[test]
fn unique_names_from_fs_have_their_kind() {
    let free = |_: &str| false;
    let c = unique_characters_from_fs("/x", 9, None, free).unwrap();
    assert_eq!(c.len(), 9);
    assert!(c.chars().all(|ch| ch.is_ascii_alphanumeric()));
    let h = unique_hex_from_fs("/x", 6, Some("json"), free).unwrap();
    assert!(h.ends_with(".json"));
    assert!(h[..6].chars().all(|ch| ch.is_ascii_digit() || ('a'..='f').contains(&ch)));
}

#[test]
fn preg_replace_replaces_every_match() {
    assert_eq!(preg_replace("a1b22c", "[0-9]+", "#"), Some("a#b#c".to_string()));
    assert_eq!(preg_replace(".json", "^\\.", ""), Some("json".to_string()));
    assert_eq!(preg_replace("x", "(", ""), None);
}
