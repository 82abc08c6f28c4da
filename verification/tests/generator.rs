use wgsl_minifier::{is_numeric, name_from_count};

#[test]
fn first_names_follow_the_alphabets() {
    let mut count: usize = 0;
    assert_eq!(name_from_count(&mut count), "A");
    assert_eq!(name_from_count(&mut count), "a");
    assert_eq!(name_from_count(&mut count), "B");
    assert_eq!(name_from_count(&mut count), "b");
    assert_eq!(count, 4);
}

#[test]
fn last_single_character_name_is_lowercase_z() {
    let mut count: usize = 51;
    assert_eq!(name_from_count(&mut count), "z");
    assert_eq!(name_from_count(&mut count), "Aa");
    assert_eq!(name_from_count(&mut count), "aa");
}

#[test]
fn names_grow_past_two_characters() {
    // 52 + 52 * 63 = 3328 is the first counter value with a three-character
    // name: first letter 'A', then tail 64 = 1 + 1 * 63 in base 63.
    let mut count: usize = 52 + 52 * 63;
    assert_eq!(name_from_count(&mut count), "Aaa");
}

#[test]
fn generated_names_are_mutually_distinct() {
    let mut count: usize = 0;
    let mut seen = Vec::new();
    for _ in 0..5000 {
        let name = name_from_count(&mut count);
        assert!(!seen.contains(&name), "name generated twice: {}", name);
        seen.push(name);
    }
}

#[test]
fn generated_names_satisfy_the_identifier_grammar() {
    let mut count: usize = 0;
    for _ in 0..5000 {
        let name = name_from_count(&mut count);
        let mut chars = name.chars();
        let first = chars.next().unwrap();
        assert!(first.is_ascii_alphabetic());
        for c in chars {
            assert!(c.is_ascii_alphanumeric() || c == '_');
        }
    }
}

#[test]
fn is_numeric_matches_ascii_digits() {
    for c in '0'..='9' {
        assert!(is_numeric(c));
    }
    assert!(!is_numeric('a'));
    assert!(!is_numeric(' '));
    assert!(!is_numeric('.'));
    assert!(!is_numeric('\u{0660}'));
}
