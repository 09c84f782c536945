use recipe_book::snapshot::{push_decimal, recipe_file_path, snapshot_file_name, snapshot_path};
use recipe_book::utils::{key_char_of, prep_name_for_file};

#[test]
fn letters_stand_for_themselves() {
    assert_eq!(prep_name_for_file("Tacos"), "Tacos");
    assert_eq!(prep_name_for_file("abcXYZ"), "abcXYZ");
}

#[test]
fn whitespace_and_punctuation_become_underscores() {
    assert_eq!(prep_name_for_file("Mac & Cheese"), "Mac___Cheese");
    assert_eq!(prep_name_for_file("a\tb\nc\rd\x0Ce"), "a_b_c_d_e");
    assert_eq!(prep_name_for_file("!\"#$%&'()*+,-./"), "_______________");
    assert_eq!(prep_name_for_file(":;<=>?@[\\]^_`{|}~"), "_________________");
}

#[test]
fn digits_and_other_characters_are_dropped() {
    assert_eq!(prep_name_for_file("Top 10 Tacos"), "Top__Tacos");
    assert_eq!(prep_name_for_file("Crème brûlée"), "Crme_brle");
    assert_eq!(prep_name_for_file("0123456789"), "");
    assert_eq!(prep_name_for_file("\x0B\x7F\x00"), "");
    assert_eq!(prep_name_for_file(""), "");
}

#[test]
fn key_char_follows_the_ascii_classes() {
    for code in 0u32..=0x2FF {
        let c = char::from_u32(code).unwrap();
        let expected = if c.is_ascii_alphabetic() {
            Some(c)
        } else if c.is_ascii_whitespace() || c.is_ascii_punctuation() {
            Some('_')
        } else {
            None
        };
        assert_eq!(key_char_of(c), expected);
    }
}

#[test]
fn normalizing_twice_changes_nothing_more() {
    let once = prep_name_for_file("One-Pot  Chicken (Spicy)!");
    assert_eq!(once, "One_Pot__Chicken__Spicy__");
    assert_eq!(prep_name_for_file(&once), once);
}

#[test]
fn decimal_numerals() {
    let mut text = String::from("n=");
    push_decimal(&mut text, 0);
    assert_eq!(text, "n=0");
    let mut text = String::new();
    push_decimal(&mut text, 9);
    push_decimal(&mut text, 10);
    push_decimal(&mut text, 1234567890);
    assert_eq!(text, "9101234567890");
    let mut text = String::new();
    push_decimal(&mut text, u64::MAX);
    assert_eq!(text, "18446744073709551615");
}

#[test]
fn snapshot_names_carry_the_seconds() {
    assert_eq!(snapshot_file_name(1700000000), "RecipeBook-1700000000.json");
    assert_eq!(snapshot_file_name(0), "RecipeBook-0.json");
    assert_eq!(snapshot_path("data", 1666000007), "data/RecipeBook-1666000007.json");
}

#[test]
fn recipe_files_are_named_by_key() {
    assert_eq!(recipe_file_path(Some("out"), "Mac & Cheese"), "out/Mac___Cheese.json");
    assert_eq!(recipe_file_path(None, "Tacos"), "./Tacos.json");
}
