use cdda_item_browser::text::capitalize_first;
use cdda_item_browser::text::chars_le;
use cdda_item_browser::text::contains_sub;
use cdda_item_browser::text::str_eq;
use cdda_item_browser::text::to_chars;

fn chars(s: &str) -> Vec<char> {
    to_chars(s)
}

#[test]
fn ordinal_comparison_orders_names() {
    assert!(chars_le(&chars("Apple"), &chars("Zed")));
    assert!(chars_le(&chars("Zed"), &chars("apple")));
    assert!(!chars_le(&chars("apple"), &chars("Zed")));
    assert!(chars_le(&chars("app"), &chars("apple")));
    assert!(!chars_le(&chars("apple"), &chars("app")));
    assert!(chars_le(&chars(""), &chars("")));
}

#[test]
fn substring_search_finds_needles() {
    assert!(contains_sub(&chars("baseball bat"), &chars("bat")));
    assert!(contains_sub(&chars("baseball bat"), &chars("")));
    assert!(contains_sub(&chars(""), &chars("")));
    assert!(!contains_sub(&chars("bat"), &chars("baseball")));
    assert!(!contains_sub(&chars("baseball"), &chars("bat")));
}

#[test]
fn string_equality_is_character_wise() {
    assert!(str_eq("axe", "axe"));
    assert!(!str_eq("axe", "Axe"));
    assert!(!str_eq("axe", "axes"));
    assert!(str_eq("", ""));
}

#[test]
fn capitalization_upper_cases_the_first_character() {
    assert_eq!(capitalize_first("volume"), "Volume");
    assert_eq!(capitalize_first("Volume"), "Volume");
    assert_eq!(capitalize_first(""), "");
    assert_eq!(capitalize_first("énergie"), "Énergie");
}
