use vac_downloader_gui::text::{
    chars_of, collate, contains, decimal_text, lowercase_chars, Collation,
};

fn chars(s: &str) -> Vec<char> {
    s.chars().collect()
}

#[test]
fn chars_of_keeps_every_character_in_order() {
    assert_eq!(chars_of("LFPG"), vec!['L', 'F', 'P', 'G']);
    assert_eq!(chars_of(""), Vec::<char>::new());
    assert_eq!(chars_of("Orléans"), vec!['O', 'r', 'l', 'é', 'a', 'n', 's']);
}

#[test]
fn contains_finds_a_run_anywhere() {
    assert!(contains(&chars("paris"), &chars("par")));
    assert!(contains(&chars("paris"), &chars("ris")));
    assert!(contains(&chars("paris"), &chars("ari")));
    assert!(contains(&chars("paris"), &chars("paris")));
}

#[test]
fn contains_rejects_what_is_not_a_run() {
    assert!(!contains(&chars("paris"), &chars("prs")));
    assert!(!contains(&chars("paris"), &chars("parisi")));
    assert!(!contains(&chars("lyon"), &chars("par")));
    assert!(!contains(&chars(""), &chars("a")));
}

#[test]
fn contains_finds_the_empty_text_everywhere() {
    assert!(contains(&chars("paris"), &chars("")));
    assert!(contains(&chars(""), &chars("")));
}

#[test]
fn contains_is_case_sensitive() {
    assert!(!contains(&chars("Paris"), &chars("par")));
    assert!(contains(&chars("Paris"), &chars("Par")));
}

#[test]
fn collate_orders_by_first_difference() {
    assert_eq!(collate(&chars("LFLY"), &chars("LFPG")), Collation::Before);
    assert_eq!(collate(&chars("LFPG"), &chars("LFLY")), Collation::After);
    assert_eq!(collate(&chars("LFPG"), &chars("LFPG")), Collation::Same);
}

#[test]
fn collate_puts_a_prefix_first() {
    assert_eq!(collate(&chars("Lyon"), &chars("Lyon-Bron")), Collation::Before);
    assert_eq!(collate(&chars("Lyon-Bron"), &chars("Lyon")), Collation::After);
    assert_eq!(collate(&chars(""), &chars("a")), Collation::Before);
    assert_eq!(collate(&chars(""), &chars("")), Collation::Same);
}

#[test]
fn collate_is_case_sensitive() {
    assert_eq!(collate(&chars("Zurich"), &chars("amiens")), Collation::Before);
    assert_eq!(collate(&chars("amiens"), &chars("Amiens")), Collation::After);
}

#[test]
fn collate_agrees_with_the_order_of_strings() {
    let words = ["", "a", "A", "ab", "b", "Paris", "paris", "Orléans", "Orly", "é", "z"];
    for a in words {
        for b in words {
            let expected = match a.cmp(b) {
                std::cmp::Ordering::Less => Collation::Before,
                std::cmp::Ordering::Equal => Collation::Same,
                std::cmp::Ordering::Greater => Collation::After,
            };
            assert_eq!(collate(&chars(a), &chars(b)), expected);
        }
    }
}

#[test]
fn lowercase_chars_lowers_every_letter() {
    assert_eq!(lowercase_chars("LFPG"), chars("lfpg"));
    assert_eq!(lowercase_chars("Paris"), chars("paris"));
    assert_eq!(lowercase_chars("ÉVREUX"), chars("évreux"));
    assert_eq!(lowercase_chars(""), chars(""));
}

#[test]
fn decimal_text_writes_numerals() {
    assert_eq!(decimal_text(0), "0");
    assert_eq!(decimal_text(7), "7");
    assert_eq!(decimal_text(9), "9");
    assert_eq!(decimal_text(10), "10");
    assert_eq!(decimal_text(99), "99");
    assert_eq!(decimal_text(100), "100");
    assert_eq!(decimal_text(12345), "12345");
    assert_eq!(decimal_text(usize::MAX), usize::MAX.to_string());
}
