use rustohebru::morphology::{
    clean_word, is_hebrew_letter, is_hebrew_word, is_russian_letter, is_russian_word, remove_hebrew_prefixes,
    remove_hebrew_suffixes, tokenize,
};

#[test]
fn test_is_hebrew_word() {
    assert!(is_hebrew_word("שלום"));
    assert!(is_hebrew_word("בית"));
    assert!(!is_hebrew_word("hello"));
    assert!(!is_hebrew_word("привет"));
}

#[test]
fn test_is_russian_word() {
    assert!(is_russian_word("привет"));
    assert!(is_russian_word("мир"));
    assert!(!is_russian_word("hello"));
    assert!(!is_russian_word("שלום"));
}

#[test]
fn test_remove_hebrew_prefixes() {
    assert_eq!(remove_hebrew_prefixes("השלום"), "שלום");
    assert_eq!(remove_hebrew_prefixes("בבית"), "בית");
    assert_eq!(remove_hebrew_prefixes("לכתוב"), "כתוב");
}

#[test]
fn test_remove_hebrew_suffixes() {
    assert_eq!(remove_hebrew_suffixes("ספרים"), "ספר");
    assert_eq!(remove_hebrew_suffixes("מחברות"), "מחבר");
    assert_eq!(remove_hebrew_suffixes("שולחנות"), "שולחן");
}

#[test]
fn test_tokenize() {
    let text = "שלום עולם! מה נשמע?";
    let tokens = tokenize(text);
    assert_eq!(tokens, vec!["שלום", "עולם", "מה", "נשמע"]);
}

#[test]
fn final_letters_and_spaces_count_as_hebrew() {
    assert!(is_hebrew_letter('ך'));
    assert!(is_hebrew_letter('ץ'));
    assert!(!is_hebrew_letter('a'));
    assert!(is_hebrew_word("ספר חדש"));
    assert!(is_hebrew_word(""));
}

#[test]
fn yo_is_a_russian_letter_but_capitals_are_not() {
    assert!(is_russian_letter('ё'));
    assert!(!is_russian_letter('П'));
    assert!(!is_russian_word("Привет"));
}

#[test]
fn prefix_removal_strips_one_letter_only() {
    assert_eq!(remove_hebrew_prefixes("ובבית"), "בבית");
    assert_eq!(remove_hebrew_prefixes("ספר"), "ספר");
    assert_eq!(remove_hebrew_prefixes(""), "");
}

#[test]
fn suffix_removal_prefers_longest_and_keeps_unmatched_words() {
    assert_eq!(remove_hebrew_suffixes("כלכליים"), "כלכל");
    assert_eq!(remove_hebrew_suffixes("אבא"), "אבא");
    assert_eq!(remove_hebrew_suffixes("ה"), "");
}

#[test]
fn clean_word_drops_ascii_punctuation() {
    assert_eq!(clean_word("\"שלום!\""), "שלום");
    assert_eq!(clean_word("a-b.c"), "abc");
    assert_eq!(clean_word("«מילה»"), "«מילה»");
}

#[test]
fn tokenize_skips_empty_words_and_splits_on_all_white_space() {
    assert_eq!(tokenize("  ! ?  "), Vec::<String>::new());
    assert_eq!(tokenize("один\tдва\nтри"), vec!["один", "два", "три"]);
    assert_eq!(tokenize(""), Vec::<String>::new());
}
