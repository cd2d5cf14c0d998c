use rustohebru::vocabulary::{Vocabulary, VocabularyError};

#[test]
fn test_new_vocabulary() {
    let vocab = Vocabulary::new();
    assert!(vocab.contains("<PAD>"));
    assert!(vocab.contains("<UNK>"));
    assert!(vocab.contains("<BOS>"));
    assert!(vocab.contains("<EOS>"));
}

#[test]
fn test_add_and_get_word() {
    let mut vocab = Vocabulary::new();
    let idx = vocab.add_word("שלום");
    assert_eq!(vocab.get_index("שלום").unwrap(), idx);
    assert_eq!(vocab.get_word(idx).unwrap(), "שלום");
}

#[test]
fn test_unknown_word() {
    let vocab = Vocabulary::new();
    assert!(matches!(vocab.get_index("לא-קיים"), Err(VocabularyError::WordNotFound(_))));
}

#[test]
fn test_invalid_index() {
    let vocab = Vocabulary::new();
    assert!(matches!(vocab.get_word(999), Err(VocabularyError::InvalidIndex(_))));
}

#[test]
fn test_save_and_load() {
    let mut vocab = Vocabulary::new();
    vocab.add_word("שלום");
    vocab.add_word("עולם");

    let lines = vocab.to_lines();

    let mut new_vocab = Vocabulary::new();
    new_vocab.load_from_lines(&lines);

    assert_eq!(vocab.size(), new_vocab.size());
    assert_eq!(vocab.get_index("שלום").unwrap(), new_vocab.get_index("שלום").unwrap());
    assert_eq!(vocab.get_index("עולם").unwrap(), new_vocab.get_index("עולם").unwrap());
}

#[test]
fn test_special_tokens() {
    let vocab = Vocabulary::new();
    assert!(vocab.get_pad_index() >= 0);
    assert!(vocab.get_unk_index() >= 0);
    assert!(vocab.get_bos_index() >= 0);
    assert!(vocab.get_eos_index() >= 0);
}

#[test]
fn words_are_numbered_in_order_of_first_addition() {
    let mut vocab = Vocabulary::new();
    assert_eq!(vocab.size(), 4);
    assert_eq!(vocab.add_word("א"), 4);
    assert_eq!(vocab.add_word("ב"), 5);
    assert_eq!(vocab.add_word("א"), 4);
    assert_eq!(vocab.size(), 6);
    assert_eq!(vocab.get_unk_index(), 1);
    assert_eq!(vocab.get_word(3).unwrap(), "<EOS>");
    assert_eq!(vocab.to_lines(), vec!["<PAD>", "<UNK>", "<BOS>", "<EOS>", "א", "ב"]);
}

#[test]
fn negative_index_is_invalid() {
    let vocab = Vocabulary::new();
    assert_eq!(vocab.get_word(-1), Err(VocabularyError::InvalidIndex(-1)));
    assert_eq!(vocab.get_index("x"), Err(VocabularyError::WordNotFound("x".to_string())));
}
