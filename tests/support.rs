use rustohebru::fonts::{font_name, is_hebrew_char, is_rtl_language, is_russian_char, FontManager};
use rustohebru::technical_terms::{create_initial_terms, TechnicalTerm};
use rustohebru::learning::FeedbackAnalyzer;
use rustohebru::security::{char_classes, PasswordPolicy};
use rustohebru::standards::{create_initial_standards, Standard, StandardsDatabase};

#[test]
fn initial_standards_resolve_only_known_references() {
    let db = create_initial_standards();
    let is = db.get_standard("IS1596").unwrap();
    assert_eq!(is.related_standards, vec!["NFPA13"]);
    assert!(db.get_related_standards("IS1596").is_empty());
    assert!(db.get_standard("NFPA13").is_none());
    assert!(db.get_related_standards("unknown").is_empty());
}

fn standard(code: &str, related: &[&str]) -> Standard {
    Standard {
        code: code.to_string(),
        name_he: String::new(),
        name_ru: String::new(),
        country: String::new(),
        description_he: None,
        description_ru: None,
        related_standards: related.iter().map(|s| s.to_string()).collect(),
    }
}

#[test]
fn related_standards_keep_reference_order_and_replacement_works() {
    let mut db = StandardsDatabase::new();
    db.add_standard(standard("A", &["C", "X", "B"]));
    db.add_standard(standard("B", &[]));
    db.add_standard(standard("C", &[]));
    let related: Vec<String> = db.get_related_standards("A").iter().map(|s| s.code.clone()).collect();
    assert_eq!(related, vec!["C", "B"]);
    let mut replacement = standard("B", &[]);
    replacement.country = "ישראל".to_string();
    db.add_standard(replacement);
    assert_eq!(db.get_standard("B").unwrap().country, "ישראל");
}

#[test]
fn script_ranges() {
    assert!(is_hebrew_char('א'));
    assert!(is_hebrew_char('\u{05B0}'));
    assert!(!is_hebrew_char('a'));
    assert!(is_russian_char('Ж'));
    assert!(!is_russian_char('z'));
}

#[test]
fn font_choice_follows_the_scripts_of_the_text() {
    let mut fm = FontManager::new();
    fm.register_font("Times", false, false, false, true, vec![1]);
    fm.register_font("David", true, false, true, false, vec![2]);
    assert_eq!(font_name("David", true, false), "David-Bold-Normal");
    assert_eq!(fm.get_font_for_text("שלום").unwrap().name, "David-Bold-Normal");
    assert_eq!(fm.get_font_for_text("мир").unwrap().name, "Times-Regular-Normal");
    assert_eq!(fm.get_font_for_text("hello").unwrap().name, "Times-Regular-Normal");
    fm.register_font("Times", false, false, false, true, vec![3]);
    assert_eq!(fm.get_font_for_text("мир").unwrap().data, vec![3]);
    let empty = FontManager::new();
    assert!(empty.get_font_for_text("שלום").is_none());
}

#[test]
fn feedback_keywords_are_counted_case_insensitively() {
    let mut fa = FeedbackAnalyzer::new();
    fa.analyze_comments("Grammar and STYLE problems");
    fa.analyze_comments("more grammar");
    assert_eq!(fa.common_issues, vec![("grammar".to_string(), 2), ("style".to_string(), 1)]);
    fa.analyze_lowercased("Cultural");
    assert_eq!(fa.common_issues.len(), 2);
}

#[test]
fn right_to_left_languages() {
    assert!(is_rtl_language("he"));
    assert!(is_rtl_language("ar"));
    assert!(is_rtl_language("fa"));
    assert!(!is_rtl_language("ru"));
    assert!(!is_rtl_language("heb"));
}

#[test]
fn initial_terms_translate_both_ways() {
    let mut db = create_initial_terms();
    assert_eq!(db.get_russian_translation("צנרת אספקה").unwrap(), "питающий трубопровод");
    assert_eq!(db.get_hebrew_translation("рабочее давление").unwrap(), "לחץ עבודה");
    assert_eq!(db.get_term_context("מגוף שליטה").unwrap(), "מערכות כיבוי אש");
    assert_eq!(db.get_term_standards("ראש ספרינקלר").unwrap(), &vec!["NFPA 13".to_string(), "תקן ישראלי 1596".to_string()]);
    assert_eq!(db.get_all_hebrew_terms().len(), 4);
    assert!(db.get_russian_translation("אין").is_none());
    db.add_term(TechnicalTerm {
        hebrew: "לחץ עבודה".to_string(),
        russian: "давление".to_string(),
        english: None,
        context: String::new(),
        standards: vec![],
        notes: None,
    });
    assert_eq!(db.get_all_hebrew_terms().len(), 4);
    assert_eq!(db.get_russian_translation("לחץ עבודה").unwrap(), "давление");
    assert_eq!(db.get_hebrew_translation("рабочее давление").unwrap(), "לחץ עבודה");
    assert_eq!(db.get_all_russian_terms().len(), 5);
}

fn strict_policy() -> PasswordPolicy {
    PasswordPolicy {
        min_length: 8,
        require_uppercase: true,
        require_lowercase: true,
        require_numbers: true,
        require_special: true,
        max_age_days: 90,
    }
}

#[test]
fn password_policy_checks_each_class() {
    let p = strict_policy();
    assert!(p.validate_password("Abcdef1!"));
    assert!(!p.validate_password("Abc1!"));
    assert!(!p.validate_password("abcdefg1!"));
    assert!(!p.validate_password("ABCDEFG1!"));
    assert!(!p.validate_password("Abcdefgh!"));
    assert!(!p.validate_password("Abcdefg12"));
    assert!(p.validate_password("Шалом1-אב"));
    assert!(!p.validate_password("Шалом1אב"));
    let lax = PasswordPolicy { min_length: 0, require_uppercase: false, require_lowercase: false, require_numbers: false, require_special: false, max_age_days: 0 };
    assert!(lax.validate_password(""));
}

#[test]
fn character_classes_follow_unicode() {
    let c = char_classes("Ж٣ש");
    assert!(c.has_uppercase);
    assert!(!c.has_lowercase);
    assert!(c.has_number);
    assert!(!c.has_special);
}

#[test]
fn password_expiry_counts_whole_days() {
    let p = strict_policy();
    let day: i64 = 86_400_000;
    assert!(!p.password_expired(0, 90 * day));
    assert!(!p.password_expired(0, 91 * day - 1));
    assert!(p.password_expired(0, 91 * day));
    assert!(!p.password_expired(91 * day, 0));
}
