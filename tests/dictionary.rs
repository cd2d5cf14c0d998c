use rustohebru::dictionary::{IndexKind, SearchQuery, TechnicalDictionary, TechnicalTerm};
use rustohebru::error::StoreError;
use rustohebru::collaboration::ChangeType;
use rustohebru::knowledge::KnowledgeManager;

fn term(he: &str, ru: &str) -> TechnicalTerm {
    TechnicalTerm::new(he.to_string(), ru.to_string())
}

fn query(text: &str, lang: &str, exact: bool, synonyms: bool) -> SearchQuery {
    SearchQuery {
        text: text.to_string(),
        lang: lang.to_string(),
        categories: None,
        contexts: None,
        tags: None,
        include_synonyms: synonyms,
        exact_match: exact,
    }
}

fn hebrew_of(found: &[&TechnicalTerm]) -> Vec<String> {
    found.iter().map(|t| t.hebrew.clone()).collect()
}

fn sample() -> TechnicalDictionary {
    let mut d = TechnicalDictionary::new("dict.json".to_string());
    let mut a = term("ברז", "кран");
    a.category = Some("אינסטלציה".to_string());
    a.tags = vec!["מים".to_string(), "שסתומים".to_string()];
    let mut b = term("ברז כיבוי", "пожарный кран");
    b.category = Some("כיבוי אש".to_string());
    b.context = Some("מערכות כיבוי".to_string());
    b.tags = vec!["מים".to_string()];
    let mut c = term("מגוף", "задвижка");
    c.synonyms_he = vec!["ברז".to_string(), "שסתום".to_string()];
    c.category = Some("אינסטלציה".to_string());
    d.add_term_at(a, 10).unwrap();
    d.add_term_at(b, 20).unwrap();
    d.add_term_at(c, 30).unwrap();
    d
}

#[test]
fn exact_search_returns_only_equal_terms() {
    let d = sample();
    let found = d.search(&query("ברז", "he", true, false));
    assert_eq!(hebrew_of(&found), vec!["ברז"]);
    let found = d.search(&query("ברז", "he", true, true));
    assert_eq!(hebrew_of(&found), vec!["ברז", "מגוף"]);
}

#[test]
fn substring_search_also_returns_containing_terms() {
    let d = sample();
    let found = d.search(&query("ברז", "he", false, false));
    assert_eq!(hebrew_of(&found), vec!["ברז", "ברז כיבוי"]);
    let found = d.search(&query("ברז", "he", false, true));
    assert_eq!(hebrew_of(&found), vec!["ברז", "ברז כיבוי", "מגוף"]);
}

#[test]
fn search_is_case_sensitive_and_language_bound() {
    let d = sample();
    assert_eq!(hebrew_of(&d.search(&query("кран", "ru", false, false))), vec!["ברז", "ברז כיבוי"]);
    assert!(d.search(&query("Кран", "ru", false, false)).is_empty());
    assert!(d.search(&query("ברז", "ru", false, false)).is_empty());
    assert!(d.search(&query("ברז", "en", false, false)).is_empty());
}

#[test]
fn search_filters_by_category_context_and_all_tags() {
    let d = sample();
    let mut q = query("", "he", false, false);
    q.categories = Some(vec!["אינסטלציה".to_string()]);
    assert_eq!(hebrew_of(&d.search(&q)), vec!["ברז", "מגוף"]);
    let mut q = query("", "he", false, false);
    q.contexts = Some(vec!["מערכות כיבוי".to_string()]);
    assert_eq!(hebrew_of(&d.search(&q)), vec!["ברז כיבוי"]);
    let mut q = query("", "he", false, false);
    q.tags = Some(vec!["מים".to_string(), "שסתומים".to_string()]);
    assert_eq!(hebrew_of(&d.search(&q)), vec!["ברז"]);
}

#[test]
fn add_search_delete_and_history_scenario() {
    let mut d = TechnicalDictionary::new("dict.json".to_string());
    let mut km = KnowledgeManager::new_at(0);
    d.add_term_at(term("שסתום", "клапан"), 100).unwrap();
    km.track_change_at("שסתום".to_string(), "dana".to_string(), ChangeType::Addition, "hebrew".to_string(), None, Some("שסתום".to_string()), 100);
    let found = d.search(&query("שסתום", "he", true, false));
    assert_eq!(found.len(), 1);
    assert_eq!(found[0].russian, "клапан");
    assert!(d.delete_term("שסתום"));
    km.track_change_at("שסתום".to_string(), "dana".to_string(), ChangeType::Deletion, "hebrew".to_string(), Some("שסתום".to_string()), None, 200);
    assert!(d.search(&query("שסתום", "he", true, false)).is_empty());
    let history = km.get_term_history("שסתום").unwrap();
    assert_eq!(history.changes.len(), 2);
    assert_eq!(history.changes[0].change_type, ChangeType::Addition);
    assert_eq!(history.changes[1].change_type, ChangeType::Deletion);
}

#[test]
fn indices_follow_every_mutation() {
    let mut d = sample();
    let mut cats = d.get_all_categories();
    cats.sort();
    assert_eq!(cats, vec!["אינסטלציה", "כיבוי אש"]);
    assert_eq!(hebrew_of(&d.get_terms_by_category("אינסטלציה")), vec!["ברז", "מגוף"]);
    assert_eq!(hebrew_of(&d.get_terms_by_tag("מים")), vec!["ברז", "ברז כיבוי"]);
    assert_eq!(hebrew_of(&d.get_terms_by_context("מערכות כיבוי")), vec!["ברז כיבוי"]);

    let mut moved = term("ברז", "кран");
    moved.category = Some("כיבוי אש".to_string());
    assert_eq!(d.update_term_at("ברז", moved, 40), Ok(true));
    assert_eq!(hebrew_of(&d.get_terms_by_category("אינסטלציה")), vec!["מגוף"]);
    assert_eq!(hebrew_of(&d.get_terms_by_category("כיבוי אש")), vec!["ברז", "ברז כיבוי"]);
    assert_eq!(hebrew_of(&d.get_terms_by_tag("שסתומים")), Vec::<String>::new());

    assert!(d.delete_term("ברז כיבוי"));
    assert!(d.get_all_contexts().is_empty());
    assert_eq!(d.get_all_tags(), Vec::<String>::new());
    let mut keys = d.index_keys_of(IndexKind::Category);
    keys.sort();
    assert_eq!(keys, vec!["אינסטלציה", "כיבוי אש"]);
}

#[test]
fn add_stamps_time_and_rejects_missing_text() {
    let mut d = TechnicalDictionary::new("dict.json".to_string());
    assert_eq!(d.add_term_at(term("", "кран"), 5), Err(StoreError::ValidationFailure));
    assert_eq!(d.add_term_at(term("ברז", ""), 5), Err(StoreError::ValidationFailure));
    assert_eq!(d.len(), 0);
    d.add_term_at(term("ברז", "кран"), 77).unwrap();
    assert_eq!(d.get_term("ברז").unwrap().last_updated, 77);
    d.add_term(term("צינור", "труба")).unwrap();
    assert!(d.get_term("צינור").unwrap().last_updated > 1_600_000_000_000);
}

#[test]
fn update_and_delete_of_unknown_terms_are_no_ops() {
    let mut d = sample();
    assert_eq!(d.update_term_at("אין", term("אין", "нет"), 50), Ok(false));
    assert!(!d.delete_term("אין"));
    assert_eq!(d.len(), 3);
    assert!(d.get_term("אין").is_none());
}

#[test]
fn update_with_new_hebrew_is_delete_and_insert() {
    let mut d = sample();
    assert_eq!(d.update_term_at("מגוף", term("מגוף ראשי", "главная задвижка"), 60), Ok(true));
    assert!(d.get_term("מגוף").is_none());
    assert_eq!(d.get_term("מגוף ראשי").unwrap().last_updated, 60);
    assert_eq!(d.len(), 3);
}

#[test]
fn snapshot_round_trip_keeps_every_field() {
    let d = sample();
    let snap = d.create_snapshot();
    let mut e = TechnicalDictionary::new("other.json".to_string());
    e.restore_snapshot(snap).unwrap();
    let a = d.get_all_terms();
    let b = e.get_all_terms();
    assert_eq!(a.len(), b.len());
    for (x, y) in a.iter().zip(b.iter()) {
        assert!(x.same_content(y));
    }
    assert_eq!(e.file_path(), "other.json");
}

#[test]
fn import_keeps_the_last_of_equal_keys_and_merge_takes_newer() {
    let mut d = TechnicalDictionary::new("d.json".to_string());
    let mut first = term("ברז", "кран");
    first.last_updated = 1;
    let mut second = term("ברז", "вентиль");
    second.last_updated = 2;
    d.import_terms(vec![first, second]).unwrap();
    assert_eq!(d.get_term("ברז").unwrap().russian, "вентиль");

    let mut other = TechnicalDictionary::new("o.json".to_string());
    other.add_term_at(term("ברז", "смеситель"), 3).unwrap();
    other.add_term_at(term("צינור", "труба"), 1).unwrap();
    d.merge_with(&other).unwrap();
    assert_eq!(d.get_term("ברז").unwrap().russian, "смеситель");
    assert_eq!(d.get_term("צינור").unwrap().last_updated, 1);
}

#[test]
fn translate_replaces_terms_and_synonyms() {
    let d = sample();
    assert_eq!(d.translate("ברז כיבוי ליד מגוף", "he", "ru"), "кран כיבוי ליד задвижка");
    assert_eq!(d.translate("שסתום", "he", "ru"), "задвижка");
    assert_eq!(d.translate("задвижка", "ru", "he"), "מגוף");
    assert_eq!(d.translate("טקסט", "en", "ru"), "טקסט");
}

#[test]
fn all_tags_set_is_the_union_of_tags() {
    let d = sample();
    let mut tags = d.get_all_tags_set();
    tags.sort();
    assert_eq!(tags, vec!["מים", "שסתומים"]);
}

#[test]
fn unknown_id_update_is_silent_even_when_the_update_is_invalid() {
    let mut d = sample();
    assert_eq!(d.update_term_at("אין", term("", ""), 50), Ok(false));
    assert_eq!(d.update_term_at("ברז", term("", "кран"), 50), Err(StoreError::ValidationFailure));
    assert_eq!(d.get_term("ברז").unwrap().last_updated, 10);
    assert_eq!(d.len(), 3);
}
