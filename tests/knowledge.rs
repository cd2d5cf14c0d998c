use rustohebru::collaboration::{
    ActivityStatus, ActivityType, ChangeType, CollaboratorActivity, CollaboratorRole, ResolutionType, ReviewStatus,
};
use rustohebru::dictionary::{TechnicalDictionary, TechnicalTerm};
use rustohebru::error::StoreError;
use rustohebru::knowledge::KnowledgeManager;

const MINUTE: i64 = 60_000;

fn term(he: &str, ru: &str) -> TechnicalTerm {
    TechnicalTerm::new(he.to_string(), ru.to_string())
}

fn editing(term_id: &str, at: i64) -> CollaboratorActivity {
    CollaboratorActivity {
        activity_type: ActivityType::Editing,
        term_id: Some(term_id.to_string()),
        started_at: at,
        status: ActivityStatus::InProgress,
    }
}

#[test]
fn second_lock_fails_until_the_first_expires() {
    let mut km = KnowledgeManager::new_at(0);
    let t0 = 1_000_000;
    assert_eq!(km.acquire_edit_lock_at("ברז".to_string(), "A".to_string(), t0), Ok(()));
    assert_eq!(km.acquire_edit_lock_at("ברז".to_string(), "B".to_string(), t0 + 29 * MINUTE), Err(StoreError::AlreadyLocked));
    assert_eq!(km.acquire_edit_lock_at("ברז".to_string(), "B".to_string(), t0 + 30 * MINUTE), Ok(()));
    assert_eq!(km.release_edit_lock_at("ברז", "B", t0 + 31 * MINUTE), Ok(true));
}

#[test]
fn release_by_non_holder_returns_false_and_keeps_the_lock() {
    let mut km = KnowledgeManager::new_at(0);
    km.acquire_edit_lock_at("ברז".to_string(), "A".to_string(), 0).unwrap();
    assert_eq!(km.release_edit_lock_at("ברז", "C", 10), Ok(false));
    assert_eq!(km.acquire_edit_lock_at("ברז".to_string(), "C".to_string(), 20), Err(StoreError::AlreadyLocked));
    assert_eq!(km.release_edit_lock_at("ברז", "A", 30), Ok(true));
    assert_eq!(km.release_edit_lock_at("ברז", "A", 40), Ok(false));
}

#[test]
fn expired_lock_cannot_be_released() {
    let mut km = KnowledgeManager::new_at(0);
    km.acquire_edit_lock_at("ברז".to_string(), "A".to_string(), 0).unwrap();
    assert_eq!(km.release_edit_lock_at("ברז", "A", 30 * MINUTE), Ok(false));
}

#[test]
fn editing_conflict_is_reported_within_thirty_minutes_only() {
    let mut km = KnowledgeManager::new_at(0);
    let t0 = 10 * MINUTE;
    km.add_collaborator_at("A".to_string(), "Avi".to_string(), CollaboratorRole::Editor, t0);
    km.add_collaborator_at("B".to_string(), "Bella".to_string(), CollaboratorRole::Editor, t0);
    km.acquire_edit_lock_at("ברז".to_string(), "A".to_string(), t0).unwrap();
    km.update_collaborator_activity_at("A", editing("ברז", t0), t0);
    km.update_collaborator_activity_at("B", editing("ברז", t0 + MINUTE), t0 + MINUTE);
    let conflicts = km.get_edit_conflicts_at(t0 + 2 * MINUTE);
    assert_eq!(conflicts.len(), 1);
    assert_eq!(conflicts[0].term_id, "ברז");
    assert!(km.get_edit_conflicts_at(t0 + MINUTE + 31 * MINUTE).is_empty());
}

#[test]
fn one_editor_is_no_conflict_and_unknown_users_are_ignored() {
    let mut km = KnowledgeManager::new_at(0);
    km.add_collaborator_at("A".to_string(), "Avi".to_string(), CollaboratorRole::Editor, 0);
    km.acquire_edit_lock_at("ברז".to_string(), "A".to_string(), 0).unwrap();
    km.update_collaborator_activity_at("A", editing("ברז", 0), 0);
    km.update_collaborator_activity_at("ghost", editing("ברז", 0), 0);
    assert!(km.get_edit_conflicts_at(MINUTE).is_empty());
}

#[test]
fn active_collaborators_are_those_seen_in_the_last_fifteen_minutes() {
    let mut km = KnowledgeManager::new_at(0);
    km.add_collaborator_at("A".to_string(), "Avi".to_string(), CollaboratorRole::Admin, 0);
    km.add_collaborator_at("B".to_string(), "Bella".to_string(), CollaboratorRole::Viewer, 10 * MINUTE);
    let active = km.get_active_collaborators_at(16 * MINUTE);
    assert_eq!(active.len(), 1);
    assert_eq!(active[0].user_id, "B");
    assert_eq!(active[0].role, CollaboratorRole::Viewer);
}

fn dictionary_with(terms: &[(&str, &str, i64)]) -> TechnicalDictionary {
    let mut d = TechnicalDictionary::new("d.json".to_string());
    for (he, ru, at) in terms {
        d.add_term_at(term(he, ru), *at).unwrap();
    }
    d
}

#[test]
fn comparison_directions_mirror_each_other() {
    let mut km = KnowledgeManager::new_at(0);
    let a = dictionary_with(&[("ברז", "кран", 1), ("מגוף", "задвижка", 1)]);
    let b = dictionary_with(&[("ברז", "кран", 1), ("צינור", "труба", 1)]);
    km.create_version_at(&a, "a".to_string(), "dana".to_string(), "first".to_string(), 100).unwrap();
    km.create_version_at(&b, "b".to_string(), "dana".to_string(), "second".to_string(), 200).unwrap();
    let ab = km.compare_versions_at("a", "b", 300).unwrap();
    let ba = km.compare_versions_at("b", "a", 300).unwrap();
    let names = |v: &Vec<TechnicalTerm>| v.iter().map(|t| t.hebrew.clone()).collect::<Vec<_>>();
    assert_eq!(names(&ab.added_terms), vec!["צינור"]);
    assert_eq!(names(&ab.removed_terms), vec!["מגוף"]);
    assert_eq!(names(&ab.added_terms), names(&ba.removed_terms));
    assert_eq!(names(&ab.removed_terms), names(&ba.added_terms));
    assert!(ab.updated_terms.is_empty());
    assert!(km.compare_versions_at("a", "zz", 300).is_none());
}

#[test]
fn comparison_reports_updates_and_same_time_conflicts() {
    let mut km = KnowledgeManager::new_at(0);
    let a = dictionary_with(&[("ברז", "кран", 5), ("מגוף", "задвижка", 5)]);
    let b = dictionary_with(&[("ברז", "вентиль", 5), ("מגוף", "задвижка", 9)]);
    km.create_version_at(&a, "a".to_string(), "x".to_string(), "".to_string(), 1).unwrap();
    km.create_version_at(&b, "b".to_string(), "x".to_string(), "".to_string(), 2).unwrap();
    let r = km.compare_versions_at("a", "b", 3).unwrap();
    assert_eq!(r.updated_terms.len(), 2);
    assert_eq!(r.conflicting_terms.len(), 1);
    assert_eq!(r.conflicting_terms[0].0.russian, "кран");
    assert_eq!(r.conflicting_terms[0].1.russian, "вентиль");
    assert_eq!(r.timestamp, 3);
}

#[test]
fn duplicate_version_is_refused_and_versions_list_newest_first() {
    let mut km = KnowledgeManager::new_at(0);
    let d = dictionary_with(&[("ברז", "кран", 1)]);
    km.create_version_at(&d, "v1".to_string(), "x".to_string(), "".to_string(), 10).unwrap();
    km.create_version_at(&d, "v2".to_string(), "x".to_string(), "".to_string(), 30).unwrap();
    km.create_version_at(&d, "v3".to_string(), "x".to_string(), "".to_string(), 20).unwrap();
    assert_eq!(
        km.create_version_at(&d, "v1".to_string(), "y".to_string(), "".to_string(), 40),
        Err(StoreError::DuplicateVersion)
    );
    let ids: Vec<String> = km.get_all_versions().iter().map(|v| v.version_id.clone()).collect();
    assert_eq!(ids, vec!["v2", "v3", "v1"]);
    let v = km.get_version("v1").unwrap();
    assert_eq!(v.created_by, "x");
    assert_eq!(v.terms.len(), 1);
}

#[test]
fn review_workflow_and_comments() {
    let mut km = KnowledgeManager::new_at(0);
    let id = km
        .create_review_request_at("ברז".to_string(), "dana".to_string(), vec!["rev".to_string()], "r1".to_string(), 5)
        .unwrap();
    assert_eq!(id, "r1");
    assert_eq!(km.get_pending_reviews("rev").len(), 1);
    assert!(km.get_pending_reviews("other").is_empty());
    km.add_review_comment_at("r1", "rev".to_string(), "נראה טוב".to_string(), Some("russian".to_string()), 6).unwrap();
    km.update_review_status("r1", ReviewStatus::InReview).unwrap();
    assert_eq!(km.get_pending_reviews("rev").len(), 1);
    km.update_review_status("r1", ReviewStatus::Approved).unwrap();
    assert!(km.get_pending_reviews("rev").is_empty());
    km.update_review_status("r1", ReviewStatus::NeedsChanges).unwrap();
    assert_eq!(km.add_review_comment_at("nope", "a".to_string(), "b".to_string(), None, 7), Err(StoreError::NotFound));
    assert_eq!(km.update_review_status("nope", ReviewStatus::Approved), Err(StoreError::NotFound));
}

#[test]
fn random_review_ids_are_hyphenated_uuids() {
    let mut km = KnowledgeManager::new();
    let id = km.create_review_request("ברז".to_string(), "dana".to_string(), vec![]).unwrap();
    assert_eq!(id.len(), 36);
    let other = km.create_review_request("ברז".to_string(), "dana".to_string(), vec![]).unwrap();
    assert_ne!(id, other);
}

#[test]
fn conflict_resolutions_are_logged_in_order() {
    let mut km = KnowledgeManager::new_at(0);
    km.resolve_conflict_at("ברז".to_string(), "dana".to_string(), ResolutionType::KeepBase, "old wins".to_string(), 1).unwrap();
    km.resolve_conflict_at("מגוף".to_string(), "dana".to_string(), ResolutionType::Merge, "".to_string(), 2).unwrap();
    let log = km.get_conflict_resolutions();
    assert_eq!(log.len(), 2);
    assert_eq!(log[1].resolution_type, ResolutionType::Merge);
}

#[test]
fn changes_of_known_collaborators_feed_their_activity_log() {
    let mut km = KnowledgeManager::new_at(0);
    km.add_collaborator_at("A".to_string(), "Avi".to_string(), CollaboratorRole::Editor, 0);
    km.track_change_at("ברז".to_string(), "A".to_string(), ChangeType::Modification, "russian".to_string(), Some("кран".to_string()), Some("вентиль".to_string()), 1);
    km.update_collaborator_activity_at("A", editing("ברז", 2), 2);
    km.update_collaborator_activity_at("A", editing("מגוף", 3), 3);
    let log = km.get_collaborator_activity_log("A");
    assert_eq!(log.len(), 1);
    assert_eq!(log[0].term_id.as_deref(), Some("ברז"));
    assert!(km.get_collaborator_activity_log("nobody").is_empty());
}

#[test]
fn merge_takes_newer_adds_new_and_reports_ties() {
    let km = KnowledgeManager::new_at(0);
    let mut base = dictionary_with(&[("ברז", "кран", 5), ("מגוף", "задвижка", 5), ("צינור", "труба", 9)]);
    let other = dictionary_with(&[("ברז", "вентиль", 7), ("מגוף", "клапан", 5), ("צינור", "трубка", 1), ("שסתום", "клапан", 2)]);
    let report = km.merge_dictionaries_at(&mut base, &other, 100).unwrap();
    let names = |v: &Vec<TechnicalTerm>| v.iter().map(|t| t.hebrew.clone()).collect::<Vec<_>>();
    assert_eq!(names(&report.added_terms), vec!["שסתום"]);
    assert_eq!(names(&report.updated_terms), vec!["ברז"]);
    assert_eq!(report.conflicting_terms.len(), 1);
    assert_eq!(report.conflicting_terms[0].0.russian, "задвижка");
    assert_eq!(base.get_term("ברז").unwrap().russian, "вентиль");
    assert_eq!(base.get_term("ברז").unwrap().last_updated, 100);
    assert_eq!(base.get_term("מגוף").unwrap().russian, "задвижка");
    assert_eq!(base.get_term("צינור").unwrap().russian, "труба");
    assert_eq!(base.get_term("שסתום").unwrap().last_updated, 100);
}

#[test]
fn last_sync_is_kept() {
    let mut km = KnowledgeManager::new_at(5);
    assert_eq!(km.get_last_sync(), 5);
    km.update_last_sync_at(9);
    assert_eq!(km.get_last_sync(), 9);
}

#[test]
fn every_store_error_has_a_message() {
    let all = [
        StoreError::NotFound,
        StoreError::AlreadyLocked,
        StoreError::LockNotOwned,
        StoreError::DuplicateVersion,
        StoreError::PersistenceFailure,
        StoreError::ValidationFailure,
    ];
    let messages: Vec<&str> = all.iter().map(|e| e.message()).collect();
    assert_eq!(messages, vec!["not found", "already locked", "lock not owned", "duplicate version", "persistence failure", "validation failure"]);
}

#[test]
fn activity_log_keeps_the_newest_thousand() {
    let mut km = KnowledgeManager::new_at(0);
    km.add_collaborator_at("A".to_string(), "Avi".to_string(), CollaboratorRole::Editor, 0);
    km.acquire_edit_lock_at("old".to_string(), "A".to_string(), 0).unwrap();
    km.update_collaborator_activity_at("A", editing("old", 0), 0);
    km.update_collaborator_activity_at("A", editing("old", 0), 0);
    for i in 0..1000 {
        km.update_collaborator_activity_at("A", editing("other", i), i);
    }
    assert!(km.get_edit_conflicts_at(10).is_empty());
}

#[test]
fn random_review_request_is_pending_and_new() {
    let mut km = KnowledgeManager::new_at(0);
    km.create_review_request_at("a".to_string(), "x".to_string(), vec![], "taken".to_string(), 1).unwrap();
    let id = km.create_review_request("ברז".to_string(), "dana".to_string(), vec!["rev".to_string()]).unwrap();
    assert_ne!(id, "taken");
    let pending = km.get_pending_reviews("rev");
    assert_eq!(pending.len(), 1);
    assert_eq!(pending[0].request_id, id);
    assert_eq!(pending[0].status, ReviewStatus::Pending);
    assert!(pending[0].comments.is_empty());
    km.add_review_comment(&id, "rev".to_string(), "ok".to_string(), None).unwrap();
    assert_eq!(km.add_review_comment("nope", "rev".to_string(), "x".to_string(), None), Err(StoreError::NotFound));
    assert_eq!(km.get_pending_reviews("rev")[0].comments.len(), 1);
}

#[test]
fn acquiring_a_free_term_always_succeeds() {
    let mut km = KnowledgeManager::new();
    assert_eq!(km.acquire_edit_lock("ברז".to_string(), "A".to_string()), Ok(()));
    assert_eq!(km.acquire_edit_lock("ברז".to_string(), "B".to_string()), Err(StoreError::AlreadyLocked));
    assert_eq!(km.release_edit_lock("ברז", "A"), Ok(true));
    km.resolve_conflict("ברז".to_string(), "A".to_string(), ResolutionType::Custom, "c".to_string()).unwrap();
    assert_eq!(km.get_conflict_resolutions()[0].comments, "c");
}
