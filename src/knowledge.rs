//! The knowledge manager: version store, change ledger, lock manager,
//! activity tracker with conflict detection, review workflow and conflict log.

use vstd::prelude::*;
use crate::clock::{now_millis, random_id};
use crate::collaboration::{
    is_open_status, lock_expiry, lock_expiry_exec, push_bounded,
    push_bounded_exec, push_front_bounded, push_front_bounded_exec, ActivityType,
    ChangeType, CollaboratorActivity, CollaboratorInfo, CollaboratorRole, ConflictResolution, EditLock,
    ResolutionType, ReviewComment, ReviewRequest, ReviewStatus, TermChange, TermChangeHistory,
    ACTIVE_WINDOW_MS, ACTIVITY_LOG_CAPACITY, CONFLICT_WINDOW_MS, EDIT_HISTORY_CAPACITY, LOCK_TTL_MS,
};
use crate::dictionary::{stamped, strictly_sorted, term_valid, views, TechnicalDictionary, TechnicalTerm, TermView};
use crate::error::StoreError;
use crate::strings::{list_contains, seqs_of};
use crate::versions::{
    added_in, compare_terms, conflicts_in, pair_views, removed_in, updated_in, DictionaryMergeReport,
    DictionaryVersion,
};

verus! {

/// The position of key `k` in a list of keys.
pub open spec fn key_pos(keys: Seq<Seq<char>>, k: Seq<char>) -> int {
    choose|i: int| 0 <= i < keys.len() && keys[i] == k
}

pub proof fn lemma_key_pos(keys: Seq<Seq<char>>, j: int)
    requires
        keys.no_duplicates(),
        0 <= j < keys.len(),
    ensures
        key_pos(keys, keys[j]) == j,
{
    let i = key_pos(keys, keys[j]);
    assert(0 <= i < keys.len() && keys[i] == keys[j]);
}

pub open spec fn version_ids(s: Seq<DictionaryVersion>) -> Seq<Seq<char>> {
    s.map_values(|v: DictionaryVersion| v.version_id@)
}

pub open spec fn history_ids(s: Seq<TermChangeHistory>) -> Seq<Seq<char>> {
    s.map_values(|h: TermChangeHistory| h.term_id@)
}

pub open spec fn user_ids(s: Seq<CollaboratorInfo>) -> Seq<Seq<char>> {
    s.map_values(|c: CollaboratorInfo| c.user_id@)
}

pub open spec fn lock_ids(s: Seq<EditLock>) -> Seq<Seq<char>> {
    s.map_values(|l: EditLock| l.term_id@)
}

pub open spec fn request_ids(s: Seq<ReviewRequest>) -> Seq<Seq<char>> {
    s.map_values(|r: ReviewRequest| r.request_id@)
}

/// Newest first by creation time.
pub open spec fn newest_first(s: Seq<DictionaryVersion>) -> bool {
    forall|i: int, j: int| 0 <= i < j < s.len() ==> (#[trigger] s[i]).created_at >= (#[trigger] s[j]).created_at
}

/// Every lock is present at most once per term, every collection is keyed
/// without repetition, buffers are within their capacities and snapshots are
/// in Hebrew order.
pub open spec fn manager_wf(
    versions: Seq<DictionaryVersion>,
    histories: Seq<TermChangeHistory>,
    collaborators: Seq<CollaboratorInfo>,
    locks: Seq<EditLock>,
    reviews: Seq<ReviewRequest>,
    activities: Seq<CollaboratorActivity>,
) -> bool {
    &&& version_ids(versions).no_duplicates()
    &&& newest_first(versions)
    &&& forall|i: int| 0 <= i < versions.len() ==> strictly_sorted(views(#[trigger] versions[i].terms@))
    &&& history_ids(histories).no_duplicates()
    &&& user_ids(collaborators).no_duplicates()
    &&& forall|i: int| 0 <= i < collaborators.len() ==> (#[trigger] collaborators[i]).edit_history@.len() <= EDIT_HISTORY_CAPACITY
    &&& lock_ids(locks).no_duplicates()
    &&& request_ids(reviews).no_duplicates()
    &&& activities.len() <= ACTIVITY_LOG_CAPACITY
}

/// The version that a new snapshot of `d` holds.
pub open spec fn is_snapshot(
    v: DictionaryVersion,
    id: Seq<char>,
    by: Seq<char>,
    description: Seq<char>,
    now: i64,
    d: TechnicalDictionary,
) -> bool {
    &&& v.version_id@ == id
    &&& v.created_by@ == by
    &&& v.description@ == description
    &&& v.created_at == now
    &&& views(v.terms@) == d.entries()
    &&& seqs_of(v.tags@).to_set() == Set::new(
        |k: Seq<char>| exists|h: Seq<char>| d@.dom().contains(h) && d@[h].tags.contains(k),
    )
}

/// The histories after appending change `c` to the history of its term,
/// which is created on the term's first change.
pub open spec fn history_appended(hs: Seq<TermChangeHistory>, ns: Seq<TermChangeHistory>, c: TermChange) -> bool {
    let ids = history_ids(hs);
    let p = key_pos(ids, c.term_id@);
    &&& ids.contains(c.term_id@) ==> ns.len() == hs.len()
        && (forall|i: int| 0 <= i < hs.len() && i != p ==> ns[i] == #[trigger] hs[i])
        && ns[p].term_id == hs[p].term_id
        && ns[p].changes@ == hs[p].changes@.push(c)
    &&& !ids.contains(c.term_id@) ==> ns.len() == hs.len() + 1
        && ns.drop_last() == hs
        && ns.last().term_id == c.term_id
        && ns.last().changes@ == seq![c]
}

/// The collaborators after noting change `c` among its author's recent
/// changes, when the author is known.
pub open spec fn author_noted(cs: Seq<CollaboratorInfo>, ns: Seq<CollaboratorInfo>, c: TermChange) -> bool {
    let us = user_ids(cs);
    let p = key_pos(us, c.changed_by@);
    &&& us.contains(c.changed_by@) ==> ns.len() == cs.len()
        && (forall|i: int| 0 <= i < cs.len() && i != p ==> ns[i] == #[trigger] cs[i])
        && ns[p].edit_history@ == push_bounded(cs[p].edit_history@, c, EDIT_HISTORY_CAPACITY as nat)
        && ns[p].user_id == cs[p].user_id
        && ns[p].name == cs[p].name
        && ns[p].role == cs[p].role
        && ns[p].last_active == cs[p].last_active
        && ns[p].current_activity == cs[p].current_activity
    &&& !us.contains(c.changed_by@) ==> ns == cs
}

/// The terms of the version with this identifier.
pub open spec fn version_terms(list: Seq<DictionaryVersion>, id: Seq<char>) -> Seq<TermView> {
    views(list[key_pos(version_ids(list), id)].terms@)
}

/// A report that describes the comparison of `a`, the earlier, with `b`.
pub open spec fn reports_comparison(rep: DictionaryMergeReport, a: Seq<TermView>, b: Seq<TermView>) -> bool {
    &&& views(rep.added_terms@) == added_in(a, b)
    &&& views(rep.removed_terms@) == removed_in(a, b)
    &&& views(rep.updated_terms@) == updated_in(a, b)
    &&& pair_views(rep.conflicting_terms@) == conflicts_in(a, b)
}

/// The version list after inserting, at its place in time, a snapshot of `d`.
pub open spec fn version_added(
    before: Seq<DictionaryVersion>,
    after: Seq<DictionaryVersion>,
    id: Seq<char>,
    by: Seq<char>,
    description: Seq<char>,
    now: i64,
    d: TechnicalDictionary,
) -> bool {
    &&& after.len() == before.len() + 1
    &&& exists|p: int| 0 <= p <= before.len() && after == before.insert(p, after[p])
        && is_snapshot(after[p], id, by, description, now, d)
}

/// The collaborators after a known collaborator was seen doing `activity` at `now`.
pub open spec fn presence_updated(
    cs: Seq<CollaboratorInfo>,
    ns: Seq<CollaboratorInfo>,
    user: Seq<char>,
    activity: CollaboratorActivity,
    now: i64,
) -> bool {
    let p = key_pos(user_ids(cs), user);
    &&& ns.len() == cs.len()
    &&& forall|i: int| 0 <= i < cs.len() && i != p ==> ns[i] == #[trigger] cs[i]
    &&& ns[p].user_id == cs[p].user_id
    &&& ns[p].name == cs[p].name
    &&& ns[p].role == cs[p].role
    &&& ns[p].edit_history == cs[p].edit_history
    &&& ns[p].last_active == now
    &&& ns[p].current_activity == Some(activity)
}

/// The collaborators after registering `user_id` at `now`, in place of a
/// collaborator with the same id.
pub open spec fn collaborator_registered(
    cs: Seq<CollaboratorInfo>,
    ns: Seq<CollaboratorInfo>,
    user_id: String,
    name: String,
    role: CollaboratorRole,
    now: i64,
) -> bool {
    let p = key_pos(user_ids(ns), user_id@);
    &&& user_ids(ns).contains(user_id@)
    &&& ns[p].user_id == user_id
    &&& ns[p].name == name
    &&& ns[p].role == role
    &&& ns[p].last_active == now
    &&& ns[p].current_activity is None
    &&& ns[p].edit_history@.len() == 0
    &&& user_ids(cs).contains(user_id@) ==> ns.len() == cs.len() && ns == cs.update(p, ns[p])
    &&& !user_ids(cs).contains(user_id@) ==> ns == cs.push(ns[p])
}

/// The requests after appending comment `c` to the known request `id`; its
/// state and other fields are kept, and the other requests are unchanged.
pub open spec fn comment_added(rs: Seq<ReviewRequest>, ns: Seq<ReviewRequest>, id: Seq<char>, c: ReviewComment) -> bool {
    let p = key_pos(request_ids(rs), id);
    &&& ns.len() == rs.len()
    &&& forall|i: int| 0 <= i < rs.len() && i != p ==> ns[i] == #[trigger] rs[i]
    &&& ns[p].request_id == rs[p].request_id
    &&& ns[p].term_id == rs[p].term_id
    &&& ns[p].requested_by == rs[p].requested_by
    &&& ns[p].requested_at == rs[p].requested_at
    &&& ns[p].reviewers == rs[p].reviewers
    &&& ns[p].status == rs[p].status
    &&& ns[p].comments@ == rs[p].comments@.push(c)
}

/// Two changes recorded for a term that had no history keep both, in order,
/// in its history: removing the term from the dictionary in between touches
/// no history.
pub proof fn lemma_history_keeps_changes(
    h0: Seq<TermChangeHistory>,
    h1: Seq<TermChangeHistory>,
    h2: Seq<TermChangeHistory>,
    c1: TermChange,
    c2: TermChange,
)
    requires
        history_ids(h0).no_duplicates(),
        !history_ids(h0).contains(c1.term_id@),
        c2.term_id@ == c1.term_id@,
        history_appended(h0, h1, c1),
        history_appended(h1, h2, c2),
    ensures
        history_ids(h2).contains(c1.term_id@),
        h2[key_pos(history_ids(h2), c1.term_id@)].changes@ == seq![c1, c2],
{
    let t = c1.term_id@;
    let last = h0.len() as int;
    assert(h1 == h0.push(h1[last]));
    assert(history_ids(h1) =~= history_ids(h0).push(t));
    assert(history_ids(h1)[last] == t);
    lemma_key_pos(history_ids(h1), last);
    let p = key_pos(history_ids(h1), t);
    assert(p == last);
    assert(history_ids(h2) =~= history_ids(h1)) by {
        assert forall|i: int| 0 <= i < h1.len() implies #[trigger] history_ids(h2)[i] == history_ids(h1)[i] by {
            if i != p {
                assert(h2[i] == h1[i]);
            }
        }
    }
    lemma_key_pos(history_ids(h2), p);
    assert(h1[p].changes@ =~= seq![c1]);
    assert(h2[p].changes@ =~= seq![c1, c2]);
}

fn find_version(v: &Vec<DictionaryVersion>, id: &String) -> (r: Option<usize>)
    requires
        version_ids(v@).no_duplicates(),
    ensures
        match r {
            Some(i) => i < v@.len() && v@[i as int].version_id@ == id@ && version_ids(v@).contains(id@)
                && key_pos(version_ids(v@), id@) == i,
            None => !version_ids(v@).contains(id@),
        },
{
    let mut i: usize = 0;
    while i < v.len()
        invariant
            i <= v@.len(),
            version_ids(v@).no_duplicates(),
            forall|j: int| 0 <= j < i ==> (#[trigger] v@[j]).version_id@ != id@,
        decreases v.len() - i,
    {
        if v[i].version_id == *id {
            assert(version_ids(v@)[i as int] == id@);
            proof { lemma_key_pos(version_ids(v@), i as int); }
            return Some(i);
        }
        i = i + 1;
    }
    proof {
        if version_ids(v@).contains(id@) {
            let j = choose|j: int| 0 <= j < version_ids(v@).len() && version_ids(v@)[j] == id@;
            assert(v@[j].version_id@ == id@);
        }
    }
    None
}

fn find_history(v: &Vec<TermChangeHistory>, id: &String) -> (r: Option<usize>)
    requires
        history_ids(v@).no_duplicates(),
    ensures
        match r {
            Some(i) => i < v@.len() && v@[i as int].term_id@ == id@ && history_ids(v@).contains(id@)
                && key_pos(history_ids(v@), id@) == i,
            None => !history_ids(v@).contains(id@),
        },
{
    let mut i: usize = 0;
    while i < v.len()
        invariant
            i <= v@.len(),
            history_ids(v@).no_duplicates(),
            forall|j: int| 0 <= j < i ==> (#[trigger] v@[j]).term_id@ != id@,
        decreases v.len() - i,
    {
        if v[i].term_id == *id {
            assert(history_ids(v@)[i as int] == id@);
            proof { lemma_key_pos(history_ids(v@), i as int); }
            return Some(i);
        }
        i = i + 1;
    }
    proof {
        if history_ids(v@).contains(id@) {
            let j = choose|j: int| 0 <= j < history_ids(v@).len() && history_ids(v@)[j] == id@;
            assert(v@[j].term_id@ == id@);
        }
    }
    None
}

fn find_user(v: &Vec<CollaboratorInfo>, id: &String) -> (r: Option<usize>)
    requires
        user_ids(v@).no_duplicates(),
    ensures
        match r {
            Some(i) => i < v@.len() && v@[i as int].user_id@ == id@ && user_ids(v@).contains(id@)
                && key_pos(user_ids(v@), id@) == i,
            None => !user_ids(v@).contains(id@),
        },
{
    let mut i: usize = 0;
    while i < v.len()
        invariant
            i <= v@.len(),
            user_ids(v@).no_duplicates(),
            forall|j: int| 0 <= j < i ==> (#[trigger] v@[j]).user_id@ != id@,
        decreases v.len() - i,
    {
        if v[i].user_id == *id {
            assert(user_ids(v@)[i as int] == id@);
            proof { lemma_key_pos(user_ids(v@), i as int); }
            return Some(i);
        }
        i = i + 1;
    }
    proof {
        if user_ids(v@).contains(id@) {
            let j = choose|j: int| 0 <= j < user_ids(v@).len() && user_ids(v@)[j] == id@;
            assert(v@[j].user_id@ == id@);
        }
    }
    None
}

fn find_lock(v: &Vec<EditLock>, id: &String) -> (r: Option<usize>)
    requires
        lock_ids(v@).no_duplicates(),
    ensures
        match r {
            Some(i) => i < v@.len() && v@[i as int].term_id@ == id@ && lock_ids(v@).contains(id@)
                && key_pos(lock_ids(v@), id@) == i,
            None => !lock_ids(v@).contains(id@),
        },
{
    let mut i: usize = 0;
    while i < v.len()
        invariant
            i <= v@.len(),
            lock_ids(v@).no_duplicates(),
            forall|j: int| 0 <= j < i ==> (#[trigger] v@[j]).term_id@ != id@,
        decreases v.len() - i,
    {
        if v[i].term_id == *id {
            assert(lock_ids(v@)[i as int] == id@);
            proof { lemma_key_pos(lock_ids(v@), i as int); }
            return Some(i);
        }
        i = i + 1;
    }
    proof {
        if lock_ids(v@).contains(id@) {
            let j = choose|j: int| 0 <= j < lock_ids(v@).len() && lock_ids(v@)[j] == id@;
            assert(v@[j].term_id@ == id@);
        }
    }
    None
}

fn find_request(v: &Vec<ReviewRequest>, id: &String) -> (r: Option<usize>)
    requires
        request_ids(v@).no_duplicates(),
    ensures
        match r {
            Some(i) => i < v@.len() && v@[i as int].request_id@ == id@ && request_ids(v@).contains(id@)
                && key_pos(request_ids(v@), id@) == i,
            None => !request_ids(v@).contains(id@),
        },
{
    let mut i: usize = 0;
    while i < v.len()
        invariant
            i <= v@.len(),
            request_ids(v@).no_duplicates(),
            forall|j: int| 0 <= j < i ==> (#[trigger] v@[j]).request_id@ != id@,
        decreases v.len() - i,
    {
        if v[i].request_id == *id {
            assert(request_ids(v@)[i as int] == id@);
            proof { lemma_key_pos(request_ids(v@), i as int); }
            return Some(i);
        }
        i = i + 1;
    }
    proof {
        if request_ids(v@).contains(id@) {
            let j = choose|j: int| 0 <= j < request_ids(v@).len() && request_ids(v@)[j] == id@;
            assert(v@[j].request_id@ == id@);
        }
    }
    None
}

pub struct KnowledgeManager {
    versions: Vec<DictionaryVersion>,
    change_history: Vec<TermChangeHistory>,
    collaborators: Vec<CollaboratorInfo>,
    edit_locks: Vec<EditLock>,
    review_requests: Vec<ReviewRequest>,
    conflict_resolutions: Vec<ConflictResolution>,
    last_sync: i64,
    activity_log: Vec<CollaboratorActivity>,
}

impl KnowledgeManager {
    /// The versions, newest first.
    pub closed spec fn version_list(&self) -> Seq<DictionaryVersion> {
        self.versions@
    }

    /// One change history per term that has changed.
    pub closed spec fn histories(&self) -> Seq<TermChangeHistory> {
        self.change_history@
    }

    pub closed spec fn collaborator_list(&self) -> Seq<CollaboratorInfo> {
        self.collaborators@
    }

    /// The locks, one per term, expired ones included.
    pub closed spec fn locks(&self) -> Seq<EditLock> {
        self.edit_locks@
    }

    pub closed spec fn reviews(&self) -> Seq<ReviewRequest> {
        self.review_requests@
    }

    /// The conflict resolutions, oldest first.
    pub closed spec fn resolutions(&self) -> Seq<ConflictResolution> {
        self.conflict_resolutions@
    }

    /// The global activity log, newest first.
    pub closed spec fn activities(&self) -> Seq<CollaboratorActivity> {
        self.activity_log@
    }

    pub closed spec fn sync_time(&self) -> i64 {
        self.last_sync
    }

    pub open spec fn wf(&self) -> bool {
        manager_wf(
            self.version_list(),
            self.histories(),
            self.collaborator_list(),
            self.locks(),
            self.reviews(),
            self.activities(),
        )
    }

    /// An empty manager whose last synchronisation is `now`.
    pub fn new_at(now: i64) -> (r: KnowledgeManager)
        ensures
            r.wf(),
            r.version_list().len() == 0,
            r.histories().len() == 0,
            r.collaborator_list().len() == 0,
            r.locks().len() == 0,
            r.reviews().len() == 0,
            r.resolutions().len() == 0,
            r.activities().len() == 0,
            r.sync_time() == now,
    {
        KnowledgeManager {
            versions: Vec::new(),
            change_history: Vec::new(),
            collaborators: Vec::new(),
            edit_locks: Vec::new(),
            review_requests: Vec::new(),
            conflict_resolutions: Vec::new(),
            last_sync: now,
            activity_log: Vec::new(),
        }
    }

    /// An empty manager, synchronised now.
    pub fn new() -> (r: KnowledgeManager)
        ensures
            r.wf(),
            r.version_list().len() == 0,
            r.histories().len() == 0,
            r.collaborator_list().len() == 0,
            r.locks().len() == 0,
            r.reviews().len() == 0,
            r.resolutions().len() == 0,
            r.activities().len() == 0,
    {
        KnowledgeManager::new_at(now_millis())
    }

    /// Snapshots the dictionary as version `version_id`, created at `now`.
    /// An existing `version_id` is refused and nothing changes.
    pub fn create_version_at(
        &mut self,
        dictionary: &TechnicalDictionary,
        version_id: String,
        created_by: String,
        description: String,
        now: i64,
    ) -> (r: Result<(), StoreError>)
        requires
            old(self).wf(),
            dictionary.wf(),
        ensures
            final(self).wf(),
            version_ids(old(self).version_list()).contains(version_id@) ==> r == Err::<(), StoreError>(StoreError::DuplicateVersion) && *final(self) == *old(self),
            !version_ids(old(self).version_list()).contains(version_id@) ==> r is Ok && version_added(
                old(self).version_list(),
                final(self).version_list(),
                version_id@,
                created_by@,
                description@,
                now,
                *dictionary,
            ),
            final(self).histories() == old(self).histories(),
            final(self).collaborator_list() == old(self).collaborator_list(),
            final(self).locks() == old(self).locks(),
            final(self).reviews() == old(self).reviews(),
            final(self).resolutions() == old(self).resolutions(),
            final(self).activities() == old(self).activities(),
            final(self).sync_time() == old(self).sync_time(),
    {
        if find_version(&self.versions, &version_id).is_some() {
            return Err(StoreError::DuplicateVersion);
        }
        let terms = dictionary.create_snapshot();
        let tags = dictionary.get_all_tags_set();
        let ghost (id0, by0, desc0) = (version_id@, created_by@, description@);
        let v = DictionaryVersion { version_id, created_at: now, created_by, description, terms, tags };
        assert(v.version_id@ == id0 && v.created_by@ == by0 && v.description@ == desc0);
        proof {
            crate::dictionary::lemma_entries_sorted(dictionary);
        }
        let mut p: usize = 0;
        while p < self.versions.len() && self.versions[p].created_at > now
            invariant
                p <= self.versions@.len(),
                self.versions@ == old(self).versions@,
                forall|j: int| 0 <= j < p ==> (#[trigger] self.versions@[j]).created_at > now,
            decreases self.versions.len() - p,
        {
            p = p + 1;
        }
        let ghost old_list = self.versions@;
        self.versions.insert(p, v);
        proof {
            let n = self.versions@;
            assert(n[p as int] == v);
            assert forall|a: int, b: int| 0 <= a < b < n.len() implies (#[trigger] n[a]).created_at >= (#[trigger] n[b]).created_at by {
                if b < p {
                    assert(n[a] == old_list[a] && n[b] == old_list[b]);
                } else if b == p {
                    assert(n[a] == old_list[a]);
                } else if a < p {
                    assert(n[a] == old_list[a] && n[b] == old_list[b - 1]);
                    assert(old_list[a].created_at >= old_list[b - 1].created_at);
                } else if a == p {
                    assert(n[b] == old_list[b - 1]);
                    assert(old_list[p as int].created_at <= now);
                    if b - 1 > p {
                        assert(old_list[p as int].created_at >= old_list[b - 1].created_at);
                    }
                } else {
                    assert(n[a] == old_list[a - 1] && n[b] == old_list[b - 1]);
                }
            }
            assert(version_ids(n) =~= version_ids(old_list).insert(p as int, v.version_id@));
            assert forall|a: int, b: int| 0 <= a < version_ids(n).len() && 0 <= b < version_ids(n).len() && a != b implies version_ids(n)[a] != version_ids(n)[b] by {
                let ids = version_ids(old_list);
                if a != p as int && b != p as int {
                    let a0 = if a < p { a } else { a - 1 };
                    let b0 = if b < p { b } else { b - 1 };
                    assert(version_ids(n)[a] == ids[a0] && version_ids(n)[b] == ids[b0]);
                } else if a == p as int {
                    let b0 = if b < p { b } else { b - 1 };
                    assert(version_ids(n)[b] == ids[b0]);
                } else {
                    let a0 = if a < p { a } else { a - 1 };
                    assert(version_ids(n)[a] == ids[a0]);
                }
            }
            assert forall|k: int| 0 <= k < n.len() implies strictly_sorted(views(#[trigger] n[k].terms@)) by {
                if k < p {
                    assert(n[k] == old_list[k]);
                } else if k > p {
                    assert(n[k] == old_list[k - 1]);
                }
            }
            assert(n == old_list.insert(p as int, n[p as int]));
            assert(is_snapshot(n[p as int], id0, by0, desc0, now, *dictionary));
            assert(0 <= p <= old_list.len());
            assert(exists|q: int| 0 <= q <= old_list.len() && n == old_list.insert(q, n[q])
                && is_snapshot(n[q], id0, by0, desc0, now, *dictionary));
            assert(version_added(old_list, n, id0, by0, desc0, now, *dictionary));
        }
        Ok(())
    }

    /// Snapshots the dictionary as a new version created now.
    pub fn create_version(
        &mut self,
        dictionary: &TechnicalDictionary,
        version_id: String,
        created_by: String,
        description: String,
    ) -> (r: Result<(), StoreError>)
        requires
            old(self).wf(),
            dictionary.wf(),
        ensures
            final(self).wf(),
            version_ids(old(self).version_list()).contains(version_id@) ==> r == Err::<(), StoreError>(StoreError::DuplicateVersion) && *final(self) == *old(self),
            !version_ids(old(self).version_list()).contains(version_id@) ==> r is Ok && exists|now: i64| #[trigger] version_added(
                old(self).version_list(),
                final(self).version_list(),
                version_id@,
                created_by@,
                description@,
                now,
                *dictionary,
            ),
            final(self).histories() == old(self).histories(),
            final(self).collaborator_list() == old(self).collaborator_list(),
            final(self).locks() == old(self).locks(),
            final(self).reviews() == old(self).reviews(),
            final(self).resolutions() == old(self).resolutions(),
            final(self).activities() == old(self).activities(),
            final(self).sync_time() == old(self).sync_time(),
    {
        let now = now_millis();
        let ghost (id, by, desc) = (version_id@, created_by@, description@);
        let r = self.create_version_at(dictionary, version_id, created_by, description, now);
        proof {
            if r is Ok {
                assert(version_added(old(self).version_list(), self.version_list(), id, by, desc, now, *dictionary));
            }
        }
        r
    }

    /// The version with this identifier.
    pub fn get_version(&self, version_id: &str) -> (r: Option<&DictionaryVersion>)
        requires
            self.wf(),
        ensures
            match r {
                Some(v) => version_ids(self.version_list()).contains(version_id@)
                    && *v == self.version_list()[key_pos(version_ids(self.version_list()), version_id@)],
                None => !version_ids(self.version_list()).contains(version_id@),
            },
    {
        let key = String::from_str(version_id);
        match find_version(&self.versions, &key) {
            Some(i) => Some(&self.versions[i]),
            None => None,
        }
    }

    /// Every version, newest first.
    pub fn get_all_versions(&self) -> (r: Vec<&DictionaryVersion>)
        requires
            self.wf(),
        ensures
            r@.len() == self.version_list().len(),
            forall|i: int| 0 <= i < r@.len() ==> *(#[trigger] r@[i]) == self.version_list()[i],
            newest_first(self.version_list()),
    {
        let mut r: Vec<&DictionaryVersion> = Vec::new();
        let mut i: usize = 0;
        while i < self.versions.len()
            invariant
                i <= self.versions@.len(),
                r@.len() == i,
                forall|k: int| 0 <= k < i ==> *(#[trigger] r@[k]) == self.versions@[k],
            decreases self.versions.len() - i,
        {
            r.push(&self.versions[i]);
            i = i + 1;
        }
        r
    }

    /// Compares two versions, `version1_id` the earlier; `None` when either is unknown.
    pub fn compare_versions_at(&self, version1_id: &str, version2_id: &str, now: i64) -> (r: Option<DictionaryMergeReport>)
        requires
            self.wf(),
        ensures
            !(version_ids(self.version_list()).contains(version1_id@) && version_ids(self.version_list()).contains(version2_id@)) ==> r is None,
            version_ids(self.version_list()).contains(version1_id@) && version_ids(self.version_list()).contains(version2_id@) ==> r is Some
                && reports_comparison(r->0, version_terms(self.version_list(), version1_id@), version_terms(self.version_list(), version2_id@))
                && r->0.timestamp == now,
    {
        let v1 = match self.get_version(version1_id) {
            Some(v) => v,
            None => return None,
        };
        let v2 = match self.get_version(version2_id) {
            Some(v) => v,
            None => return None,
        };
        proof {
            let ids = version_ids(self.version_list());
            let k1 = key_pos(ids, version1_id@);
            let k2 = key_pos(ids, version2_id@);
            assert(strictly_sorted(views(self.version_list()[k1].terms@)));
            assert(strictly_sorted(views(self.version_list()[k2].terms@)));
        }
        Some(compare_terms(&v1.terms, &v2.terms, now))
    }

    /// Compares two versions, stamping the report now.
    pub fn compare_versions(&self, version1_id: &str, version2_id: &str) -> (r: Option<DictionaryMergeReport>)
        requires
            self.wf(),
        ensures
            !(version_ids(self.version_list()).contains(version1_id@) && version_ids(self.version_list()).contains(version2_id@)) ==> r is None,
            version_ids(self.version_list()).contains(version1_id@) && version_ids(self.version_list()).contains(version2_id@) ==> r is Some
                && reports_comparison(r->0, version_terms(self.version_list(), version1_id@), version_terms(self.version_list(), version2_id@)),
    {
        let now = now_millis();
        self.compare_versions_at(version1_id, version2_id, now)
    }

    /// Records a field-level change of a term, at `now`: appended to the term's
    /// history (created on its first change), and to the author's own recent
    /// changes when the author is a known collaborator.
    pub fn track_change_at(
        &mut self,
        term_id: String,
        changed_by: String,
        change_type: ChangeType,
        field: String,
        old_value: Option<String>,
        new_value: Option<String>,
        now: i64,
    )
        requires
            old(self).wf(),
        ensures
            final(self).wf(),
            history_appended(
                old(self).histories(),
                final(self).histories(),
                TermChange { term_id, timestamp: now, changed_by, change_type, old_value, new_value, field },
            ),
            author_noted(
                old(self).collaborator_list(),
                final(self).collaborator_list(),
                TermChange { term_id, timestamp: now, changed_by, change_type, old_value, new_value, field },
            ),
            final(self).version_list() == old(self).version_list(),
            final(self).locks() == old(self).locks(),
            final(self).reviews() == old(self).reviews(),
            final(self).resolutions() == old(self).resolutions(),
            final(self).activities() == old(self).activities(),
            final(self).sync_time() == old(self).sync_time(),
    {
        let ghost c = TermChange {
            term_id: term_id,
            timestamp: now,
            changed_by: changed_by,
            change_type,
            old_value: old_value,
            new_value: new_value,
            field: field,
        };
        let change = TermChange { term_id, timestamp: now, changed_by, change_type, old_value, new_value, field };
        assert(change == c);
        // the author's own recent changes
        let ghost cs = self.collaborators@;
        let found = find_user(&self.collaborators, &change.changed_by);
        if let Some(u) = found {
            let mut info = self.collaborators.remove(u);
            push_bounded_exec(&mut info.edit_history, change.copy(), EDIT_HISTORY_CAPACITY);
            self.collaborators.insert(u, info);
            proof {
                let n = self.collaborators@;
                assert(n =~= cs.update(u as int, n[u as int]));
                assert(user_ids(n) =~= user_ids(cs));
            }
        }
        // the term's history
        let ghost hs = self.change_history@;
        let found = find_history(&self.change_history, &change.term_id);
        if let Some(i) = found {
            let mut h = self.change_history.remove(i);
            h.changes.push(change);
            self.change_history.insert(i, h);
            proof {
                let n = self.change_history@;
                assert(n =~= hs.update(i as int, n[i as int]));
                assert(history_ids(n) =~= history_ids(hs));
            }
        } else {
            let tid = change.term_id.clone();
            let mut changes: Vec<TermChange> = Vec::new();
            changes.push(change);
            self.change_history.push(TermChangeHistory { term_id: tid, changes });
            proof {
                let n = self.change_history@;
                assert(n.drop_last() =~= hs);
                assert(history_ids(n) =~= history_ids(hs).push(c.term_id@));
                assert(n.last().changes@ =~= seq![c]);
            }
        }
    }

    /// Records a change of a term, now.
    pub fn track_change(
        &mut self,
        term_id: String,
        changed_by: String,
        change_type: ChangeType,
        field: String,
        old_value: Option<String>,
        new_value: Option<String>,
    )
        requires
            old(self).wf(),
        ensures
            final(self).wf(),
            exists|now: i64|
                #[trigger] history_appended(
                    old(self).histories(),
                    final(self).histories(),
                    TermChange { term_id, timestamp: now, changed_by, change_type, old_value, new_value, field },
                ) && author_noted(
                    old(self).collaborator_list(),
                    final(self).collaborator_list(),
                    TermChange { term_id, timestamp: now, changed_by, change_type, old_value, new_value, field },
                ),
    {
        let now = now_millis();
        let ghost c = TermChange { term_id, timestamp: now, changed_by, change_type, old_value, new_value, field };
        self.track_change_at(term_id, changed_by, change_type, field, old_value, new_value, now);
        assert(history_appended(old(self).histories(), self.histories(), c) && author_noted(
            old(self).collaborator_list(),
            self.collaborator_list(),
            c,
        ));
    }

    /// The change history of a term; `None` if it never changed. Histories
    /// outlive the terms themselves.
    pub fn get_term_history(&self, term_id: &str) -> (r: Option<&TermChangeHistory>)
        requires
            self.wf(),
        ensures
            match r {
                Some(h) => history_ids(self.histories()).contains(term_id@)
                    && *h == self.histories()[key_pos(history_ids(self.histories()), term_id@)],
                None => !history_ids(self.histories()).contains(term_id@),
            },
    {
        let key = String::from_str(term_id);
        match find_history(&self.change_history, &key) {
            Some(i) => Some(&self.change_history[i]),
            None => None,
        }
    }

    /// Sets the last synchronisation time.
    pub fn update_last_sync_at(&mut self, now: i64)
        requires
            old(self).wf(),
        ensures
            final(self).wf(),
            final(self).sync_time() == now,
            final(self).version_list() == old(self).version_list(),
            final(self).histories() == old(self).histories(),
            final(self).collaborator_list() == old(self).collaborator_list(),
            final(self).locks() == old(self).locks(),
            final(self).reviews() == old(self).reviews(),
            final(self).resolutions() == old(self).resolutions(),
            final(self).activities() == old(self).activities(),
    {
        self.last_sync = now;
    }

    /// Marks the manager as synchronised now.
    pub fn update_last_sync(&mut self)
        requires
            old(self).wf(),
        ensures
            final(self).wf(),
            final(self).sync_time() >= 0,
            final(self).version_list() == old(self).version_list(),
            final(self).histories() == old(self).histories(),
            final(self).collaborator_list() == old(self).collaborator_list(),
            final(self).locks() == old(self).locks(),
            final(self).reviews() == old(self).reviews(),
            final(self).resolutions() == old(self).resolutions(),
            final(self).activities() == old(self).activities(),
    {
        self.update_last_sync_at(now_millis());
    }

    pub fn get_last_sync(&self) -> (r: i64)
        ensures
            r == self.sync_time(),
    {
        self.last_sync
    }
}


/// Whether an unexpired lock on `term` exists at `now`.
pub open spec fn lock_blocks(locks: Seq<EditLock>, term: Seq<char>, now: i64) -> bool {
    lock_ids(locks).contains(term) && now < locks[key_pos(lock_ids(locks), term)].expires_at
}

/// The locks with `l` in place of any lock on its term.
pub open spec fn with_lock(locks: Seq<EditLock>, l: EditLock) -> Seq<EditLock> {
    if lock_ids(locks).contains(l.term_id@) {
        locks.update(key_pos(lock_ids(locks), l.term_id@), l)
    } else {
        locks.push(l)
    }
}

proof fn lemma_with_lock(locks: Seq<EditLock>, l: EditLock)
    requires
        lock_ids(locks).no_duplicates(),
    ensures
        lock_ids(with_lock(locks, l)).no_duplicates(),
        lock_ids(with_lock(locks, l)).contains(l.term_id@),
        with_lock(locks, l)[key_pos(lock_ids(with_lock(locks, l)), l.term_id@)] == l,
{
    let n = with_lock(locks, l);
    if lock_ids(locks).contains(l.term_id@) {
        let p = key_pos(lock_ids(locks), l.term_id@);
        assert(lock_ids(n) =~= lock_ids(locks).update(p, l.term_id@));
        assert(lock_ids(n)[p] == l.term_id@);
        lemma_key_pos(lock_ids(n), p);
    } else {
        assert(lock_ids(n) =~= lock_ids(locks).push(l.term_id@));
        let p = locks.len() as int;
        assert(lock_ids(n)[p] == l.term_id@);
        lemma_key_pos(lock_ids(n), p);
    }
}

/// After a lock on a term is taken at `now`, another acquisition of that term
/// is refused until the lock's lifetime has elapsed, and allowed from then on.
pub proof fn lemma_lock_window(locks: Seq<EditLock>, l: EditLock, now: i64, later: i64)
    requires
        lock_ids(locks).no_duplicates(),
        l.locked_at == now,
        l.expires_at == lock_expiry(now),
        now <= i64::MAX - LOCK_TTL_MS,
    ensures
        now <= later < now + LOCK_TTL_MS ==> lock_blocks(with_lock(locks, l), l.term_id@, later),
        later >= now + LOCK_TTL_MS ==> !lock_blocks(with_lock(locks, l), l.term_id@, later),
{
    lemma_with_lock(locks, l);
}

/// Editing activities on `term` that started within the conflict window before `now`.
pub open spec fn recent_editing(term: Seq<char>, now: i64) -> spec_fn(CollaboratorActivity) -> bool {
    |a: CollaboratorActivity|
        a.activity_type == ActivityType::Editing && a.term_id is Some && a.term_id->0@ == term
            && a.started_at as int > now as int - CONFLICT_WINDOW_MS as int
}

/// A lock is in conflict when more than one recent Editing activity targets its term.
pub open spec fn in_conflict(activities: Seq<CollaboratorActivity>, now: i64) -> spec_fn(EditLock) -> bool {
    |l: EditLock| activities.filter(recent_editing(l.term_id@, now)).len() > 1
}

/// Whether a collaborator was active within the presence window before `now`.
pub open spec fn recently_active(now: i64) -> spec_fn(CollaboratorInfo) -> bool {
    |c: CollaboratorInfo| c.last_active as int > now as int - ACTIVE_WINDOW_MS as int
}

/// Whether the named person is listed on a request that still awaits a decision.
pub open spec fn awaits(reviewer: Seq<char>) -> spec_fn(ReviewRequest) -> bool {
    |r: ReviewRequest| seqs_of(r.reviewers@).contains(reviewer) && is_open_status(r.status)
}

/// Whether an activity concerns a term that the changes touch.
pub open spec fn touches(changes: Seq<TermChange>) -> spec_fn(CollaboratorActivity) -> bool {
    |a: CollaboratorActivity| a.term_id is Some && exists|k: int| 0 <= k < changes.len() && (#[trigger] changes[k]).term_id@ == a.term_id->0@
}

fn count_recent_editing(log: &Vec<CollaboratorActivity>, term: &String, now: i64) -> (r: usize)
    ensures
        r == log@.filter(recent_editing(term@, now)).len(),
{
    let ghost pred = recent_editing(term@, now);
    let mut n: usize = 0;
    let mut i: usize = 0;
    while i < log.len()
        invariant
            i <= log@.len(),
            pred == recent_editing(term@, now),
            n == log@.subrange(0, i as int).filter(pred).len(),
            n <= i,
        decreases log.len() - i,
    {
        let a = &log[i];
        let hit = match &a.term_id {
            Some(t) => a.activity_type == ActivityType::Editing && *t == *term
                && (a.started_at as i128) > (now as i128) - (CONFLICT_WINDOW_MS as i128),
            None => false,
        };
        proof {
            assert(log@.subrange(0, i + 1) =~= log@.subrange(0, i as int).push(log@[i as int]));
            log@.subrange(0, i as int).lemma_filter_push(log@[i as int], pred);
            assert(hit == pred(log@[i as int]));
        }
        if hit {
            n = n + 1;
        }
        i = i + 1;
    }
    assert(log@.subrange(0, log@.len() as int) =~= log@);
    n
}

fn touches_exec(changes: &Vec<TermChange>, a: &CollaboratorActivity) -> (r: bool)
    ensures
        r == touches(changes@)(*a),
{
    match &a.term_id {
        None => false,
        Some(t) => {
            let mut k: usize = 0;
            while k < changes.len()
                invariant
                    k <= changes@.len(),
                    a.term_id == Some(*t),
                    forall|j: int| 0 <= j < k ==> (#[trigger] changes@[j]).term_id@ != t@,
                decreases changes.len() - k,
            {
                if changes[k].term_id == *t {
                    return true;
                }
                k = k + 1;
            }
            false
        },
    }
}

impl KnowledgeManager {
    /// Takes the edit lock on `term_id` for `user_id` at `now`, for the lock
    /// lifetime. Refused while an unexpired lock on the term exists, whoever
    /// holds it; an expired lock is replaced.
    pub fn acquire_edit_lock_at(&mut self, term_id: String, user_id: String, now: i64) -> (r: Result<(), StoreError>)
        requires
            old(self).wf(),
        ensures
            final(self).wf(),
            lock_blocks(old(self).locks(), term_id@, now) ==> r == Err::<(), StoreError>(StoreError::AlreadyLocked) && *final(self) == *old(self),
            !lock_blocks(old(self).locks(), term_id@, now) ==> r is Ok && final(self).locks() == with_lock(
                old(self).locks(),
                EditLock { term_id, locked_by: user_id, locked_at: now, expires_at: lock_expiry(now) },
            ),
            final(self).version_list() == old(self).version_list(),
            final(self).histories() == old(self).histories(),
            final(self).collaborator_list() == old(self).collaborator_list(),
            final(self).reviews() == old(self).reviews(),
            final(self).resolutions() == old(self).resolutions(),
            final(self).activities() == old(self).activities(),
            final(self).sync_time() == old(self).sync_time(),
    {
        let found = find_lock(&self.edit_locks, &term_id);
        if let Some(i) = found {
            if self.edit_locks[i].is_active(now) {
                return Err(StoreError::AlreadyLocked);
            }
        }
        let ghost l = EditLock { term_id, locked_by: user_id, locked_at: now, expires_at: lock_expiry(now) };
        let lock = EditLock { term_id, locked_by: user_id, locked_at: now, expires_at: lock_expiry_exec(now) };
        assert(lock == l);
        let ghost before = self.edit_locks@;
        match found {
            Some(i) => {
                self.edit_locks.set(i, lock);
            },
            None => {
                self.edit_locks.push(lock);
            },
        }
        proof {
            lemma_with_lock(before, l);
        }
        Ok(())
    }

    /// Takes the edit lock on a term now.
    pub fn acquire_edit_lock(&mut self, term_id: String, user_id: String) -> (r: Result<(), StoreError>)
        requires
            old(self).wf(),
        ensures
            final(self).wf(),
            !lock_ids(old(self).locks()).contains(term_id@) ==> r is Ok,
            r is Err ==> r == Err::<(), StoreError>(StoreError::AlreadyLocked) && *final(self) == *old(self),
            r is Ok ==> exists|now: i64| !lock_blocks(old(self).locks(), term_id@, now) && #[trigger] final(self).locks() == with_lock(
                old(self).locks(),
                EditLock { term_id, locked_by: user_id, locked_at: now, expires_at: lock_expiry(now) },
            ),
    {
        let now = now_millis();
        let ghost (t, u) = (term_id, user_id);
        let r = self.acquire_edit_lock_at(term_id, user_id, now);
        proof {
            if r is Ok {
                assert(!lock_blocks(old(self).locks(), t@, now) && final(self).locks() == with_lock(
                    old(self).locks(),
                    EditLock { term_id: t, locked_by: u, locked_at: now, expires_at: lock_expiry(now) },
                ));
            }
        }
        r
    }

    /// Releases the lock on `term_id` when `user_id` holds it unexpired at
    /// `now`, returning `Ok(true)`; otherwise nothing changes and the answer is
    /// `Ok(false)`.
    pub fn release_edit_lock_at(&mut self, term_id: &str, user_id: &str, now: i64) -> (r: Result<bool, StoreError>)
        requires
            old(self).wf(),
        ensures
            final(self).wf(),
            ({
                let ls = old(self).locks();
                let holds = lock_blocks(ls, term_id@, now) && ls[key_pos(lock_ids(ls), term_id@)].locked_by@ == user_id@;
                &&& r == Ok::<bool, StoreError>(holds)
                &&& holds ==> final(self).locks() == ls.remove(key_pos(lock_ids(ls), term_id@))
                &&& !holds ==> *final(self) == *old(self)
            }),
            final(self).version_list() == old(self).version_list(),
            final(self).histories() == old(self).histories(),
            final(self).collaborator_list() == old(self).collaborator_list(),
            final(self).reviews() == old(self).reviews(),
            final(self).resolutions() == old(self).resolutions(),
            final(self).activities() == old(self).activities(),
            final(self).sync_time() == old(self).sync_time(),
    {
        let key = String::from_str(term_id);
        let user = String::from_str(user_id);
        match find_lock(&self.edit_locks, &key) {
            Some(i) => {
                if self.edit_locks[i].is_active(now) && self.edit_locks[i].locked_by == user {
                    let ghost before = self.edit_locks@;
                    self.edit_locks.remove(i);
                    proof {
                        let n = self.edit_locks@;
                        assert(lock_ids(n) =~= lock_ids(before).remove(i as int));
                        assert forall|a: int, b: int| 0 <= a < lock_ids(n).len() && 0 <= b < lock_ids(n).len() && a != b implies lock_ids(n)[a] != lock_ids(n)[b] by {
                            let a0 = if a < i { a } else { a + 1 };
                            let b0 = if b < i { b } else { b + 1 };
                            assert(lock_ids(n)[a] == lock_ids(before)[a0] && lock_ids(n)[b] == lock_ids(before)[b0]);
                        }
                    }
                    Ok(true)
                } else {
                    Ok(false)
                }
            },
            None => Ok(false),
        }
    }

    /// Releases a lock, judged now.
    pub fn release_edit_lock(&mut self, term_id: &str, user_id: &str) -> (r: Result<bool, StoreError>)
        requires
            old(self).wf(),
        ensures
            final(self).wf(),
            r is Ok,
            r == Ok::<bool, StoreError>(false) ==> *final(self) == *old(self),
            r == Ok::<bool, StoreError>(true) ==> ({
                let ls = old(self).locks();
                &&& lock_ids(ls).contains(term_id@)
                &&& exists|now: i64| #[trigger] lock_blocks(ls, term_id@, now)
                &&& ls[key_pos(lock_ids(ls), term_id@)].locked_by@ == user_id@
                &&& final(self).locks() == ls.remove(key_pos(lock_ids(ls), term_id@))
            }),
    {
        let now = now_millis();
        let r = self.release_edit_lock_at(term_id, user_id, now);
        proof {
            if r == Ok::<bool, StoreError>(true) {
                assert(lock_blocks(old(self).locks(), term_id@, now));
            }
        }
        r
    }

    /// Registers a collaborator, active at `now`, replacing one with the same id.
    pub fn add_collaborator_at(&mut self, user_id: String, name: String, role: CollaboratorRole, now: i64)
        requires
            old(self).wf(),
        ensures
            final(self).wf(),
            collaborator_registered(old(self).collaborator_list(), final(self).collaborator_list(), user_id, name, role, now),
            final(self).version_list() == old(self).version_list(),
            final(self).histories() == old(self).histories(),
            final(self).locks() == old(self).locks(),
            final(self).reviews() == old(self).reviews(),
            final(self).resolutions() == old(self).resolutions(),
            final(self).activities() == old(self).activities(),
            final(self).sync_time() == old(self).sync_time(),
    {
        let found = find_user(&self.collaborators, &user_id);
        let ghost uid = user_id;
        let info = CollaboratorInfo {
            user_id,
            name,
            role,
            last_active: now,
            current_activity: None,
            edit_history: Vec::new(),
        };
        let ghost before = self.collaborators@;
        let p: usize = match found {
            Some(i) => {
                self.collaborators.set(i, info);
                i
            },
            None => {
                self.collaborators.push(info);
                self.collaborators.len() - 1
            },
        };
        proof {
            let n = self.collaborators@;
            match found {
                Some(i) => {
                    assert(user_ids(n) =~= user_ids(before));
                },
                None => {
                    assert(user_ids(n) =~= user_ids(before).push(uid@));
                    assert(n == before.push(n[p as int]));
                },
            }
            assert(user_ids(n)[p as int] == uid@);
            lemma_key_pos(user_ids(n), p as int);
        }
    }

    /// Registers a collaborator, active now.
    pub fn add_collaborator(&mut self, user_id: String, name: String, role: CollaboratorRole)
        requires
            old(self).wf(),
        ensures
            final(self).wf(),
            exists|now: i64| #[trigger] collaborator_registered(
                old(self).collaborator_list(),
                final(self).collaborator_list(),
                user_id,
                name,
                role,
                now,
            ),
            final(self).version_list() == old(self).version_list(),
            final(self).histories() == old(self).histories(),
            final(self).locks() == old(self).locks(),
            final(self).reviews() == old(self).reviews(),
            final(self).resolutions() == old(self).resolutions(),
            final(self).activities() == old(self).activities(),
            final(self).sync_time() == old(self).sync_time(),
    {
        let now = now_millis();
        let ghost (u, n) = (user_id, name);
        self.add_collaborator_at(user_id, name, role, now);
        assert(collaborator_registered(old(self).collaborator_list(), self.collaborator_list(), u, n, role, now));
    }

    /// Records what a known collaborator is doing, at `now`: their last
    /// activity time and current activity change, and the activity enters the
    /// front of the bounded global log. An unknown collaborator changes nothing.
    pub fn update_collaborator_activity_at(&mut self, user_id: &str, activity: CollaboratorActivity, now: i64)
        requires
            old(self).wf(),
        ensures
            final(self).wf(),
            !user_ids(old(self).collaborator_list()).contains(user_id@) ==> *final(self) == *old(self),
            user_ids(old(self).collaborator_list()).contains(user_id@) ==> presence_updated(
                old(self).collaborator_list(),
                final(self).collaborator_list(),
                user_id@,
                activity,
                now,
            ) && final(self).activities() == push_front_bounded(old(self).activities(), activity, ACTIVITY_LOG_CAPACITY as nat),
            final(self).version_list() == old(self).version_list(),
            final(self).histories() == old(self).histories(),
            final(self).locks() == old(self).locks(),
            final(self).reviews() == old(self).reviews(),
            final(self).resolutions() == old(self).resolutions(),
            final(self).sync_time() == old(self).sync_time(),
    {
        let key = String::from_str(user_id);
        match find_user(&self.collaborators, &key) {
            Some(i) => {
                let ghost before = self.collaborators@;
                let mut info = self.collaborators.remove(i);
                info.last_active = now;
                info.current_activity = Some(activity.copy());
                self.collaborators.insert(i, info);
                proof {
                    let n = self.collaborators@;
                    assert(n =~= before.update(i as int, n[i as int]));
                    assert(user_ids(n) =~= user_ids(before));
                }
                push_front_bounded_exec(&mut self.activity_log, activity, ACTIVITY_LOG_CAPACITY);
            },
            None => {},
        }
    }

    /// Records what a collaborator is doing, now.
    pub fn update_collaborator_activity(&mut self, user_id: &str, activity: CollaboratorActivity)
        requires
            old(self).wf(),
        ensures
            final(self).wf(),
            !user_ids(old(self).collaborator_list()).contains(user_id@) ==> *final(self) == *old(self),
            user_ids(old(self).collaborator_list()).contains(user_id@) ==> (exists|now: i64| #[trigger] presence_updated(
                old(self).collaborator_list(),
                final(self).collaborator_list(),
                user_id@,
                activity,
                now,
            )) && final(self).activities() == push_front_bounded(old(self).activities(), activity, ACTIVITY_LOG_CAPACITY as nat),
    {
        let now = now_millis();
        let ghost a = activity;
        self.update_collaborator_activity_at(user_id, activity, now);
        proof {
            if user_ids(old(self).collaborator_list()).contains(user_id@) {
                assert(presence_updated(old(self).collaborator_list(), self.collaborator_list(), user_id@, a, now));
            }
        }
    }

    /// The collaborators active within the presence window before `now`.
    pub fn get_active_collaborators_at(&self, now: i64) -> (r: Vec<&CollaboratorInfo>)
        ensures
            r@.map_values(|c: &CollaboratorInfo| *c) == self.collaborator_list().filter(recently_active(now)),
    {
        let ghost pred = recently_active(now);
        let mut r: Vec<&CollaboratorInfo> = Vec::new();
        let mut i: usize = 0;
        while i < self.collaborators.len()
            invariant
                i <= self.collaborators@.len(),
                pred == recently_active(now),
                r@.map_values(|c: &CollaboratorInfo| *c) == self.collaborators@.subrange(0, i as int).filter(pred),
            decreases self.collaborators.len() - i,
        {
            let c = &self.collaborators[i];
            let hit = (c.last_active as i128) > (now as i128) - (ACTIVE_WINDOW_MS as i128);
            proof {
                let s = self.collaborators@;
                assert(s.subrange(0, i + 1) =~= s.subrange(0, i as int).push(s[i as int]));
                s.subrange(0, i as int).lemma_filter_push(s[i as int], pred);
            }
            if hit {
                r.push(c);
            }
            assert(r@.map_values(|c: &CollaboratorInfo| *c) =~= self.collaborators@.subrange(0, i + 1).filter(pred));
            i = i + 1;
        }
        assert(self.collaborators@.subrange(0, self.collaborators@.len() as int) =~= self.collaborators@);
        r
    }

    /// The collaborators active within the presence window, judged now.
    pub fn get_active_collaborators(&self) -> (r: Vec<&CollaboratorInfo>)
        ensures
            exists|now: i64| r@.map_values(|c: &CollaboratorInfo| *c) == self.collaborator_list().filter(recently_active(now)),
    {
        let now = now_millis();
        self.get_active_collaborators_at(now)
    }

    /// The logged activities on terms that the collaborator has changed
    /// recently, newest first; nothing for an unknown collaborator.
    pub fn get_collaborator_activity_log(&self, user_id: &str) -> (r: Vec<&CollaboratorActivity>)
        requires
            self.wf(),
        ensures
            !user_ids(self.collaborator_list()).contains(user_id@) ==> r@.len() == 0,
            user_ids(self.collaborator_list()).contains(user_id@) ==> r@.map_values(|a: &CollaboratorActivity| *a)
                == self.activities().filter(touches(
                    self.collaborator_list()[key_pos(user_ids(self.collaborator_list()), user_id@)].edit_history@,
                )),
    {
        let key = String::from_str(user_id);
        let mut r: Vec<&CollaboratorActivity> = Vec::new();
        let u = match find_user(&self.collaborators, &key) {
            Some(u) => u,
            None => return r,
        };
        let changes = &self.collaborators[u].edit_history;
        let ghost pred = touches(changes@);
        let mut i: usize = 0;
        while i < self.activity_log.len()
            invariant
                i <= self.activity_log@.len(),
                pred == touches(changes@),
                r@.map_values(|a: &CollaboratorActivity| *a) == self.activity_log@.subrange(0, i as int).filter(pred),
            decreases self.activity_log.len() - i,
        {
            let a = &self.activity_log[i];
            let hit = touches_exec(changes, a);
            proof {
                let s = self.activity_log@;
                assert(s.subrange(0, i + 1) =~= s.subrange(0, i as int).push(s[i as int]));
                s.subrange(0, i as int).lemma_filter_push(s[i as int], pred);
            }
            if hit {
                r.push(a);
            }
            assert(r@.map_values(|a: &CollaboratorActivity| *a) =~= self.activity_log@.subrange(0, i + 1).filter(pred));
            i = i + 1;
        }
        assert(self.activity_log@.subrange(0, self.activity_log@.len() as int) =~= self.activity_log@);
        r
    }

    /// The locks whose term has more than one Editing activity within the
    /// conflict window before `now`, whether or not the lock has expired.
    pub fn get_edit_conflicts_at(&self, now: i64) -> (r: Vec<&EditLock>)
        ensures
            r@.map_values(|l: &EditLock| *l) == self.locks().filter(in_conflict(self.activities(), now)),
    {
        let ghost pred = in_conflict(self.activity_log@, now);
        let mut r: Vec<&EditLock> = Vec::new();
        let mut i: usize = 0;
        while i < self.edit_locks.len()
            invariant
                i <= self.edit_locks@.len(),
                pred == in_conflict(self.activity_log@, now),
                r@.map_values(|l: &EditLock| *l) == self.edit_locks@.subrange(0, i as int).filter(pred),
            decreases self.edit_locks.len() - i,
        {
            let l = &self.edit_locks[i];
            let n = count_recent_editing(&self.activity_log, &l.term_id, now);
            proof {
                let s = self.edit_locks@;
                assert(s.subrange(0, i + 1) =~= s.subrange(0, i as int).push(s[i as int]));
                s.subrange(0, i as int).lemma_filter_push(s[i as int], pred);
            }
            if n > 1 {
                r.push(l);
            }
            assert(r@.map_values(|l: &EditLock| *l) =~= self.edit_locks@.subrange(0, i + 1).filter(pred));
            i = i + 1;
        }
        assert(self.edit_locks@.subrange(0, self.edit_locks@.len() as int) =~= self.edit_locks@);
        r
    }

    /// The locks in conflict, judged now.
    pub fn get_edit_conflicts(&self) -> (r: Vec<&EditLock>)
        ensures
            exists|now: i64| r@.map_values(|l: &EditLock| *l) == self.locks().filter(in_conflict(self.activities(), now)),
    {
        let now = now_millis();
        self.get_edit_conflicts_at(now)
    }

    /// Opens a review of a term under the identifier `request_id`, in state
    /// Pending with no comments, replacing a request with the same identifier.
    pub fn create_review_request_at(
        &mut self,
        term_id: String,
        requested_by: String,
        reviewers: Vec<String>,
        request_id: String,
        now: i64,
    ) -> (r: Result<String, StoreError>)
        requires
            old(self).wf(),
        ensures
            final(self).wf(),
            r is Ok && r->Ok_0@ == request_id@,
            ({
                let rs = old(self).reviews();
                let ns = final(self).reviews();
                let p = key_pos(request_ids(ns), request_id@);
                &&& request_ids(ns).contains(request_id@)
                &&& ns[p].request_id@ == request_id@
                &&& ns[p].term_id == term_id
                &&& ns[p].requested_by == requested_by
                &&& ns[p].requested_at == now
                &&& ns[p].reviewers == reviewers
                &&& ns[p].status == ReviewStatus::Pending
                &&& ns[p].comments@.len() == 0
                &&& request_ids(rs).contains(request_id@) ==> ns.len() == rs.len() && ns == rs.update(p, ns[p])
                &&& !request_ids(rs).contains(request_id@) ==> ns == rs.push(ns[p])
            }),
            final(self).version_list() == old(self).version_list(),
            final(self).histories() == old(self).histories(),
            final(self).collaborator_list() == old(self).collaborator_list(),
            final(self).locks() == old(self).locks(),
            final(self).resolutions() == old(self).resolutions(),
            final(self).activities() == old(self).activities(),
            final(self).sync_time() == old(self).sync_time(),
    {
        let found = find_request(&self.review_requests, &request_id);
        let id = request_id.clone();
        let request = ReviewRequest {
            request_id,
            term_id,
            requested_by,
            requested_at: now,
            reviewers,
            status: ReviewStatus::Pending,
            comments: Vec::new(),
        };
        let ghost before = self.review_requests@;
        let p: usize = match found {
            Some(i) => {
                self.review_requests.set(i, request);
                i
            },
            None => {
                self.review_requests.push(request);
                self.review_requests.len() - 1
            },
        };
        proof {
            let n = self.review_requests@;
            match found {
                Some(i) => {
                    assert(request_ids(n) =~= request_ids(before));
                },
                None => {
                    assert(request_ids(n) =~= request_ids(before).push(id@));
                    assert(n == before.push(n[p as int]));
                },
            }
            assert(request_ids(n)[p as int] == id@);
            lemma_key_pos(request_ids(n), p as int);
        }
        Ok(id)
    }

    /// Opens a review of a term, now, under a fresh random identifier that no
    /// request uses yet: in state Pending, with no comments.
    pub fn create_review_request(&mut self, term_id: String, requested_by: String, reviewers: Vec<String>) -> (r: Result<String, StoreError>)
        requires
            old(self).wf(),
        ensures
            final(self).wf(),
            r is Ok,
            !request_ids(old(self).reviews()).contains(r->Ok_0@),
            final(self).reviews().len() == old(self).reviews().len() + 1,
            final(self).reviews().drop_last() == old(self).reviews(),
            final(self).reviews().last().request_id@ == r->Ok_0@,
            final(self).reviews().last().term_id == term_id,
            final(self).reviews().last().requested_by == requested_by,
            final(self).reviews().last().reviewers == reviewers,
            final(self).reviews().last().status == ReviewStatus::Pending,
            final(self).reviews().last().comments@.len() == 0,
            final(self).version_list() == old(self).version_list(),
            final(self).histories() == old(self).histories(),
            final(self).collaborator_list() == old(self).collaborator_list(),
            final(self).locks() == old(self).locks(),
            final(self).resolutions() == old(self).resolutions(),
            final(self).activities() == old(self).activities(),
            final(self).sync_time() == old(self).sync_time(),
    {
        let drawn = random_id();
        let id = self.unused_request_id(drawn);
        let now = now_millis();
        let r = self.create_review_request_at(term_id, requested_by, reviewers, id, now);
        proof {
            let rs = old(self).reviews();
            let ns = self.reviews();
            let p = key_pos(request_ids(ns), r->Ok_0@);
            assert(ns == rs.push(ns[p]));
            assert(ns.drop_last() =~= rs);
            assert(ns.last() == ns[p]);
        }
        r
    }

    /// `candidate` when no request uses it; otherwise `candidate` lengthened
    /// with dashes beyond every identifier in use.
    fn unused_request_id(&self, candidate: String) -> (r: String)
        requires
            self.wf(),
        ensures
            !request_ids(self.reviews()).contains(r@),
    {
        if find_request(&self.review_requests, &candidate).is_none() {
            return candidate;
        }
        let mut longest: usize = 0;
        let mut i: usize = 0;
        while i < self.review_requests.len()
            invariant
                i <= self.review_requests@.len(),
                forall|k: int| 0 <= k < i ==> (#[trigger] self.review_requests@[k]).request_id@.len() <= longest,
            decreases self.review_requests.len() - i,
        {
            let n = self.review_requests[i].request_id.as_str().unicode_len();
            if n > longest {
                longest = n;
            }
            i = i + 1;
        }
        let mut id = candidate;
        proof {
            reveal_strlit("-");
        }
        while id.as_str().unicode_len() <= longest
            invariant
                forall|k: int| 0 <= k < self.review_requests@.len() ==> (#[trigger] self.review_requests@[k]).request_id@.len() <= longest,
            decreases longest + 1 - id@.len(),
        {
            proof {
                reveal_strlit("-");
            }
            id.append("-");
        }
        proof {
            if request_ids(self.reviews()).contains(id@) {
                let k = choose|k: int| 0 <= k < request_ids(self.reviews()).len() && request_ids(self.reviews())[k] == id@;
                assert(self.review_requests@[k].request_id@ == id@);
            }
        }
        id
    }

    /// Adds a comment to a review in any state, at `now`; the state does not
    /// change. An unknown review is reported as not found.
    pub fn add_review_comment_at(
        &mut self,
        request_id: &str,
        author: String,
        content: String,
        field: Option<String>,
        now: i64,
    ) -> (r: Result<(), StoreError>)
        requires
            old(self).wf(),
        ensures
            final(self).wf(),
            !request_ids(old(self).reviews()).contains(request_id@) ==> r == Err::<(), StoreError>(StoreError::NotFound) && *final(self) == *old(self),
            request_ids(old(self).reviews()).contains(request_id@) ==> r is Ok && comment_added(
                old(self).reviews(),
                final(self).reviews(),
                request_id@,
                ReviewComment { author, timestamp: now, content, field },
            ),
            final(self).version_list() == old(self).version_list(),
            final(self).histories() == old(self).histories(),
            final(self).collaborator_list() == old(self).collaborator_list(),
            final(self).locks() == old(self).locks(),
            final(self).resolutions() == old(self).resolutions(),
            final(self).activities() == old(self).activities(),
            final(self).sync_time() == old(self).sync_time(),
    {
        let key = String::from_str(request_id);
        match find_request(&self.review_requests, &key) {
            Some(i) => {
                let ghost before = self.review_requests@;
                let mut req = self.review_requests.remove(i);
                req.comments.push(ReviewComment { author, timestamp: now, content, field });
                self.review_requests.insert(i, req);
                proof {
                    let n = self.review_requests@;
                    assert(n =~= before.update(i as int, n[i as int]));
                    assert(request_ids(n) =~= request_ids(before));
                }
                Ok(())
            },
            None => Err(StoreError::NotFound),
        }
    }

    /// Adds a comment to a review, now.
    pub fn add_review_comment(&mut self, request_id: &str, author: String, content: String, field: Option<String>) -> (r: Result<(), StoreError>)
        requires
            old(self).wf(),
        ensures
            final(self).wf(),
            !request_ids(old(self).reviews()).contains(request_id@) ==> r == Err::<(), StoreError>(StoreError::NotFound) && *final(self) == *old(self),
            request_ids(old(self).reviews()).contains(request_id@) ==> r is Ok && exists|now: i64| #[trigger] comment_added(
                old(self).reviews(),
                final(self).reviews(),
                request_id@,
                ReviewComment { author, timestamp: now, content, field },
            ),
            final(self).version_list() == old(self).version_list(),
            final(self).histories() == old(self).histories(),
            final(self).collaborator_list() == old(self).collaborator_list(),
            final(self).locks() == old(self).locks(),
            final(self).resolutions() == old(self).resolutions(),
            final(self).activities() == old(self).activities(),
            final(self).sync_time() == old(self).sync_time(),
    {
        let now = now_millis();
        let ghost c = ReviewComment { author, timestamp: now, content, field };
        let r = self.add_review_comment_at(request_id, author, content, field, now);
        proof {
            if request_ids(old(self).reviews()).contains(request_id@) {
                assert(comment_added(old(self).reviews(), self.reviews(), request_id@, c));
            }
        }
        r
    }

    /// Moves a review to any state; no transition is forbidden. An unknown
    /// review is reported as not found.
    pub fn update_review_status(&mut self, request_id: &str, status: ReviewStatus) -> (r: Result<(), StoreError>)
        requires
            old(self).wf(),
        ensures
            final(self).wf(),
            !request_ids(old(self).reviews()).contains(request_id@) ==> r == Err::<(), StoreError>(StoreError::NotFound) && *final(self) == *old(self),
            request_ids(old(self).reviews()).contains(request_id@) ==> r is Ok && ({
                let rs = old(self).reviews();
                let p = key_pos(request_ids(rs), request_id@);
                let ns = final(self).reviews();
                &&& ns.len() == rs.len()
                &&& forall|i: int| 0 <= i < rs.len() && i != p ==> ns[i] == #[trigger] rs[i]
                &&& ns[p].request_id == rs[p].request_id
                &&& ns[p].term_id == rs[p].term_id
                &&& ns[p].requested_by == rs[p].requested_by
                &&& ns[p].requested_at == rs[p].requested_at
                &&& ns[p].reviewers == rs[p].reviewers
                &&& ns[p].comments == rs[p].comments
                &&& ns[p].status == status
            }),
            final(self).version_list() == old(self).version_list(),
            final(self).histories() == old(self).histories(),
            final(self).collaborator_list() == old(self).collaborator_list(),
            final(self).locks() == old(self).locks(),
            final(self).resolutions() == old(self).resolutions(),
            final(self).activities() == old(self).activities(),
            final(self).sync_time() == old(self).sync_time(),
    {
        let key = String::from_str(request_id);
        match find_request(&self.review_requests, &key) {
            Some(i) => {
                let ghost before = self.review_requests@;
                let mut req = self.review_requests.remove(i);
                req.status = status;
                self.review_requests.insert(i, req);
                proof {
                    let n = self.review_requests@;
                    assert(n =~= before.update(i as int, n[i as int]));
                    assert(request_ids(n) =~= request_ids(before));
                }
                Ok(())
            },
            None => Err(StoreError::NotFound),
        }
    }

    /// The reviews that list `reviewer_id` and still await a decision.
    pub fn get_pending_reviews(&self, reviewer_id: &str) -> (r: Vec<&ReviewRequest>)
        ensures
            r@.map_values(|q: &ReviewRequest| *q) == self.reviews().filter(awaits(reviewer_id@)),
    {
        let key = String::from_str(reviewer_id);
        let ghost pred = awaits(reviewer_id@);
        let mut r: Vec<&ReviewRequest> = Vec::new();
        let mut i: usize = 0;
        while i < self.review_requests.len()
            invariant
                i <= self.review_requests@.len(),
                key@ == reviewer_id@,
                pred == awaits(reviewer_id@),
                r@.map_values(|q: &ReviewRequest| *q) == self.review_requests@.subrange(0, i as int).filter(pred),
            decreases self.review_requests.len() - i,
        {
            let q = &self.review_requests[i];
            let open = match q.status {
                ReviewStatus::Pending => true,
                ReviewStatus::InReview => true,
                _ => false,
            };
            let hit = open && list_contains(&q.reviewers, &key);
            proof {
                let s = self.review_requests@;
                assert(s.subrange(0, i + 1) =~= s.subrange(0, i as int).push(s[i as int]));
                s.subrange(0, i as int).lemma_filter_push(s[i as int], pred);
            }
            if hit {
                r.push(q);
            }
            assert(r@.map_values(|q: &ReviewRequest| *q) =~= self.review_requests@.subrange(0, i + 1).filter(pred));
            i = i + 1;
        }
        assert(self.review_requests@.subrange(0, self.review_requests@.len() as int) =~= self.review_requests@);
        r
    }

    /// Logs how a conflict on a term was settled, at `now`. The term itself is
    /// not touched.
    pub fn resolve_conflict_at(
        &mut self,
        term_id: String,
        resolved_by: String,
        resolution_type: ResolutionType,
        comments: String,
        now: i64,
    ) -> (r: Result<(), StoreError>)
        requires
            old(self).wf(),
        ensures
            final(self).wf(),
            r is Ok,
            final(self).resolutions() == old(self).resolutions().push(
                ConflictResolution { term_id, resolved_by, timestamp: now, resolution_type, comments },
            ),
            final(self).version_list() == old(self).version_list(),
            final(self).histories() == old(self).histories(),
            final(self).collaborator_list() == old(self).collaborator_list(),
            final(self).locks() == old(self).locks(),
            final(self).reviews() == old(self).reviews(),
            final(self).activities() == old(self).activities(),
            final(self).sync_time() == old(self).sync_time(),
    {
        self.conflict_resolutions.push(ConflictResolution { term_id, resolved_by, timestamp: now, resolution_type, comments });
        Ok(())
    }

    /// Logs how a conflict was settled, now.
    pub fn resolve_conflict(
        &mut self,
        term_id: String,
        resolved_by: String,
        resolution_type: ResolutionType,
        comments: String,
    ) -> (r: Result<(), StoreError>)
        requires
            old(self).wf(),
        ensures
            final(self).wf(),
            r is Ok,
            exists|now: i64| #[trigger] final(self).resolutions() == old(self).resolutions().push(
                ConflictResolution { term_id, resolved_by, timestamp: now, resolution_type, comments },
            ),
            final(self).version_list() == old(self).version_list(),
            final(self).histories() == old(self).histories(),
            final(self).collaborator_list() == old(self).collaborator_list(),
            final(self).locks() == old(self).locks(),
            final(self).reviews() == old(self).reviews(),
            final(self).activities() == old(self).activities(),
            final(self).sync_time() == old(self).sync_time(),
    {
        let now = now_millis();
        let ghost e = ConflictResolution { term_id, resolved_by, timestamp: now, resolution_type, comments };
        let r = self.resolve_conflict_at(term_id, resolved_by, resolution_type, comments, now);
        assert(self.resolutions() == old(self).resolutions().push(e));
        r
    }

    /// The conflict resolutions, oldest first.
    pub fn get_conflict_resolutions(&self) -> (r: &Vec<ConflictResolution>)
        ensures
            r@ == self.resolutions(),
    {
        &self.conflict_resolutions
    }
}


/// One step of merging: an incoming term that is new or strictly newer
/// replaces the base term, stamped `now`.
pub open spec fn merge_step(m: Map<Seq<char>, TermView>, t: TermView, now: i64) -> Map<Seq<char>, TermView> {
    if !m.dom().contains(t.hebrew) || m[t.hebrew].last_updated < t.last_updated {
        m.insert(t.hebrew, stamped(t, now as int))
    } else {
        m
    }
}

pub open spec fn merged_into(base: Map<Seq<char>, TermView>, incoming: Seq<TermView>, now: i64) -> Map<Seq<char>, TermView>
    decreases incoming.len(),
{
    if incoming.len() == 0 {
        base
    } else {
        merge_step(merged_into(base, incoming.drop_last(), now), incoming.last(), now)
    }
}

pub open spec fn is_new_in(base: Map<Seq<char>, TermView>) -> spec_fn(TermView) -> bool {
    |t: TermView| !base.dom().contains(t.hebrew)
}

pub open spec fn is_newer_than(base: Map<Seq<char>, TermView>) -> spec_fn(TermView) -> bool {
    |t: TermView| base.dom().contains(t.hebrew) && base[t.hebrew].last_updated < t.last_updated
}

pub open spec fn is_tied_with(base: Map<Seq<char>, TermView>) -> spec_fn(TermView) -> bool {
    |t: TermView| base.dom().contains(t.hebrew) && base[t.hebrew].last_updated == t.last_updated
}

/// (base term, incoming term) for each incoming term tied with the base.
pub open spec fn ties(base: Map<Seq<char>, TermView>, incoming: Seq<TermView>) -> Seq<(TermView, TermView)> {
    incoming.filter(is_tied_with(base)).map_values(|t: TermView| (base[t.hebrew], t))
}

/// The outcome of merging `incoming` into `base` at `now`: the merged map,
/// and a report of the new terms, the strictly newer ones and the ties.
pub open spec fn merge_outcome(
    base: Map<Seq<char>, TermView>,
    incoming: Seq<TermView>,
    now: i64,
    merged_map: Map<Seq<char>, TermView>,
    rep: DictionaryMergeReport,
) -> bool {
    &&& merged_map == merged_into(base, incoming, now)
    &&& views(rep.added_terms@) == incoming.filter(is_new_in(base))
    &&& views(rep.updated_terms@) == incoming.filter(is_newer_than(base))
    &&& rep.removed_terms@.len() == 0
    &&& pair_views(rep.conflicting_terms@) == ties(base, incoming)
    &&& rep.timestamp == now
}

fn all_valid(terms: &Vec<TechnicalTerm>) -> (r: bool)
    ensures
        r == forall|i: int| 0 <= i < terms@.len() ==> term_valid(#[trigger] terms@[i]@),
{
    let mut i: usize = 0;
    while i < terms.len()
        invariant
            i <= terms@.len(),
            forall|k: int| 0 <= k < i ==> term_valid(#[trigger] terms@[k]@),
        decreases terms.len() - i,
    {
        if !terms[i].is_valid() {
            return false;
        }
        i = i + 1;
    }
    true
}

impl KnowledgeManager {
    /// Merges `other_dict` into `base_dict` at `now`: a term new to the base
    /// is added, a strictly newer one replaces the base's, both stamped `now`;
    /// an older one is ignored; one with the same modification time is left as
    /// it is and reported as a conflict. When `other_dict` holds a term without
    /// Hebrew or Russian text nothing is merged.
    #[verifier::rlimit(50)]
    pub fn merge_dictionaries_at(
        &self,
        base_dict: &mut TechnicalDictionary,
        other_dict: &TechnicalDictionary,
        now: i64,
    ) -> (r: Result<DictionaryMergeReport, StoreError>)
        requires
            old(base_dict).wf(),
            other_dict.wf(),
        ensures
            final(base_dict).wf(),
            final(base_dict).path() == old(base_dict).path(),
            !(forall|i: int| 0 <= i < other_dict.entries().len() ==> term_valid(#[trigger] other_dict.entries()[i]))
                ==> r == Err::<DictionaryMergeReport, StoreError>(StoreError::ValidationFailure) && final(base_dict)@ == old(base_dict)@,
            (forall|i: int| 0 <= i < other_dict.entries().len() ==> term_valid(#[trigger] other_dict.entries()[i])) ==> r is Ok
                && merge_outcome(old(base_dict)@, other_dict.entries(), now, final(base_dict)@, r->Ok_0),
    {
        let others = other_dict.get_all_terms_map();
        if !all_valid(&others) {
            proof {
                let k = choose|k: int| 0 <= k < others@.len() && !term_valid(#[trigger] others@[k]@);
                assert(other_dict.entries()[k] == others@[k]@);
            }
            return Err(StoreError::ValidationFailure);
        }
        proof {
            crate::dictionary::lemma_entries_sorted(other_dict);
        }
        let ghost b = base_dict@;
        let ghost s = views(others@);
        let ghost f = |t: TermView| (b[t.hebrew], t);
        let mut added: Vec<TechnicalTerm> = Vec::new();
        let mut updated: Vec<TechnicalTerm> = Vec::new();
        let mut conflicting: Vec<(TechnicalTerm, TechnicalTerm)> = Vec::new();
        let mut i: usize = 0;
        while i < others.len()
            invariant
                s == views(others@),
                strictly_sorted(s),
                forall|k: int| 0 <= k < s.len() ==> term_valid(#[trigger] s[k]),
                i <= others@.len(),
                base_dict.wf(),
                base_dict.path() == old(base_dict).path(),
                b == old(base_dict)@,
                f == (|t: TermView| (b[t.hebrew], t)),
                base_dict@ == merged_into(b, s.subrange(0, i as int), now),
                views(added@) == s.subrange(0, i as int).filter(is_new_in(b)),
                views(updated@) == s.subrange(0, i as int).filter(is_newer_than(b)),
                pair_views(conflicting@) == s.subrange(0, i as int).filter(is_tied_with(b)).map_values(f),
            decreases others.len() - i,
        {
            let t = &others[i];
            let ghost h = t.hebrew@;
            let ghost cur = base_dict@;
            proof {
                assert(s[i as int] == t@);
                assert forall|j: int| 0 <= j < i implies #[trigger] s.subrange(0, i as int)[j].hebrew != h by {
                    lemma_sorted_distinct(s, j, i as int);
                }
                lemma_merged_frame(b, s.subrange(0, i as int), h, now);
                assert(cur.dom().contains(h) == b.dom().contains(h));
                assert(s.subrange(0, i + 1) =~= s.subrange(0, i as int).push(t@));
                assert(s.subrange(0, i + 1).drop_last() =~= s.subrange(0, i as int));
                s.subrange(0, i as int).lemma_filter_push(t@, is_new_in(b));
                s.subrange(0, i as int).lemma_filter_push(t@, is_newer_than(b));
                s.subrange(0, i as int).lemma_filter_push(t@, is_tied_with(b));
            }
            match base_dict.get_term(t.hebrew.as_str()) {
                Some(bt) => {
                    if bt.last_updated < t.last_updated {
                        let ghost before = updated@;
                        updated.push(t.copy());
                        assert(views(updated@) =~= views(before).push(t@));
                        let res = base_dict.update_term_at(t.hebrew.as_str(), t.copy(), now);
                        proof {
                            assert(cur.remove(h).insert(h, stamped(t@, now as int)) =~= cur.insert(h, stamped(t@, now as int)));
                        }
                    } else if bt.last_updated == t.last_updated {
                        let ghost before = conflicting@;
                        conflicting.push((bt.copy(), t.copy()));
                        proof {
                            assert(pair_views(conflicting@) =~= pair_views(before).push((b[h], t@)));
                            let fl = s.subrange(0, i as int).filter(is_tied_with(b));
                            assert(fl.push(t@).map_values(f) =~= fl.map_values(f).push(f(t@)));
                        }
                    }
                },
                None => {
                    let ghost before = added@;
                    added.push(t.copy());
                    assert(views(added@) =~= views(before).push(t@));
                    let res = base_dict.add_term_at(t.copy(), now);
                },
            }
            assert(base_dict@ == merge_step(cur, t@, now));
            i = i + 1;
        }
        assert(s.subrange(0, others@.len() as int) =~= s);
        Ok(DictionaryMergeReport {
            added_terms: added,
            updated_terms: updated,
            removed_terms: Vec::new(),
            conflicting_terms: conflicting,
            timestamp: now,
        })
    }

    /// Merges one dictionary into another, now.
    pub fn merge_dictionaries(
        &self,
        base_dict: &mut TechnicalDictionary,
        other_dict: &TechnicalDictionary,
    ) -> (r: Result<DictionaryMergeReport, StoreError>)
        requires
            old(base_dict).wf(),
            other_dict.wf(),
        ensures
            final(base_dict).wf(),
            !(forall|i: int| 0 <= i < other_dict.entries().len() ==> term_valid(#[trigger] other_dict.entries()[i]))
                ==> r == Err::<DictionaryMergeReport, StoreError>(StoreError::ValidationFailure) && final(base_dict)@ == old(base_dict)@,
            (forall|i: int| 0 <= i < other_dict.entries().len() ==> term_valid(#[trigger] other_dict.entries()[i])) ==> r is Ok
                && exists|now: i64| #[trigger] merge_outcome(old(base_dict)@, other_dict.entries(), now, final(base_dict)@, r->Ok_0),
    {
        let now = now_millis();
        let r = self.merge_dictionaries_at(base_dict, other_dict, now);
        proof {
            if r is Ok {
                assert(merge_outcome(old(base_dict)@, other_dict.entries(), now, base_dict@, r->Ok_0));
            }
        }
        r
    }
}

/// Merging terms none of which has Hebrew text `k` leaves the base's entry for `k` as it was.
proof fn lemma_merged_frame(b: Map<Seq<char>, TermView>, s: Seq<TermView>, k: Seq<char>, now: i64)
    requires
        forall|j: int| 0 <= j < s.len() ==> #[trigger] s[j].hebrew != k,
    ensures
        merged_into(b, s, now).dom().contains(k) == b.dom().contains(k),
        b.dom().contains(k) ==> merged_into(b, s, now)[k] == b[k],
    decreases s.len(),
{
    if s.len() > 0 {
        let t = s.drop_last();
        assert forall|j: int| 0 <= j < t.len() implies #[trigger] t[j].hebrew != k by {
            assert(t[j] == s[j]);
        }
        lemma_merged_frame(b, t, k, now);
        assert(s.last().hebrew != k) by {
            assert(s[s.len() - 1].hebrew != k);
        }
    }
}

/// In a sorted list an earlier term's Hebrew text differs from a later one's.
proof fn lemma_sorted_distinct(s: Seq<TermView>, j: int, i: int)
    requires
        strictly_sorted(s),
        0 <= j < i < s.len(),
    ensures
        s[j].hebrew != s[i].hebrew,
{
    assert(crate::text::seq_lt(s[j].hebrew, s[i].hebrew));
    crate::text::lemma_lt_irreflexive(s[i].hebrew);
}

} // verus!
