//! The records of collaboration: field-level changes, collaborators and their
//! activity, edit locks, review requests and conflict resolutions.

use vstd::prelude::*;
use crate::strings::copy_opt;

verus! {

/// How long an edit lock lasts: thirty minutes, in milliseconds.
pub const LOCK_TTL_MS: i64 = 1_800_000;

/// How recent an activity must be to count as present: fifteen minutes.
pub const ACTIVE_WINDOW_MS: i64 = 900_000;

/// How far back Editing activities count towards a conflict: thirty minutes.
pub const CONFLICT_WINDOW_MS: i64 = 1_800_000;

/// Capacity of the global activity log.
pub const ACTIVITY_LOG_CAPACITY: usize = 1000;

/// Capacity of a collaborator's own list of recent changes.
pub const EDIT_HISTORY_CAPACITY: usize = 100;

#[derive(Debug, Clone, Copy, PartialEq, Eq, Structural)]
pub enum ChangeType {
    Addition,
    Modification,
    Deletion,
}

/// One field-level change of a term.
pub struct TermChange {
    pub term_id: String,
    /// Milliseconds since the Unix epoch.
    pub timestamp: i64,
    pub changed_by: String,
    pub change_type: ChangeType,
    pub old_value: Option<String>,
    pub new_value: Option<String>,
    pub field: String,
}

/// The ordered, append-only list of changes of one term.
pub struct TermChangeHistory {
    pub term_id: String,
    pub changes: Vec<TermChange>,
}

#[derive(Debug, Clone, Copy, PartialEq, Eq, Structural)]
pub enum CollaboratorRole {
    Admin,
    Editor,
    Reviewer,
    Viewer,
}

#[derive(Debug, Clone, Copy, PartialEq, Eq, Structural)]
pub enum ActivityType {
    Editing,
    Reviewing,
    Comparing,
    Exporting,
}

#[derive(Debug, Clone, PartialEq, Eq)]
pub enum ActivityStatus {
    InProgress,
    Pending,
    Completed,
    Failed(String),
}

pub struct CollaboratorActivity {
    pub activity_type: ActivityType,
    pub term_id: Option<String>,
    /// Milliseconds since the Unix epoch.
    pub started_at: i64,
    pub status: ActivityStatus,
}

pub struct CollaboratorInfo {
    pub user_id: String,
    pub name: String,
    pub role: CollaboratorRole,
    /// Milliseconds since the Unix epoch.
    pub last_active: i64,
    pub current_activity: Option<CollaboratorActivity>,
    /// The collaborator's own recent changes, oldest first, at most
    /// `EDIT_HISTORY_CAPACITY` of them.
    pub edit_history: Vec<TermChange>,
}

/// An advisory lock on a term; it is inert once `expires_at` has passed.
pub struct EditLock {
    pub term_id: String,
    pub locked_by: String,
    /// Milliseconds since the Unix epoch.
    pub locked_at: i64,
    /// Milliseconds since the Unix epoch.
    pub expires_at: i64,
}

#[derive(Debug, Clone, Copy, PartialEq, Eq, Structural)]
pub enum ReviewStatus {
    Pending,
    InReview,
    Approved,
    Rejected,
    NeedsChanges,
}

pub struct ReviewComment {
    pub author: String,
    /// Milliseconds since the Unix epoch.
    pub timestamp: i64,
    pub content: String,
    pub field: Option<String>,
}

pub struct ReviewRequest {
    pub request_id: String,
    pub term_id: String,
    pub requested_by: String,
    /// Milliseconds since the Unix epoch.
    pub requested_at: i64,
    pub reviewers: Vec<String>,
    pub status: ReviewStatus,
    pub comments: Vec<ReviewComment>,
}

#[derive(Debug, Clone, Copy, PartialEq, Eq, Structural)]
pub enum ResolutionType {
    KeepBase,
    AcceptChanges,
    Merge,
    Custom,
}

/// How a conflict on a term was settled; a log entry only.
pub struct ConflictResolution {
    pub term_id: String,
    pub resolved_by: String,
    /// Milliseconds since the Unix epoch.
    pub timestamp: i64,
    pub resolution_type: ResolutionType,
    pub comments: String,
}

/// Appends `x` to a buffer kept oldest first, dropping the oldest entry when
/// the capacity would be exceeded.
pub open spec fn push_bounded<A>(s: Seq<A>, x: A, cap: nat) -> Seq<A> {
    if s.len() + 1 > cap {
        s.push(x).drop_first()
    } else {
        s.push(x)
    }
}

/// Puts `x` in front of a buffer kept newest first, dropping the oldest entry
/// when the capacity would be exceeded.
pub open spec fn push_front_bounded<A>(s: Seq<A>, x: A, cap: nat) -> Seq<A> {
    if s.len() + 1 > cap {
        (seq![x] + s).drop_last()
    } else {
        seq![x] + s
    }
}

/// Whether a review still awaits a decision.
pub open spec fn is_open_status(s: ReviewStatus) -> bool {
    s == ReviewStatus::Pending || s == ReviewStatus::InReview
}

/// The expiry of a lock taken at `now`, saturating at the largest time.
pub open spec fn lock_expiry(now: i64) -> i64 {
    if now <= i64::MAX - LOCK_TTL_MS {
        (now + LOCK_TTL_MS) as i64
    } else {
        i64::MAX
    }
}

impl TermChange {
    pub fn copy(&self) -> (r: TermChange)
        ensures
            r == *self,
    {
        TermChange {
            term_id: self.term_id.clone(),
            timestamp: self.timestamp,
            changed_by: self.changed_by.clone(),
            change_type: self.change_type,
            old_value: copy_opt(&self.old_value),
            new_value: copy_opt(&self.new_value),
            field: self.field.clone(),
        }
    }
}

impl ActivityStatus {
    pub fn copy(&self) -> (r: ActivityStatus)
        ensures
            r == *self,
    {
        match self {
            ActivityStatus::InProgress => ActivityStatus::InProgress,
            ActivityStatus::Pending => ActivityStatus::Pending,
            ActivityStatus::Completed => ActivityStatus::Completed,
            ActivityStatus::Failed(reason) => ActivityStatus::Failed(reason.clone()),
        }
    }
}

impl CollaboratorActivity {
    pub fn copy(&self) -> (r: CollaboratorActivity)
        ensures
            r == *self,
    {
        CollaboratorActivity {
            activity_type: self.activity_type,
            term_id: copy_opt(&self.term_id),
            started_at: self.started_at,
            status: self.status.copy(),
        }
    }
}

impl EditLock {
    /// Whether the lock still holds at `now`.
    pub fn is_active(&self, now: i64) -> (r: bool)
        ensures
            r == (now < self.expires_at),
    {
        now < self.expires_at
    }
}

/// Appends to a buffer kept oldest first, within a capacity.
pub fn push_bounded_exec<A>(v: &mut Vec<A>, x: A, cap: usize)
    requires
        cap > 0,
        old(v)@.len() <= cap,
    ensures
        final(v)@ == push_bounded(old(v)@, x, cap as nat),
        final(v)@.len() <= cap,
{
    v.push(x);
    if v.len() > cap {
        v.remove(0);
        assert(v@ =~= old(v)@.push(x).drop_first());
    }
}

/// Puts in front of a buffer kept newest first, within a capacity.
pub fn push_front_bounded_exec<A>(v: &mut Vec<A>, x: A, cap: usize)
    requires
        cap > 0,
        old(v)@.len() <= cap,
    ensures
        final(v)@ == push_front_bounded(old(v)@, x, cap as nat),
        final(v)@.len() <= cap,
{
    v.insert(0, x);
    assert(v@ =~= seq![x] + old(v)@);
    if v.len() > cap {
        v.pop();
        assert(v@ =~= (seq![x] + old(v)@).drop_last());
    }
}

/// The expiry of a lock taken at `now`.
pub fn lock_expiry_exec(now: i64) -> (r: i64)
    ensures
        r == lock_expiry(now),
{
    if now <= i64::MAX - LOCK_TTL_MS {
        now + LOCK_TTL_MS
    } else {
        i64::MAX
    }
}

} // verus!
