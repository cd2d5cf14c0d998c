//! Learning events and user feedback, and the count of issues that feedback
//! comments mention.

use vstd::prelude::*;
use crate::knowledge::key_pos;
use crate::text::{contains_seq, str_contains};

verus! {

#[derive(Debug, Clone, Copy, PartialEq, Eq, Structural)]
pub enum LearningEventType {
    Translation,
    Correction,
    Feedback,
    ValidationFailure,
    Success,
}

#[derive(Debug, Clone, Copy, PartialEq, Eq, Structural)]
pub enum CorrectionType {
    Grammar,
    Style,
    Terminology,
    Cultural,
    Other,
}

#[derive(Debug, Clone)]
pub struct Correction {
    pub original_text: String,
    pub corrected_text: String,
    pub correction_type: CorrectionType,
    pub explanation: Option<String>,
}

#[derive(Debug, Clone)]
pub struct UserFeedback {
    pub rating: u8,
    pub comments: Option<String>,
    pub corrections: Option<Vec<Correction>>,
}

/// What `str::to_lowercase` makes of a text.
pub uninterp spec fn lower_of(s: Seq<char>) -> Seq<char>;

/// Relies on `str::to_lowercase`: the result depends on the characters alone.
#[verifier::external_body]
fn lowercase(s: &str) -> (r: String)
    ensures
        r@ == lower_of(s@),
{
    s.to_lowercase()
}

/// The issue keywords, in the order they are looked for.
pub open spec fn issue_keywords() -> Seq<Seq<char>> {
    seq!["grammar"@, "style"@, "terminology"@, "cultural"@]
}

pub open spec fn issues_view(v: Seq<(String, usize)>) -> Seq<(Seq<char>, int)> {
    v.map_values(|p: (String, usize)| (p.0@, p.1 as int))
}

pub open spec fn issue_names(v: Seq<(Seq<char>, int)>) -> Seq<Seq<char>> {
    v.map_values(|p: (Seq<char>, int)| p.0)
}

/// One more mention of `kw`: its count goes up, or it enters with count 1.
pub open spec fn bumped(v: Seq<(Seq<char>, int)>, kw: Seq<char>) -> Seq<(Seq<char>, int)> {
    if issue_names(v).contains(kw) {
        let p = key_pos(issue_names(v), kw);
        v.update(p, (kw, v[p].1 + 1))
    } else {
        v.push((kw, 1))
    }
}

/// The counts after looking for the keywords from index `k` on in `text`.
pub open spec fn counted_from(v: Seq<(Seq<char>, int)>, text: Seq<char>, k: int) -> Seq<(Seq<char>, int)>
    decreases 4 - k,
{
    if k < 0 || k >= 4 {
        v
    } else {
        let w = if contains_seq(text, issue_keywords()[k]) {
            bumped(v, issue_keywords()[k])
        } else {
            v
        };
        counted_from(w, text, k + 1)
    }
}

/// Tallies of feedback and of the issues that comments mention.
pub struct FeedbackAnalyzer {
    pub total_feedback: usize,
    pub positive_feedback: usize,
    pub negative_feedback: usize,
    /// (issue, number of comments mentioning it), one entry per issue.
    pub common_issues: Vec<(String, usize)>,
}

impl FeedbackAnalyzer {
    pub fn new() -> (r: FeedbackAnalyzer)
        ensures
            r.total_feedback == 0,
            r.positive_feedback == 0,
            r.negative_feedback == 0,
            r.common_issues@.len() == 0,
    {
        FeedbackAnalyzer { total_feedback: 0, positive_feedback: 0, negative_feedback: 0, common_issues: Vec::new() }
    }

    fn note(&mut self, text: &str, kw: &str, k: Ghost<int>, bound: Ghost<int>)
        requires
            0 <= k@ < 4,
            kw@ == issue_keywords()[k@],
            issue_names(issues_view(old(self).common_issues@)).no_duplicates(),
            0 <= bound@ < usize::MAX,
            forall|i: int| 0 <= i < old(self).common_issues@.len() ==> (#[trigger] old(self).common_issues@[i]).1 <= bound@,
        ensures
            issue_names(issues_view(final(self).common_issues@)).no_duplicates(),
            forall|i: int| 0 <= i < final(self).common_issues@.len() ==> (#[trigger] final(self).common_issues@[i]).1 <= bound@ + 1,
            issues_view(final(self).common_issues@) == (if contains_seq(text@, kw@) {
                bumped(issues_view(old(self).common_issues@), kw@)
            } else {
                issues_view(old(self).common_issues@)
            }),
            final(self).total_feedback == old(self).total_feedback,
            final(self).positive_feedback == old(self).positive_feedback,
            final(self).negative_feedback == old(self).negative_feedback,
    {
        if !str_contains(text, kw) {
            return;
        }
        let ghost v = issues_view(self.common_issues@);
        let key = String::from_str(kw);
        let mut i: usize = 0;
        while i < self.common_issues.len()
            invariant
                i <= self.common_issues@.len(),
                *self == *old(self),
                0 <= bound@ < usize::MAX,
                forall|j: int| 0 <= j < old(self).common_issues@.len() ==> (#[trigger] old(self).common_issues@[j]).1 <= bound@,
                issue_names(issues_view(old(self).common_issues@)).no_duplicates(),
                v == issues_view(self.common_issues@),
                key@ == kw@,
                contains_seq(text@, kw@),
                forall|j: int| 0 <= j < i ==> (#[trigger] self.common_issues@[j]).0@ != kw@,
            decreases self.common_issues.len() - i,
        {
            if self.common_issues[i].0 == key {
                let (name, count) = self.common_issues.remove(i);
                self.common_issues.insert(i, (name, count + 1));
                proof {
                    let n = self.common_issues@;
                    assert(issue_names(v)[i as int] == kw@);
                    crate::knowledge::lemma_key_pos(issue_names(v), i as int);
                    assert(issues_view(n) =~= v.update(i as int, (kw@, v[i as int].1 + 1)));
                    assert(issue_names(issues_view(n)) =~= issue_names(v));
                    assert(issue_names(v).contains(kw@));
                    assert(issues_view(n) == bumped(v, kw@));
                }
                return;
            }
            i = i + 1;
        }
        proof {
            if issue_names(v).contains(kw@) {
                let j = choose|j: int| 0 <= j < issue_names(v).len() && issue_names(v)[j] == kw@;
                assert(self.common_issues@[j].0@ == kw@);
            }
        }
        self.common_issues.push((key, 1));
        proof {
            assert(issues_view(self.common_issues@) =~= v.push((kw@, 1)));
            assert(issue_names(issues_view(self.common_issues@)) =~= issue_names(v).push(kw@));
        }
    }

    /// Counts, for each issue keyword that the already lowercased comment
    /// contains, one more mention of that issue.
    pub fn analyze_lowercased(&mut self, lowered: &str)
        requires
            issue_names(issues_view(old(self).common_issues@)).no_duplicates(),
            forall|i: int| 0 <= i < old(self).common_issues@.len() ==> (#[trigger] old(self).common_issues@[i]).1 <= usize::MAX - 4,
        ensures
            issue_names(issues_view(final(self).common_issues@)).no_duplicates(),
            issues_view(final(self).common_issues@) == counted_from(issues_view(old(self).common_issues@), lowered@, 0),
            final(self).total_feedback == old(self).total_feedback,
            final(self).positive_feedback == old(self).positive_feedback,
            final(self).negative_feedback == old(self).negative_feedback,
    {
        let ghost v0 = issues_view(self.common_issues@);
        self.note(lowered, "grammar", Ghost(0), Ghost((usize::MAX - 4) as int));
        let ghost v1 = issues_view(self.common_issues@);
        self.note(lowered, "style", Ghost(1), Ghost((usize::MAX - 3) as int));
        let ghost v2 = issues_view(self.common_issues@);
        self.note(lowered, "terminology", Ghost(2), Ghost((usize::MAX - 2) as int));
        let ghost v3 = issues_view(self.common_issues@);
        self.note(lowered, "cultural", Ghost(3), Ghost((usize::MAX - 1) as int));
        proof {
            let t = lowered@;
            assert(counted_from(v3, t, 3) == issues_view(self.common_issues@)) by {
                assert(counted_from(issues_view(self.common_issues@), t, 4) == issues_view(self.common_issues@));
            }
            assert(counted_from(v2, t, 2) == counted_from(v3, t, 3));
            assert(counted_from(v1, t, 1) == counted_from(v2, t, 2));
            assert(counted_from(v0, t, 0) == counted_from(v1, t, 1));
        }
    }

    /// Counts the issues that a feedback comment mentions, case-insensitively.
    pub fn analyze_comments(&mut self, comments: &str)
        requires
            issue_names(issues_view(old(self).common_issues@)).no_duplicates(),
            forall|i: int| 0 <= i < old(self).common_issues@.len() ==> (#[trigger] old(self).common_issues@[i]).1 <= usize::MAX - 4,
        ensures
            issue_names(issues_view(final(self).common_issues@)).no_duplicates(),
            issues_view(final(self).common_issues@) == counted_from(issues_view(old(self).common_issues@), lower_of(comments@), 0),
    {
        let lowered = lowercase(comments);
        self.analyze_lowercased(lowered.as_str());
    }
}

} // verus!
