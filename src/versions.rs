//! Immutable snapshots of the term set and their pairwise comparison.

use vstd::prelude::*;
use crate::dictionary::{find_term, strictly_sorted, term_map, views, TechnicalTerm, TermView};

verus! {

/// A named, immutable snapshot of every term and every tag.
pub struct DictionaryVersion {
    pub version_id: String,
    /// Milliseconds since the Unix epoch.
    pub created_at: i64,
    pub created_by: String,
    pub description: String,
    /// The terms in Hebrew order.
    pub terms: Vec<TechnicalTerm>,
    pub tags: Vec<String>,
}

/// The outcome of comparing or merging two sets of terms.
pub struct DictionaryMergeReport {
    /// Terms of the second set whose Hebrew text the first lacks.
    pub added_terms: Vec<TechnicalTerm>,
    /// Terms of the second set present in the first with other content.
    pub updated_terms: Vec<TechnicalTerm>,
    /// Terms of the first set whose Hebrew text the second lacks.
    pub removed_terms: Vec<TechnicalTerm>,
    /// (first, second) for terms present in both with the same modification
    /// time but other content.
    pub conflicting_terms: Vec<(TechnicalTerm, TechnicalTerm)>,
    /// Milliseconds since the Unix epoch.
    pub timestamp: i64,
}

pub open spec fn pair_views(v: Seq<(TechnicalTerm, TechnicalTerm)>) -> Seq<(TermView, TermView)> {
    v.map_values(|p: (TechnicalTerm, TechnicalTerm)| (p.0@, p.1@))
}

/// Terms of `b` whose Hebrew text `a` lacks.
pub open spec fn added_in(a: Seq<TermView>, b: Seq<TermView>) -> Seq<TermView> {
    b.filter(|t: TermView| !term_map(a).dom().contains(t.hebrew))
}

/// Terms of `a` whose Hebrew text `b` lacks.
pub open spec fn removed_in(a: Seq<TermView>, b: Seq<TermView>) -> Seq<TermView> {
    a.filter(|t: TermView| !term_map(b).dom().contains(t.hebrew))
}

/// Terms of `b` that `a` holds with other content.
pub open spec fn updated_in(a: Seq<TermView>, b: Seq<TermView>) -> Seq<TermView> {
    b.filter(|t: TermView| term_map(a).dom().contains(t.hebrew) && term_map(a)[t.hebrew] != t)
}

pub open spec fn conflicts_pred(b: Seq<TermView>) -> spec_fn(TermView) -> bool {
    |t: TermView|
        term_map(b).dom().contains(t.hebrew) && term_map(b)[t.hebrew].last_updated == t.last_updated
            && term_map(b)[t.hebrew] != t
}

/// Pairs (term of `a`, term of `b`) with the same Hebrew text and modification
/// time but other content, in the order of `a`.
pub open spec fn conflicts_in(a: Seq<TermView>, b: Seq<TermView>) -> Seq<(TermView, TermView)> {
    a.filter(conflicts_pred(b)).map_values(|t: TermView| (t, term_map(b)[t.hebrew]))
}

/// What one direction of a comparison adds, the other direction removes.
pub proof fn lemma_compare_antisymmetric(a: Seq<TermView>, b: Seq<TermView>)
    ensures
        added_in(a, b) == removed_in(b, a),
        removed_in(a, b) == added_in(b, a),
{
}

/// Compares two sorted lists of terms, `a` the earlier and `b` the later.
pub fn compare_terms(a: &Vec<TechnicalTerm>, b: &Vec<TechnicalTerm>, now: i64) -> (r: DictionaryMergeReport)
    requires
        strictly_sorted(views(a@)),
        strictly_sorted(views(b@)),
    ensures
        views(r.added_terms@) == added_in(views(a@), views(b@)),
        views(r.removed_terms@) == removed_in(views(a@), views(b@)),
        views(r.updated_terms@) == updated_in(views(a@), views(b@)),
        pair_views(r.conflicting_terms@) == conflicts_in(views(a@), views(b@)),
        r.timestamp == now,
{
    let ghost va = views(a@);
    let ghost vb = views(b@);
    let ghost p_added = |t: TermView| !term_map(va).dom().contains(t.hebrew);
    let ghost p_updated = |t: TermView| term_map(va).dom().contains(t.hebrew) && term_map(va)[t.hebrew] != t;
    let mut added: Vec<TechnicalTerm> = Vec::new();
    let mut updated: Vec<TechnicalTerm> = Vec::new();
    let mut i: usize = 0;
    while i < b.len()
        invariant
            va == views(a@),
            vb == views(b@),
            strictly_sorted(va),
            i <= b@.len(),
            p_added == (|t: TermView| !term_map(va).dom().contains(t.hebrew)),
            p_updated == (|t: TermView| term_map(va).dom().contains(t.hebrew) && term_map(va)[t.hebrew] != t),
            views(added@) == vb.subrange(0, i as int).filter(p_added),
            views(updated@) == vb.subrange(0, i as int).filter(p_updated),
        decreases b.len() - i,
    {
        let t = &b[i];
        proof {
            assert(vb.subrange(0, i + 1) =~= vb.subrange(0, i as int).push(vb[i as int]));
            vb.subrange(0, i as int).lemma_filter_push(vb[i as int], p_added);
            vb.subrange(0, i as int).lemma_filter_push(vb[i as int], p_updated);
            assert(vb[i as int] == t@);
        }
        match find_term(a, &t.hebrew) {
            Some(j) => {
                if !a[j].same_content(t) {
                    let ghost before = updated@;
                    updated.push(t.copy());
                    assert(views(updated@) =~= views(before).push(t@));
                }
            },
            None => {
                let ghost before = added@;
                added.push(t.copy());
                assert(views(added@) =~= views(before).push(t@));
            },
        }
        i = i + 1;
    }
    assert(vb.subrange(0, b@.len() as int) =~= vb);
    let ghost p_removed = |t: TermView| !term_map(vb).dom().contains(t.hebrew);
    let ghost p_conf = conflicts_pred(vb);
    let ghost f = |t: TermView| (t, term_map(vb)[t.hebrew]);
    let mut removed: Vec<TechnicalTerm> = Vec::new();
    let mut conflicting: Vec<(TechnicalTerm, TechnicalTerm)> = Vec::new();
    let mut k: usize = 0;
    while k < a.len()
        invariant
            va == views(a@),
            vb == views(b@),
            strictly_sorted(vb),
            k <= a@.len(),
            p_removed == (|t: TermView| !term_map(vb).dom().contains(t.hebrew)),
            p_conf == conflicts_pred(vb),
            f == (|t: TermView| (t, term_map(vb)[t.hebrew])),
            views(removed@) == va.subrange(0, k as int).filter(p_removed),
            pair_views(conflicting@) == va.subrange(0, k as int).filter(p_conf).map_values(f),
        decreases a.len() - k,
    {
        let t = &a[k];
        proof {
            assert(va.subrange(0, k + 1) =~= va.subrange(0, k as int).push(va[k as int]));
            va.subrange(0, k as int).lemma_filter_push(va[k as int], p_removed);
            va.subrange(0, k as int).lemma_filter_push(va[k as int], p_conf);
            assert(va[k as int] == t@);
        }
        match find_term(b, &t.hebrew) {
            Some(j) => {
                if b[j].last_updated == t.last_updated && !b[j].same_content(t) {
                    let ghost before = conflicting@;
                    conflicting.push((t.copy(), b[j].copy()));
                    proof {
                        assert(pair_views(conflicting@) =~= pair_views(before).push((t@, b@[j as int]@)));
                        let fl = va.subrange(0, k as int).filter(p_conf);
                        assert(fl.push(t@).map_values(f) =~= fl.map_values(f).push(f(t@)));
                    }
                }
            },
            None => {
                let ghost before = removed@;
                removed.push(t.copy());
                assert(views(removed@) =~= views(before).push(t@));
            },
        }
        k = k + 1;
    }
    assert(va.subrange(0, a@.len() as int) =~= va);
    DictionaryMergeReport {
        added_terms: added,
        updated_terms: updated,
        removed_terms: removed,
        conflicting_terms: conflicting,
        timestamp: now,
    }
}

} // verus!
