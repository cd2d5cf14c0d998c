//! The term index: the authoritative map from Hebrew text to term, three
//! derived indices (by category, by context, by tag) kept exactly in step with
//! it, multi-field search, and the substitution pass used by translation.

use vstd::prelude::*;
use crate::clock::now_millis;
use crate::error::StoreError;
use crate::strings::{copy_opt, copy_strings, is_code, list_contains, lists_eq, opt_eq, opt_seq, same_members, seqs_of};
use crate::text::{contains_seq, occurs_at, replace_all, replace_all_exec, lemma_lt_irreflexive, lemma_lt_total, lemma_lt_transitive, seq_lt, str_contains, str_lt};

verus! {

/// One glossary entry. `hebrew` is its identity within a dictionary.
pub struct TechnicalTerm {
    pub hebrew: String,
    pub russian: String,
    pub context: Option<String>,
    pub category: Option<String>,
    pub notes: Option<String>,
    pub synonyms_he: Vec<String>,
    pub synonyms_ru: Vec<String>,
    pub usage_examples: Vec<String>,
    /// A set: order and repetition carry no meaning.
    pub tags: Vec<String>,
    /// Milliseconds since the Unix epoch.
    pub last_updated: i64,
}

/// The mathematical content of a term.
pub struct TermView {
    pub hebrew: Seq<char>,
    pub russian: Seq<char>,
    pub context: Option<Seq<char>>,
    pub category: Option<Seq<char>>,
    pub notes: Option<Seq<char>>,
    pub synonyms_he: Seq<Seq<char>>,
    pub synonyms_ru: Seq<Seq<char>>,
    pub usage_examples: Seq<Seq<char>>,
    pub tags: Set<Seq<char>>,
    pub last_updated: int,
}

impl View for TechnicalTerm {
    type V = TermView;

    open spec fn view(&self) -> TermView {
        TermView {
            hebrew: self.hebrew@,
            russian: self.russian@,
            context: opt_seq(self.context),
            category: opt_seq(self.category),
            notes: opt_seq(self.notes),
            synonyms_he: seqs_of(self.synonyms_he@),
            synonyms_ru: seqs_of(self.synonyms_ru@),
            usage_examples: seqs_of(self.usage_examples@),
            tags: seqs_of(self.tags@).to_set(),
            last_updated: self.last_updated as int,
        }
    }
}

/// The same term with another modification time.
pub open spec fn stamped(t: TermView, now: int) -> TermView {
    TermView { last_updated: now, ..t }
}

/// A term may enter the dictionary only with both texts present.
pub open spec fn term_valid(t: TermView) -> bool {
    t.hebrew.len() > 0 && t.russian.len() > 0
}

impl TechnicalTerm {
    /// A term with the two texts and every other field empty.
    pub fn new(hebrew: String, russian: String) -> (r: TechnicalTerm)
        ensures
            r.hebrew == hebrew,
            r.russian == russian,
            r.context is None,
            r.category is None,
            r.notes is None,
            r.synonyms_he@.len() == 0,
            r.synonyms_ru@.len() == 0,
            r.usage_examples@.len() == 0,
            r.tags@.len() == 0,
            r.last_updated == 0,
    {
        TechnicalTerm {
            hebrew,
            russian,
            context: None,
            category: None,
            notes: None,
            synonyms_he: Vec::new(),
            synonyms_ru: Vec::new(),
            usage_examples: Vec::new(),
            tags: Vec::new(),
            last_updated: 0,
        }
    }

    /// A field-for-field copy.
    pub fn copy(&self) -> (r: TechnicalTerm)
        ensures
            r.hebrew@ == self.hebrew@,
            r.russian@ == self.russian@,
            r.context == self.context,
            r.category == self.category,
            r.notes == self.notes,
            r.synonyms_he@ == self.synonyms_he@,
            r.synonyms_ru@ == self.synonyms_ru@,
            r.usage_examples@ == self.usage_examples@,
            r.tags@ == self.tags@,
            r.last_updated == self.last_updated,
            r@ == self@,
    {
        TechnicalTerm {
            hebrew: self.hebrew.clone(),
            russian: self.russian.clone(),
            context: copy_opt(&self.context),
            category: copy_opt(&self.category),
            notes: copy_opt(&self.notes),
            synonyms_he: copy_strings(&self.synonyms_he),
            synonyms_ru: copy_strings(&self.synonyms_ru),
            usage_examples: copy_strings(&self.usage_examples),
            tags: copy_strings(&self.tags),
            last_updated: self.last_updated,
        }
    }

    /// Equality of content: every field, with the tags compared as sets.
    pub fn same_content(&self, other: &TechnicalTerm) -> (r: bool)
        ensures
            r == (self@ == other@),
    {
        let r = self.hebrew == other.hebrew && self.russian == other.russian && opt_eq(
            &self.context,
            &other.context,
        ) && opt_eq(&self.category, &other.category) && opt_eq(&self.notes, &other.notes)
            && lists_eq(&self.synonyms_he, &other.synonyms_he) && lists_eq(
            &self.synonyms_ru,
            &other.synonyms_ru,
        ) && lists_eq(&self.usage_examples, &other.usage_examples) && same_members(
            &self.tags,
            &other.tags,
        ) && self.last_updated == other.last_updated;
        r
    }

    /// Whether both required texts are present.
    pub fn is_valid(&self) -> (r: bool)
        ensures
            r == term_valid(self@),
    {
        self.hebrew.as_str().unicode_len() > 0 && self.russian.as_str().unicode_len() > 0
    }
}


/// Terms in strictly increasing order of their Hebrew text (so no two share it).
pub open spec fn strictly_sorted(s: Seq<TermView>) -> bool {
    forall|i: int, j: int| 0 <= i < j < s.len() ==> seq_lt(#[trigger] s[i].hebrew, #[trigger] s[j].hebrew)
}

/// The map from Hebrew text to term that a list of terms holds.
pub open spec fn term_map(s: Seq<TermView>) -> Map<Seq<char>, TermView> {
    Map::new(
        |h: Seq<char>| exists|j: int| 0 <= j < s.len() && #[trigger] s[j].hebrew == h,
        |h: Seq<char>| s[choose|j: int| 0 <= j < s.len() && #[trigger] s[j].hebrew == h],
    )
}

pub proof fn lemma_term_map_at(s: Seq<TermView>, j: int)
    requires
        strictly_sorted(s),
        0 <= j < s.len(),
    ensures
        term_map(s).dom().contains(s[j].hebrew),
        term_map(s)[s[j].hebrew] == s[j],
{
    let h = s[j].hebrew;
    assert(term_map(s).dom().contains(h));
    let k = choose|k: int| 0 <= k < s.len() && #[trigger] s[k].hebrew == h;
    if k != j {
        lemma_lt_irreflexive(h);
        if k < j {
            assert(seq_lt(s[k].hebrew, s[j].hebrew));
        } else {
            assert(seq_lt(s[j].hebrew, s[k].hebrew));
        }
    }
}

/// A sorted list holds exactly the map `m` when each of its terms is in `m`
/// under its Hebrew text and each key of `m` is the Hebrew text of one of them.
pub proof fn lemma_term_map_eq(s: Seq<TermView>, m: Map<Seq<char>, TermView>)
    requires
        strictly_sorted(s),
        forall|j: int| 0 <= j < s.len() ==> m.dom().contains(#[trigger] s[j].hebrew) && m[s[j].hebrew] == s[j],
        forall|k: Seq<char>| m.dom().contains(k) ==> exists|j: int| 0 <= j < s.len() && #[trigger] s[j].hebrew == k,
    ensures
        term_map(s) == m,
{
    assert forall|k: Seq<char>| #[trigger] term_map(s).dom().contains(k) <==> m.dom().contains(k) by {
        if term_map(s).dom().contains(k) {
            let j = choose|j: int| 0 <= j < s.len() && #[trigger] s[j].hebrew == k;
            assert(m.dom().contains(s[j].hebrew));
        }
    }
    assert forall|k: Seq<char>| #[trigger] term_map(s).dom().contains(k) implies term_map(s)[k] == m[k] by {
        let j = choose|j: int| 0 <= j < s.len() && #[trigger] s[j].hebrew == k;
        lemma_term_map_at(s, j);
    }
    assert(term_map(s) =~= m);
}

/// The map that loading the list of terms one after another produces: a later
/// term replaces an earlier one with the same Hebrew text.
pub open spec fn loaded_map(s: Seq<TermView>) -> Map<Seq<char>, TermView>
    decreases s.len(),
{
    if s.len() == 0 {
        Map::empty()
    } else {
        loaded_map(s.drop_last()).insert(s.last().hebrew, s.last())
    }
}

pub proof fn lemma_loaded_sorted(s: Seq<TermView>)
    requires
        strictly_sorted(s),
    ensures
        loaded_map(s) == term_map(s),
    decreases s.len(),
{
    if s.len() == 0 {
        assert(term_map(s) =~= Map::empty());
    } else {
        let t = s.drop_last();
        assert(strictly_sorted(t));
        lemma_loaded_sorted(t);
        let m = loaded_map(s);
        assert forall|j: int| 0 <= j < s.len() implies m.dom().contains(#[trigger] s[j].hebrew) && m[s[j].hebrew] == s[j] by {
            if j < s.len() - 1 {
                assert(t[j] == s[j]);
                lemma_term_map_at(t, j);
                lemma_lt_irreflexive(s[j].hebrew);
                assert(seq_lt(s[j].hebrew, s.last().hebrew));
            }
        }
        assert forall|k: Seq<char>| m.dom().contains(k) implies exists|j: int| 0 <= j < s.len() && #[trigger] s[j].hebrew == k by {
            if k != s.last().hebrew {
                assert(term_map(t).dom().contains(k));
                let j = choose|j: int| 0 <= j < t.len() && #[trigger] t[j].hebrew == k;
                assert(s[j].hebrew == k);
            } else {
                assert(s[s.len() - 1].hebrew == k);
            }
        }
        lemma_term_map_eq(s, m);
    }
}

/// Which derived index.
#[derive(Debug, Clone, Copy, PartialEq, Eq, Structural)]
pub enum IndexKind {
    Category,
    Context,
    Tag,
}

/// The keys under which the index of this kind lists a term.
pub open spec fn index_keys(t: TermView, kind: IndexKind) -> Set<Seq<char>> {
    match kind {
        IndexKind::Category => match t.category {
            Some(c) => set![c],
            None => Set::empty(),
        },
        IndexKind::Context => match t.context {
            Some(c) => set![c],
            None => Set::empty(),
        },
        IndexKind::Tag => t.tags,
    }
}

/// The pairs (key, Hebrew text) that the index of this kind must hold for the
/// term map `m`: exactly the terms whose category / context / tags contain the key.
pub open spec fn expected_index(m: Map<Seq<char>, TermView>, kind: IndexKind) -> Set<(Seq<char>, Seq<char>)> {
    Set::new(|p: (Seq<char>, Seq<char>)| m.dom().contains(p.1) && index_keys(m[p.1], kind).contains(p.0))
}

/// The keys that occur in a set of pairs.
pub open spec fn keys_of(r: Set<(Seq<char>, Seq<char>)>) -> Set<Seq<char>> {
    Set::new(|k: Seq<char>| exists|h: Seq<char>| r.contains((k, h)))
}

/// The members of one key of an index.
pub open spec fn members_of(r: Set<(Seq<char>, Seq<char>)>, k: Seq<char>) -> Set<Seq<char>> {
    Set::new(|h: Seq<char>| r.contains((k, h)))
}

/// One key of a derived index and the Hebrew texts of the terms listed under it.
pub struct IndexEntry {
    pub key: String,
    pub members: Vec<String>,
}

pub open spec fn entries_pairs(es: Seq<IndexEntry>) -> Set<(Seq<char>, Seq<char>)> {
    Set::new(
        |p: (Seq<char>, Seq<char>)|
            exists|i: int| 0 <= i < es.len() && #[trigger] es[i].key@ == p.0 && seqs_of(es[i].members@).contains(p.1),
    )
}

pub open spec fn entries_keys(es: Seq<IndexEntry>) -> Set<Seq<char>> {
    Set::new(|k: Seq<char>| exists|i: int| 0 <= i < es.len() && #[trigger] es[i].key@ == k)
}

/// Keys are distinct and every key lists at least one term.
pub open spec fn entries_wf(es: Seq<IndexEntry>) -> bool {
    &&& forall|i: int, j: int| 0 <= i < j < es.len() ==> #[trigger] es[i].key@ != #[trigger] es[j].key@
    &&& forall|i: int| 0 <= i < es.len() ==> (#[trigger] es[i].members@).len() > 0
}

proof fn lemma_entries_keys(es: Seq<IndexEntry>)
    requires
        entries_wf(es),
    ensures
        entries_keys(es) == keys_of(entries_pairs(es)),
{
    assert forall|k: Seq<char>| entries_keys(es).contains(k) implies keys_of(entries_pairs(es)).contains(k) by {
        let i = choose|i: int| 0 <= i < es.len() && #[trigger] es[i].key@ == k;
        let h = es[i].members@[0]@;
        assert(seqs_of(es[i].members@)[0] == h);
        assert(entries_pairs(es).contains((k, h)));
    }
    assert forall|k: Seq<char>| keys_of(entries_pairs(es)).contains(k) implies entries_keys(es).contains(k) by {
        let h = choose|h: Seq<char>| entries_pairs(es).contains((k, h));
        let i = choose|i: int| 0 <= i < es.len() && #[trigger] es[i].key@ == (k, h).0 && seqs_of(es[i].members@).contains((k, h).1);
        assert(es[i].key@ == k);
    }
    assert(entries_keys(es) =~= keys_of(entries_pairs(es)));
}

/// Adds the pair (key, member) to an index.
fn index_add(es: &mut Vec<IndexEntry>, key: &String, member: &String)
    requires
        entries_wf(old(es)@),
    ensures
        entries_wf(final(es)@),
        entries_pairs(final(es)@) == entries_pairs(old(es)@).insert((key@, member@)),
        entries_keys(final(es)@) == entries_keys(old(es)@).insert(key@),
{
    let ghost old_es = es@;
    let mut i: usize = 0;
    while i < es.len()
        invariant
            i <= es.len(),
            es@ == old_es,
            old_es == old(es)@,
            entries_wf(old_es),
            forall|j: int| 0 <= j < i ==> (#[trigger] es@[j]).key@ != key@,
        decreases es.len() - i,
    {
        if es[i].key == *key {
            let mut members = copy_strings(&es[i].members);
            members.push(member.clone());
            let entry = IndexEntry { key: key.clone(), members };
            es.set(i, entry);
            proof {
                let ne = es@;
                assert(seqs_of(ne[i as int].members@) =~= seqs_of(old_es[i as int].members@).push(member@));
                assert forall|p: (Seq<char>, Seq<char>)| #[trigger] entries_pairs(ne).contains(p) <==> entries_pairs(old_es).insert((key@, member@)).contains(p) by {
                    if entries_pairs(ne).contains(p) {
                        let j = choose|j: int| 0 <= j < ne.len() && #[trigger] ne[j].key@ == p.0 && seqs_of(ne[j].members@).contains(p.1);
                        if j != i && p != (key@, member@) {
                            assert(old_es[j] == ne[j]);
                        } else if j == i && p != (key@, member@) {
                            let q = choose|q: int| 0 <= q < seqs_of(ne[j].members@).len() && seqs_of(ne[j].members@)[q] == p.1;
                            if q < old_es[i as int].members@.len() {
                                assert(seqs_of(old_es[i as int].members@)[q] == p.1);
                                assert(seqs_of(old_es[i as int].members@).contains(p.1));
                            }
                        }
                    }
                    if entries_pairs(old_es).insert((key@, member@)).contains(p) {
                        if p == (key@, member@) {
                            let last = seqs_of(ne[i as int].members@).len() - 1;
                            assert(seqs_of(ne[i as int].members@)[last] == member@);
                            assert(ne[i as int].key@ == p.0);
                        } else {
                            let j = choose|j: int| 0 <= j < old_es.len() && #[trigger] old_es[j].key@ == p.0 && seqs_of(old_es[j].members@).contains(p.1);
                            if j != i {
                                assert(old_es[j] == ne[j]);
                            } else {
                                let q = choose|q: int| 0 <= q < seqs_of(old_es[j].members@).len() && seqs_of(old_es[j].members@)[q] == p.1;
                                assert(seqs_of(ne[j].members@)[q] == p.1);
                            }
                            assert(ne[j].key@ == p.0 && seqs_of(ne[j].members@).contains(p.1));
                        }
                    }
                }
                assert(entries_pairs(ne) =~= entries_pairs(old_es).insert((key@, member@)));
                assert forall|k: Seq<char>| #[trigger] entries_keys(ne).contains(k) <==> entries_keys(old_es).insert(key@).contains(k) by {
                    if entries_keys(ne).contains(k) {
                        let j = choose|j: int| 0 <= j < ne.len() && #[trigger] ne[j].key@ == k;
                        if j != i {
                            assert(old_es[j] == ne[j]);
                        }
                    }
                    if entries_keys(old_es).contains(k) {
                        let j = choose|j: int| 0 <= j < old_es.len() && #[trigger] old_es[j].key@ == k;
                        if j != i {
                            assert(old_es[j] == ne[j]);
                        }
                        assert(ne[j].key@ == k);
                    }
                    if k == key@ {
                        assert(ne[i as int].key@ == k);
                    }
                }
                assert(entries_keys(ne) =~= entries_keys(old_es).insert(key@));
            }
            return;
        }
        i = i + 1;
    }
    let mut members: Vec<String> = Vec::new();
    members.push(member.clone());
    es.push(IndexEntry { key: key.clone(), members });
    proof {
        let ne = es@;
        let n = old_es.len() as int;
        assert(seqs_of(ne[n].members@) =~= seq![member@]);
        assert forall|p: (Seq<char>, Seq<char>)| #[trigger] entries_pairs(ne).contains(p) <==> entries_pairs(old_es).insert((key@, member@)).contains(p) by {
            if entries_pairs(ne).contains(p) {
                let j = choose|j: int| 0 <= j < ne.len() && #[trigger] ne[j].key@ == p.0 && seqs_of(ne[j].members@).contains(p.1);
                if j < n {
                    assert(old_es[j] == ne[j]);
                } else {
                    assert(seqs_of(ne[j].members@)[0] == member@);
                }
            }
            if entries_pairs(old_es).insert((key@, member@)).contains(p) {
                if p == (key@, member@) {
                    assert(seqs_of(ne[n].members@)[0] == member@);
                    assert(ne[n].key@ == p.0);
                } else {
                    let j = choose|j: int| 0 <= j < old_es.len() && #[trigger] old_es[j].key@ == p.0 && seqs_of(old_es[j].members@).contains(p.1);
                    assert(old_es[j] == ne[j]);
                }
            }
        }
        assert(entries_pairs(ne) =~= entries_pairs(old_es).insert((key@, member@)));
        assert forall|k: Seq<char>| #[trigger] entries_keys(ne).contains(k) <==> entries_keys(old_es).insert(key@).contains(k) by {
            if entries_keys(ne).contains(k) {
                let j = choose|j: int| 0 <= j < ne.len() && #[trigger] ne[j].key@ == k;
                if j < n {
                    assert(old_es[j] == ne[j]);
                }
            }
            if entries_keys(old_es).contains(k) {
                let j = choose|j: int| 0 <= j < old_es.len() && #[trigger] old_es[j].key@ == k;
                assert(old_es[j] == ne[j]);
            }
            if k == key@ {
                assert(ne[n].key@ == k);
            }
        }
        assert(entries_keys(ne) =~= entries_keys(old_es).insert(key@));
    }
}


pub open spec fn views(v: Seq<TechnicalTerm>) -> Seq<TermView> {
    v.map_values(|t: TechnicalTerm| t@)
}

/// The pairs (key, Hebrew text) contributed by the first `n` terms of `s`.
pub open spec fn prefix_pairs(s: Seq<TermView>, n: int, kind: IndexKind) -> Set<(Seq<char>, Seq<char>)> {
    Set::new(
        |p: (Seq<char>, Seq<char>)|
            exists|j: int| 0 <= j < n && #[trigger] s[j].hebrew == p.1 && index_keys(s[j], kind).contains(p.0),
    )
}

proof fn lemma_prefix_pairs_full(s: Seq<TermView>, kind: IndexKind)
    requires
        strictly_sorted(s),
    ensures
        prefix_pairs(s, s.len() as int, kind) == expected_index(term_map(s), kind),
{
    let m = term_map(s);
    assert forall|p: (Seq<char>, Seq<char>)| #[trigger] prefix_pairs(s, s.len() as int, kind).contains(p) <==> expected_index(m, kind).contains(p) by {
        if prefix_pairs(s, s.len() as int, kind).contains(p) {
            let j = choose|j: int| 0 <= j < s.len() && #[trigger] s[j].hebrew == p.1 && index_keys(s[j], kind).contains(p.0);
            lemma_term_map_at(s, j);
        }
        if expected_index(m, kind).contains(p) {
            let j = choose|j: int| 0 <= j < s.len() && #[trigger] s[j].hebrew == p.1;
            lemma_term_map_at(s, j);
        }
    }
    assert(prefix_pairs(s, s.len() as int, kind) =~= expected_index(m, kind));
}

/// The keys of one term for the index of this kind.
fn term_keys(t: &TechnicalTerm, kind: IndexKind) -> (r: Vec<String>)
    ensures
        seqs_of(r@).to_set() == index_keys(t@, kind),
{
    let mut r: Vec<String> = Vec::new();
    match kind {
        IndexKind::Category => {
            if let Some(c) = &t.category {
                r.push(c.clone());
            }
        },
        IndexKind::Context => {
            if let Some(c) = &t.context {
                r.push(c.clone());
            }
        },
        IndexKind::Tag => {
            r = copy_strings(&t.tags);
        },
    }
    proof {
        if kind != IndexKind::Tag {
            assert(seqs_of(r@).to_set() =~= index_keys(t@, kind)) by {
                if r@.len() > 0 {
                    assert(seqs_of(r@)[0] == seqs_of(r@)[0]);
                }
            }
        }
    }
    r
}

/// Builds the index of this kind over a list of terms.
fn build_index(terms: &Vec<TechnicalTerm>, kind: IndexKind) -> (r: Vec<IndexEntry>)
    ensures
        entries_wf(r@),
        entries_pairs(r@) == prefix_pairs(views(terms@), terms@.len() as int, kind),
        entries_keys(r@) == keys_of(entries_pairs(r@)),
{
    let ghost s = views(terms@);
    let mut idx: Vec<IndexEntry> = Vec::new();
    assert(entries_pairs(idx@) =~= prefix_pairs(s, 0, kind));
    let mut i: usize = 0;
    while i < terms.len()
        invariant
            s == views(terms@),
            i <= terms.len(),
            entries_wf(idx@),
            entries_pairs(idx@) == prefix_pairs(s, i as int, kind),
        decreases terms.len() - i,
    {
        let t = &terms[i];
        let ks = term_keys(t, kind);
        let ghost h = t.hebrew@;
        let mut q: usize = 0;
        while q < ks.len()
            invariant
                s == views(terms@),
                i < terms.len(),
                h == s[i as int].hebrew,
                t@ == s[i as int],
                seqs_of(ks@).to_set() == index_keys(s[i as int], kind),
                q <= ks.len(),
                entries_wf(idx@),
                entries_pairs(idx@) == prefix_pairs(s, i as int, kind).union(
                    Set::new(|p: (Seq<char>, Seq<char>)| p.1 == h && exists|k: int| 0 <= k < q && #[trigger] ks@[k]@ == p.0),
                ),
            decreases ks.len() - q,
        {
            index_add(&mut idx, &ks[q], &t.hebrew);
            proof {
                let a = Set::new(|p: (Seq<char>, Seq<char>)| p.1 == h && exists|k: int| 0 <= k < q && #[trigger] ks@[k]@ == p.0);
                let b = Set::new(|p: (Seq<char>, Seq<char>)| p.1 == h && exists|k: int| 0 <= k < q + 1 && #[trigger] ks@[k]@ == p.0);
                assert(b =~= a.insert((ks@[q as int]@, h)));
                assert(prefix_pairs(s, i as int, kind).union(b) =~= prefix_pairs(s, i as int, kind).union(a).insert((ks@[q as int]@, h)));
            }
            q = q + 1;
        }
        proof {
            let a = Set::new(|p: (Seq<char>, Seq<char>)| p.1 == h && exists|k: int| 0 <= k < ks@.len() && #[trigger] ks@[k]@ == p.0);
            assert forall|p: (Seq<char>, Seq<char>)| #[trigger] prefix_pairs(s, i + 1, kind).contains(p) <==> prefix_pairs(s, i as int, kind).union(a).contains(p) by {
                if prefix_pairs(s, i + 1, kind).contains(p) {
                    let j = choose|j: int| 0 <= j < i + 1 && #[trigger] s[j].hebrew == p.1 && index_keys(s[j], kind).contains(p.0);
                    if j == i {
                        assert(seqs_of(ks@).to_set().contains(p.0));
                        let k = choose|k: int| 0 <= k < seqs_of(ks@).len() && seqs_of(ks@)[k] == p.0;
                        assert(ks@[k]@ == p.0);
                    }
                }
                if a.contains(p) {
                    let k = choose|k: int| 0 <= k < ks@.len() && #[trigger] ks@[k]@ == p.0;
                    assert(seqs_of(ks@)[k] == p.0);
                    assert(seqs_of(ks@).to_set().contains(p.0));
                    assert(s[i as int].hebrew == p.1);
                }
            }
            assert(prefix_pairs(s, i + 1, kind) =~= prefix_pairs(s, i as int, kind).union(a));
        }
        i = i + 1;
    }
    proof {
        lemma_entries_keys(idx@);
    }
    idx
}

/// The list of terms with the term at `p` replaced by one with the same Hebrew text.
proof fn lemma_sorted_update(s: Seq<TermView>, p: int, x: TermView)
    requires
        strictly_sorted(s),
        0 <= p < s.len(),
        s[p].hebrew == x.hebrew,
    ensures
        strictly_sorted(s.update(p, x)),
        term_map(s.update(p, x)) == term_map(s).insert(x.hebrew, x),
{
    let n = s.update(p, x);
    let m = term_map(s).insert(x.hebrew, x);
    assert forall|i: int, j: int| 0 <= i < j < n.len() implies seq_lt(#[trigger] n[i].hebrew, #[trigger] n[j].hebrew) by {
        assert(n[i].hebrew == s[i].hebrew && n[j].hebrew == s[j].hebrew);
    }
    assert forall|j: int| 0 <= j < n.len() implies m.dom().contains(#[trigger] n[j].hebrew) && m[n[j].hebrew] == n[j] by {
        if j != p {
            lemma_term_map_at(s, j);
            lemma_lt_irreflexive(x.hebrew);
            if j < p {
                assert(seq_lt(s[j].hebrew, s[p].hebrew));
            } else {
                assert(seq_lt(s[p].hebrew, s[j].hebrew));
            }
        }
    }
    assert forall|k: Seq<char>| m.dom().contains(k) implies exists|j: int| 0 <= j < n.len() && #[trigger] n[j].hebrew == k by {
        if k == x.hebrew {
            assert(n[p].hebrew == k);
        } else {
            let j = choose|j: int| 0 <= j < s.len() && #[trigger] s[j].hebrew == k;
            assert(n[j].hebrew == k);
        }
    }
    lemma_term_map_eq(n, m);
}

/// The list of terms with `x` inserted at its place in the order.
proof fn lemma_sorted_insert(s: Seq<TermView>, p: int, x: TermView)
    requires
        strictly_sorted(s),
        0 <= p <= s.len(),
        forall|j: int| 0 <= j < p ==> seq_lt(#[trigger] s[j].hebrew, x.hebrew),
        p < s.len() ==> seq_lt(x.hebrew, s[p].hebrew),
    ensures
        strictly_sorted(s.insert(p, x)),
        term_map(s.insert(p, x)) == term_map(s).insert(x.hebrew, x),
{
    let n = s.insert(p, x);
    let m = term_map(s).insert(x.hebrew, x);
    assert forall|j: int| p <= j < s.len() implies seq_lt(x.hebrew, #[trigger] s[j].hebrew) by {
        if j > p {
            assert(seq_lt(s[p].hebrew, s[j].hebrew));
            lemma_lt_transitive(x.hebrew, s[p].hebrew, s[j].hebrew);
        }
    }
    assert forall|i: int, j: int| 0 <= i < j < n.len() implies seq_lt(#[trigger] n[i].hebrew, #[trigger] n[j].hebrew) by {
        if i < p && j < p {
            assert(n[i] == s[i] && n[j] == s[j]);
        } else if i < p && j == p {
            assert(n[i] == s[i]);
        } else if i < p && j > p {
            assert(n[i] == s[i] && n[j] == s[j - 1]);
            if j - 1 > i {
                assert(seq_lt(s[i].hebrew, s[j - 1].hebrew));
            }
        } else if i == p {
            assert(n[j] == s[j - 1]);
        } else {
            assert(n[i] == s[i - 1] && n[j] == s[j - 1]);
        }
    }
    assert forall|j: int| 0 <= j < n.len() implies m.dom().contains(#[trigger] n[j].hebrew) && m[n[j].hebrew] == n[j] by {
        lemma_lt_irreflexive(x.hebrew);
        if j < p {
            assert(n[j] == s[j]);
            lemma_term_map_at(s, j);
        } else if j > p {
            assert(n[j] == s[j - 1]);
            lemma_term_map_at(s, j - 1);
        }
    }
    assert forall|k: Seq<char>| m.dom().contains(k) implies exists|j: int| 0 <= j < n.len() && #[trigger] n[j].hebrew == k by {
        if k == x.hebrew {
            assert(n[p].hebrew == k);
        } else {
            let j = choose|j: int| 0 <= j < s.len() && #[trigger] s[j].hebrew == k;
            if j < p {
                assert(n[j].hebrew == k);
            } else {
                assert(n[j + 1].hebrew == k);
            }
        }
    }
    lemma_term_map_eq(n, m);
}

/// The list of terms without the term at `p`.
proof fn lemma_sorted_remove(s: Seq<TermView>, p: int)
    requires
        strictly_sorted(s),
        0 <= p < s.len(),
    ensures
        strictly_sorted(s.remove(p)),
        term_map(s.remove(p)) == term_map(s).remove(s[p].hebrew),
{
    let n = s.remove(p);
    let m = term_map(s).remove(s[p].hebrew);
    assert forall|i: int, j: int| 0 <= i < j < n.len() implies seq_lt(#[trigger] n[i].hebrew, #[trigger] n[j].hebrew) by {
        let a = if i < p { i } else { i + 1 };
        let b = if j < p { j } else { j + 1 };
        assert(n[i] == s[a] && n[j] == s[b]);
    }
    assert forall|j: int| 0 <= j < n.len() implies m.dom().contains(#[trigger] n[j].hebrew) && m[n[j].hebrew] == n[j] by {
        let a = if j < p { j } else { j + 1 };
        assert(n[j] == s[a]);
        lemma_term_map_at(s, a);
        lemma_lt_irreflexive(s[p].hebrew);
        if a < p {
            assert(seq_lt(s[a].hebrew, s[p].hebrew));
        } else {
            assert(seq_lt(s[p].hebrew, s[a].hebrew));
        }
    }
    assert forall|k: Seq<char>| m.dom().contains(k) implies exists|j: int| 0 <= j < n.len() && #[trigger] n[j].hebrew == k by {
        let j = choose|j: int| 0 <= j < s.len() && #[trigger] s[j].hebrew == k;
        assert(j != p);
        if j < p {
            assert(n[j].hebrew == k);
        } else {
            assert(n[j - 1].hebrew == k);
        }
    }
    lemma_term_map_eq(n, m);
}


/// The term store: terms kept in Hebrew order, plus the category, context and
/// tag indices derived from them.
pub struct TechnicalDictionary {
    terms: Vec<TechnicalTerm>,
    file_path: String,
    category_index: Vec<IndexEntry>,
    context_index: Vec<IndexEntry>,
    tag_index: Vec<IndexEntry>,
}

impl View for TechnicalDictionary {
    type V = Map<Seq<char>, TermView>;

    open spec fn view(&self) -> Map<Seq<char>, TermView> {
        term_map(self.entries())
    }
}

impl TechnicalDictionary {
    /// The terms in Hebrew order.
    pub closed spec fn entries(&self) -> Seq<TermView> {
        views(self.terms@)
    }

    /// Where the store is persisted.
    pub closed spec fn path(&self) -> Seq<char> {
        self.file_path@
    }

    pub closed spec fn index_entries(&self, kind: IndexKind) -> Seq<IndexEntry> {
        match kind {
            IndexKind::Category => self.category_index@,
            IndexKind::Context => self.context_index@,
            IndexKind::Tag => self.tag_index@,
        }
    }

    /// The (key, Hebrew text) pairs that the stored index of this kind holds.
    pub open spec fn index_pairs(&self, kind: IndexKind) -> Set<(Seq<char>, Seq<char>)> {
        entries_pairs(self.index_entries(kind))
    }

    /// The keys that the stored index of this kind lists.
    pub open spec fn index_key_set(&self, kind: IndexKind) -> Set<Seq<char>> {
        entries_keys(self.index_entries(kind))
    }

    /// The stored index of this kind lists exactly the terms that satisfy its
    /// predicate, under exactly the keys that some term has.
    pub open spec fn index_consistent(&self, kind: IndexKind) -> bool {
        &&& self.index_pairs(kind) == expected_index(self@, kind)
        &&& self.index_key_set(kind) == keys_of(expected_index(self@, kind))
        &&& entries_wf(self.index_entries(kind))
    }

    pub open spec fn wf(&self) -> bool {
        &&& strictly_sorted(self.entries())
        &&& self.index_consistent(IndexKind::Category)
        &&& self.index_consistent(IndexKind::Context)
        &&& self.index_consistent(IndexKind::Tag)
    }

    /// An empty store that persists to `file_path`.
    pub fn new(file_path: String) -> (r: TechnicalDictionary)
        ensures
            r.wf(),
            r@ == Map::<Seq<char>, TermView>::empty(),
            r.path() == file_path@,
    {
        let mut d = TechnicalDictionary {
            terms: Vec::new(),
            file_path,
            category_index: Vec::new(),
            context_index: Vec::new(),
            tag_index: Vec::new(),
        };
        d.rebuild_indices();
        assert(d@ =~= Map::<Seq<char>, TermView>::empty());
        d
    }

    /// The persistence path.
    pub fn file_path(&self) -> (r: &String)
        ensures
            r@ == self.path(),
    {
        &self.file_path
    }

    fn rebuild_indices(&mut self)
        requires
            strictly_sorted(old(self).entries()),
        ensures
            final(self).wf(),
            final(self).terms@ == old(self).terms@,
            final(self).file_path == old(self).file_path,
    {
        self.category_index = build_index(&self.terms, IndexKind::Category);
        self.context_index = build_index(&self.terms, IndexKind::Context);
        self.tag_index = build_index(&self.terms, IndexKind::Tag);
        proof {
            lemma_prefix_pairs_full(self.entries(), IndexKind::Category);
            lemma_prefix_pairs_full(self.entries(), IndexKind::Context);
            lemma_prefix_pairs_full(self.entries(), IndexKind::Tag);
        }
    }

    /// Position of the term with this Hebrew text, if any.
    fn position_of(&self, hebrew: &String) -> (r: Option<usize>)
        requires
            strictly_sorted(self.entries()),
        ensures
            match r {
                Some(i) => i < self.terms@.len() && self.terms@[i as int].hebrew@ == hebrew@,
                None => !self@.dom().contains(hebrew@),
            },
    {
        let mut i: usize = 0;
        while i < self.terms.len()
            invariant
                i <= self.terms@.len(),
                forall|j: int| 0 <= j < i ==> (#[trigger] self.terms@[j]).hebrew@ != hebrew@,
            decreases self.terms.len() - i,
        {
            if self.terms[i].hebrew == *hebrew {
                return Some(i);
            }
            i = i + 1;
        }
        proof {
            if self@.dom().contains(hebrew@) {
                let j = choose|j: int| 0 <= j < self.entries().len() && #[trigger] self.entries()[j].hebrew == hebrew@;
                assert(self.terms@[j].hebrew@ == hebrew@);
            }
        }
        None
    }

    /// The term with this Hebrew text.
    pub fn get_term(&self, hebrew: &str) -> (r: Option<&TechnicalTerm>)
        requires
            self.wf(),
        ensures
            match r {
                Some(t) => self@.dom().contains(hebrew@) && t@ == self@[hebrew@],
                None => !self@.dom().contains(hebrew@),
            },
    {
        let key = String::from_str(hebrew);
        match self.position_of(&key) {
            Some(i) => {
                proof {
                    lemma_term_map_at(self.entries(), i as int);
                }
                Some(&self.terms[i])
            },
            None => None,
        }
    }

    /// Stores `t` under its Hebrew text, replacing a term with the same text.
    /// Leaves the indices to the caller.
    fn put_term(&mut self, t: TechnicalTerm)
        requires
            strictly_sorted(old(self).entries()),
        ensures
            strictly_sorted(final(self).entries()),
            final(self)@ == old(self)@.insert(t@.hebrew, t@),
            final(self).file_path == old(self).file_path,
    {
        let ghost s = self.entries();
        let mut p: usize = 0;
        while p < self.terms.len() && str_lt(self.terms[p].hebrew.as_str(), t.hebrew.as_str())
            invariant
                s == views(self.terms@),
                p <= self.terms@.len(),
                forall|j: int| 0 <= j < p ==> seq_lt(#[trigger] s[j].hebrew, t@.hebrew),
            decreases self.terms.len() - p,
        {
            p = p + 1;
        }
        if p < self.terms.len() && self.terms[p].hebrew == t.hebrew {
            proof {
                lemma_sorted_update(s, p as int, t@);
            }
            self.terms.set(p, t);
            assert(views(self.terms@) =~= s.update(p as int, t@));
        } else {
            proof {
                if p < s.len() {
                    lemma_lt_total(s[p as int].hebrew, t@.hebrew);
                }
                lemma_sorted_insert(s, p as int, t@);
            }
            self.terms.insert(p, t);
            assert(views(self.terms@) =~= s.insert(p as int, t@));
        }
    }

    /// Removes the term with this Hebrew text, if any; leaves the indices to the caller.
    fn take_term(&mut self, hebrew: &String) -> (r: bool)
        requires
            strictly_sorted(old(self).entries()),
        ensures
            strictly_sorted(final(self).entries()),
            r == old(self)@.dom().contains(hebrew@),
            final(self)@ == old(self)@.remove(hebrew@),
            final(self).file_path == old(self).file_path,
            !r ==> *final(self) == *old(self),
    {
        match self.position_of(hebrew) {
            Some(i) => {
                let ghost s = self.entries();
                proof {
                    lemma_sorted_remove(s, i as int);
                    lemma_term_map_at(s, i as int);
                }
                self.terms.remove(i);
                assert(views(self.terms@) =~= s.remove(i as int));
                true
            },
            None => {
                assert(self@.remove(hebrew@) =~= self@);
                false
            },
        }
    }

    /// Adds a term, or replaces the one with the same Hebrew text, stamped with
    /// the time `now`. A term without Hebrew or Russian text is refused.
    pub fn add_term_at(&mut self, term: TechnicalTerm, now: i64) -> (r: Result<(), StoreError>)
        requires
            old(self).wf(),
        ensures
            final(self).wf(),
            final(self).path() == old(self).path(),
            term_valid(term@) ==> r is Ok && final(self)@ == old(self)@.insert(term@.hebrew, stamped(term@, now as int)),
            !term_valid(term@) ==> r == Err::<(), StoreError>(StoreError::ValidationFailure) && final(self)@ == old(self)@,
    {
        if !term.is_valid() {
            return Err(StoreError::ValidationFailure);
        }
        let mut term = term;
        term.last_updated = now;
        self.put_term(term);
        self.rebuild_indices();
        Ok(())
    }

    /// Adds a term stamped with the current time.
    pub fn add_term(&mut self, term: TechnicalTerm) -> (r: Result<(), StoreError>)
        requires
            old(self).wf(),
        ensures
            final(self).wf(),
            final(self).path() == old(self).path(),
            term_valid(term@) ==> r is Ok && exists|now: int| final(self)@ == old(self)@.insert(term@.hebrew, stamped(term@, now)),
            !term_valid(term@) ==> r == Err::<(), StoreError>(StoreError::ValidationFailure) && final(self)@ == old(self)@,
    {
        let now = now_millis();
        self.add_term_at(term, now)
    }

    /// Replaces the term with Hebrew text `hebrew` by `updates`, stamped with the
    /// time `now`. When `updates` carries another Hebrew text this is a removal
    /// of the old term and an insertion of the new one. An unknown `hebrew` is a
    /// silent no-op that returns `Ok(false)`, whatever `updates` holds; for a
    /// known one, an update without Hebrew or Russian text is refused.
    pub fn update_term_at(&mut self, hebrew: &str, updates: TechnicalTerm, now: i64) -> (r: Result<bool, StoreError>)
        requires
            old(self).wf(),
        ensures
            final(self).wf(),
            final(self).path() == old(self).path(),
            !old(self)@.dom().contains(hebrew@) ==> r == Ok::<bool, StoreError>(false) && *final(self) == *old(self),
            old(self)@.dom().contains(hebrew@) && !term_valid(updates@) ==> r == Err::<bool, StoreError>(StoreError::ValidationFailure)
                && *final(self) == *old(self),
            old(self)@.dom().contains(hebrew@) && term_valid(updates@) ==> r == Ok::<bool, StoreError>(true)
                && final(self)@ == old(self)@.remove(hebrew@).insert(updates@.hebrew, stamped(updates@, now as int)),
    {
        let key = String::from_str(hebrew);
        match self.position_of(&key) {
            None => return Ok(false),
            Some(i) => {
                proof {
                    lemma_term_map_at(self.entries(), i as int);
                }
            },
        }
        if !updates.is_valid() {
            return Err(StoreError::ValidationFailure);
        }
        let found = self.take_term(&key);
        let mut updates = updates;
        updates.last_updated = now;
        self.put_term(updates);
        self.rebuild_indices();
        Ok(true)
    }

    /// Updates a term, stamping it with the current time.
    pub fn update_term(&mut self, hebrew: &str, updates: TechnicalTerm) -> (r: Result<bool, StoreError>)
        requires
            old(self).wf(),
        ensures
            final(self).wf(),
            final(self).path() == old(self).path(),
            !old(self)@.dom().contains(hebrew@) ==> r == Ok::<bool, StoreError>(false) && *final(self) == *old(self),
            old(self)@.dom().contains(hebrew@) && !term_valid(updates@) ==> r == Err::<bool, StoreError>(StoreError::ValidationFailure)
                && *final(self) == *old(self),
            old(self)@.dom().contains(hebrew@) && term_valid(updates@) ==> r == Ok::<bool, StoreError>(true)
                && exists|now: int| final(self)@ == old(self)@.remove(hebrew@).insert(updates@.hebrew, stamped(updates@, now)),
    {
        let now = now_millis();
        self.update_term_at(hebrew, updates, now)
    }

    /// Removes the term with this Hebrew text; returns whether there was one.
    pub fn delete_term(&mut self, hebrew: &str) -> (r: bool)
        requires
            old(self).wf(),
        ensures
            final(self).wf(),
            final(self).path() == old(self).path(),
            r == old(self)@.dom().contains(hebrew@),
            final(self)@ == old(self)@.remove(hebrew@),
    {
        let key = String::from_str(hebrew);
        let r = self.take_term(&key);
        self.rebuild_indices();
        r
    }
}


/// A multi-field query.
pub struct SearchQuery {
    pub text: String,
    /// "he" matches the Hebrew text and synonyms, "ru" the Russian ones; any
    /// other code matches nothing.
    pub lang: String,
    pub categories: Option<Vec<String>>,
    pub contexts: Option<Vec<String>>,
    pub tags: Option<Vec<String>>,
    pub include_synonyms: bool,
    pub exact_match: bool,
}

pub open spec fn code_he() -> Seq<char> {
    seq!['h', 'e']
}

pub open spec fn code_ru() -> Seq<char> {
    seq!['r', 'u']
}

/// A field answers the query text: equal to it in exact mode, containing it
/// otherwise. Case is significant.
pub open spec fn text_hit(field: Seq<char>, text: Seq<char>, exact: bool) -> bool {
    if exact {
        field == text
    } else {
        contains_seq(field, text)
    }
}

/// The primary field of a term for a language code.
pub open spec fn primary_field(t: TermView, lang: Seq<char>) -> Seq<char> {
    if lang == code_he() {
        t.hebrew
    } else {
        t.russian
    }
}

/// The synonyms of a term for a language code.
pub open spec fn synonym_field(t: TermView, lang: Seq<char>) -> Seq<Seq<char>> {
    if lang == code_he() {
        t.synonyms_he
    } else {
        t.synonyms_ru
    }
}

/// An optional single value passes an optional list filter.
pub open spec fn passes_filter(filter: Option<Vec<String>>, value: Option<Seq<char>>) -> bool {
    match filter {
        None => true,
        Some(list) => value is Some && seqs_of(list@).contains(value->0),
    }
}

/// Whether a term answers a query.
pub open spec fn query_matches(q: SearchQuery, t: TermView) -> bool {
    &&& (q.lang@ == code_he() || q.lang@ == code_ru())
    &&& (text_hit(primary_field(t, q.lang@), q.text@, q.exact_match) || (q.include_synonyms && exists|k: int|
        0 <= k < synonym_field(t, q.lang@).len() && text_hit(
            #[trigger] synonym_field(t, q.lang@)[k],
            q.text@,
            q.exact_match,
        )))
    &&& passes_filter(q.categories, t.category)
    &&& passes_filter(q.contexts, t.context)
    &&& passes_tags(q.tags, t.tags)
}

fn text_hit_exec(field: &String, text: &String, exact: bool) -> (r: bool)
    ensures
        r == text_hit(field@, text@, exact),
{
    if exact {
        *field == *text
    } else {
        str_contains(field.as_str(), text.as_str())
    }
}

fn any_hit(list: &Vec<String>, text: &String, exact: bool) -> (r: bool)
    ensures
        r == exists|k: int| 0 <= k < seqs_of(list@).len() && text_hit(#[trigger] seqs_of(list@)[k], text@, exact),
{
    let mut i: usize = 0;
    while i < list.len()
        invariant
            i <= list.len(),
            forall|k: int| 0 <= k < i ==> !text_hit(#[trigger] seqs_of(list@)[k], text@, exact),
        decreases list.len() - i,
    {
        if text_hit_exec(&list[i], text, exact) {
            assert(text_hit(seqs_of(list@)[i as int], text@, exact));
            return true;
        }
        i = i + 1;
    }
    false
}

fn filter_exec(filter: &Option<Vec<String>>, value: &Option<String>) -> (r: bool)
    ensures
        r == passes_filter(*filter, opt_seq(*value)),
{
    match filter {
        None => true,
        Some(list) => match value {
            Some(v) => list_contains(list, v),
            None => false,
        },
    }
}

/// Every tag of the optional list is among the term's tags.
pub open spec fn passes_tags(filter: Option<Vec<String>>, tags: Set<Seq<char>>) -> bool {
    match filter {
        None => true,
        Some(list) => all_within(list@, tags),
    }
}

/// Every string of the list is in the set.
pub open spec fn all_within(list: Seq<String>, tags: Set<Seq<char>>) -> bool {
    forall|k: int| 0 <= k < list.len() ==> tags.contains(#[trigger] list[k]@)
}

fn tags_exec(filter: &Option<Vec<String>>, tags: &Vec<String>) -> (r: bool)
    ensures
        r == passes_tags(*filter, seqs_of(tags@).to_set()),
{
    match filter {
        None => true,
        Some(list) => {
            let mut i: usize = 0;
            while i < list.len()
                invariant
                    *filter == Some(*list),
                    i <= list@.len(),
                    forall|k: int| 0 <= k < i ==> seqs_of(tags@).to_set().contains(#[trigger] list@[k]@),
                decreases list.len() - i,
            {
                if !list_contains(tags, &list[i]) {
                    assert(!seqs_of(tags@).to_set().contains(list@[i as int]@));
                    assert(!all_within(list@, seqs_of(tags@).to_set()));
                    return false;
                }
                i = i + 1;
            }
            true
        },
    }
}

impl SearchQuery {
    /// Whether the term answers this query.
    pub fn matches(&self, t: &TechnicalTerm) -> (r: bool)
        ensures
            r == query_matches(*self, t@),
    {
        let he = is_code(self.lang.as_str(), 'h', 'e');
        let ru = is_code(self.lang.as_str(), 'r', 'u');
        if !he && !ru {
            return false;
        }
        let primary = if he { &t.hebrew } else { &t.russian };
        let synonyms = if he { &t.synonyms_he } else { &t.synonyms_ru };
        proof {
            assert(synonym_field(t@, self.lang@) == seqs_of(synonyms@));
            assert(primary_field(t@, self.lang@) == primary@);
        }
        let hit = text_hit_exec(primary, &self.text, self.exact_match) || (self.include_synonyms && any_hit(
            synonyms,
            &self.text,
            self.exact_match,
        ));
        hit && filter_exec(&self.categories, &t.category) && filter_exec(&self.contexts, &t.context)
            && tags_exec(&self.tags, &t.tags)
    }
}

impl TechnicalDictionary {
    /// The terms that answer the query, in Hebrew order. Never changes the store.
    pub fn search(&self, query: &SearchQuery) -> (r: Vec<&TechnicalTerm>)
        requires
            self.wf(),
        ensures
            r@.map_values(|t: &TechnicalTerm| t@) == self.entries().filter(|t: TermView| query_matches(*query, t)),
    {
        let ghost pred = |t: TermView| query_matches(*query, t);
        let mut r: Vec<&TechnicalTerm> = Vec::new();
        let mut i: usize = 0;
        while i < self.terms.len()
            invariant
                i <= self.terms@.len(),
                pred == (|t: TermView| query_matches(*query, t)),
                r@.map_values(|t: &TechnicalTerm| t@) == self.entries().subrange(0, i as int).filter(pred),
            decreases self.terms.len() - i,
        {
            let t = &self.terms[i];
            let hit = query.matches(t);
            proof {
                let e = self.entries();
                assert(e.subrange(0, i + 1) =~= e.subrange(0, i as int).push(e[i as int]));
                e.subrange(0, i as int).lemma_filter_push(e[i as int], pred);
            }
            if hit {
                r.push(t);
            }
            proof {
                assert(r@.map_values(|t: &TechnicalTerm| t@) =~= self.entries().subrange(0, i + 1).filter(pred));
            }
            i = i + 1;
        }
        assert(self.entries().subrange(0, self.terms@.len() as int) =~= self.entries());
        r
    }

    /// Every term, in Hebrew order.
    pub fn get_all_terms(&self) -> (r: Vec<&TechnicalTerm>)
        ensures
            r@.map_values(|t: &TechnicalTerm| t@) == self.entries(),
    {
        let mut r: Vec<&TechnicalTerm> = Vec::new();
        let mut i: usize = 0;
        while i < self.terms.len()
            invariant
                i <= self.terms@.len(),
                r@.map_values(|t: &TechnicalTerm| t@) == self.entries().subrange(0, i as int),
            decreases self.terms.len() - i,
        {
            let ghost before = r@;
            r.push(&self.terms[i]);
            proof {
                assert(r@ == before.push(&self.terms@[i as int]));
                assert(self.entries()[i as int] == self.terms@[i as int]@);
                assert(r@.map_values(|t: &TechnicalTerm| t@) =~= before.map_values(|t: &TechnicalTerm| t@).push(self.terms@[i as int]@));
                assert(self.entries().subrange(0, i + 1) =~= self.entries().subrange(0, i as int).push(self.entries()[i as int]));
            }
            i = i + 1;
        }
        assert(self.entries().subrange(0, self.terms@.len() as int) =~= self.entries());
        r
    }

    /// The number of terms.
    pub fn len(&self) -> (r: usize)
        requires
            self.wf(),
        ensures
            r == self@.dom().len(),
    {
        proof {
            lemma_dom_len(self.entries());
        }
        self.terms.len()
    }
}

/// A sorted list has as many terms as its map has keys.
proof fn lemma_dom_len(s: Seq<TermView>)
    requires
        strictly_sorted(s),
    ensures
        term_map(s).dom().len() == s.len(),
        term_map(s).dom().finite(),
    decreases s.len(),
{
    if s.len() == 0 {
        assert(term_map(s).dom() =~= Set::empty());
    } else {
        let t = s.drop_last();
        assert(strictly_sorted(t));
        lemma_dom_len(t);
        lemma_loaded_sorted(s);
        lemma_loaded_sorted(t);
        assert(loaded_map(s) == loaded_map(t).insert(s.last().hebrew, s.last()));
        if term_map(t).dom().contains(s.last().hebrew) {
            let j = choose|j: int| 0 <= j < t.len() && #[trigger] t[j].hebrew == s.last().hebrew;
            assert(seq_lt(s[j].hebrew, s[s.len() - 1].hebrew));
            lemma_lt_irreflexive(s.last().hebrew);
        }
        assert(term_map(s).dom() =~= term_map(t).dom().insert(s.last().hebrew));
    }
}


fn index_key_list(es: &Vec<IndexEntry>) -> (r: Vec<String>)
    requires
        entries_wf(es@),
    ensures
        seqs_of(r@).to_set() == entries_keys(es@),
        seqs_of(r@).no_duplicates(),
{
    let mut r: Vec<String> = Vec::new();
    let mut i: usize = 0;
    while i < es.len()
        invariant
            i <= es@.len(),
            entries_wf(es@),
            r@.len() == i,
            forall|k: int| 0 <= k < i ==> (#[trigger] r@[k])@ == es@[k].key@,
        decreases es.len() - i,
    {
        r.push(es[i].key.clone());
        i = i + 1;
    }
    proof {
        assert forall|k: Seq<char>| #[trigger] seqs_of(r@).to_set().contains(k) <==> entries_keys(es@).contains(k) by {
            if seqs_of(r@).to_set().contains(k) {
                let j = choose|j: int| 0 <= j < seqs_of(r@).len() && seqs_of(r@)[j] == k;
                assert(es@[j].key@ == k);
            }
            if entries_keys(es@).contains(k) {
                let j = choose|j: int| 0 <= j < es@.len() && #[trigger] es@[j].key@ == k;
                assert(seqs_of(r@)[j] == k);
            }
        }
        assert(seqs_of(r@).to_set() =~= entries_keys(es@));
        assert forall|a: int, b: int| 0 <= a < seqs_of(r@).len() && 0 <= b < seqs_of(r@).len() && a != b implies seqs_of(r@)[a] != seqs_of(r@)[b] by {
            if a < b {
                assert(es@[a].key@ != es@[b].key@);
            } else {
                assert(es@[b].key@ != es@[a].key@);
            }
        }
    }
    r
}

fn find_entry(es: &Vec<IndexEntry>, key: &String) -> (r: Option<usize>)
    ensures
        match r {
            Some(i) => i < es@.len() && es@[i as int].key@ == key@,
            None => forall|j: int| 0 <= j < es@.len() ==> (#[trigger] es@[j]).key@ != key@,
        },
{
    let mut i: usize = 0;
    while i < es.len()
        invariant
            i <= es@.len(),
            forall|j: int| 0 <= j < i ==> (#[trigger] es@[j]).key@ != key@,
        decreases es.len() - i,
    {
        if es[i].key == *key {
            return Some(i);
        }
        i = i + 1;
    }
    None
}

/// For every key of the index of a kind and every term, the index lists the
/// term under the key exactly when the term's category, context or tags (by
/// kind) contain the key; and the index's keys are exactly those some term has.
pub proof fn lemma_index_exact(d: &TechnicalDictionary, kind: IndexKind, key: Seq<char>, hebrew: Seq<char>)
    requires
        d.wf(),
    ensures
        d.index_pairs(kind).contains((key, hebrew)) <==> (d@.dom().contains(hebrew) && index_keys(d@[hebrew], kind).contains(key)),
        d.index_key_set(kind).contains(key) <==> exists|h: Seq<char>| d@.dom().contains(h) && index_keys(d@[h], kind).contains(key),
{
    let e = expected_index(d@, kind);
    assert(e.contains((key, hebrew)) == (d@.dom().contains(hebrew) && index_keys(d@[hebrew], kind).contains(key)));
    if d.index_key_set(kind).contains(key) {
        let h = choose|h: Seq<char>| e.contains((key, h));
        assert(d@.dom().contains(h) && index_keys(d@[h], kind).contains(key));
    }
    if exists|h: Seq<char>| d@.dom().contains(h) && index_keys(d@[h], kind).contains(key) {
        let h = choose|h: Seq<char>| d@.dom().contains(h) && index_keys(d@[h], kind).contains(key);
        assert(e.contains((key, h)));
    }
}

/// After any sequence of additions, updates and deletions (each keeps `wf`),
/// the stored index of each kind lists under every key exactly the terms whose
/// category, context or tags (by kind) contain that key, and no key without
/// such a term.
pub proof fn lemma_index_members(d: &TechnicalDictionary, kind: IndexKind, key: Seq<char>)
    requires
        d.wf(),
    ensures
        members_of(d.index_pairs(kind), key) == Set::new(
            |h: Seq<char>| d@.dom().contains(h) && index_keys(d@[h], kind).contains(key),
        ),
        d.index_key_set(kind).contains(key) <==> !members_of(d.index_pairs(kind), key).is_empty(),
{
    let m = members_of(d.index_pairs(kind), key);
    let want = Set::new(|h: Seq<char>| d@.dom().contains(h) && index_keys(d@[h], kind).contains(key));
    assert forall|h: Seq<char>| #[trigger] m.contains(h) <==> want.contains(h) by {
        lemma_index_exact(d, kind, key, h);
    }
    assert(m =~= want);
    if d.index_key_set(kind).contains(key) {
        let h = choose|h: Seq<char>| expected_index(d@, kind).contains((key, h));
        assert(m.contains(h));
    }
    if !m.is_empty() {
        let h = m.choose();
        assert(m.contains(h));
        assert(expected_index(d@, kind).contains((key, h)));
    }
}

/// Restoring a snapshot of a store gives back the store's term map, field for field.
pub proof fn lemma_snapshot_round_trip(d: &TechnicalDictionary)
    requires
        d.wf(),
    ensures
        loaded_map(d.entries()) == d@,
{
    lemma_loaded_sorted(d.entries());
}

/// Merging keeps the incoming term when the key is new or the incoming term is
/// strictly newer; otherwise the existing term stays.
pub open spec fn merged(base: Map<Seq<char>, TermView>, incoming: Seq<TermView>) -> Map<Seq<char>, TermView>
    decreases incoming.len(),
{
    if incoming.len() == 0 {
        base
    } else {
        let m = merged(base, incoming.drop_last());
        let t = incoming.last();
        if !m.dom().contains(t.hebrew) || m[t.hebrew].last_updated < t.last_updated {
            m.insert(t.hebrew, t)
        } else {
            m
        }
    }
}

impl TechnicalDictionary {
    fn index_vec(&self, kind: IndexKind) -> (r: &Vec<IndexEntry>)
        ensures
            r@ == self.index_entries(kind),
    {
        match kind {
            IndexKind::Category => &self.category_index,
            IndexKind::Context => &self.context_index,
            IndexKind::Tag => &self.tag_index,
        }
    }

    /// The keys of the index of this kind, each once.
    pub fn index_keys_of(&self, kind: IndexKind) -> (r: Vec<String>)
        requires
            self.wf(),
        ensures
            seqs_of(r@).to_set() == keys_of(expected_index(self@, kind)),
            seqs_of(r@).no_duplicates(),
    {
        index_key_list(self.index_vec(kind))
    }

    /// Every category that some term has, each once.
    pub fn get_all_categories(&self) -> (r: Vec<String>)
        requires
            self.wf(),
        ensures
            seqs_of(r@).to_set() == keys_of(expected_index(self@, IndexKind::Category)),
            seqs_of(r@).no_duplicates(),
    {
        self.index_keys_of(IndexKind::Category)
    }

    /// Every context that some term has, each once.
    pub fn get_all_contexts(&self) -> (r: Vec<String>)
        requires
            self.wf(),
        ensures
            seqs_of(r@).to_set() == keys_of(expected_index(self@, IndexKind::Context)),
            seqs_of(r@).no_duplicates(),
    {
        self.index_keys_of(IndexKind::Context)
    }

    /// Every tag that some term has, each once.
    pub fn get_all_tags(&self) -> (r: Vec<String>)
        requires
            self.wf(),
        ensures
            seqs_of(r@).to_set() == keys_of(expected_index(self@, IndexKind::Tag)),
            seqs_of(r@).no_duplicates(),
    {
        self.index_keys_of(IndexKind::Tag)
    }

    /// The union of the tag sets of all terms.
    pub fn get_all_tags_set(&self) -> (r: Vec<String>)
        requires
            self.wf(),
        ensures
            seqs_of(r@).to_set() == Set::new(|k: Seq<char>| exists|h: Seq<char>| self@.dom().contains(h) && self@[h].tags.contains(k)),
            seqs_of(r@).no_duplicates(),
    {
        let r = self.index_keys_of(IndexKind::Tag);
        proof {
            let e = expected_index(self@, IndexKind::Tag);
            let want = Set::new(|k: Seq<char>| exists|h: Seq<char>| self@.dom().contains(h) && self@[h].tags.contains(k));
            assert forall|k: Seq<char>| #[trigger] keys_of(e).contains(k) <==> want.contains(k) by {
                if keys_of(e).contains(k) {
                    let h = choose|h: Seq<char>| e.contains((k, h));
                    assert(self@.dom().contains(h) && self@[h].tags.contains(k));
                }
                if want.contains(k) {
                    let h = choose|h: Seq<char>| self@.dom().contains(h) && self@[h].tags.contains(k);
                    assert(e.contains((k, h)));
                }
            }
            assert(keys_of(e) =~= want);
        }
        r
    }

    /// The terms listed under `key` in the index of this kind, in Hebrew order.
    pub fn terms_by(&self, kind: IndexKind, key: &str) -> (r: Vec<&TechnicalTerm>)
        requires
            self.wf(),
        ensures
            r@.map_values(|t: &TechnicalTerm| t@) == self.entries().filter(|t: TermView| index_keys(t, kind).contains(key@)),
    {
        let key = String::from_str(key);
        let es = self.index_vec(kind);
        let pos = find_entry(es, &key);
        let ghost pred = |t: TermView| index_keys(t, kind).contains(key@);
        let mut r: Vec<&TechnicalTerm> = Vec::new();
        let mut i: usize = 0;
        while i < self.terms.len()
            invariant
                self.wf(),
                es@ == self.index_entries(kind),
                i <= self.terms@.len(),
                pred == (|t: TermView| index_keys(t, kind).contains(key@)),
                match pos {
                    Some(e) => e < es@.len() && es@[e as int].key@ == key@,
                    None => forall|j: int| 0 <= j < es@.len() ==> (#[trigger] es@[j]).key@ != key@,
                },
                r@.map_values(|t: &TechnicalTerm| t@) == self.entries().subrange(0, i as int).filter(pred),
            decreases self.terms.len() - i,
        {
            let t = &self.terms[i];
            let hit = match pos {
                Some(e) => list_contains(&es[e].members, &t.hebrew),
                None => false,
            };
            proof {
                let en = self.entries();
                let h = t.hebrew@;
                lemma_term_map_at(en, i as int);
                assert(en[i as int] == t@);
                let pairs = entries_pairs(es@);
                assert(pairs == expected_index(self@, kind));
                assert(pairs.contains((key@, h)) == index_keys(t@, kind).contains(key@));
                match pos {
                    Some(e) => {
                        if pairs.contains((key@, h)) {
                            let j = choose|j: int| 0 <= j < es@.len() && #[trigger] es@[j].key@ == (key@, h).0 && seqs_of(es@[j].members@).contains((key@, h).1);
                            if j != e as int {
                                if j < e as int {
                                    assert(es@[j].key@ != es@[e as int].key@);
                                } else {
                                    assert(es@[e as int].key@ != es@[j].key@);
                                }
                            }
                        }
                        if hit {
                            assert(es@[e as int].key@ == (key@, h).0);
                            assert(pairs.contains((key@, h)));
                        }
                    },
                    None => {
                        if pairs.contains((key@, h)) {
                            let j = choose|j: int| 0 <= j < es@.len() && #[trigger] es@[j].key@ == (key@, h).0 && seqs_of(es@[j].members@).contains((key@, h).1);
                        }
                    },
                }
                assert(hit == pred(en[i as int]));
                assert(en.subrange(0, i + 1) =~= en.subrange(0, i as int).push(en[i as int]));
                en.subrange(0, i as int).lemma_filter_push(en[i as int], pred);
            }
            if hit {
                r.push(t);
            }
            proof {
                assert(r@.map_values(|t: &TechnicalTerm| t@) =~= self.entries().subrange(0, i + 1).filter(pred));
            }
            i = i + 1;
        }
        assert(self.entries().subrange(0, self.terms@.len() as int) =~= self.entries());
        r
    }

    /// The terms whose category is `category`, in Hebrew order.
    pub fn get_terms_by_category(&self, category: &str) -> (r: Vec<&TechnicalTerm>)
        requires
            self.wf(),
        ensures
            r@.map_values(|t: &TechnicalTerm| t@) == self.entries().filter(|t: TermView| index_keys(t, IndexKind::Category).contains(category@)),
    {
        self.terms_by(IndexKind::Category, category)
    }

    /// The terms whose context is `context`, in Hebrew order.
    pub fn get_terms_by_context(&self, context: &str) -> (r: Vec<&TechnicalTerm>)
        requires
            self.wf(),
        ensures
            r@.map_values(|t: &TechnicalTerm| t@) == self.entries().filter(|t: TermView| index_keys(t, IndexKind::Context).contains(context@)),
    {
        self.terms_by(IndexKind::Context, context)
    }

    /// The terms that carry the tag `tag`, in Hebrew order.
    pub fn get_terms_by_tag(&self, tag: &str) -> (r: Vec<&TechnicalTerm>)
        requires
            self.wf(),
        ensures
            r@.map_values(|t: &TechnicalTerm| t@) == self.entries().filter(|t: TermView| index_keys(t, IndexKind::Tag).contains(tag@)),
    {
        self.terms_by(IndexKind::Tag, tag)
    }

    /// A deep copy of every term, in Hebrew order.
    pub fn create_snapshot(&self) -> (r: Vec<TechnicalTerm>)
        ensures
            views(r@) == self.entries(),
    {
        let mut r: Vec<TechnicalTerm> = Vec::new();
        let mut i: usize = 0;
        while i < self.terms.len()
            invariant
                i <= self.terms@.len(),
                views(r@) == self.entries().subrange(0, i as int),
            decreases self.terms.len() - i,
        {
            let ghost before = r@;
            r.push(self.terms[i].copy());
            proof {
                assert(views(r@) =~= views(before).push(self.terms@[i as int]@));
                assert(self.entries().subrange(0, i + 1) =~= self.entries().subrange(0, i as int).push(self.entries()[i as int]));
            }
            i = i + 1;
        }
        assert(self.entries().subrange(0, self.terms@.len() as int) =~= self.entries());
        r
    }

    /// A deep copy of every term, in Hebrew order.
    pub fn get_all_terms_map(&self) -> (r: Vec<TechnicalTerm>)
        ensures
            views(r@) == self.entries(),
    {
        self.create_snapshot()
    }

    /// Replaces every term by those of `terms`, loaded in order (a later term
    /// replaces an earlier one with the same Hebrew text).
    pub fn import_terms(&mut self, terms: Vec<TechnicalTerm>) -> (r: Result<(), StoreError>)
        requires
            old(self).wf(),
        ensures
            final(self).wf(),
            final(self).path() == old(self).path(),
            r is Ok,
            final(self)@ == loaded_map(views(terms@)),
    {
        self.terms = Vec::new();
        let ghost s = views(terms@);
        assert(self@ =~= loaded_map(s.subrange(0, 0)));
        let mut i: usize = 0;
        while i < terms.len()
            invariant
                s == views(terms@),
                i <= terms@.len(),
                strictly_sorted(self.entries()),
                self@ == loaded_map(s.subrange(0, i as int)),
                self.file_path == old(self).file_path,
            decreases terms.len() - i,
        {
            self.put_term(terms[i].copy());
            assert(s.subrange(0, i + 1).drop_last() =~= s.subrange(0, i as int));
            i = i + 1;
        }
        assert(s.subrange(0, terms@.len() as int) =~= s);
        self.rebuild_indices();
        Ok(())
    }

    /// Replaces every term by those of a snapshot.
    pub fn restore_snapshot(&mut self, snapshot: Vec<TechnicalTerm>) -> (r: Result<(), StoreError>)
        requires
            old(self).wf(),
        ensures
            final(self).wf(),
            final(self).path() == old(self).path(),
            r is Ok,
            final(self)@ == loaded_map(views(snapshot@)),
    {
        self.import_terms(snapshot)
    }

    /// Takes each term of `other` that is new here or strictly newer than the
    /// term here with the same Hebrew text.
    pub fn merge_with(&mut self, other: &TechnicalDictionary) -> (r: Result<(), StoreError>)
        requires
            old(self).wf(),
        ensures
            final(self).wf(),
            final(self).path() == old(self).path(),
            r is Ok,
            final(self)@ == merged(old(self)@, other.entries()),
    {
        let ghost s = other.entries();
        let ghost base = self@;
        let mut i: usize = 0;
        while i < other.terms.len()
            invariant
                s == other.entries(),
                i <= other.terms@.len(),
                strictly_sorted(self.entries()),
                self@ == merged(base, s.subrange(0, i as int)),
                self.file_path == old(self).file_path,
            decreases other.terms.len() - i,
        {
            let t = &other.terms[i];
            assert(s.subrange(0, i + 1).drop_last() =~= s.subrange(0, i as int));
            assert(s.subrange(0, i + 1).last() == t@);
            let take = match self.position_of(&t.hebrew) {
                Some(p) => {
                    proof {
                        lemma_term_map_at(self.entries(), p as int);
                    }
                    self.terms[p].last_updated < t.last_updated
                },
                None => true,
            };
            if take {
                self.put_term(t.copy());
            }
            i = i + 1;
        }
        assert(s.subrange(0, other.terms@.len() as int) =~= s);
        self.rebuild_indices();
        Ok(())
    }
}


/// Each synonym in turn replaced by `to`.
pub open spec fn replace_each(text: Seq<char>, synonyms: Seq<Seq<char>>, to: Seq<char>) -> Seq<char>
    decreases synonyms.len(),
{
    if synonyms.len() == 0 {
        text
    } else {
        replace_all(replace_each(text, synonyms.drop_last(), to), synonyms.last(), to)
    }
}

/// One term's substitutions for the source language: its primary text, then
/// each of its synonyms, replaced by the other language's text.
pub open spec fn apply_term(text: Seq<char>, t: TermView, source: Seq<char>) -> Seq<char> {
    if source == code_he() {
        replace_each(replace_all(text, t.hebrew, t.russian), t.synonyms_he, t.russian)
    } else if source == code_ru() {
        replace_each(replace_all(text, t.russian, t.hebrew), t.synonyms_ru, t.hebrew)
    } else {
        text
    }
}

/// The substitutions of all terms, applied in order.
pub open spec fn translated(text: Seq<char>, terms: Seq<TermView>, source: Seq<char>) -> Seq<char>
    decreases terms.len(),
{
    if terms.len() == 0 {
        text
    } else {
        apply_term(translated(text, terms.drop_last(), source), terms.last(), source)
    }
}

fn replace_each_exec(text: String, synonyms: &Vec<String>, to: &String) -> (r: String)
    ensures
        r@ == replace_each(text@, seqs_of(synonyms@), to@),
{
    let mut out = text;
    let mut i: usize = 0;
    while i < synonyms.len()
        invariant
            i <= synonyms@.len(),
            out@ == replace_each(text@, seqs_of(synonyms@).subrange(0, i as int), to@),
        decreases synonyms.len() - i,
    {
        let next = replace_all_exec(out.as_str(), synonyms[i].as_str(), to.as_str());
        assert(seqs_of(synonyms@).subrange(0, i + 1).drop_last() =~= seqs_of(synonyms@).subrange(0, i as int));
        out = next;
        i = i + 1;
    }
    assert(seqs_of(synonyms@).subrange(0, synonyms@.len() as int) =~= seqs_of(synonyms@));
    out
}

impl TechnicalDictionary {
    /// Substitutes every known term of the source language ("he" or "ru") in
    /// `text` by its counterpart, term by term in Hebrew order; text that is
    /// no term is left untouched. The target follows from the source, so
    /// `target_lang` is not consulted.
    pub fn translate(&self, text: &str, source_lang: &str, target_lang: &str) -> (r: String)
        ensures
            r@ == translated(text@, self.entries(), source_lang@),
    {
        let he = is_code(source_lang, 'h', 'e');
        let ru = is_code(source_lang, 'r', 'u');
        let mut out = String::from_str(text);
        let mut i: usize = 0;
        assert(self.entries().subrange(0, 0) =~= Seq::<TermView>::empty());
        while i < self.terms.len()
            invariant
                i <= self.terms@.len(),
                he == (source_lang@ == code_he()),
                ru == (source_lang@ == code_ru()),
                out@ == translated(text@, self.entries().subrange(0, i as int), source_lang@),
            decreases self.terms.len() - i,
        {
            let t = &self.terms[i];
            if he {
                let step = replace_all_exec(out.as_str(), t.hebrew.as_str(), t.russian.as_str());
                out = replace_each_exec(step, &t.synonyms_he, &t.russian);
            } else if ru {
                let step = replace_all_exec(out.as_str(), t.russian.as_str(), t.hebrew.as_str());
                out = replace_each_exec(step, &t.synonyms_ru, &t.hebrew);
            }
            proof {
                let e = self.entries();
                assert(e.subrange(0, i + 1).drop_last() =~= e.subrange(0, i as int));
                assert(e.subrange(0, i + 1).last() == t@);
            }
            i = i + 1;
        }
        assert(self.entries().subrange(0, self.terms@.len() as int) =~= self.entries());
        out
    }
}


/// Position of the term with this Hebrew text in a sorted list of terms.
pub fn find_term(terms: &Vec<TechnicalTerm>, hebrew: &String) -> (r: Option<usize>)
    requires
        strictly_sorted(views(terms@)),
    ensures
        match r {
            Some(i) => i < terms@.len() && terms@[i as int].hebrew@ == hebrew@
                && term_map(views(terms@)).dom().contains(hebrew@)
                && term_map(views(terms@))[hebrew@] == terms@[i as int]@,
            None => !term_map(views(terms@)).dom().contains(hebrew@),
        },
{
    let mut i: usize = 0;
    while i < terms.len()
        invariant
            strictly_sorted(views(terms@)),
            i <= terms@.len(),
            forall|j: int| 0 <= j < i ==> (#[trigger] terms@[j]).hebrew@ != hebrew@,
        decreases terms.len() - i,
    {
        if terms[i].hebrew == *hebrew {
            proof {
                lemma_term_map_at(views(terms@), i as int);
            }
            return Some(i);
        }
        i = i + 1;
    }
    proof {
        if term_map(views(terms@)).dom().contains(hebrew@) {
            let j = choose|j: int| 0 <= j < views(terms@).len() && #[trigger] views(terms@)[j].hebrew == hebrew@;
            assert(terms@[j].hebrew@ == hebrew@);
        }
    }
    None
}

/// The list of terms of a well-formed store is sorted.
pub proof fn lemma_entries_sorted(d: &TechnicalDictionary)
    requires
        d.wf(),
    ensures
        strictly_sorted(d.entries()),
{
}


/// A term found by an exact-match query has the query text as its primary
/// field or, when synonyms are included, as one of its synonyms; and the same
/// query in substring mode finds it too.
pub proof fn lemma_exact_search_within_substring(q: SearchQuery, t: TermView)
    requires
        q.exact_match,
        query_matches(q, t),
    ensures
        primary_field(t, q.lang@) == q.text@ || (q.include_synonyms && exists|k: int|
            0 <= k < synonym_field(t, q.lang@).len() && #[trigger] synonym_field(t, q.lang@)[k] == q.text@),
        query_matches(SearchQuery { exact_match: false, ..q }, t),
{
    let p = SearchQuery { exact_match: false, ..q };
    let f = primary_field(t, q.lang@);
    if f == q.text@ {
        assert(f.subrange(0, f.len() as int) =~= f);
        assert(occurs_at(f, q.text@, 0));
        assert(text_hit(f, p.text@, p.exact_match));
    } else {
        let syn = synonym_field(t, q.lang@);
        let k = choose|k: int| 0 <= k < syn.len() && text_hit(#[trigger] syn[k], q.text@, q.exact_match);
        assert(syn[k] == q.text@);
        assert(syn[k].subrange(0, syn[k].len() as int) =~= syn[k]);
        assert(occurs_at(syn[k], q.text@, 0));
        assert(text_hit(syn[k], p.text@, p.exact_match));
    }
}

} // verus!
