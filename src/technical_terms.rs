//! A small bilingual term table with a reverse Russian-to-Hebrew lookup, as
//! used for quick lookups during translation.

use vstd::prelude::*;
use crate::knowledge::{key_pos, lemma_key_pos};

verus! {

pub struct TechnicalTerm {
    pub hebrew: String,
    pub russian: String,
    pub english: Option<String>,
    pub context: String,
    pub standards: Vec<String>,
    pub notes: Option<String>,
}

/// Terms keyed by Hebrew text, and Hebrew text keyed by Russian text.
pub struct TermsDatabase {
    terms: Vec<TechnicalTerm>,
    russian_to_hebrew: Vec<(String, String)>,
}

pub open spec fn hebrew_keys(s: Seq<TechnicalTerm>) -> Seq<Seq<char>> {
    s.map_values(|t: TechnicalTerm| t.hebrew@)
}

pub open spec fn russian_keys(s: Seq<(String, String)>) -> Seq<Seq<char>> {
    s.map_values(|p: (String, String)| p.0@)
}

/// The terms with `t` in place of the term with its Hebrew text.
pub open spec fn put_term(s: Seq<TechnicalTerm>, t: TechnicalTerm) -> Seq<TechnicalTerm> {
    if hebrew_keys(s).contains(t.hebrew@) {
        s.update(key_pos(hebrew_keys(s), t.hebrew@), t)
    } else {
        s.push(t)
    }
}

/// The reverse lookup with `p` in place of the entry for its Russian text.
pub open spec fn put_pair(s: Seq<(String, String)>, p: (String, String)) -> Seq<(String, String)> {
    if russian_keys(s).contains(p.0@) {
        s.update(key_pos(russian_keys(s), p.0@), p)
    } else {
        s.push(p)
    }
}

fn find_hebrew(s: &Vec<TechnicalTerm>, key: &String) -> (r: Option<usize>)
    requires
        hebrew_keys(s@).no_duplicates(),
    ensures
        match r {
            Some(i) => i < s@.len() && hebrew_keys(s@).contains(key@) && key_pos(hebrew_keys(s@), key@) == i,
            None => !hebrew_keys(s@).contains(key@),
        },
{
    let mut i: usize = 0;
    while i < s.len()
        invariant
            i <= s@.len(),
            hebrew_keys(s@).no_duplicates(),
            forall|j: int| 0 <= j < i ==> (#[trigger] s@[j]).hebrew@ != key@,
        decreases s.len() - i,
    {
        if s[i].hebrew == *key {
            assert(hebrew_keys(s@)[i as int] == key@);
            proof {
                lemma_key_pos(hebrew_keys(s@), i as int);
            }
            return Some(i);
        }
        i = i + 1;
    }
    proof {
        if hebrew_keys(s@).contains(key@) {
            let j = choose|j: int| 0 <= j < hebrew_keys(s@).len() && hebrew_keys(s@)[j] == key@;
            assert(s@[j].hebrew@ == key@);
        }
    }
    None
}

fn find_russian(s: &Vec<(String, String)>, key: &String) -> (r: Option<usize>)
    requires
        russian_keys(s@).no_duplicates(),
    ensures
        match r {
            Some(i) => i < s@.len() && russian_keys(s@).contains(key@) && key_pos(russian_keys(s@), key@) == i,
            None => !russian_keys(s@).contains(key@),
        },
{
    let mut i: usize = 0;
    while i < s.len()
        invariant
            i <= s@.len(),
            russian_keys(s@).no_duplicates(),
            forall|j: int| 0 <= j < i ==> (#[trigger] s@[j]).0@ != key@,
        decreases s.len() - i,
    {
        if s[i].0 == *key {
            assert(russian_keys(s@)[i as int] == key@);
            proof {
                lemma_key_pos(russian_keys(s@), i as int);
            }
            return Some(i);
        }
        i = i + 1;
    }
    proof {
        if russian_keys(s@).contains(key@) {
            let j = choose|j: int| 0 <= j < russian_keys(s@).len() && russian_keys(s@)[j] == key@;
            assert(s@[j].0@ == key@);
        }
    }
    None
}

impl TermsDatabase {
    pub closed spec fn terms(&self) -> Seq<TechnicalTerm> {
        self.terms@
    }

    pub closed spec fn reverse(&self) -> Seq<(String, String)> {
        self.russian_to_hebrew@
    }

    pub open spec fn wf(&self) -> bool {
        hebrew_keys(self.terms()).no_duplicates() && russian_keys(self.reverse()).no_duplicates()
    }

    pub fn new() -> (r: TermsDatabase)
        ensures
            r.wf(),
            r.terms().len() == 0,
            r.reverse().len() == 0,
    {
        TermsDatabase { terms: Vec::new(), russian_to_hebrew: Vec::new() }
    }

    /// Stores a term under its Hebrew text and maps its Russian text to it,
    /// replacing earlier entries with the same keys.
    pub fn add_term(&mut self, term: TechnicalTerm)
        requires
            old(self).wf(),
        ensures
            final(self).wf(),
            final(self).terms() == put_term(old(self).terms(), term),
            final(self).reverse() == put_pair(old(self).reverse(), (term.russian, term.hebrew)),
    {
        let ghost t = term;
        let pair = (term.russian.clone(), term.hebrew.clone());
        let ghost before_r = self.russian_to_hebrew@;
        match find_russian(&self.russian_to_hebrew, &pair.0) {
            Some(i) => {
                self.russian_to_hebrew.set(i, pair);
                assert(russian_keys(self.russian_to_hebrew@) =~= russian_keys(before_r));
            },
            None => {
                self.russian_to_hebrew.push(pair);
                assert(russian_keys(self.russian_to_hebrew@) =~= russian_keys(before_r).push(t.russian@));
            },
        }
        let ghost before_t = self.terms@;
        match find_hebrew(&self.terms, &term.hebrew) {
            Some(i) => {
                self.terms.set(i, term);
                assert(hebrew_keys(self.terms@) =~= hebrew_keys(before_t));
            },
            None => {
                self.terms.push(term);
                assert(hebrew_keys(self.terms@) =~= hebrew_keys(before_t).push(t.hebrew@));
            },
        }
    }

    /// The Russian text of the term with this Hebrew text.
    pub fn get_russian_translation(&self, hebrew_term: &str) -> (r: Option<&String>)
        requires
            self.wf(),
        ensures
            match r {
                Some(s) => hebrew_keys(self.terms()).contains(hebrew_term@)
                    && *s == self.terms()[key_pos(hebrew_keys(self.terms()), hebrew_term@)].russian,
                None => !hebrew_keys(self.terms()).contains(hebrew_term@),
            },
    {
        let key = String::from_str(hebrew_term);
        match find_hebrew(&self.terms, &key) {
            Some(i) => Some(&self.terms[i].russian),
            None => None,
        }
    }

    /// The Hebrew text that this Russian text was last added with.
    pub fn get_hebrew_translation(&self, russian_term: &str) -> (r: Option<&String>)
        requires
            self.wf(),
        ensures
            match r {
                Some(s) => russian_keys(self.reverse()).contains(russian_term@)
                    && *s == self.reverse()[key_pos(russian_keys(self.reverse()), russian_term@)].1,
                None => !russian_keys(self.reverse()).contains(russian_term@),
            },
    {
        let key = String::from_str(russian_term);
        match find_russian(&self.russian_to_hebrew, &key) {
            Some(i) => Some(&self.russian_to_hebrew[i].1),
            None => None,
        }
    }

    /// Every Hebrew key.
    pub fn get_all_hebrew_terms(&self) -> (r: Vec<&String>)
        ensures
            r@.map_values(|s: &String| s@) == hebrew_keys(self.terms()),
    {
        let mut r: Vec<&String> = Vec::new();
        let mut i: usize = 0;
        while i < self.terms.len()
            invariant
                i <= self.terms@.len(),
                r@.map_values(|s: &String| s@) == hebrew_keys(self.terms@).subrange(0, i as int),
            decreases self.terms.len() - i,
        {
            let ghost before = r@;
            r.push(&self.terms[i].hebrew);
            proof {
                assert(r@ == before.push(&self.terms@[i as int].hebrew));
                assert(hebrew_keys(self.terms@)[i as int] == self.terms@[i as int].hebrew@);
                assert(r@.map_values(|s: &String| s@) =~= before.map_values(|s: &String| s@).push(self.terms@[i as int].hebrew@));
                assert(hebrew_keys(self.terms@).subrange(0, i + 1) =~= hebrew_keys(self.terms@).subrange(0, i as int).push(
                    hebrew_keys(self.terms@)[i as int],
                ));
            }
            i = i + 1;
        }
        assert(hebrew_keys(self.terms@).subrange(0, self.terms@.len() as int) =~= hebrew_keys(self.terms@));
        r
    }

    /// Every Russian key.
    pub fn get_all_russian_terms(&self) -> (r: Vec<&String>)
        ensures
            r@.map_values(|s: &String| s@) == russian_keys(self.reverse()),
    {
        let mut r: Vec<&String> = Vec::new();
        let mut i: usize = 0;
        while i < self.russian_to_hebrew.len()
            invariant
                i <= self.russian_to_hebrew@.len(),
                r@.map_values(|s: &String| s@) == russian_keys(self.russian_to_hebrew@).subrange(0, i as int),
            decreases self.russian_to_hebrew.len() - i,
        {
            let ghost before = r@;
            r.push(&self.russian_to_hebrew[i].0);
            proof {
                let ks = russian_keys(self.russian_to_hebrew@);
                assert(r@ == before.push(&self.russian_to_hebrew@[i as int].0));
                assert(ks[i as int] == self.russian_to_hebrew@[i as int].0@);
                assert(r@.map_values(|s: &String| s@) =~= before.map_values(|s: &String| s@).push(ks[i as int]));
                assert(ks.subrange(0, i + 1) =~= ks.subrange(0, i as int).push(ks[i as int]));
            }
            i = i + 1;
        }
        assert(russian_keys(self.russian_to_hebrew@).subrange(0, self.russian_to_hebrew@.len() as int) =~= russian_keys(
            self.russian_to_hebrew@,
        ));
        r
    }

    /// The context of the term with this Hebrew text.
    pub fn get_term_context(&self, term: &str) -> (r: Option<&String>)
        requires
            self.wf(),
        ensures
            match r {
                Some(s) => hebrew_keys(self.terms()).contains(term@)
                    && *s == self.terms()[key_pos(hebrew_keys(self.terms()), term@)].context,
                None => !hebrew_keys(self.terms()).contains(term@),
            },
    {
        let key = String::from_str(term);
        match find_hebrew(&self.terms, &key) {
            Some(i) => Some(&self.terms[i].context),
            None => None,
        }
    }

    /// The standards of the term with this Hebrew text.
    pub fn get_term_standards(&self, term: &str) -> (r: Option<&Vec<String>>)
        requires
            self.wf(),
        ensures
            match r {
                Some(s) => hebrew_keys(self.terms()).contains(term@)
                    && *s == self.terms()[key_pos(hebrew_keys(self.terms()), term@)].standards,
                None => !hebrew_keys(self.terms()).contains(term@),
            },
    {
        let key = String::from_str(term);
        match find_hebrew(&self.terms, &key) {
            Some(i) => Some(&self.terms[i].standards),
            None => None,
        }
    }
}

fn strings2(a: &str, b: &str) -> (r: Vec<String>)
    ensures
        r@.len() == 2,
        r@[0]@ == a@,
        r@[1]@ == b@,
{
    let mut v: Vec<String> = Vec::new();
    v.push(String::from_str(a));
    v.push(String::from_str(b));
    v
}

fn strings1(a: &str) -> (r: Vec<String>)
    ensures
        r@.len() == 1,
        r@[0]@ == a@,
{
    let mut v: Vec<String> = Vec::new();
    v.push(String::from_str(a));
    v
}

/// The basic sprinkler and piping terms.
pub fn create_initial_terms() -> (r: TermsDatabase)
    ensures
        r.wf(),
        hebrew_keys(r.terms()) == seq!["ראש ספרינקלר"@, "צנרת אספקה"@, "מגוף שליטה"@, "לחץ עבודה"@],
{
    proof {
        reveal_strlit("ראש ספרינקלר");
        reveal_strlit("צנרת אספקה");
        reveal_strlit("מגוף שליטה");
        reveal_strlit("לחץ עבודה");
        let a = "ראש ספרינקלר"@;
        let b = "צנרת אספקה"@;
        let c = "מגוף שליטה"@;
        let d = "לחץ עבודה"@;
        assert(a[0] != b[0] && a[0] != c[0] && a[0] != d[0] && b[0] != c[0] && b[0] != d[0] && c[0] != d[0]);
        assert(a != b && a != c && a != d && b != c && b != d && c != d);
    }
    let mut db = TermsDatabase::new();
    db.add_term(TechnicalTerm {
        hebrew: String::from_str("ראש ספרינקלר"),
        russian: String::from_str("ороситель/спринклер"),
        english: Some(String::from_str("Sprinkler Head")),
        context: String::from_str("מערכות כיבוי אש אוטומטיות"),
        standards: strings2("NFPA 13", "תקן ישראלי 1596"),
        notes: None,
    });
    assert(hebrew_keys(db.terms()) =~= seq!["ראש ספרינקלר"@]);
    db.add_term(TechnicalTerm {
        hebrew: String::from_str("צנרת אספקה"),
        russian: String::from_str("питающий трубопровод"),
        english: Some(String::from_str("Supply Pipe")),
        context: String::from_str("מערכות אינסטלציה"),
        standards: strings1("ГОСТ 3262-75"),
        notes: None,
    });
    assert(hebrew_keys(db.terms()) =~= seq!["ראש ספרינקלר"@, "צנרת אספקה"@]);
    db.add_term(TechnicalTerm {
        hebrew: String::from_str("מגוף שליטה"),
        russian: String::from_str("контрольно-сигнальный клапан"),
        english: Some(String::from_str("Control Valve")),
        context: String::from_str("מערכות כיבוי אש"),
        standards: strings2("NFPA 13", "ГОСТ 51052-2002"),
        notes: None,
    });
    assert(hebrew_keys(db.terms()) =~= seq!["ראש ספרינקלר"@, "צנרת אספקה"@, "מגוף שליטה"@]);
    db.add_term(TechnicalTerm {
        hebrew: String::from_str("לחץ עבודה"),
        russian: String::from_str("рабочее давление"),
        english: Some(String::from_str("Working Pressure")),
        context: String::from_str("מערכות אינסטלציה וכיבוי אש"),
        standards: strings1("ГОСТ 356-80"),
        notes: None,
    });
    assert(hebrew_keys(db.terms()) =~= seq!["ראש ספרינקלר"@, "צנרת אספקה"@, "מגוף שליטה"@, "לחץ עבודה"@]);
    db
}

} // verus!
