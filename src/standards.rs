//! A database of technical standards keyed by code, with cross-references.

use vstd::prelude::*;
use crate::strings::seqs_of;

verus! {

pub struct Standard {
    pub code: String,
    pub name_he: String,
    pub name_ru: String,
    pub country: String,
    pub description_he: Option<String>,
    pub description_ru: Option<String>,
    /// Codes of related standards.
    pub related_standards: Vec<String>,
}

/// The standards, at most one per code.
pub struct StandardsDatabase {
    standards: Vec<Standard>,
}

pub open spec fn codes(s: Seq<Standard>) -> Seq<Seq<char>> {
    s.map_values(|st: Standard| st.code@)
}

/// The position of the standard with code `c`.
pub open spec fn code_pos(s: Seq<Standard>, c: Seq<char>) -> int {
    choose|i: int| 0 <= i < s.len() && s[i].code@ == c
}

/// The standards that `related` names and the database holds, in that order.
pub open spec fn resolved(s: Seq<Standard>, related: Seq<Seq<char>>) -> Seq<Standard>
    decreases related.len(),
{
    if related.len() == 0 {
        Seq::empty()
    } else {
        let prev = resolved(s, related.drop_last());
        if codes(s).contains(related.last()) {
            prev.push(s[code_pos(s, related.last())])
        } else {
            prev
        }
    }
}

proof fn lemma_code_pos(s: Seq<Standard>, j: int)
    requires
        codes(s).no_duplicates(),
        0 <= j < s.len(),
    ensures
        code_pos(s, s[j].code@) == j,
{
    let i = code_pos(s, s[j].code@);
    assert(0 <= i < s.len() && s[i].code@ == s[j].code@);
    assert(codes(s)[i] == codes(s)[j]);
}

fn find_code(s: &Vec<Standard>, code: &String) -> (r: Option<usize>)
    requires
        codes(s@).no_duplicates(),
    ensures
        match r {
            Some(i) => i < s@.len() && s@[i as int].code@ == code@ && codes(s@).contains(code@)
                && code_pos(s@, code@) == i,
            None => !codes(s@).contains(code@),
        },
{
    let mut i: usize = 0;
    while i < s.len()
        invariant
            i <= s@.len(),
            codes(s@).no_duplicates(),
            forall|k: int| 0 <= k < i ==> (#[trigger] s@[k]).code@ != code@,
        decreases s.len() - i,
    {
        if s[i].code == *code {
            proof {
                assert(codes(s@)[i as int] == code@);
                lemma_code_pos(s@, i as int);
            }
            return Some(i);
        }
        i = i + 1;
    }
    proof {
        if codes(s@).contains(code@) {
            let k = choose|k: int| 0 <= k < codes(s@).len() && codes(s@)[k] == code@;
            assert(s@[k].code@ == code@);
        }
    }
    None
}

impl StandardsDatabase {
    pub closed spec fn entries(&self) -> Seq<Standard> {
        self.standards@
    }

    pub open spec fn wf(&self) -> bool {
        codes(self.entries()).no_duplicates()
    }

    pub fn new() -> (r: StandardsDatabase)
        ensures
            r.wf(),
            r.entries().len() == 0,
    {
        StandardsDatabase { standards: Vec::new() }
    }

    /// Adds a standard, replacing the one with the same code.
    pub fn add_standard(&mut self, standard: Standard)
        requires
            old(self).wf(),
        ensures
            final(self).wf(),
            codes(old(self).entries()).contains(standard.code@) ==> final(self).entries() == old(self).entries().update(
                code_pos(old(self).entries(), standard.code@),
                standard,
            ),
            !codes(old(self).entries()).contains(standard.code@) ==> final(self).entries() == old(self).entries().push(standard),
    {
        let ghost before = self.standards@;
        let ghost st = standard;
        match find_code(&self.standards, &standard.code) {
            Some(i) => {
                self.standards.set(i, standard);
                assert(codes(self.standards@) =~= codes(before));
            },
            None => {
                self.standards.push(standard);
                assert(codes(self.standards@) =~= codes(before).push(st.code@));
            },
        }
    }

    /// The standard with this code.
    pub fn get_standard(&self, code: &str) -> (r: Option<&Standard>)
        requires
            self.wf(),
        ensures
            match r {
                Some(st) => codes(self.entries()).contains(code@) && *st == self.entries()[code_pos(self.entries(), code@)],
                None => !codes(self.entries()).contains(code@),
            },
    {
        let key = String::from_str(code);
        match find_code(&self.standards, &key) {
            Some(i) => Some(&self.standards[i]),
            None => None,
        }
    }

    /// The standards that the standard with this code refers to and that the
    /// database holds, in the order of its references; nothing for an unknown code.
    pub fn get_related_standards(&self, code: &str) -> (r: Vec<&Standard>)
        requires
            self.wf(),
        ensures
            !codes(self.entries()).contains(code@) ==> r@.len() == 0,
            codes(self.entries()).contains(code@) ==> r@.map_values(|st: &Standard| *st) == resolved(
                self.entries(),
                seqs_of(self.entries()[code_pos(self.entries(), code@)].related_standards@),
            ),
    {
        let mut r: Vec<&Standard> = Vec::new();
        let key = String::from_str(code);
        let i = match find_code(&self.standards, &key) {
            Some(i) => i,
            None => return r,
        };
        let related = &self.standards[i].related_standards;
        let mut k: usize = 0;
        while k < related.len()
            invariant
                self.wf(),
                k <= related@.len(),
                r@.map_values(|st: &Standard| *st) == resolved(self.standards@, seqs_of(related@).subrange(0, k as int)),
            decreases related.len() - k,
        {
            proof {
                assert(seqs_of(related@).subrange(0, k + 1).drop_last() =~= seqs_of(related@).subrange(0, k as int));
                assert(seqs_of(related@).subrange(0, k + 1).last() == related@[k as int]@);
            }
            match find_code(&self.standards, &related[k]) {
                Some(j) => {
                    let ghost before = r@;
                    r.push(&self.standards[j]);
                    assert(r@.map_values(|st: &Standard| *st) =~= before.map_values(|st: &Standard| *st).push(self.standards@[j as int]));
                },
                None => {},
            }
            k = k + 1;
        }
        assert(seqs_of(related@).subrange(0, related@.len() as int) =~= seqs_of(related@));
        r
    }
}

/// The initial database: the Israeli sprinkler standard and the Russian steel
/// pipe standard.
pub fn create_initial_standards() -> (r: StandardsDatabase)
    ensures
        r.wf(),
        codes(r.entries()) == seq!["IS1596"@, "GOST3262-75"@],
        r.entries()[0].name_he@ == "תקן ישראלי 1596 - מערכות מתזים"@,
        r.entries()[0].name_ru@ == "Израильский стандарт 1596 - Спринклерные системы"@,
        r.entries()[0].country@ == "ישראל"@,
        r.entries()[0].description_he is Some && r.entries()[0].description_he->0@ == "תקן למערכות כיבוי אש אוטומטיות (ספרינקלרים)"@,
        r.entries()[0].description_ru is Some && r.entries()[0].description_ru->0@ == "Стандарт для автоматических систем пожаротушения (спринклеров)"@,
        seqs_of(r.entries()[0].related_standards@) == seq!["NFPA13"@],
        r.entries()[1].name_he@ == "תקן ГОСТ 3262-75 - צנרת פלדה"@,
        r.entries()[1].name_ru@ == "ГОСТ 3262-75 - Стальные трубы"@,
        r.entries()[1].country@ == "רוסיה"@,
        r.entries()[1].description_he is Some && r.entries()[1].description_he->0@ == "תקן לצנרת פלדה מגולוונת למערכות אינסטלציה"@,
        r.entries()[1].description_ru is Some && r.entries()[1].description_ru->0@ == "Стандарт для оцинкованных стальных труб в системах водоснабжения"@,
        r.entries()[1].related_standards@.len() == 0,
        !codes(r.entries()).contains("NFPA13"@),
{
    let mut db = StandardsDatabase::new();
    let mut related: Vec<String> = Vec::new();
    related.push(String::from_str("NFPA13"));
    db.add_standard(Standard {
        code: String::from_str("IS1596"),
        name_he: String::from_str("תקן ישראלי 1596 - מערכות מתזים"),
        name_ru: String::from_str("Израильский стандарт 1596 - Спринклерные системы"),
        country: String::from_str("ישראל"),
        description_he: Some(String::from_str("תקן למערכות כיבוי אש אוטומטיות (ספרינקלרים)")),
        description_ru: Some(String::from_str("Стандарт для автоматических систем пожаротушения (спринклеров)")),
        related_standards: related,
    });
    proof {
        reveal_strlit("IS1596");
        reveal_strlit("GOST3262-75");
        reveal_strlit("NFPA13");
        assert("IS1596"@[0] != "GOST3262-75"@[0]);
        assert("NFPA13"@[0] != "GOST3262-75"@[0] && "NFPA13"@[0] != "IS1596"@[0]);
    }
    db.add_standard(Standard {
        code: String::from_str("GOST3262-75"),
        name_he: String::from_str("תקן ГОСТ 3262-75 - צנרת פלדה"),
        name_ru: String::from_str("ГОСТ 3262-75 - Стальные трубы"),
        country: String::from_str("רוסיה"),
        description_he: Some(String::from_str("תקן לצנרת פלדה מגולוונת למערכות אינסטלציה")),
        description_ru: Some(String::from_str("Стандарт для оцинкованных стальных труб в системах водоснабжения")),
        related_standards: Vec::new(),
    });
    assert(codes(db.entries()) =~= seq!["IS1596"@, "GOST3262-75"@]);
    assert(seqs_of(db.entries()[0].related_standards@) =~= seq!["NFPA13"@]);
    db
}

} // verus!
