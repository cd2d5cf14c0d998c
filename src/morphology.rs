//! Morphological data types and the character-level utilities for Hebrew and
//! Russian words: script tests, prefix and suffix stripping, cleaning and
//! tokenisation.

use vstd::prelude::*;

verus! {

#[derive(Debug, Clone, PartialEq, Eq)]
pub enum MorphologyError {
    AnalysisError(String),
    RootAnalysisError(String),
    InflectionError(String),
    ContextError(String),
}

/// Grammatical gender.
#[derive(Debug, Clone, Copy, PartialEq, Eq, Structural)]
pub enum Gender {
    Masculine,
    Feminine,
    Neuter,
}

/// Grammatical number.
#[derive(Debug, Clone, Copy, PartialEq, Eq, Structural)]
pub enum Number {
    Singular,
    Plural,
    Dual,
}

/// Hebrew verb pattern.
#[derive(Debug, Clone, Copy, PartialEq, Eq, Structural)]
pub enum HebrewBinyan {
    Paal,
    Piel,
    Hifil,
    Hitpael,
    Nifal,
    Pual,
    Hufal,
}

/// Hebrew noun pattern.
#[derive(Debug, Clone)]
pub struct HebrewPattern {
    pub pattern: String,
    pub description: String,
}

/// The result of analysing a Hebrew word.
#[derive(Debug, Clone)]
pub struct HebrewMorphology {
    pub root: Vec<char>,
    pub pattern: Option<HebrewPattern>,
    pub binyan: Option<HebrewBinyan>,
    pub gender: Option<Gender>,
    pub number: Option<Number>,
}

/// Verb tense.
#[derive(Debug, Clone, Copy, PartialEq, Eq, Structural)]
pub enum Tense {
    Past,
    Present,
    Future,
    Imperative,
    Infinitive,
}

/// Grammatical person.
#[derive(Debug, Clone, Copy, PartialEq, Eq, Structural)]
pub enum Person {
    First,
    Second,
    Third,
}

/// Semantic information attached to an analysis.
#[derive(Debug, Clone)]
pub struct SemanticInfo {
    pub domain: Vec<String>,
    pub register: String,
    pub usage_examples: Vec<String>,
}

/// The 27 Hebrew letters, final forms included (U+05D0 to U+05EA).
pub open spec fn hebrew_letter(c: char) -> bool {
    0x5D0 <= (c as u32) <= 0x5EA
}

/// The 33 lowercase Russian letters: U+0430 to U+044F and U+0451 (yo).
pub open spec fn russian_letter(c: char) -> bool {
    (0x430 <= (c as u32) <= 0x44F) || (c as u32) == 0x451
}

/// Unicode White_Space, as `char::is_whitespace` defines it.
pub open spec fn white_space(c: char) -> bool {
    let u = c as u32;
    (0x9 <= u <= 0xD) || u == 0x20 || u == 0x85 || u == 0xA0 || u == 0x1680 || (0x2000 <= u <= 0x200A)
        || u == 0x2028 || u == 0x2029 || u == 0x202F || u == 0x205F || u == 0x3000
}

/// ASCII punctuation, as `char::is_ascii_punctuation` defines it.
pub open spec fn ascii_punctuation(c: char) -> bool {
    let u = c as u32;
    (0x21 <= u <= 0x2F) || (0x3A <= u <= 0x40) || (0x5B <= u <= 0x60) || (0x7B <= u <= 0x7E)
}

/// ASCII white space, as `char::is_ascii_whitespace` defines it.
pub open spec fn ascii_white(c: char) -> bool {
    let u = c as u32;
    u == 0x20 || u == 0x9 || u == 0xA || u == 0xC || u == 0xD
}

/// The single-letter Hebrew prefixes: bet, he, vav, kaf, lamed, mem, shin.
pub open spec fn hebrew_prefix(c: char) -> bool {
    let u = c as u32;
    u == 0x5D1 || u == 0x5D4 || u == 0x5D5 || u == 0x5DB || u == 0x5DC || u == 0x5DE || u == 0x5E9
}

/// The Hebrew suffixes, longest first: tav-yod-yod-final mem, yod-yod-final
/// mem, yod-final mem, vav-tav, nun-vav, kaf-final mem, kaf-final nun,
/// he-final mem, he-final nun, he, tav, yod.
pub open spec fn hebrew_suffixes() -> Seq<Seq<char>> {
    seq![
        seq!['\u{5EA}', '\u{5D9}', '\u{5D9}', '\u{5DD}'],
        seq!['\u{5D9}', '\u{5D9}', '\u{5DD}'],
        seq!['\u{5D9}', '\u{5DD}'],
        seq!['\u{5D5}', '\u{5EA}'],
        seq!['\u{5E0}', '\u{5D5}'],
        seq!['\u{5DB}', '\u{5DD}'],
        seq!['\u{5DB}', '\u{5DF}'],
        seq!['\u{5D4}', '\u{5DD}'],
        seq!['\u{5D4}', '\u{5DF}'],
        seq!['\u{5D4}'],
        seq!['\u{5EA}'],
        seq!['\u{5D9}'],
    ]
}

/// The final form of a letter that has one (kaf, mem, nun, pe, tsadi).
pub open spec fn final_form(c: char) -> char {
    let u = c as u32;
    if u == 0x5DB {
        '\u{5DA}'
    } else if u == 0x5DE {
        '\u{5DD}'
    } else if u == 0x5E0 {
        '\u{5DF}'
    } else if u == 0x5E4 {
        '\u{5E3}'
    } else if u == 0x5E6 {
        '\u{5E5}'
    } else {
        c
    }
}

pub open spec fn ends_with(s: Seq<char>, suffix: Seq<char>) -> bool {
    suffix.len() <= s.len() && s.subrange(s.len() - suffix.len(), s.len() as int) == suffix
}

/// The index of the first suffix in the list, from position `k` on, that `s` ends with.
pub open spec fn first_suffix_from(s: Seq<char>, k: int) -> Option<int>
    decreases hebrew_suffixes().len() - k,
{
    if k < 0 || k >= hebrew_suffixes().len() {
        None
    } else if ends_with(s, hebrew_suffixes()[k]) {
        Some(k)
    } else {
        first_suffix_from(s, k + 1)
    }
}

/// A word's last letter in final form.
pub open spec fn with_final_last(s: Seq<char>) -> Seq<char> {
    if s.len() == 0 {
        s
    } else {
        s.update(s.len() - 1, final_form(s.last()))
    }
}

/// The word without its first matching suffix, its new last letter in final form.
pub open spec fn strip_suffix(s: Seq<char>) -> Seq<char> {
    match first_suffix_from(s, 0) {
        None => s,
        Some(k) => with_final_last(s.subrange(0, s.len() - hebrew_suffixes()[k].len())),
    }
}

/// The word without a leading prefix letter.
pub open spec fn strip_prefix(s: Seq<char>) -> Seq<char> {
    if s.len() > 0 && hebrew_prefix(s[0]) {
        s.drop_first()
    } else {
        s
    }
}

/// The word without ASCII punctuation and ASCII white space.
pub open spec fn cleaned(s: Seq<char>) -> Seq<char> {
    s.filter(|c: char| !ascii_punctuation(c) && !ascii_white(c))
}

/// The word collected so far, when it is not empty.
pub open spec fn emit(cur: Seq<char>) -> Seq<Seq<char>> {
    if cur.len() > 0 {
        seq![cur]
    } else {
        Seq::empty()
    }
}

/// The words of `s` (maximal runs between white space), each without ASCII
/// punctuation, empty ones dropped; `cur` is the word begun before `s`.
pub open spec fn tokens_from(s: Seq<char>, cur: Seq<char>) -> Seq<Seq<char>>
    decreases s.len(),
{
    if s.len() == 0 {
        emit(cur)
    } else if white_space(s[0]) {
        emit(cur) + tokens_from(s.drop_first(), Seq::empty())
    } else if ascii_punctuation(s[0]) {
        tokens_from(s.drop_first(), cur)
    } else {
        tokens_from(s.drop_first(), cur.push(s[0]))
    }
}

/// Whether `c` is a Hebrew letter.
pub fn is_hebrew_letter(c: char) -> (r: bool)
    ensures
        r == hebrew_letter(c),
{
    let u = c as u32;
    0x5D0 <= u && u <= 0x5EA
}

/// Whether `c` is a lowercase Russian letter.
pub fn is_russian_letter(c: char) -> (r: bool)
    ensures
        r == russian_letter(c),
{
    let u = c as u32;
    (0x430 <= u && u <= 0x44F) || u == 0x451
}

fn is_white(c: char) -> (r: bool)
    ensures
        r == white_space(c),
{
    let u = c as u32;
    (0x9 <= u && u <= 0xD) || u == 0x20 || u == 0x85 || u == 0xA0 || u == 0x1680 || (0x2000 <= u && u
        <= 0x200A) || u == 0x2028 || u == 0x2029 || u == 0x202F || u == 0x205F || u == 0x3000
}

fn is_punct(c: char) -> (r: bool)
    ensures
        r == ascii_punctuation(c),
{
    let u = c as u32;
    (0x21 <= u && u <= 0x2F) || (0x3A <= u && u <= 0x40) || (0x5B <= u && u <= 0x60) || (0x7B <= u
        && u <= 0x7E)
}

fn is_ascii_white(c: char) -> (r: bool)
    ensures
        r == ascii_white(c),
{
    let u = c as u32;
    u == 0x20 || u == 0x9 || u == 0xA || u == 0xC || u == 0xD
}

/// Whether every character of the word is a Hebrew letter or white space.
pub fn is_hebrew_word(word: &str) -> (r: bool)
    ensures
        r == forall|i: int| 0 <= i < word@.len() ==> hebrew_letter(#[trigger] word@[i]) || white_space(word@[i]),
{
    let n = word.unicode_len();
    let mut i: usize = 0;
    while i < n
        invariant
            n == word@.len(),
            i <= n,
            forall|k: int| 0 <= k < i ==> hebrew_letter(#[trigger] word@[k]) || white_space(word@[k]),
        decreases n - i,
    {
        let c = word.get_char(i);
        if !is_hebrew_letter(c) && !is_white(c) {
            return false;
        }
        i = i + 1;
    }
    true
}

/// Whether every character of the word is a Russian letter or white space.
pub fn is_russian_word(word: &str) -> (r: bool)
    ensures
        r == forall|i: int| 0 <= i < word@.len() ==> russian_letter(#[trigger] word@[i]) || white_space(word@[i]),
{
    let n = word.unicode_len();
    let mut i: usize = 0;
    while i < n
        invariant
            n == word@.len(),
            i <= n,
            forall|k: int| 0 <= k < i ==> russian_letter(#[trigger] word@[k]) || white_space(word@[k]),
        decreases n - i,
    {
        let c = word.get_char(i);
        if !is_russian_letter(c) && !is_white(c) {
            return false;
        }
        i = i + 1;
    }
    true
}

/// Removes one leading prefix letter, if the word starts with one.
pub fn remove_hebrew_prefixes(word: &str) -> (r: String)
    ensures
        r@ == strip_prefix(word@),
{
    let n = word.unicode_len();
    if n > 0 {
        let c = word.get_char(0);
        let u = c as u32;
        if u == 0x5D1 || u == 0x5D4 || u == 0x5D5 || u == 0x5DB || u == 0x5DC || u == 0x5DE || u == 0x5E9 {
            let rest = word.substring_char(1, n);
            assert(rest@ =~= word@.drop_first());
            return String::from_str(rest);
        }
    }
    String::from_str(word)
}

fn chars_of(a: char, b: char, c: char, d: char, n: usize) -> (r: Vec<char>)
    requires
        1 <= n <= 4,
    ensures
        r@ == seq![a, b, c, d].subrange(0, n as int),
{
    let mut r: Vec<char> = Vec::new();
    r.push(a);
    if n > 1 {
        r.push(b);
    }
    if n > 2 {
        r.push(c);
    }
    if n > 3 {
        r.push(d);
    }
    assert(r@ =~= seq![a, b, c, d].subrange(0, n as int));
    r
}

fn suffix_list() -> (r: Vec<Vec<char>>)
    ensures
        r@.len() == hebrew_suffixes().len(),
        forall|k: int| 0 <= k < r@.len() ==> (#[trigger] r@[k])@ == hebrew_suffixes()[k],
{
    let mut r: Vec<Vec<char>> = Vec::new();
    r.push(chars_of('\u{5EA}', '\u{5D9}', '\u{5D9}', '\u{5DD}', 4));
    r.push(chars_of('\u{5D9}', '\u{5D9}', '\u{5DD}', ' ', 3));
    r.push(chars_of('\u{5D9}', '\u{5DD}', ' ', ' ', 2));
    r.push(chars_of('\u{5D5}', '\u{5EA}', ' ', ' ', 2));
    r.push(chars_of('\u{5E0}', '\u{5D5}', ' ', ' ', 2));
    r.push(chars_of('\u{5DB}', '\u{5DD}', ' ', ' ', 2));
    r.push(chars_of('\u{5DB}', '\u{5DF}', ' ', ' ', 2));
    r.push(chars_of('\u{5D4}', '\u{5DD}', ' ', ' ', 2));
    r.push(chars_of('\u{5D4}', '\u{5DF}', ' ', ' ', 2));
    r.push(chars_of('\u{5D4}', ' ', ' ', ' ', 1));
    r.push(chars_of('\u{5EA}', ' ', ' ', ' ', 1));
    r.push(chars_of('\u{5D9}', ' ', ' ', ' ', 1));
    proof {
        let h = hebrew_suffixes();
        assert forall|k: int| 0 <= k < r@.len() implies (#[trigger] r@[k])@ == h[k] by {
            assert(r@[k]@ =~= h[k]);
        }
    }
    r
}

fn ends_with_exec(word: &str, n: usize, suffix: &Vec<char>) -> (r: bool)
    requires
        n == word@.len(),
    ensures
        r == ends_with(word@, suffix@),
{
    let m = suffix.len();
    if m > n {
        return false;
    }
    let start = n - m;
    let mut j: usize = 0;
    while j < m
        invariant
            n == word@.len(),
            m == suffix@.len(),
            start == n - m,
            j <= m,
            word@.subrange(start as int, start + j) == suffix@.subrange(0, j as int),
        decreases m - j,
    {
        let c = word.get_char(start + j);
        if c != suffix[j] {
            assert(word@.subrange(start as int, n as int)[j as int] == c);
            return false;
        }
        assert(word@.subrange(start as int, start + j + 1) =~= word@.subrange(start as int, start + j).push(c));
        assert(suffix@.subrange(0, j + 1) =~= suffix@.subrange(0, j as int).push(suffix@[j as int]));
        j = j + 1;
    }
    assert(suffix@.subrange(0, m as int) =~= suffix@);
    true
}

fn final_form_exec(c: char) -> (r: char)
    ensures
        r == final_form(c),
{
    let u = c as u32;
    if u == 0x5DB {
        '\u{5DA}'
    } else if u == 0x5DE {
        '\u{5DD}'
    } else if u == 0x5E0 {
        '\u{5DF}'
    } else if u == 0x5E4 {
        '\u{5E3}'
    } else if u == 0x5E6 {
        '\u{5E5}'
    } else {
        c
    }
}

/// Removes the first suffix of the list, longest first, that the word ends
/// with; the letter that becomes last takes its final form.
pub fn remove_hebrew_suffixes(word: &str) -> (r: String)
    ensures
        r@ == strip_suffix(word@),
{
    let n = word.unicode_len();
    let suffixes = suffix_list();
    let mut k: usize = 0;
    while k < suffixes.len()
        invariant
            n == word@.len(),
            k <= suffixes@.len(),
            suffixes@.len() == hebrew_suffixes().len(),
            forall|q: int| 0 <= q < suffixes@.len() ==> (#[trigger] suffixes@[q])@ == hebrew_suffixes()[q],
            first_suffix_from(word@, 0) == first_suffix_from(word@, k as int),
        decreases suffixes.len() - k,
    {
        if ends_with_exec(word, n, &suffixes[k]) {
            let len = n - suffixes[k].len();
            let mut stem: Vec<char> = Vec::new();
            let mut j: usize = 0;
            while j < len
                invariant
                    n == word@.len(),
                    len <= n,
                    j <= len,
                    stem@ == word@.subrange(0, j as int),
                decreases len - j,
            {
                stem.push(word.get_char(j));
                assert(stem@ =~= word@.subrange(0, j + 1));
                j = j + 1;
            }
            if len > 0 {
                let last = final_form_exec(stem[len - 1]);
                stem.set(len - 1, last);
            }
            proof {
                let w = word@.subrange(0, len as int);
                assert(first_suffix_from(word@, k as int) == Some(k as int));
                assert(stem@ =~= with_final_last(w));
            }
            return string_from_chars(&stem);
        }
        k = k + 1;
    }
    String::from_str(word)
}

/// Relies on `FromIterator<char>` for `String`: the string holds the
/// characters in order.
#[verifier::external_body]
fn string_from_chars(v: &Vec<char>) -> (r: String)
    ensures
        r@ == v@,
{
    v.iter().collect()
}

/// Removes ASCII punctuation and ASCII white space from a word.
pub fn clean_word(word: &str) -> (r: String)
    ensures
        r@ == cleaned(word@),
{
    let n = word.unicode_len();
    let ghost pred = |c: char| !ascii_punctuation(c) && !ascii_white(c);
    let mut out: Vec<char> = Vec::new();
    let mut i: usize = 0;
    while i < n
        invariant
            n == word@.len(),
            i <= n,
            pred == (|c: char| !ascii_punctuation(c) && !ascii_white(c)),
            out@ == word@.subrange(0, i as int).filter(pred),
        decreases n - i,
    {
        let c = word.get_char(i);
        proof {
            assert(word@.subrange(0, i + 1) =~= word@.subrange(0, i as int).push(c));
            word@.subrange(0, i as int).lemma_filter_push(c, pred);
        }
        if !is_punct(c) && !is_ascii_white(c) {
            out.push(c);
        }
        i = i + 1;
    }
    assert(word@.subrange(0, n as int) =~= word@);
    string_from_chars(&out)
}

/// Splits text into words at white space, cleans each word and drops those
/// that end up empty.
pub fn tokenize(text: &str) -> (r: Vec<String>)
    ensures
        r@.map_values(|s: String| s@) == tokens_from(text@, Seq::empty()),
{
    let n = text.unicode_len();
    let mut out: Vec<String> = Vec::new();
    let mut cur: Vec<char> = Vec::new();
    let mut i: usize = 0;
    assert(text@.subrange(0, n as int) =~= text@);
    while i < n
        invariant
            n == text@.len(),
            i <= n,
            out@.map_values(|s: String| s@) + tokens_from(text@.subrange(i as int, n as int), cur@) == tokens_from(text@, Seq::empty()),
        decreases n - i,
    {
        let c = text.get_char(i);
        let ghost rest = text@.subrange(i as int, n as int);
        proof {
            assert(rest[0] == c);
            assert(rest.drop_first() =~= text@.subrange(i + 1, n as int));
        }
        if is_white(c) {
            if cur.len() > 0 {
                let ghost before = out@.map_values(|s: String| s@);
                let w = string_from_chars(&cur);
                out.push(w);
                assert(out@.map_values(|s: String| s@) =~= before + emit(cur@));
            } else {
                assert(emit(cur@) =~= Seq::<Seq<char>>::empty());
                assert(out@.map_values(|s: String| s@) + Seq::<Seq<char>>::empty() =~= out@.map_values(|s: String| s@));
            }
            cur = Vec::new();
            assert(cur@ =~= Seq::<char>::empty());
        } else if !is_punct(c) {
            cur.push(c);
        }
        i = i + 1;
    }
    proof {
        assert(text@.subrange(n as int, n as int) =~= Seq::<char>::empty());
    }
    if cur.len() > 0 {
        let ghost before = out@.map_values(|s: String| s@);
        let w = string_from_chars(&cur);
        out.push(w);
        assert(out@.map_values(|s: String| s@) =~= before + emit(cur@));
    } else {
        assert(out@.map_values(|s: String| s@) + emit(cur@) =~= out@.map_values(|s: String| s@));
    }
    out
}

} // verus!
