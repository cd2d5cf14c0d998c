//! Views and exact copies / comparisons of strings, string lists and optional
//! strings, as the term records hold them.

use vstd::prelude::*;

verus! {

/// The character sequence of each string in a list.
pub open spec fn seqs_of(v: Seq<String>) -> Seq<Seq<char>> {
    v.map_values(|s: String| s@)
}

/// The character sequence of an optional string.
pub open spec fn opt_seq(o: Option<String>) -> Option<Seq<char>> {
    match o {
        Some(s) => Some(s@),
        None => None,
    }
}

pub fn copy_strings(v: &Vec<String>) -> (r: Vec<String>)
    ensures
        r@ == v@,
{
    let mut r: Vec<String> = Vec::new();
    let mut i: usize = 0;
    while i < v.len()
        invariant
            i <= v.len(),
            r@ == v@.subrange(0, i as int),
        decreases v.len() - i,
    {
        r.push(v[i].clone());
        assert(v@.subrange(0, i + 1) =~= v@.subrange(0, i as int).push(v@[i as int]));
        i = i + 1;
    }
    assert(v@.subrange(0, v.len() as int) =~= v@);
    r
}

pub fn copy_opt(o: &Option<String>) -> (r: Option<String>)
    ensures
        r == *o,
{
    match o {
        Some(s) => Some(s.clone()),
        None => None,
    }
}

pub fn opt_eq(a: &Option<String>, b: &Option<String>) -> (r: bool)
    ensures
        r == (opt_seq(*a) == opt_seq(*b)),
{
    match (a, b) {
        (Some(x), Some(y)) => *x == *y,
        (None, None) => true,
        _ => false,
    }
}

/// Whether `s` equals one of the strings in `v`.
pub fn list_contains(v: &Vec<String>, s: &String) -> (r: bool)
    ensures
        r == seqs_of(v@).contains(s@),
{
    let mut i: usize = 0;
    while i < v.len()
        invariant
            i <= v.len(),
            forall|k: int| 0 <= k < i ==> v@[k]@ != s@,
        decreases v.len() - i,
    {
        if v[i] == *s {
            assert(seqs_of(v@)[i as int] == s@);
            return true;
        }
        i = i + 1;
    }
    assert(!seqs_of(v@).contains(s@)) by {
        if seqs_of(v@).contains(s@) {
            let k = choose|k: int| 0 <= k < seqs_of(v@).len() && seqs_of(v@)[k] == s@;
            assert(v@[k]@ == s@);
        }
    }
    false
}

pub fn lists_eq(a: &Vec<String>, b: &Vec<String>) -> (r: bool)
    ensures
        r == (seqs_of(a@) == seqs_of(b@)),
{
    if a.len() != b.len() {
        assert(seqs_of(a@).len() != seqs_of(b@).len());
        return false;
    }
    let mut i: usize = 0;
    while i < a.len()
        invariant
            i <= a.len(),
            a.len() == b.len(),
            forall|k: int| 0 <= k < i ==> a@[k]@ == b@[k]@,
        decreases a.len() - i,
    {
        if a[i] != b[i] {
            assert(seqs_of(a@)[i as int] != seqs_of(b@)[i as int]);
            return false;
        }
        i = i + 1;
    }
    assert(seqs_of(a@) =~= seqs_of(b@));
    true
}

/// Whether every string of `a` is among those of `b`.
pub fn list_subset(a: &Vec<String>, b: &Vec<String>) -> (r: bool)
    ensures
        r == (forall|k: int| 0 <= k < a@.len() ==> seqs_of(b@).contains(#[trigger] a@[k]@)),
{
    let mut i: usize = 0;
    while i < a.len()
        invariant
            i <= a.len(),
            forall|k: int| 0 <= k < i ==> seqs_of(b@).contains(#[trigger] a@[k]@),
        decreases a.len() - i,
    {
        if !list_contains(b, &a[i]) {
            return false;
        }
        i = i + 1;
    }
    true
}

/// Whether the two lists hold the same strings, regardless of order and repetition.
pub fn same_members(a: &Vec<String>, b: &Vec<String>) -> (r: bool)
    ensures
        r == (seqs_of(a@).to_set() == seqs_of(b@).to_set()),
{
    let ab = list_subset(a, b);
    let ba = list_subset(b, a);
    proof {
        let sa = seqs_of(a@).to_set();
        let sb = seqs_of(b@).to_set();
        if ab && ba {
            assert forall|x: Seq<char>| sa.contains(x) <==> sb.contains(x) by {
                if sa.contains(x) {
                    let k = choose|k: int| 0 <= k < seqs_of(a@).len() && seqs_of(a@)[k] == x;
                    assert(seqs_of(b@).contains(a@[k]@));
                }
                if sb.contains(x) {
                    let k = choose|k: int| 0 <= k < seqs_of(b@).len() && seqs_of(b@)[k] == x;
                    assert(seqs_of(a@).contains(b@[k]@));
                }
            }
            assert(sa =~= sb);
        } else if !ab {
            let k = choose|k: int| 0 <= k < a@.len() && !seqs_of(b@).contains(#[trigger] a@[k]@);
            assert(seqs_of(a@)[k] == a@[k]@);
            assert(sa.contains(a@[k]@));
            assert(!sb.contains(a@[k]@));
        } else {
            let k = choose|k: int| 0 <= k < b@.len() && !seqs_of(a@).contains(#[trigger] b@[k]@);
            assert(seqs_of(b@)[k] == b@[k]@);
            assert(sb.contains(b@[k]@));
            assert(!sa.contains(b@[k]@));
        }
    }
    ab && ba
}

/// Whether `s` is exactly the two-character code `c0 c1` (a language code).
pub fn is_code(s: &str, c0: char, c1: char) -> (r: bool)
    ensures
        r == (s@ == seq![c0, c1]),
{
    if s.unicode_len() != 2 {
        return false;
    }
    let a = s.get_char(0);
    let b = s.get_char(1);
    proof {
        if a == c0 && b == c1 {
            assert(s@ =~= seq![c0, c1]);
        }
    }
    a == c0 && b == c1
}

} // verus!
