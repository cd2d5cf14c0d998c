//! Character-level string operations with exact specifications.

use vstd::prelude::*;

verus! {

/// Lexicographic order on character sequences, comparing code points;
/// this is the order of Rust's `Ord` on `str`.
pub open spec fn seq_lt(a: Seq<char>, b: Seq<char>) -> bool
    decreases a.len(),
{
    if a.len() == 0 {
        b.len() > 0
    } else if b.len() == 0 {
        false
    } else if a[0] != b[0] {
        a[0] < b[0]
    } else {
        seq_lt(a.drop_first(), b.drop_first())
    }
}

pub proof fn lemma_lt_irreflexive(a: Seq<char>)
    ensures
        !seq_lt(a, a),
    decreases a.len(),
{
    if a.len() > 0 {
        lemma_lt_irreflexive(a.drop_first());
    }
}

pub proof fn lemma_lt_transitive(a: Seq<char>, b: Seq<char>, c: Seq<char>)
    ensures
        seq_lt(a, b) && seq_lt(b, c) ==> seq_lt(a, c),
    decreases a.len(),
{
    if a.len() > 0 && b.len() > 0 && c.len() > 0 {
        lemma_lt_transitive(a.drop_first(), b.drop_first(), c.drop_first());
    }
}

pub proof fn lemma_lt_total(a: Seq<char>, b: Seq<char>)
    ensures
        a == b || seq_lt(a, b) || seq_lt(b, a),
    decreases a.len(),
{
    if a.len() > 0 && b.len() > 0 {
        if a[0] == b[0] {
            lemma_lt_total(a.drop_first(), b.drop_first());
            if a.drop_first() == b.drop_first() {
                assert(a =~= seq![a[0]] + a.drop_first());
                assert(b =~= seq![b[0]] + b.drop_first());
            }
        }
    } else if a.len() == 0 && b.len() == 0 {
        assert(a =~= b);
    }
}

/// `a` comes strictly before `b` in lexicographic order.
pub fn str_lt(a: &str, b: &str) -> (r: bool)
    ensures
        r == seq_lt(a@, b@),
{
    let la = a.unicode_len();
    let lb = b.unicode_len();
    let mut i: usize = 0;
    assert(a@.subrange(0, la as int) =~= a@);
    assert(b@.subrange(0, lb as int) =~= b@);
    while i < la && i < lb
        invariant
            la == a@.len(),
            lb == b@.len(),
            i <= la,
            i <= lb,
            a@.subrange(0, i as int) == b@.subrange(0, i as int),
            seq_lt(a@, b@) == seq_lt(a@.subrange(i as int, la as int), b@.subrange(i as int, lb as int)),
        decreases la - i,
    {
        let ca = a.get_char(i);
        let cb = b.get_char(i);
        let ghost sa = a@.subrange(i as int, la as int);
        let ghost sb = b@.subrange(i as int, lb as int);
        if ca != cb {
            assert(sa[0] == ca && sb[0] == cb);
            return ca < cb;
        }
        assert(sa.drop_first() =~= a@.subrange(i + 1, la as int));
        assert(sb.drop_first() =~= b@.subrange(i + 1, lb as int));
        assert(a@.subrange(0, i + 1) =~= a@.subrange(0, i as int).push(ca));
        assert(b@.subrange(0, i + 1) =~= b@.subrange(0, i as int).push(cb));
        i = i + 1;
    }
    i == la && i < lb
}

/// `needle` occurs in `hay` starting at position `i`.
pub open spec fn occurs_at(hay: Seq<char>, needle: Seq<char>, i: int) -> bool {
    0 <= i && i + needle.len() <= hay.len() && hay.subrange(i, i + needle.len()) == needle
}

/// `needle` occurs somewhere in `hay` as a contiguous substring.
pub open spec fn contains_seq(hay: Seq<char>, needle: Seq<char>) -> bool {
    exists|i: int| occurs_at(hay, needle, i)
}

/// Substring test, character by character.
pub fn str_contains(hay: &str, needle: &str) -> (r: bool)
    ensures
        r == contains_seq(hay@, needle@),
{
    let lh = hay.unicode_len();
    let ln = needle.unicode_len();
    if ln == 0 {
        assert(hay@.subrange(0, 0) =~= needle@);
        assert(occurs_at(hay@, needle@, 0));
        return true;
    }
    if ln > lh {
        assert forall|i: int| !occurs_at(hay@, needle@, i) by {}
        return false;
    }
    let mut start: usize = 0;
    while start <= lh - ln
        invariant
            lh == hay@.len(),
            ln == needle@.len(),
            0 < ln <= lh,
            start <= lh - ln + 1,
            forall|k: int| 0 <= k < start ==> !occurs_at(hay@, needle@, k),
        decreases lh - ln + 1 - start,
    {
        let mut j: usize = 0;
        let mut same = true;
        assert(hay@.subrange(start as int, start as int) =~= needle@.subrange(0, 0));
        while j < ln
            invariant
                lh == hay@.len(),
                ln == needle@.len(),
                start + ln <= lh,
                j <= ln,
                same == (hay@.subrange(start as int, start + j) == needle@.subrange(0, j as int)),
            decreases ln - j,
        {
            let c = hay.get_char(start + j);
            let d = needle.get_char(j);
            proof {
                let hs = hay@.subrange(start as int, start + j);
                let ns = needle@.subrange(0, j as int);
                assert(hay@.subrange(start as int, start + j + 1) =~= hs.push(c));
                assert(needle@.subrange(0, j + 1) =~= ns.push(d));
                if hs.push(c) == ns.push(d) {
                    assert(hs.push(c).drop_last() =~= hs);
                    assert(ns.push(d).drop_last() =~= ns);
                    assert(hs.push(c)[j as int] == c);
                }
            }
            same = same && c == d;
            j = j + 1;
        }
        assert(needle@.subrange(0, ln as int) =~= needle@);
        if same {
            assert(occurs_at(hay@, needle@, start as int));
            return true;
        }
        start = start + 1;
    }
    assert forall|i: int| !occurs_at(hay@, needle@, i) by {
        if 0 <= i && i + ln <= lh {
            assert(i < start);
        }
    }
    false
}


/// Whether `needle` occurs in `hay` at `start`.
pub fn occurs_at_exec(hay: &str, needle: &str, start: usize) -> (r: bool)
    ensures
        r == occurs_at(hay@, needle@, start as int),
{
    let lh = hay.unicode_len();
    let ln = needle.unicode_len();
    if start > lh || ln > lh - start {
        return false;
    }
    let mut j: usize = 0;
    while j < ln
        invariant
            lh == hay@.len(),
            ln == needle@.len(),
            start + ln <= lh,
            j <= ln,
            hay@.subrange(start as int, start + j) == needle@.subrange(0, j as int),
        decreases ln - j,
    {
        let c = hay.get_char(start + j);
        let d = needle.get_char(j);
        if c != d {
            assert(hay@.subrange(start as int, start + ln)[j as int] == c);
            assert(needle@[j as int] == d);
            return false;
        }
        assert(hay@.subrange(start as int, start + j + 1) =~= hay@.subrange(start as int, start + j).push(c));
        assert(needle@.subrange(0, j + 1) =~= needle@.subrange(0, j as int).push(d));
        j = j + 1;
    }
    assert(needle@.subrange(0, ln as int) =~= needle@);
    true
}

/// Every occurrence of `from` in `s`, scanning left to right without overlap,
/// replaced by `to`. An empty `from` leaves `s` as it is.
pub open spec fn replace_all(s: Seq<char>, from: Seq<char>, to: Seq<char>) -> Seq<char>
    decreases s.len(),
{
    if from.len() == 0 || s.len() < from.len() {
        s
    } else if s.subrange(0, from.len() as int) == from {
        to + replace_all(s.subrange(from.len() as int, s.len() as int), from, to)
    } else {
        seq![s[0]] + replace_all(s.drop_first(), from, to)
    }
}

pub fn replace_all_exec(s: &str, from: &str, to: &str) -> (r: String)
    ensures
        r@ == replace_all(s@, from@, to@),
{
    let n = s.unicode_len();
    let m = from.unicode_len();
    if m == 0 {
        return String::from_str(s);
    }
    let mut out = String::new();
    let mut i: usize = 0;
    assert(s@.subrange(0, n as int) =~= s@);
    while i < n
        invariant
            n == s@.len(),
            m == from@.len(),
            m > 0,
            i <= n,
            out@ + replace_all(s@.subrange(i as int, n as int), from@, to@) == replace_all(s@, from@, to@),
        decreases n - i,
    {
        let ghost rest = s@.subrange(i as int, n as int);
        if occurs_at_exec(s, from, i) {
            proof {
                assert(rest.subrange(0, m as int) =~= s@.subrange(i as int, i + m));
                assert(rest.subrange(m as int, rest.len() as int) =~= s@.subrange(i + m, n as int));
                assert(out@ + to@ + replace_all(s@.subrange(i + m, n as int), from@, to@) =~= out@ + replace_all(rest, from@, to@));
            }
            out.append(to);
            i = i + m;
        } else {
            let c = s.substring_char(i, i + 1);
            proof {
                assert(c@ =~= seq![rest[0]]);
                assert(rest.drop_first() =~= s@.subrange(i + 1, n as int));
                if rest.len() < m {
                    assert(replace_all(rest, from@, to@) == rest);
                    assert(replace_all(rest.drop_first(), from@, to@) == rest.drop_first());
                    assert(rest =~= seq![rest[0]] + rest.drop_first());
                } else {
                    assert(rest.subrange(0, m as int) =~= s@.subrange(i as int, i + m));
                }
                assert(out@ + c@ + replace_all(s@.subrange(i + 1, n as int), from@, to@) =~= out@ + replace_all(rest, from@, to@));
            }
            out.append(c);
            i = i + 1;
        }
    }
    assert(s@.subrange(n as int, n as int) =~= Seq::<char>::empty());
    assert(out@ + Seq::<char>::empty() =~= out@);
    out
}

} // verus!
