//! A vocabulary that numbers words in the order they are first added, with
//! four special tokens at indices 0 to 3.

use vstd::prelude::*;

verus! {

#[derive(Debug, Clone, PartialEq, Eq)]
pub enum VocabularyError {
    /// Reading or writing the vocabulary's file failed.
    Io(String),
    WordNotFound(String),
    InvalidIndex(i64),
}

pub open spec fn pad_token() -> Seq<char> {
    seq!['<', 'P', 'A', 'D', '>']
}

pub open spec fn unk_token() -> Seq<char> {
    seq!['<', 'U', 'N', 'K', '>']
}

pub open spec fn bos_token() -> Seq<char> {
    seq!['<', 'B', 'O', 'S', '>']
}

pub open spec fn eos_token() -> Seq<char> {
    seq!['<', 'E', 'O', 'S', '>']
}

pub open spec fn special_tokens() -> Seq<Seq<char>> {
    seq![pad_token(), unk_token(), bos_token(), eos_token()]
}

/// Words numbered by position.
pub struct Vocabulary {
    words: Vec<String>,
}

impl View for Vocabulary {
    type V = Seq<Seq<char>>;

    closed spec fn view(&self) -> Seq<Seq<char>> {
        self.words@.map_values(|s: String| s@)
    }
}

impl Vocabulary {
    /// No word twice, the special tokens first, and every index fits in an `i64`.
    pub open spec fn wf(&self) -> bool {
        &&& self@.no_duplicates()
        &&& self@.len() >= 4
        &&& self@.subrange(0, 4) == special_tokens()
        &&& self@.len() <= i64::MAX
    }

    /// A vocabulary holding only the special tokens.
    pub fn new() -> (r: Vocabulary)
        ensures
            r.wf(),
            r@ == special_tokens(),
    {
        let mut v = Vocabulary { words: Vec::new() };
        proof {
            reveal_strlit("<PAD>");
            reveal_strlit("<UNK>");
            reveal_strlit("<BOS>");
            reveal_strlit("<EOS>");
            assert("<PAD>"@ =~= pad_token());
            assert("<UNK>"@ =~= unk_token());
            assert("<BOS>"@ =~= bos_token());
            assert("<EOS>"@ =~= eos_token());
        }
        assert(v@ =~= Seq::<Seq<char>>::empty());
        v.add_special_token("<PAD>");
        assert(v@ =~= seq![pad_token()]);
        assert(pad_token()[1] != unk_token()[1]);
        v.add_special_token("<UNK>");
        assert(v@ =~= seq![pad_token(), unk_token()]);
        assert(pad_token()[1] != bos_token()[1] && unk_token()[1] != bos_token()[1]);
        v.add_special_token("<BOS>");
        assert(v@ =~= seq![pad_token(), unk_token(), bos_token()]);
        assert(pad_token()[1] != eos_token()[1] && unk_token()[1] != eos_token()[1] && bos_token()[1] != eos_token()[1]);
        v.add_special_token("<EOS>");
        assert(v@ =~= special_tokens());
        assert(v@.subrange(0, 4) =~= special_tokens());
        v
    }

    fn position(&self, word: &String) -> (r: Option<usize>)
        ensures
            match r {
                Some(i) => i < self@.len() && self@[i as int] == word@,
                None => !self@.contains(word@),
            },
    {
        let mut i: usize = 0;
        while i < self.words.len()
            invariant
                i <= self.words@.len(),
                forall|k: int| 0 <= k < i ==> (#[trigger] self.words@[k])@ != word@,
            decreases self.words.len() - i,
        {
            if self.words[i] == *word {
                return Some(i);
            }
            i = i + 1;
        }
        proof {
            if self@.contains(word@) {
                let k = choose|k: int| 0 <= k < self@.len() && self@[k] == word@;
                assert(self.words@[k]@ == word@);
            }
        }
        None
    }

    /// Appends a special token that is not present yet.
    fn add_special_token(&mut self, token: &str)
        requires
            old(self)@.no_duplicates(),
            old(self)@.len() < 4,
            !old(self)@.contains(token@),
        ensures
            final(self)@ == old(self)@.push(token@),
            final(self)@.no_duplicates(),
    {
        let ghost before = self@;
        self.words.push(String::from_str(token));
        proof {
            assert(self@ =~= before.push(token@));
        }
    }

    /// The index of `word`, adding it at the end when it is new.
    pub fn add_word(&mut self, word: &str) -> (r: i64)
        requires
            old(self).wf(),
            old(self)@.len() < i64::MAX,
        ensures
            final(self).wf(),
            old(self)@.contains(word@) ==> final(self)@ == old(self)@ && old(self)@[r as int] == word@,
            !old(self)@.contains(word@) ==> final(self)@ == old(self)@.push(word@) && r == old(self)@.len(),
            0 <= r < final(self)@.len(),
    {
        let w = String::from_str(word);
        match self.position(&w) {
            Some(i) => i as i64,
            None => {
                let idx = self.words.len() as i64;
                let ghost before = self@;
                self.words.push(w);
                proof {
                    assert(self@ =~= before.push(word@));
                    assert(self@.subrange(0, 4) =~= before.subrange(0, 4));
                }
                idx
            },
        }
    }

    /// The index of `word`.
    pub fn get_index(&self, word: &str) -> (r: Result<i64, VocabularyError>)
        requires
            self.wf(),
        ensures
            self@.contains(word@) ==> r is Ok && 0 <= r->Ok_0 < self@.len() && self@[r->Ok_0 as int] == word@,
            !self@.contains(word@) ==> (r matches Err(VocabularyError::WordNotFound(w)) && w@ == word@),
    {
        let w = String::from_str(word);
        match self.position(&w) {
            Some(i) => Ok(i as i64),
            None => Err(VocabularyError::WordNotFound(w)),
        }
    }

    /// The word at index `idx`.
    pub fn get_word(&self, idx: i64) -> (r: Result<String, VocabularyError>)
        ensures
            0 <= idx < self@.len() ==> r is Ok && r->Ok_0@ == self@[idx as int],
            !(0 <= idx < self@.len()) ==> r == Err::<String, VocabularyError>(VocabularyError::InvalidIndex(idx)),
    {
        if idx >= 0 && (idx as u64) < (self.words.len() as u64) {
            Ok(self.words[idx as usize].clone())
        } else {
            Err(VocabularyError::InvalidIndex(idx))
        }
    }

    /// Adds each line as a word, in order.
    pub fn load_from_lines(&mut self, lines: &Vec<String>)
        requires
            old(self).wf(),
            old(self)@.len() + lines@.len() <= i64::MAX,
        ensures
            final(self).wf(),
            final(self)@.len() <= old(self)@.len() + lines@.len(),
            forall|k: int| 0 <= k < lines@.len() ==> final(self)@.contains(#[trigger] lines@[k]@),
            forall|k: int| 0 <= k < old(self)@.len() ==> final(self)@[k] == old(self)@[k],
    {
        let mut i: usize = 0;
        while i < lines.len()
            invariant
                self.wf(),
                i <= lines@.len(),
                self@.len() <= old(self)@.len() + i,
                old(self)@.len() + lines@.len() <= i64::MAX,
                forall|k: int| 0 <= k < i ==> self@.contains(#[trigger] lines@[k]@),
                forall|k: int| 0 <= k < old(self)@.len() ==> self@[k] == old(self)@[k],
                old(self)@.len() <= self@.len(),
            decreases lines.len() - i,
        {
            let ghost before = self@;
            let idx = self.add_word(lines[i].as_str());
            proof {
                assert(self@[idx as int] == lines@[i as int]@);
                assert forall|k: int| 0 <= k < i implies self@.contains(#[trigger] lines@[k]@) by {
                    let q = choose|q: int| 0 <= q < before.len() && before[q] == lines@[k]@;
                    assert(self@[q] == lines@[k]@);
                }
            }
            i = i + 1;
        }
    }

    /// The words in index order, one per line of a saved vocabulary.
    pub fn to_lines(&self) -> (r: Vec<String>)
        ensures
            r@.map_values(|s: String| s@) == self@,
    {
        let mut r: Vec<String> = Vec::new();
        let mut i: usize = 0;
        while i < self.words.len()
            invariant
                i <= self.words@.len(),
                r@.map_values(|s: String| s@) == self@.subrange(0, i as int),
            decreases self.words.len() - i,
        {
            let ghost before = r@;
            let w = self.words[i].clone();
            r.push(w);
            proof {
                assert(r@ == before.push(self.words@[i as int]));
                assert(self@[i as int] == self.words@[i as int]@);
                assert(self@.subrange(0, i + 1) =~= self@.subrange(0, i as int).push(self@[i as int]));
                assert(r@.map_values(|s: String| s@) =~= before.map_values(|s: String| s@).push(self.words@[i as int]@));
            }
            i = i + 1;
        }
        assert(self@.subrange(0, self.words@.len() as int) =~= self@);
        r
    }

    /// The number of words.
    pub fn size(&self) -> (r: usize)
        ensures
            r == self@.len(),
    {
        self.words.len()
    }

    pub fn contains(&self, word: &str) -> (r: bool)
        ensures
            r == self@.contains(word@),
    {
        let w = String::from_str(word);
        self.position(&w).is_some()
    }

    pub fn get_pad_index(&self) -> (r: i64)
        requires
            self.wf(),
        ensures
            self@[r as int] == pad_token(),
            r == 0,
    {
        proof {
            assert(self@[0] == self@.subrange(0, 4)[0]);
        }
        0
    }

    pub fn get_unk_index(&self) -> (r: i64)
        requires
            self.wf(),
        ensures
            self@[r as int] == unk_token(),
            r == 1,
    {
        proof {
            assert(self@[1] == self@.subrange(0, 4)[1]);
        }
        1
    }

    pub fn get_bos_index(&self) -> (r: i64)
        requires
            self.wf(),
        ensures
            self@[r as int] == bos_token(),
            r == 2,
    {
        proof {
            assert(self@[2] == self@.subrange(0, 4)[2]);
        }
        2
    }

    pub fn get_eos_index(&self) -> (r: i64)
        requires
            self.wf(),
        ensures
            self@[r as int] == eos_token(),
            r == 3,
    {
        proof {
            assert(self@[3] == self@.subrange(0, 4)[3]);
        }
        3
    }
}

} // verus!
