//! The answerer: the only holder of the secret word.
use vstd::prelude::*;

verus! {

/// Why a secret word could not be drawn from a word list.
#[derive(Debug, Clone, Copy, PartialEq, Eq, Structural)]
pub enum WordSourceError {
    /// The word list could not be fetched or opened.
    SourceUnavailable,
    /// The word list holds no usable (non-empty) line.
    EmptyOrInvalidSource,
}

/// Answers letter guesses about a secret word that it never hands out.
pub struct HangmanCPU {
    word: Vec<char>,
}

/// `i` is among the first `k` entries of `r`.
pub open spec fn listed_before(r: Seq<usize>, k: int, i: int) -> bool {
    exists|m: int| 0 <= m < k && r[m] as int == i
}

/// Sorted, duplicate-free positions of `c` in `w`: every index of `r` is a
/// position of `c`, and every position of `c` is in `r`.
pub open spec fn is_positions_of(r: Seq<usize>, w: Seq<char>, c: char) -> bool {
    &&& forall|k: int| 0 <= k < r.len() ==> (#[trigger] r[k]) < w.len() && w[r[k] as int] == c
    &&& forall|k1: int, k2: int| 0 <= k1 < k2 < r.len() ==> (#[trigger] r[k1]) < (#[trigger] r[k2])
    &&& forall|i: int| 0 <= i < w.len() && (#[trigger] w[i]) == c ==> listed_before(r, r.len() as int, i)
}

/// Uniformly random choice below `n`, or `None` when `n` is zero.
///
/// Relies on `rand::seq::IteratorRandom::choose` (rand 0.8) over the range
/// `0..n`: an exact-size iterator, so the result is `None` exactly when the
/// range is empty and otherwise one of its items.
#[verifier::external_body]
fn random_index(n: usize) -> (r: Option<usize>)
    ensures
        r is None <==> n == 0,
        r matches Some(i) ==> i < n,
{
    rand::seq::IteratorRandom::choose(0..n, &mut rand::thread_rng())
}

impl View for HangmanCPU {
    type V = Seq<char>;

    closed spec fn view(&self) -> Seq<char> {
        self.word@
    }
}

impl HangmanCPU {
    /// Takes `word` as the secret, verbatim (no case folding).
    pub fn with_word(word: String) -> (r: Self)
        ensures
            r@ == word@,
    {
        let s = word.as_str();
        let n = s.unicode_len();
        let mut chars: Vec<char> = Vec::new();
        let mut i: usize = 0;
        while i < n
            invariant
                n == s@.len(),
                i <= n,
                chars@ == s@.subrange(0, i as int),
            decreases n - i,
        {
            chars.push(s.get_char(i));
            i = i + 1;
        }
        proof {
            assert(chars@ =~= word@);
        }
        HangmanCPU { word: chars }
    }

    /// Draws the secret uniformly at random from the non-empty lines of a
    /// word list.
    pub fn randomize(lines: Vec<String>) -> (r: Result<Self, WordSourceError>)
        ensures
            r is Err <==> (forall|i: int| 0 <= i < lines@.len() ==> (#[trigger] lines@[i]@).len() == 0),
            r matches Err(e) ==> e == WordSourceError::EmptyOrInvalidSource,
            r matches Ok(cpu) ==> exists|i: int|
                0 <= i < lines@.len() && cpu@ == (#[trigger] lines@[i]@) && cpu@.len() > 0,
    {
        let mut usable: Vec<usize> = Vec::new();
        let mut i: usize = 0;
        while i < lines.len()
            invariant
                i <= lines@.len(),
                forall|k: int| 0 <= k < usable@.len() ==>
                    (#[trigger] usable@[k]) < lines@.len() && lines@[usable@[k] as int]@.len() > 0,
                usable@.len() == 0 <==> (forall|j: int| 0 <= j < i ==> (#[trigger] lines@[j]@).len() == 0),
            decreases lines@.len() - i,
        {
            if lines[i].as_str().unicode_len() > 0 {
                usable.push(i);
            }
            i = i + 1;
        }
        match random_index(usable.len()) {
            None => Err(WordSourceError::EmptyOrInvalidSource),
            Some(k) => {
                let line = usable[k];
                let word = lines[line].clone();
                Ok(Self::with_word(word))
            },
        }
    }

    /// Number of characters of the secret word.
    pub fn get_word_len(&self) -> (r: usize)
        ensures
            r == self@.len(),
    {
        self.word.len()
    }

    /// Every position of `guess` in the secret word, in increasing order;
    /// empty exactly when the letter does not occur.
    pub fn respond_to_guess(&self, guess: char) -> (r: Vec<usize>)
        ensures
            is_positions_of(r@, self@, guess),
            r@.len() == 0 <==> !self@.contains(guess),
    {
        let mut hits: Vec<usize> = Vec::new();
        let n = self.word.len();
        let mut i: usize = 0;
        while i < n
            invariant
                n == self.word@.len(),
                i <= n,
                forall|k: int| 0 <= k < hits@.len() ==>
                    (#[trigger] hits@[k]) < i && self.word@[hits@[k] as int] == guess,
                forall|k1: int, k2: int| 0 <= k1 < k2 < hits@.len() ==>
                    (#[trigger] hits@[k1]) < (#[trigger] hits@[k2]),
                forall|j: int| 0 <= j < i && (#[trigger] self.word@[j]) == guess ==> listed_before(hits@, hits@.len() as int, j),
            decreases n - i,
        {
            if self.word[i] == guess {
                let ghost before = hits@;
                hits.push(i);
                proof {
                    assert(hits@[hits@.len() - 1] == i);
                    assert forall|j: int| 0 <= j <= i && (#[trigger] self.word@[j]) == guess implies listed_before(hits@, hits@.len() as int, j) by {
                        if j < i {
                            let k = choose|k: int| 0 <= k < before.len() && before[k] as int == j;
                            assert(hits@[k] as int == j);
                        } else {
                            assert(hits@[hits@.len() - 1] as int == j);
                        }
                    }
                }
            }
            i = i + 1;
        }
        proof {
            if hits@.len() == 0 && self@.contains(guess) {
                let j = choose|j: int| 0 <= j < self@.len() && self@[j] == guess;
                assert(listed_before(hits@, hits@.len() as int, j));
            }
            if hits@.len() > 0 {
                assert(self@[hits@[0] as int] == guess);
            }
        }
        hits
    }
}

} // verus!
