//! The guessing side: revealed letters, missed letters, and the key-by-key
//! state machine that turns keyboard input into one confirmed guess.
use vstd::prelude::*;
use crate::cpu::{HangmanCPU, listed_before};

verus! {

/// The mathematical state of a game: one slot per letter of the secret word
/// (`None` while unrevealed) and the missed letters in the order guessed.
pub struct GameState {
    pub revealed: Seq<Option<char>>,
    pub misses: Seq<char>,
}

/// The state at the start of a game over a word of `n` letters.
pub open spec fn initial_state(n: nat) -> GameState {
    GameState { revealed: Seq::new(n, |j: int| None::<char>), misses: Seq::empty() }
}

/// Every slot of `revealed` that holds `c` in `w` now shows `c`.
pub open spec fn reveal_letter(revealed: Seq<Option<char>>, w: Seq<char>, c: char) -> Seq<Option<char>> {
    Seq::new(revealed.len(), |j: int| if w[j] == c { Some(c) } else { revealed[j] })
}

/// The state after guessing `c` against the secret word `w`: a hit reveals
/// every position of `c`, a miss appends `c` to the misses.
pub open spec fn after_guess(s: GameState, w: Seq<char>, c: char) -> GameState {
    if w.contains(c) {
        GameState { revealed: reveal_letter(s.revealed, w, c), misses: s.misses }
    } else {
        GameState { revealed: s.revealed, misses: s.misses.push(c) }
    }
}

/// The state after the guesses `g`, in order, from the start of a game over `w`.
pub open spec fn play(w: Seq<char>, g: Seq<char>) -> GameState
    decreases g.len(),
{
    if g.len() == 0 {
        initial_state(w.len())
    } else {
        after_guess(play(w, g.drop_last()), w, g.last())
    }
}

/// The game is won when no slot is left unrevealed.
pub open spec fn all_revealed(revealed: Seq<Option<char>>) -> bool {
    forall|j: int| 0 <= j < revealed.len() ==> (#[trigger] revealed[j]) is Some
}

/// `s` agrees with the secret word `w`: the slots match `w` in number, every
/// revealed slot shows the letter of `w` there, and no miss occurs in `w`.
pub open spec fn consistent_with(s: GameState, w: Seq<char>) -> bool {
    &&& s.revealed.len() == w.len()
    &&& forall|j: int| 0 <= j < w.len() && (#[trigger] s.revealed[j]) is Some ==> s.revealed[j] == Some(w[j])
    &&& forall|k: int| 0 <= k < s.misses.len() ==> !w.contains(#[trigger] s.misses[k])
}

/// Hits and misses are apart: no missed letter shows in any revealed slot.
pub open spec fn hits_and_misses_apart(s: GameState) -> bool {
    forall|k: int, j: int| 0 <= k < s.misses.len() && 0 <= j < s.revealed.len()
        ==> #[trigger] s.revealed[j] != Some(#[trigger] s.misses[k])
}

/// A guess keeps a state consistent with the word it is made against.
pub proof fn lemma_guess_keeps_consistency(s: GameState, w: Seq<char>, c: char)
    requires
        consistent_with(s, w),
    ensures
        consistent_with(after_guess(s, w, c), w),
{
    let t = after_guess(s, w, c);
    if !w.contains(c) {
        assert forall|k: int| 0 <= k < t.misses.len() implies !w.contains(#[trigger] t.misses[k]) by {
            if k < s.misses.len() {
                assert(t.misses[k] == s.misses[k]);
            }
        }
    }
}

/// Every state reached by a sequence of guesses is consistent with the word.
pub proof fn lemma_play_consistent(w: Seq<char>, g: Seq<char>)
    ensures
        consistent_with(play(w, g), w),
    decreases g.len(),
{
    if g.len() > 0 {
        lemma_play_consistent(w, g.drop_last());
        lemma_guess_keeps_consistency(play(w, g.drop_last()), w, g.last());
    }
}

/// Whatever guesses are made, in whatever order, a letter is classified as a
/// hit or as a miss, never both: no missed letter is ever shown in the word.
pub proof fn lemma_hits_and_misses_apart(w: Seq<char>, g: Seq<char>)
    ensures
        hits_and_misses_apart(play(w, g)),
{
    let s = play(w, g);
    lemma_play_consistent(w, g);
    assert forall|k: int, j: int| 0 <= k < s.misses.len() && 0 <= j < s.revealed.len()
        implies #[trigger] s.revealed[j] != Some(#[trigger] s.misses[k]) by {
        if s.revealed[j] == Some(s.misses[k]) {
            assert(s.revealed[j] is Some);
            assert(w[j] == s.misses[k]);
            assert(w.contains(s.misses[k]));
        }
    }
}

/// Guessing a letter of the word a second time changes nothing.
pub proof fn lemma_repeated_hit_idempotent(s: GameState, w: Seq<char>, c: char)
    requires
        w.contains(c),
        s.revealed.len() == w.len(),
    ensures
        after_guess(after_guess(s, w, c), w, c) == after_guess(s, w, c),
{
    let once = after_guess(s, w, c);
    let twice = after_guess(once, w, c);
    assert(twice.revealed =~= once.revealed);
}

/// One keyboard event, as a guess cycle sees it.
#[derive(Debug, Clone, Copy, PartialEq, Eq, Structural)]
pub enum KeyInput {
    /// A character key.
    Char(char),
    /// The confirm key.
    Enter,
    /// The key that ends the session at once.
    Quit,
    /// Any other event.
    Other,
}

/// Where a guess cycle stands: waiting for a letter, or holding a pending
/// guess that Enter would confirm.
#[derive(Debug, Clone, Copy, PartialEq, Eq, Structural)]
pub enum GuessPhase {
    Idle,
    Composing(char),
}

/// What the session does in answer to one key.
#[derive(Debug, Clone, Copy, PartialEq, Eq, Structural)]
pub enum InputAction {
    /// Nothing changes.
    Ignore,
    /// Show this letter as the pending guess, with the prompt to confirm it.
    ShowPending(char),
    /// Clear the pending guess and the prompt; this letter is the guess.
    Confirm(char),
    /// End the session.
    Quit,
}

/// One step of a guess cycle, given the letters missed so far and whether a
/// character key is alphabetic: a new letter that is not a miss becomes the
/// pending guess, Enter confirms a pending guess, the quit key quits, and
/// everything else is ignored.
pub open spec fn input_step(misses: Seq<char>, phase: GuessPhase, key: KeyInput, is_letter: bool) -> (GuessPhase, InputAction) {
    match key {
        KeyInput::Char(c) => if is_letter && !misses.contains(c) {
            (GuessPhase::Composing(c), InputAction::ShowPending(c))
        } else {
            (phase, InputAction::Ignore)
        },
        KeyInput::Enter => match phase {
            GuessPhase::Composing(c) => (GuessPhase::Idle, InputAction::Confirm(c)),
            GuessPhase::Idle => (phase, InputAction::Ignore),
        },
        KeyInput::Quit => (phase, InputAction::Quit),
        KeyInput::Other => (phase, InputAction::Ignore),
    }
}

/// Whether a character has the Unicode `Alphabetic` property.
pub uninterp spec fn alphabetic(c: char) -> bool;

/// Relies on `char::is_alphabetic`, which answers from the Unicode tables
/// for the character alone.
#[verifier::external_body]
fn is_letter(c: char) -> (r: bool)
    ensures
        r == alphabetic(c),
{
    c.is_alphabetic()
}

/// The misses as displayed: each letter followed by a space.
pub open spec fn spaced(m: Seq<char>) -> Seq<char>
    decreases m.len(),
{
    if m.len() == 0 {
        Seq::empty()
    } else {
        spaced(m.drop_last()) + seq![m.last(), ' ']
    }
}

/// The revealed word as displayed: a space for each unrevealed slot.
pub open spec fn shown(revealed: Seq<Option<char>>) -> Seq<char> {
    Seq::new(revealed.len(), |j: int| match revealed[j] {
        Some(c) => c,
        None => ' ',
    })
}

/// Keeps what the guessing side knows about the secret word.
pub struct HangmanGame {
    revealed_word: Vec<Option<char>>,
    misses: Vec<char>,
}

impl View for HangmanGame {
    type V = GameState;

    closed spec fn view(&self) -> GameState {
        GameState { revealed: self.revealed_word@, misses: self.misses@ }
    }
}

impl HangmanGame {
    /// A fresh game over a word of `word_len` letters: nothing revealed, no misses.
    pub fn new(word_len: usize) -> (r: Self)
        ensures
            r@ == initial_state(word_len as nat),
            word_len > 0 ==> !all_revealed(r@.revealed),
    {
        let mut revealed_word: Vec<Option<char>> = Vec::new();
        let mut i: usize = 0;
        while i < word_len
            invariant
                i <= word_len,
                revealed_word@ == Seq::new(i as nat, |j: int| None::<char>),
            decreases word_len - i,
        {
            revealed_word.push(None);
            i = i + 1;
            proof {
                assert(revealed_word@ =~= Seq::new(i as nat, |j: int| None::<char>));
            }
        }
        let r = HangmanGame { revealed_word, misses: Vec::new() };
        proof {
            assert(r@.misses =~= Seq::<char>::empty());
            if word_len > 0 {
                assert(r@.revealed[0] is None);
            }
        }
        r
    }

    /// Asks `cpu` about `guess`; a miss is appended to the misses, a hit
    /// reveals every position of the letter.
    pub fn handle_guess(&mut self, guess: char, cpu: &HangmanCPU)
        requires
            old(self)@.revealed.len() == cpu@.len(),
        ensures
            final(self)@ == after_guess(old(self)@, cpu@, guess),
    {
        let response = cpu.respond_to_guess(guess);
        if response.len() == 0 {
            self.misses.push(guess);
            return;
        }
        let ghost w = cpu@;
        let ghost start = self.revealed_word@;
        let mut k: usize = 0;
        while k < response.len()
            invariant
                crate::cpu::is_positions_of(response@, w, guess),
                k <= response@.len(),
                self.revealed_word@.len() == w.len(),
                self.misses@ == old(self).misses@,
                forall|j: int| 0 <= j < w.len() ==> (#[trigger] self.revealed_word@[j]) == if listed_before(response@, k as int, j) {
                    Some(guess)
                } else {
                    start[j]
                },
            decreases response@.len() - k,
        {
            let pos = response[k];
            self.revealed_word.set(pos, Some(guess));
            proof {
                assert forall|j: int| 0 <= j < w.len() implies (#[trigger] self.revealed_word@[j]) == if listed_before(response@, k + 1, j) {
                    Some(guess)
                } else {
                    start[j]
                } by {
                    if listed_before(response@, k as int, j) {
                        let m = choose|m: int| 0 <= m < k && response@[m] as int == j;
                        assert(0 <= m < k + 1 && response@[m] as int == j);
                    }
                    if j == pos as int {
                        assert(response@[k as int] as int == j);
                    }
                    if listed_before(response@, k + 1, j) && j != pos as int {
                        let m = choose|m: int| 0 <= m < k + 1 && response@[m] as int == j;
                        assert(0 <= m < k && response@[m] as int == j);
                    }
                }
            }
            k = k + 1;
        }
        proof {
            assert(w.contains(guess)) by {
                assert(w[response@[0] as int] == guess);
            }
            assert(self.revealed_word@ =~= reveal_letter(start, w, guess)) by {
                assert forall|j: int| 0 <= j < w.len() implies self.revealed_word@[j] == reveal_letter(start, w, guess)[j] by {
                    if listed_before(response@, response@.len() as int, j) {
                        let m = choose|m: int| 0 <= m < response@.len() && response@[m] as int == j;
                        assert(w[response@[m] as int] == guess);
                    }
                }
            }
        }
    }

    /// The slots of the word, `None` where still unrevealed.
    pub fn revealed_word(&self) -> (r: &Vec<Option<char>>)
        ensures
            r@ == self@.revealed,
    {
        &self.revealed_word
    }

    /// The missed letters, in the order they were guessed.
    pub fn misses(&self) -> (r: &Vec<char>)
        ensures
            r@ == self@.misses,
    {
        &self.misses
    }

    /// Whether `c` has already been guessed and missed.
    pub fn is_miss(&self, c: char) -> (r: bool)
        ensures
            r == self@.misses.contains(c),
    {
        let mut i: usize = 0;
        while i < self.misses.len()
            invariant
                i <= self.misses@.len(),
                forall|k: int| 0 <= k < i ==> (#[trigger] self.misses@[k]) != c,
            decreases self.misses@.len() - i,
        {
            if self.misses[i] == c {
                return true;
            }
            i = i + 1;
        }
        false
    }

    /// One step of the guess cycle, with the key's class given by the caller.
    pub fn next_input_classified(&self, phase: GuessPhase, key: KeyInput, is_letter: bool) -> (r: (GuessPhase, InputAction))
        ensures
            r == input_step(self@.misses, phase, key, is_letter),
    {
        match key {
            KeyInput::Char(c) => {
                if is_letter && !self.is_miss(c) {
                    (GuessPhase::Composing(c), InputAction::ShowPending(c))
                } else {
                    (phase, InputAction::Ignore)
                }
            },
            KeyInput::Enter => match phase {
                GuessPhase::Composing(c) => (GuessPhase::Idle, InputAction::Confirm(c)),
                GuessPhase::Idle => (phase, InputAction::Ignore),
            },
            KeyInput::Quit => (phase, InputAction::Quit),
            KeyInput::Other => (phase, InputAction::Ignore),
        }
    }

    /// One step of the guess cycle: only alphabetic keys that are not
    /// already misses can become the pending guess.
    pub fn next_input(&self, phase: GuessPhase, key: KeyInput) -> (r: (GuessPhase, InputAction))
        ensures
            r == input_step(self@.misses, phase, key, match key {
                KeyInput::Char(c) => alphabetic(c),
                _ => false,
            }),
    {
        let is_alpha = match key {
            KeyInput::Char(c) => is_letter(c),
            _ => false,
        };
        self.next_input_classified(phase, key, is_alpha)
    }

    /// The revealed word as shown on screen, a space for each hidden letter.
    pub fn revealed_text(&self) -> (r: Vec<char>)
        ensures
            r@ == shown(self@.revealed),
    {
        let mut out: Vec<char> = Vec::new();
        let mut i: usize = 0;
        while i < self.revealed_word.len()
            invariant
                i <= self.revealed_word@.len(),
                out@ == shown(self.revealed_word@.subrange(0, i as int)),
            decreases self.revealed_word@.len() - i,
        {
            let c = match self.revealed_word[i] {
                Some(c) => c,
                None => ' ',
            };
            out.push(c);
            i = i + 1;
            proof {
                assert(out@ =~= shown(self.revealed_word@.subrange(0, i as int)));
            }
        }
        proof {
            assert(self.revealed_word@.subrange(0, i as int) =~= self.revealed_word@);
        }
        out
    }

    /// The missed letters as shown on screen, each followed by a space.
    pub fn misses_text(&self) -> (r: Vec<char>)
        ensures
            r@ == spaced(self@.misses),
    {
        let mut out: Vec<char> = Vec::new();
        let mut i: usize = 0;
        while i < self.misses.len()
            invariant
                i <= self.misses@.len(),
                out@ == spaced(self.misses@.subrange(0, i as int)),
            decreases self.misses@.len() - i,
        {
            out.push(self.misses[i]);
            out.push(' ');
            i = i + 1;
            proof {
                let m = self.misses@.subrange(0, i as int);
                assert(m.drop_last() =~= self.misses@.subrange(0, i - 1));
                assert(out@ =~= spaced(m));
            }
        }
        proof {
            assert(self.misses@.subrange(0, i as int) =~= self.misses@);
        }
        out
    }

    /// The line drawn under the word before any guess: one dash per letter.
    pub fn placeholder_text(&self) -> (r: Vec<char>)
        ensures
            r@ == Seq::new(self@.revealed.len(), |j: int| '-'),
    {
        let mut out: Vec<char> = Vec::new();
        let mut i: usize = 0;
        while i < self.revealed_word.len()
            invariant
                i <= self.revealed_word@.len(),
                out@ == Seq::new(i as nat, |j: int| '-'),
            decreases self.revealed_word@.len() - i,
        {
            out.push('-');
            i = i + 1;
            proof {
                assert(out@ =~= Seq::new(i as nat, |j: int| '-'));
            }
        }
        out
    }

    /// True exactly when every letter of the word has been revealed.
    pub fn has_won(&self) -> (r: bool)
        ensures
            r == all_revealed(self@.revealed),
    {
        let mut i: usize = 0;
        while i < self.revealed_word.len()
            invariant
                i <= self.revealed_word@.len(),
                forall|j: int| 0 <= j < i ==> (#[trigger] self.revealed_word@[j]) is Some,
            decreases self.revealed_word@.len() - i,
        {
            if self.revealed_word[i].is_none() {
                return false;
            }
            i = i + 1;
        }
        true
    }
}

} // verus!
