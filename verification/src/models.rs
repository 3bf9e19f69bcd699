//! The data shapes shared by the solver, the hint engine and the assembler.

use vstd::prelude::*;

verus! {

/// Per-letter feedback of a word against the target word: the letter matches
/// the target at the compared position (`Green`), or merely occurs somewhere
/// in the target (`Yellow`).  An unmarked position is `None` at the use site.
#[derive(Clone, Copy, Debug, PartialEq, Eq, Structural)]
pub enum Hint {
    Yellow,
    Green,
}

/// One corpus entry: a five-letter word together with one clue for it.
/// A word may appear in several entries, each with a clue of its own.
#[derive(Debug, Clone)]
pub struct ClueWord {
    pub id: i64,
    pub word: String,
    pub clue: String,
}

impl ClueWord {
    /// An exact copy of the entry.
    pub fn duplicate(&self) -> (r: ClueWord)
        ensures
            r == *self,
    {
        ClueWord { id: self.id, word: self.word.clone(), clue: self.clue.clone() }
    }
}

/// Every character of `s` is an uppercase ASCII letter.
pub open spec fn upper_chars(s: Seq<char>) -> bool {
    forall|i: int| 0 <= i < s.len() ==> 'A' <= #[trigger] s[i] <= 'Z'
}

/// A well-formed corpus word: exactly five uppercase ASCII letters.
pub open spec fn is_upper_word(w: Seq<char>) -> bool {
    w.len() == 5 && upper_chars(w)
}

/// The words of a corpus, in corpus order, as character sequences.
pub open spec fn word_views(corpus: Seq<ClueWord>) -> Seq<Seq<char>> {
    corpus.map_values(|cw: ClueWord| cw.word@)
}

/// Every word of the corpus is well formed.
pub open spec fn wf_corpus(corpus: Seq<ClueWord>) -> bool {
    forall|k: int| 0 <= k < corpus.len() ==> is_upper_word(#[trigger] corpus[k].word@)
}

/// A generated grid keyed by date: five across entries whose rows also read
/// as the five down entries by column, plus the target word for hinting.
#[derive(Debug)]
pub struct Puzzle {
    pub date: String,
    pub across_words: Vec<ClueWord>,
    pub down_words: Vec<ClueWord>,
    pub plusword: String,
}

/// One word of a finished puzzle: its row or column index and the hint
/// coloring of each of its letters against the puzzle's target word.
#[derive(Debug)]
pub struct WordWithPosition {
    pub word: String,
    pub hints: Vec<Option<Hint>>,
    pub clue: String,
    pub position: usize,
}

/// A `Puzzle` with hint colorings attached to every across and down word.
#[derive(Debug)]
pub struct DailyPuzzle {
    pub date: String,
    pub across_words: Vec<WordWithPosition>,
    pub down_words: Vec<WordWithPosition>,
    pub plusword: String,
}

} // verus!
