//! Composition of a solved puzzle with its hint colorings: each across word
//! is colored under the across policy, each down word under the down policy
//! with the column index it occupies.

use crate::hints::{across_hint, down_hint, hints_across, hints_down};
use crate::models::{ClueWord, DailyPuzzle, Hint, Puzzle, WordWithPosition};
use vstd::prelude::*;

verus! {

/// The across-policy hint sequence of `word` against `target`.
pub open spec fn across_hints_seq(target: Seq<char>, word: Seq<char>) -> Seq<Option<Hint>> {
    Seq::new(word.len(), |i: int| across_hint(target, word, i))
}

/// The down-policy hint sequence of `word` standing at column `col`.
pub open spec fn down_hints_seq(target: Seq<char>, word: Seq<char>, col: int) -> Seq<
    Option<Hint>,
> {
    Seq::new(word.len(), |i: int| down_hint(target, word, col, i))
}

/// `out` carries entry `e` at position `pos` with the given hint sequence.
pub open spec fn annotated(
    e: ClueWord,
    hints: Seq<Option<Hint>>,
    pos: int,
    out: WordWithPosition,
) -> bool {
    &&& out.word == e.word
    &&& out.clue == e.clue
    &&& out.hints@ == hints
    &&& out.position == pos
}

/// Attaches hint colorings to every word of the puzzle, producing the
/// externally visible daily-puzzle shape.
pub fn add_hints(puzzle: Puzzle) -> (daily: DailyPuzzle)
    ensures
        daily.date == puzzle.date,
        daily.plusword == puzzle.plusword,
        daily.across_words@.len() == puzzle.across_words@.len(),
        daily.down_words@.len() == puzzle.down_words@.len(),
        forall|i: int|
            0 <= i < puzzle.across_words@.len() ==> annotated(
                puzzle.across_words@[i],
                across_hints_seq(puzzle.plusword@, puzzle.across_words@[i].word@),
                i,
                #[trigger] daily.across_words@[i],
            ),
        forall|i: int|
            0 <= i < puzzle.down_words@.len() ==> annotated(
                puzzle.down_words@[i],
                down_hints_seq(puzzle.plusword@, puzzle.down_words@[i].word@, i),
                i,
                #[trigger] daily.down_words@[i],
            ),
{
    let mut across_with: Vec<WordWithPosition> = Vec::new();
    let mut i: usize = 0;
    while i < puzzle.across_words.len()
        invariant
            i <= puzzle.across_words@.len(),
            across_with@.len() == i,
            forall|k: int|
                0 <= k < i ==> annotated(
                    puzzle.across_words@[k],
                    across_hints_seq(puzzle.plusword@, puzzle.across_words@[k].word@),
                    k,
                    #[trigger] across_with@[k],
                ),
        decreases puzzle.across_words@.len() - i,
    {
        let cw = &puzzle.across_words[i];
        let h = hints_across(puzzle.plusword.as_str(), cw.word.as_str());
        proof {
            assert(h@ =~= across_hints_seq(puzzle.plusword@, cw.word@));
        }
        across_with.push(
            WordWithPosition {
                word: cw.word.clone(),
                clue: cw.clue.clone(),
                hints: h,
                position: i,
            },
        );
        i += 1;
    }
    let mut down_with: Vec<WordWithPosition> = Vec::new();
    let mut j: usize = 0;
    while j < puzzle.down_words.len()
        invariant
            j <= puzzle.down_words@.len(),
            down_with@.len() == j,
            forall|k: int|
                0 <= k < j ==> annotated(
                    puzzle.down_words@[k],
                    down_hints_seq(puzzle.plusword@, puzzle.down_words@[k].word@, k),
                    k,
                    #[trigger] down_with@[k],
                ),
        decreases puzzle.down_words@.len() - j,
    {
        let cw = &puzzle.down_words[j];
        let h = hints_down(puzzle.plusword.as_str(), cw.word.as_str(), j);
        proof {
            assert(h@ =~= down_hints_seq(puzzle.plusword@, cw.word@, j as int));
        }
        down_with.push(
            WordWithPosition {
                word: cw.word.clone(),
                clue: cw.clue.clone(),
                hints: h,
                position: j,
            },
        );
        j += 1;
    }
    DailyPuzzle {
        date: puzzle.date,
        across_words: across_with,
        down_words: down_with,
        plusword: puzzle.plusword,
    }
}

} // verus!
