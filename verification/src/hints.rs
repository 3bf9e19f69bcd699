//! The hint engine: green/yellow coloring of a word against a target word.
//!
//! Two policies exist.  The across policy compares position against position;
//! the down policy compares every row of a column word against the single
//! target letter at that column's index.  Both then mark any letter that
//! occurs anywhere in the target as yellow.  The yellow pass deliberately
//! keeps no per-letter budget: one occurrence in the target can justify any
//! number of yellow marks in the word.

use crate::models::Hint;
use vstd::prelude::*;
use vstd::string::StrSliceExecFns;

verus! {

/// The hint at position `i` of `word` against `target` under the across
/// policy: green on a positional match, otherwise yellow when the letter
/// occurs anywhere in the target, otherwise unmarked.
pub open spec fn across_hint(target: Seq<char>, word: Seq<char>, i: int) -> Option<Hint>
    recommends
        0 <= i < word.len(),
{
    if i < target.len() && word[i] == target[i] {
        Some(Hint::Green)
    } else if target.contains(word[i]) {
        Some(Hint::Yellow)
    } else {
        None
    }
}

/// The hint at row `i` of a down `word` that occupies column `col` of the
/// grid: green compares the row's letter against the one target letter at
/// index `col`; yellow is whole-target containment, as in the across policy.
pub open spec fn down_hint(target: Seq<char>, word: Seq<char>, col: int, i: int) -> Option<Hint>
    recommends
        0 <= i < word.len(),
        0 <= col,
{
    if col < target.len() && word[i] == target[col] {
        Some(Hint::Green)
    } else if target.contains(word[i]) {
        Some(Hint::Yellow)
    } else {
        None
    }
}

/// Green monotonicity of the across policy: a word compared against itself
/// as target colors every position green.
pub proof fn lemma_self_target_all_green(word: Seq<char>)
    ensures
        forall|i: int| 0 <= i < word.len() ==> across_hint(word, word, i) == Some(Hint::Green),
{
}

/// The entry at row `i`, position `j` of the hint grid over the across
/// `words`: the across-policy hint where row `i` holds a word long enough,
/// and unmarked beyond the given words or beyond a word's end.
pub open spec fn grid_hint(target: Seq<char>, words: Seq<Seq<char>>, i: int, j: int) -> Option<
    Hint,
> {
    if 0 <= i < words.len() && 0 <= j < words[i].len() {
        across_hint(target, words[i], j)
    } else {
        None
    }
}

/// The characters of `s`, as a vector.
pub fn chars_of(s: &str) -> (v: Vec<char>)
    ensures
        v@ == s@,
{
    let n = s.unicode_len();
    let mut v: Vec<char> = Vec::new();
    let mut i: usize = 0;
    while i < n
        invariant
            i <= n,
            n == s@.len(),
            v@ == s@.take(i as int),
        decreases n - i,
    {
        v.push(s.get_char(i));
        assert(v@ =~= s@.take(i + 1));
        i += 1;
    }
    assert(v@ =~= s@);
    v
}

/// Whether `c` occurs among `chars`.
fn char_in(chars: &Vec<char>, c: char) -> (b: bool)
    ensures
        b == chars@.contains(c),
{
    let mut j: usize = 0;
    while j < chars.len()
        invariant
            j <= chars@.len(),
            forall|k: int| 0 <= k < j ==> chars@[k] != c,
        decreases chars@.len() - j,
    {
        if chars[j] == c {
            return true;
        }
        j += 1;
    }
    false
}

/// Across-policy coloring of `word` against `plusword`, one hint per letter.
pub fn hints_across(plusword: &str, word: &str) -> (hints: Vec<Option<Hint>>)
    ensures
        hints@.len() == word@.len(),
        forall|i: int| 0 <= i < word@.len() ==> hints@[i] == across_hint(plusword@, word@, i),
{
    let solution_chars = chars_of(plusword);
    let word_chars = chars_of(word);
    let mut hints: Vec<Option<Hint>> = Vec::new();
    let mut i: usize = 0;
    while i < word_chars.len()
        invariant
            i <= word_chars@.len(),
            solution_chars@ == plusword@,
            word_chars@ == word@,
            hints@.len() == i,
            forall|k: int| 0 <= k < i ==> hints@[k] == across_hint(plusword@, word@, k),
        decreases word_chars@.len() - i,
    {
        let c = word_chars[i];
        let h = if i < solution_chars.len() && c == solution_chars[i] {
            Some(Hint::Green)
        } else if char_in(&solution_chars, c) {
            Some(Hint::Yellow)
        } else {
            None
        };
        hints.push(h);
        i += 1;
    }
    hints
}

/// Down-policy coloring of the column word `word` that stands at column
/// `col_index`, one hint per letter.
pub fn hints_down(plusword: &str, word: &str, col_index: usize) -> (hints: Vec<Option<Hint>>)
    ensures
        hints@.len() == word@.len(),
        forall|i: int| 0 <= i < word@.len() ==> hints@[i] == down_hint(
            plusword@,
            word@,
            col_index as int,
            i,
        ),
{
    let solution_chars = chars_of(plusword);
    let word_chars = chars_of(word);
    let mut hints: Vec<Option<Hint>> = Vec::new();
    let mut i: usize = 0;
    while i < word_chars.len()
        invariant
            i <= word_chars@.len(),
            solution_chars@ == plusword@,
            word_chars@ == word@,
            hints@.len() == i,
            forall|k: int| 0 <= k < i ==> hints@[k] == down_hint(
                plusword@,
                word@,
                col_index as int,
                k,
            ),
        decreases word_chars@.len() - i,
    {
        let c = word_chars[i];
        let h = if col_index < solution_chars.len() && c == solution_chars[col_index] {
            Some(Hint::Green)
        } else if char_in(&solution_chars, c) {
            Some(Hint::Yellow)
        } else {
            None
        };
        hints.push(h);
        i += 1;
    }
    hints
}

/// One row of the hint grid: the across-policy coloring of `word`, padded
/// with unmarked positions up to the row width of five.
fn hint_row(plusword: &str, word: &str) -> (row: [Option<Hint>; 5])
    requires
        word@.len() <= 5,
    ensures
        forall|j: int|
            0 <= j < 5 ==> row@[j] == (if j < word@.len() {
                across_hint(plusword@, word@, j)
            } else {
                None
            }),
{
    let h = hints_across(plusword, word);
    let mut row: [Option<Hint>; 5] = [None;5];
    let mut j: usize = 0;
    while j < h.len()
        invariant
            j <= h@.len(),
            h@.len() == word@.len() <= 5,
            forall|k: int| 0 <= k < word@.len() ==> h@[k] == across_hint(plusword@, word@, k),
            row@.len() == 5,
            forall|k: int| 0 <= k < j ==> row@[k] == h@[k],
            forall|k: int| j <= k < 5 ==> row@[k] is None,
        decreases h@.len() - j,
    {
        row[j] = h[j];
        j += 1;
    }
    row
}

/// The hint grid for up to five across words: row `i` colors the `i`-th
/// across word against `plusword` under the across policy; rows beyond the
/// given words stay unmarked.
pub fn hints(plusword: &str, across_words: &Vec<String>) -> (grid: [[Option<Hint>; 5]; 5])
    requires
        across_words@.len() <= 5,
        forall|i: int| 0 <= i < across_words@.len() ==> across_words@[i]@.len() <= 5,
    ensures
        forall|i: int, j: int|
            0 <= i < 5 && 0 <= j < 5 ==> grid@[i]@[j] == grid_hint(
                plusword@,
                Seq::new(across_words@.len(), |k: int| across_words@[k]@),
                i,
                j,
            ),
{
    let ghost words = Seq::new(across_words@.len(), |k: int| across_words@[k]@);
    let mut grid: [[Option<Hint>; 5]; 5] = [[None;5];5];
    let mut i: usize = 0;
    while i < across_words.len()
        invariant
            i <= across_words@.len() <= 5,
            words == Seq::new(across_words@.len(), |k: int| across_words@[k]@),
            forall|k: int| 0 <= k < across_words@.len() ==> across_words@[k]@.len() <= 5,
            grid@.len() == 5,
            forall|k: int, j: int|
                0 <= k < i && 0 <= j < 5 ==> grid@[k]@[j] == grid_hint(plusword@, words, k, j),
            forall|k: int, j: int|
                i <= k < 5 && 0 <= j < 5 ==> grid@[k]@[j] is None,
        decreases across_words@.len() - i,
    {
        grid[i] = hint_row(plusword, across_words[i].as_str());
        i += 1;
    }
    grid
}

} // verus!
