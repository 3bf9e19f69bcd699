use quinta::models::ClueWord;
use quinta::prefix::PrefixIndex;
use quinta::solver::{down_word_at_i, generate_crossword, solve};

fn entry(id: i64, word: &str, clue: &str) -> ClueWord {
    ClueWord { id, word: String::from(word), clue: String::from(clue) }
}

/// Ten words forming a 5x5 word square: five rows whose columns read as the
/// other five words.
fn square_corpus() -> Vec<ClueWord> {
    vec![
        entry(1, "ABCDE", "row one"),
        entry(2, "FGHIJ", "row two"),
        entry(3, "KLMNO", "row three"),
        entry(4, "PQRST", "row four"),
        entry(5, "UVWXY", "row five"),
        entry(6, "AFKPU", "col one"),
        entry(7, "BGLQV", "col two"),
        entry(8, "CHMRW", "col three"),
        entry(9, "DINSX", "col four"),
        entry(10, "EJOTY", "col five"),
    ]
}

fn word_of(e: &ClueWord) -> &str {
    e.word.as_str()
}

fn check_solution(corpus: &[ClueWord], across: &[ClueWord], down: &[ClueWord]) {
    assert_eq!(across.len(), 5);
    assert_eq!(down.len(), 5);
    let rows: Vec<Vec<char>> = across.iter().map(|e| e.word.chars().collect()).collect();
    let cols: Vec<Vec<char>> = down.iter().map(|e| e.word.chars().collect()).collect();
    for i in 0..5 {
        for j in 0..5 {
            // Grid consistency: the down word of column j reads the j-th
            // letter of every across word.
            assert_eq!(cols[j][i], rows[i][j]);
        }
    }
    for e in across.iter().chain(down.iter()) {
        // Corpus membership, entry for entry.
        assert!(corpus
            .iter()
            .any(|c| c.id == e.id && c.word == e.word && c.clue == e.clue));
    }
    for d in down {
        for a in across {
            // Disjointness: no down word equals an across word.
            assert_ne!(d.word, a.word);
        }
    }
}

#[test]
fn solve_finds_word_square() {
    let corpus = square_corpus();
    let index = PrefixIndex::build(&corpus);
    let (across, down) = solve(&corpus, &index).expect("a grid exists");
    check_solution(&corpus, &across, &down);
    // First-fit in corpus order: the five row words, then their columns.
    let across_words: Vec<&str> = across.iter().map(word_of).collect();
    let down_words: Vec<&str> = down.iter().map(word_of).collect();
    assert_eq!(across_words, vec!["ABCDE", "FGHIJ", "KLMNO", "PQRST", "UVWXY"]);
    assert_eq!(down_words, vec!["AFKPU", "BGLQV", "CHMRW", "DINSX", "EJOTY"]);
}

#[test]
fn solve_prefers_transposed_square_when_earlier() {
    // With the column words first, the first-fit order finds the transposed
    // grid: the former columns become the across words.
    let mut corpus = square_corpus();
    corpus.rotate_left(5);
    let index = PrefixIndex::build(&corpus);
    let (across, down) = solve(&corpus, &index).expect("a grid exists");
    check_solution(&corpus, &across, &down);
    let across_words: Vec<&str> = across.iter().map(word_of).collect();
    assert_eq!(across_words, vec!["AFKPU", "BGLQV", "CHMRW", "DINSX", "EJOTY"]);
}

#[test]
fn solve_empty_corpus_fails() {
    let corpus: Vec<ClueWord> = Vec::new();
    let index = PrefixIndex::build(&corpus);
    assert!(solve(&corpus, &index).is_none());
}

#[test]
fn solve_impossible_small_corpus_fails() {
    // Four words that cannot tile: no column of any arrangement reads as a
    // corpus word.
    let corpus = vec![
        entry(1, "ABCDE", "a"),
        entry(2, "FGHIJ", "b"),
        entry(3, "KLMNO", "c"),
        entry(4, "PQRST", "d"),
    ];
    let index = PrefixIndex::build(&corpus);
    assert!(solve(&corpus, &index).is_none());
}

#[test]
fn solve_single_word_fails_by_disjointness() {
    // AAAAA alone tiles the grid, but its columns read AAAAA again, and a
    // down word may not equal an across word.
    let corpus = vec![entry(1, "AAAAA", "ah")];
    let index = PrefixIndex::build(&corpus);
    assert!(solve(&corpus, &index).is_none());
}

#[test]
fn solve_three_words_can_still_tile() {
    // A corpus far smaller than ten words can still tile: alternating rows
    // of XXXXX and YYYYY make every column read XYXYX.
    let corpus = vec![
        entry(1, "XXXXX", "exes"),
        entry(2, "YYYYY", "whys"),
        entry(3, "XYXYX", "mixed"),
    ];
    let index = PrefixIndex::build(&corpus);
    let (across, down) = solve(&corpus, &index).expect("a grid exists");
    check_solution(&corpus, &across, &down);
    let across_words: Vec<&str> = across.iter().map(word_of).collect();
    let down_words: Vec<&str> = down.iter().map(word_of).collect();
    assert_eq!(across_words, vec!["XXXXX", "YYYYY", "XXXXX", "YYYYY", "XXXXX"]);
    assert_eq!(down_words, vec!["XYXYX"; 5]);
}

#[test]
fn solve_resolves_down_words_to_first_entry() {
    // Two entries share the word AFKPU; the down list must carry the first.
    let mut corpus = square_corpus();
    corpus[5] = entry(61, "AFKPU", "first clue");
    corpus.push(entry(62, "AFKPU", "second clue"));
    let index = PrefixIndex::build(&corpus);
    let (_, down) = solve(&corpus, &index).expect("a grid exists");
    assert_eq!(down[0].id, 61);
    assert_eq!(down[0].clue, "first clue");
}

#[test]
fn solve_realistic_corpus_with_pruning() {
    // A corpus of a few hundred words: fillers all start with XQ, a pair no
    // column can produce, so the prefix pruning discards them at depth two
    // and the search still terminates quickly on the embedded square.
    let mut corpus: Vec<ClueWord> = Vec::new();
    let mut id: i64 = 100;
    for a in 0u8..10 {
        for b in 0u8..20 {
            let word: String = [
                'X',
                'Q',
                (b'A' + a) as char,
                (b'A' + b) as char,
                (b'A' + (a + b) % 26) as char,
            ]
            .iter()
            .collect();
            corpus.push(entry(id, &word, "filler"));
            id += 1;
        }
    }
    corpus.extend(square_corpus());
    let index = PrefixIndex::build(&corpus);
    let (across, down) = solve(&corpus, &index).expect("a grid exists");
    check_solution(&corpus, &across, &down);
    let across_words: Vec<&str> = across.iter().map(word_of).collect();
    assert_eq!(across_words, vec!["ABCDE", "FGHIJ", "KLMNO", "PQRST", "UVWXY"]);
}

#[test]
fn generate_crossword_solves_shuffled_corpus() {
    let corpus = square_corpus();
    let (across, down) = generate_crossword(&corpus).expect("a grid exists");
    check_solution(&corpus, &across, &down);
}

#[test]
fn generate_crossword_fails_on_impossible_corpus() {
    let corpus = vec![entry(1, "ABCDE", "a"), entry(2, "FGHIJ", "b")];
    assert!(generate_crossword(&corpus).is_none());
}

#[test]
fn prefix_index_knows_word_prefixes() {
    let corpus = vec![entry(1, "ABOUT", "prep.")];
    let index = PrefixIndex::build(&corpus);
    assert!(index.contains(&vec!['A']));
    assert!(index.contains(&vec!['A', 'B']));
    assert!(index.contains(&vec!['A', 'B', 'O', 'U', 'T']));
    assert!(!index.contains(&vec!['B']));
    assert!(!index.contains(&vec!['A', 'B', 'O', 'U', 'X']));
}

#[test]
fn partial_validity_check_prunes_bad_columns() {
    let corpus = square_corpus();
    let index = PrefixIndex::build(&corpus);
    // ABCDE over FGHIJ: every column pair is the start of a column word.
    let good: Vec<Vec<char>> =
        vec!["ABCDE".chars().collect(), "FGHIJ".chars().collect()];
    assert!(quinta::solver::test(&index, &good));
    // ABCDE over ABCDE: the column pair AA starts no corpus word.
    let bad: Vec<Vec<char>> =
        vec!["ABCDE".chars().collect(), "ABCDE".chars().collect()];
    assert!(!quinta::solver::test(&index, &bad));
}

#[test]
fn down_word_reads_column() {
    let rows: Vec<Vec<char>> =
        vec!["ABCDE".chars().collect(), "FGHIJ".chars().collect()];
    assert_eq!(down_word_at_i(&rows, 0), vec!['A', 'F']);
    assert_eq!(down_word_at_i(&rows, 4), vec!['E', 'J']);
}
