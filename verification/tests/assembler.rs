use quinta::assemble::add_hints;
use quinta::models::{ClueWord, Hint, Puzzle};

fn entry(id: i64, word: &str, clue: &str) -> ClueWord {
    ClueWord { id, word: String::from(word), clue: String::from(clue) }
}

#[test]
fn add_hints_annotates_every_word() {
    let puzzle = Puzzle {
        date: String::from("2026-10-11"),
        across_words: vec![entry(1, "CRANE", "bird"), entry(2, "XBYYY", "noise")],
        down_words: vec![entry(3, "AAAAA", "scream"), entry(4, "ABCDE", "alphabet")],
        plusword: String::from("CRANE"),
    };
    let daily = add_hints(puzzle);

    assert_eq!(daily.date, "2026-10-11");
    assert_eq!(daily.plusword, "CRANE");
    assert_eq!(daily.across_words.len(), 2);
    assert_eq!(daily.down_words.len(), 2);

    // Across entries keep word, clue, and their row index.
    assert_eq!(daily.across_words[0].word, "CRANE");
    assert_eq!(daily.across_words[0].clue, "bird");
    assert_eq!(daily.across_words[0].position, 0);
    assert_eq!(daily.across_words[0].hints, vec![Some(Hint::Green); 5]);
    assert_eq!(daily.across_words[1].position, 1);
    assert_eq!(daily.across_words[1].hints, vec![None; 5]);

    // Down entries are hinted against the single target letter of their
    // column: column 0 of CRANE is C, column 1 is R.
    assert_eq!(daily.down_words[0].word, "AAAAA");
    assert_eq!(daily.down_words[0].position, 0);
    assert_eq!(daily.down_words[0].hints, vec![Some(Hint::Yellow); 5]);
    assert_eq!(daily.down_words[1].word, "ABCDE");
    assert_eq!(daily.down_words[1].position, 1);
    assert_eq!(
        daily.down_words[1].hints,
        vec![
            Some(Hint::Yellow),
            None,
            Some(Hint::Yellow),
            None,
            Some(Hint::Yellow),
        ]
    );
}

#[test]
fn clue_word_duplicate_is_exact() {
    let e = entry(7, "ABOUT", "prep.");
    let d = e.duplicate();
    assert_eq!(d.id, 7);
    assert_eq!(d.word, "ABOUT");
    assert_eq!(d.clue, "prep.");
}
