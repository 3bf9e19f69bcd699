use quinta::hints::{hints, hints_across, hints_down};
use quinta::models::Hint;

#[test]
fn across_yellow_without_green() {
    // Target XBYYY against ABCDE: only B matches positionally; A, C, D, E do
    // not occur in the target at all.
    let h = hints_across("XBYYY", "ABCDE");
    assert_eq!(h, vec![None, Some(Hint::Green), None, None, None]);
}

#[test]
fn across_self_target_is_all_green() {
    let h = hints_across("CRANE", "CRANE");
    assert_eq!(h, vec![Some(Hint::Green); 5]);
}

#[test]
fn across_yellow_has_no_letter_budget() {
    // The target holds a single B, yet every non-green B of the word is
    // marked yellow: the yellow pass keeps no per-letter budget.
    let h = hints_across("ABXXX", "BBBBB");
    assert_eq!(
        h,
        vec![
            Some(Hint::Yellow),
            Some(Hint::Green),
            Some(Hint::Yellow),
            Some(Hint::Yellow),
            Some(Hint::Yellow),
        ]
    );
}

#[test]
fn across_shorter_target_limits_green_only() {
    // Positions beyond the target's length can still be yellow, never green.
    let h = hints_across("AB", "ABABA");
    assert_eq!(
        h,
        vec![
            Some(Hint::Green),
            Some(Hint::Green),
            Some(Hint::Yellow),
            Some(Hint::Yellow),
            Some(Hint::Yellow),
        ]
    );
}

#[test]
fn down_single_target_letter_all_green() {
    // Column 3 of the target BBBAB is A; every row of AAAAA equals it.
    let h = hints_down("BBBAB", "AAAAA", 3);
    assert_eq!(h, vec![Some(Hint::Green); 5]);
}

#[test]
fn down_green_only_at_matching_row() {
    // Column 0 of the target EEEEE is E; only the last row of ABCDE is E,
    // and A, B, C, D do not occur in the target.
    let h = hints_down("EEEEE", "ABCDE", 0);
    assert_eq!(h, vec![None, None, None, None, Some(Hint::Green)]);
}

#[test]
fn down_yellow_from_whole_target() {
    // Column 4 of the target ABCDE is E: the D row is not green, but D does
    // occur in the target, so it is yellow.
    let h = hints_down("ABCDE", "DDDDD", 4);
    assert_eq!(
        h,
        vec![
            Some(Hint::Yellow),
            Some(Hint::Yellow),
            Some(Hint::Yellow),
            Some(Hint::Yellow),
            Some(Hint::Yellow),
        ]
    );
}

#[test]
fn down_column_index_beyond_target_gives_no_green() {
    let h = hints_down("ABC", "AAAAA", 4);
    // No green (column 4 is outside the target), but A occurs in the target.
    assert_eq!(h, vec![Some(Hint::Yellow); 5]);
}

#[test]
fn across_empty_word_gives_no_hints() {
    let h = hints_across("CRANE", "");
    assert_eq!(h, Vec::<Option<Hint>>::new());
}

#[test]
fn across_empty_target_gives_no_hints() {
    let h = hints_across("", "ABCDE");
    assert_eq!(h, vec![None; 5]);
}

#[test]
fn hint_grid_of_no_words_is_unmarked() {
    let words: Vec<String> = Vec::new();
    let grid = hints("CRANE", &words);
    assert_eq!(grid, [[None; 5]; 5]);
}

#[test]
fn hint_grid_colors_each_row() {
    let words = vec![
        String::from("XBYYY"),
        String::from("CRANE"),
        String::from("ZZZZZ"),
    ];
    let grid = hints("CRANE", &words);
    // Row 0: X,B,Y,Y,Y against CRANE: nothing matches or occurs.
    assert_eq!(grid[0], [None; 5]);
    // Row 1: the target itself.
    assert_eq!(grid[1], [Some(Hint::Green); 5]);
    // Row 2: Z never occurs.
    assert_eq!(grid[2], [None; 5]);
    // Rows without a word stay unmarked.
    assert_eq!(grid[3], [None; 5]);
    assert_eq!(grid[4], [None; 5]);
}

#[test]
fn hint_grid_pads_short_words() {
    let words = vec![String::from("CRA")];
    let grid = hints("CRANE", &words);
    assert_eq!(
        grid[0],
        [Some(Hint::Green), Some(Hint::Green), Some(Hint::Green), None, None]
    );
}
