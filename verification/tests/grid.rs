use herald::board::{CellContent, Grid, HAlign, VAlign, BOARD_COLS, BOARD_ROWS};
use herald::animation::CHAR_SET;
use herald::layout::{splash_grid, MessageTemplate};

/// Extract all chars from a grid row.
fn row_text(grid: &Grid, row: usize) -> String {
    grid.0[row]
        .iter()
        .filter_map(|c| match c {
            CellContent::Char(ch) => Some(*ch),
            _ => None,
        })
        .collect()
}

/// Extract chars from a grid row preserving blanks as spaces (trimmed at end).
fn row_text_with_blanks(grid: &Grid, row: usize) -> String {
    let s: String = grid.0[row]
        .iter()
        .map(|c| match c {
            CellContent::Char(ch) => *ch,
            _ => ' ',
        })
        .collect();
    s.trim_end().to_string()
}

#[test]
fn splash_grid_contains_herald() {
    let grid = splash_grid();
    let row2_chars: String = grid.0[2]
        .iter()
        .filter_map(|c| match c {
            CellContent::Char(ch) => Some(*ch),
            _ => None,
        })
        .collect();
    assert_eq!(row2_chars, "HERALD");
}

#[test]
fn splash_grid_other_rows_blank() {
    let grid = splash_grid();
    for row_idx in [0, 1, 3, 4, 5] {
        for cell in &grid.0[row_idx] {
            assert_eq!(*cell, CellContent::Blank, "row {row_idx} should be blank");
        }
    }
}

#[test]
fn splash_grid_letters_spaced_and_centered() {
    let grid = splash_grid();
    // "H E R A L D" is 11 columns wide, centred from column 5.
    assert_eq!(grid.0[2][5], CellContent::Char('H'));
    assert_eq!(grid.0[2][6], CellContent::Blank);
    assert_eq!(grid.0[2][15], CellContent::Char('D'));
}

#[test]
fn from_text_simple_centered() {
    let grid = Grid::from_text("HELLO", HAlign::Center, VAlign::Middle).unwrap();
    assert_eq!(row_text(&grid, 2), "HELLO");
    for r in [0, 1, 3, 4, 5] {
        assert_eq!(row_text(&grid, r), "");
    }
}

#[test]
fn from_text_centered_starts_at_column_8() {
    let grid = Grid::from_text("HELLO", HAlign::Center, VAlign::Middle).unwrap();
    assert_eq!(grid.0[2][7], CellContent::Blank);
    assert_eq!(grid.0[2][8], CellContent::Char('H'));
    assert_eq!(grid.0[2][12], CellContent::Char('O'));
}

#[test]
fn from_text_left_aligned() {
    let grid = Grid::from_text("HI", HAlign::Left, VAlign::Top).unwrap();
    let row = row_text_with_blanks(&grid, 0);
    assert!(row.starts_with("HI"));
}

#[test]
fn from_text_right_aligned() {
    let grid = Grid::from_text("HI", HAlign::Right, VAlign::Top).unwrap();
    let row = row_text_with_blanks(&grid, 0);
    assert!(row.ends_with("HI"));
}

#[test]
fn from_text_uppercases() {
    let grid = Grid::from_text("hello", HAlign::Center, VAlign::Middle).unwrap();
    assert_eq!(row_text(&grid, 2), "HELLO");
}

#[test]
fn from_text_word_wraps() {
    let grid =
        Grid::from_text("AAAA BBBB CCCC DDDD EEEE FFFF", HAlign::Center, VAlign::Top).unwrap();
    let line0 = row_text(&grid, 0);
    let line1 = row_text(&grid, 1);
    assert!(!line0.is_empty());
    assert!(!line1.is_empty());
}

#[test]
fn from_text_explicit_newlines() {
    let grid = Grid::from_text("LINE ONE\nLINE TWO", HAlign::Center, VAlign::Top).unwrap();
    assert_eq!(row_text(&grid, 0), "LINE ONE");
    assert_eq!(row_text(&grid, 1), "LINE TWO");
}

#[test]
fn from_text_overflow_returns_error() {
    let text = "A\nB\nC\nD\nE\nF\nG";
    let result = Grid::from_text(text, HAlign::Center, VAlign::Top);
    assert!(result.is_err());
}

#[test]
fn from_text_overflow_error_message() {
    let result = Grid::from_text("A\nB\nC\nD\nE\nF\nG", HAlign::Center, VAlign::Top);
    assert_eq!(
        result.unwrap_err(),
        "text requires 7 lines but the board only has 6 rows"
    );
}

#[test]
fn from_text_empty_returns_blank_grid() {
    let grid = Grid::from_text("", HAlign::Center, VAlign::Middle).unwrap();
    assert_eq!(grid, Grid::blank());
}

#[test]
fn from_text_normalizes_unsupported_chars() {
    let grid = Grid::from_text("HI™THERE", HAlign::Left, VAlign::Top).unwrap();
    let row = row_text(&grid, 0);
    assert!(row.contains("HI"));
    assert!(row.contains("THERE"));
}

#[test]
fn from_text_long_word_hard_splits() {
    let long = "A".repeat(30);
    let grid = Grid::from_text(&long, HAlign::Left, VAlign::Top).unwrap();
    assert_eq!(row_text(&grid, 0).len(), 22);
    assert_eq!(row_text(&grid, 1).len(), 8);
}

#[test]
fn from_text_max_rows_ok() {
    let text = "A\nB\nC\nD\nE\nF";
    let grid = Grid::from_text(text, HAlign::Center, VAlign::Top).unwrap();
    for r in 0..6 {
        assert!(!row_text(&grid, r).is_empty());
    }
}

#[test]
fn from_text_only_flap_characters() {
    let grid = Grid::from_text("héllo wörld ~ 42%", HAlign::Left, VAlign::Top).unwrap();
    for row in &grid.0 {
        for cell in row {
            if let CellContent::Char(c) = cell {
                assert!(CHAR_SET.contains(c), "unexpected character {c:?}");
            }
        }
    }
}

#[test]
fn from_template_announcement() {
    let grid = Grid::from_template(MessageTemplate::Announcement, "HELLO WORLD").unwrap();
    let expected = Grid::from_text("HELLO WORLD", HAlign::Center, VAlign::Middle).unwrap();
    assert_eq!(grid, expected);
}

#[test]
fn from_template_greeting_with_newline() {
    let grid = Grid::from_template(MessageTemplate::Greeting, "HAPPY\nBIRTHDAY").unwrap();
    assert_eq!(row_text(&grid, 1), "HAPPY");
    assert_eq!(row_text(&grid, 3), "BIRTHDAY");
    for r in [0, 2, 4, 5] {
        assert_eq!(row_text(&grid, r), "", "row {r} should be blank");
    }
}

#[test]
fn from_template_greeting_without_newline() {
    let grid = Grid::from_template(MessageTemplate::Greeting, "CONGRATS").unwrap();
    assert_eq!(row_text(&grid, 2), "CONGRATS");
    for r in [0, 1, 3, 4, 5] {
        assert_eq!(row_text(&grid, r), "", "row {r} should be blank");
    }
}

#[test]
fn from_template_countdown() {
    let grid = Grid::from_template(MessageTemplate::Countdown, "LAUNCH IN").unwrap();
    assert_eq!(row_text(&grid, 1), "LAUNCH IN");
    for r in [0, 2, 3, 4, 5] {
        assert_eq!(row_text(&grid, r), "", "row {r} should be blank");
    }
}

#[test]
fn from_template_ticker() {
    let grid = Grid::from_template(MessageTemplate::Ticker, "BREAKING NEWS").unwrap();
    let text = row_text(&grid, 2);
    assert_eq!(text, "BREAKING NEWS");
    assert_eq!(grid.0[2][0], CellContent::Char('B'));
    for r in [0, 1, 3, 4, 5] {
        assert_eq!(row_text(&grid, r), "", "row {r} should be blank");
    }
}

#[test]
fn from_template_ticker_truncated() {
    let long = "A".repeat(30);
    let grid = Grid::from_template(MessageTemplate::Ticker, &long).unwrap();
    let text = row_text(&grid, 2);
    assert_eq!(text.len(), BOARD_COLS);
}

#[test]
fn test_diff_grids_identical() {
    let a = Grid::blank();
    let b = Grid::blank();
    let diffs = Grid::diff_grids(&a, &b);
    assert!(diffs.is_empty());
    assert!(Grid::grids_are_identical(&a, &b));
}

#[test]
fn test_diff_grids_one_change() {
    let a = Grid::blank();
    let mut b = Grid::blank();
    b.0[2][10] = CellContent::Char('X');
    let diffs = Grid::diff_grids(&a, &b);
    assert_eq!(diffs, vec![(2, 10)]);
    assert!(!Grid::grids_are_identical(&a, &b));
}

#[test]
fn test_diff_grids_multiple_changes() {
    let a = Grid::blank();
    let mut b = Grid::blank();
    b.0[0][0] = CellContent::Char('A');
    b.0[3][15] = CellContent::Char('B');
    b.0[5][21] = CellContent::Char('C');
    let diffs = Grid::diff_grids(&a, &b);
    assert_eq!(diffs, vec![(0, 0), (3, 15), (5, 21)]);
}

#[test]
fn test_diff_grids_all_different() {
    let a = Grid::blank();
    let mut b = Grid::blank();
    for row in &mut b.0 {
        for cell in row.iter_mut() {
            *cell = CellContent::Char('Z');
        }
    }
    let diffs = Grid::diff_grids(&a, &b);
    assert_eq!(diffs.len(), BOARD_ROWS * BOARD_COLS);
}

#[test]
fn grid_validate_rejects_wrong_shape() {
    let mut g = Grid::blank();
    assert!(g.validate().is_ok());
    g.0.pop();
    assert_eq!(g.validate().unwrap_err(), "grid must have 6 rows, got 5");
}

#[test]
fn ascii_case_lays_out_alike() {
    for h in [HAlign::Left, HAlign::Center, HAlign::Right] {
        for v in [VAlign::Top, VAlign::Middle] {
            let lower = Grid::from_text("hello world\nsplit flap", h, v).unwrap();
            let upper = Grid::from_text("HELLO WORLD\nSPLIT FLAP", h, v).unwrap();
            let mixed = Grid::from_text("HeLLo wORLD\nSpliT FlaP", h, v).unwrap();
            assert_eq!(lower, upper);
            assert_eq!(mixed, upper);
        }
    }
}

#[test]
fn diff_grids_ordered_and_symmetric() {
    let mut a = Grid::blank();
    let mut b = Grid::blank();
    a.0[4][1] = CellContent::Char('X');
    b.0[0][21] = CellContent::Char('Y');
    b.0[0][3] = CellContent::Char('Z');
    a.0[5][0] = CellContent::Char('W');
    let d = Grid::diff_grids(&a, &b);
    assert_eq!(d, vec![(0, 3), (0, 21), (4, 1), (5, 0)]);
    assert_eq!(Grid::diff_grids(&b, &a), d);
}
