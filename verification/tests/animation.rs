use herald::animation::{
    char_index, color_cycling_steps, color_index, cycling_steps, AnimationKind, BoardAnimation,
    CellDisplayState, DisplayGrid, CHAR_SET,
};
use herald::board::{BoardState, CellContent, Color, Grid, Timestamp, BOARD_COLS, BOARD_ROWS};

const MS: u64 = 1_000_000;
const START: u64 = 1_000 * MS;

#[test]
fn test_char_index_space() {
    assert_eq!(char_index(' '), Some(0));
}

#[test]
fn test_char_index_letters() {
    assert_eq!(char_index('A'), Some(1));
    assert_eq!(char_index('Z'), Some(26));
}

#[test]
fn test_char_index_digits() {
    assert_eq!(char_index('0'), Some(27));
    assert_eq!(char_index('9'), Some(36));
}

#[test]
fn test_char_index_punctuation() {
    assert_eq!(char_index('!'), Some(37));
    assert_eq!(char_index('*'), Some(CHAR_SET.len() - 1));
}

#[test]
fn test_char_index_unknown() {
    assert_eq!(char_index('€'), None);
}

#[test]
fn test_cycling_steps_adjacent() {
    assert_eq!(cycling_steps('A', 'B'), vec!['B']);
}

#[test]
fn test_cycling_steps_wrap() {
    assert_eq!(cycling_steps('*', ' '), vec![' ']);
}

#[test]
fn test_cycling_steps_same() {
    assert_eq!(cycling_steps('A', 'A'), Vec::<char>::new());
}

#[test]
fn test_cycling_steps_multi() {
    assert_eq!(cycling_steps('A', 'D'), vec!['B', 'C', 'D']);
}

#[test]
fn test_cycling_steps_wrap_multi() {
    let steps = cycling_steps('?', 'A');
    assert_eq!(steps, vec!['*', ' ', 'A']);
}

#[test]
fn cycling_steps_unknown_char_goes_straight_to_target() {
    assert_eq!(cycling_steps('€', 'C'), vec!['C']);
}

#[test]
fn cycling_steps_full_circle_ends_at_target() {
    let steps = cycling_steps('B', 'A');
    assert_eq!(steps.len(), CHAR_SET.len() - 1);
    assert_eq!(*steps.last().unwrap(), 'A');
}

#[test]
fn color_cycle_indices_and_steps() {
    assert_eq!(color_index(&Color::Red), 0);
    assert_eq!(color_index(&Color::Black), 7);
    assert_eq!(
        color_cycling_steps(&Color::Red, &Color::Yellow),
        vec![Color::Orange, Color::Yellow]
    );
    assert_eq!(color_cycling_steps(&Color::Black, &Color::Red), vec![Color::Red]);
    assert!(color_cycling_steps(&Color::Green, &Color::Green).is_empty());
}

fn make_board_with_char(ch: char) -> BoardState {
    let mut state = BoardState::splash(Timestamp { secs: 0, nanos: 0 });
    state.grid = Grid::blank();
    state.grid.0[0][0] = CellContent::Char(ch);
    state
}

fn make_blank_display() -> DisplayGrid {
    DisplayGrid::blank()
}

#[test]
fn test_animation_creates_correctly() {
    let display = make_blank_display();
    let target = make_board_with_char('C');
    let anim = BoardAnimation::new(&display, &target, 50 * MS, 20 * MS, START);
    assert!(anim.cells[0][0].is_some());
    let cell_anim = anim.cells[0][0].as_ref().unwrap();
    match &cell_anim.kind {
        AnimationKind::Char { steps, .. } => assert_eq!(*steps, vec!['A', 'B', 'C']),
        _ => panic!("Expected Char animation kind"),
    }
}

#[test]
fn test_animation_unchanged_cells_no_animation() {
    let display = make_blank_display();
    let mut target = BoardState::splash(Timestamp { secs: 0, nanos: 0 });
    target.grid = Grid::blank();
    let anim = BoardAnimation::new(&display, &target, 50 * MS, 20 * MS, START);
    for row in &anim.cells {
        for cell in row {
            assert!(cell.is_none());
        }
    }
}

#[test]
fn test_animation_sample_before_delay() {
    let display = make_blank_display();
    let mut target_col5 = BoardState::splash(Timestamp { secs: 0, nanos: 0 });
    target_col5.grid = Grid::blank();
    target_col5.grid.0[0][5] = CellContent::Char('B');
    let anim = BoardAnimation::new(&display, &target_col5, 50 * MS, 20 * MS, START);
    let sampled = anim.sample(anim.created_at + 10 * MS);
    match &sampled.cells[0][5] {
        CellDisplayState::Normal(CellContent::Blank) => {}
        other => panic!("Expected Normal(Blank) before delay, got {other:?}"),
    }
}

#[test]
fn test_animation_sample_during_cycling() {
    let display = make_blank_display();
    let target = make_board_with_char('D');
    let anim = BoardAnimation::new(&display, &target, 50 * MS, 20 * MS, START);
    let sampled = anim.sample(anim.created_at + 25 * MS);
    match &sampled.cells[0][0] {
        CellDisplayState::Flipping('A') => {}
        other => panic!("Expected Flipping('A'), got {other:?}"),
    }
    let sampled = anim.sample(anim.created_at + 75 * MS);
    match &sampled.cells[0][0] {
        CellDisplayState::Flipping('B') => {}
        other => panic!("Expected Flipping('B'), got {other:?}"),
    }
}

#[test]
fn test_animation_sample_after_complete() {
    let display = make_blank_display();
    let target = make_board_with_char('B');
    let anim = BoardAnimation::new(&display, &target, 50 * MS, 20 * MS, START);
    let sampled = anim.sample(anim.created_at + 500 * MS);
    match &sampled.cells[0][0] {
        CellDisplayState::Normal(CellContent::Char('B')) => {}
        other => panic!("Expected Normal(Char('B')), got {other:?}"),
    }
}

#[test]
fn test_animation_is_complete() {
    let display = make_blank_display();
    let target = make_board_with_char('B');
    let anim = BoardAnimation::new(&display, &target, 50 * MS, 20 * MS, START);
    assert!(!anim.is_complete(anim.created_at));
    assert!(anim.is_complete(anim.created_at + 5_000 * MS));
}

#[test]
fn test_cascade_ordering() {
    let display = make_blank_display();
    let mut target = BoardState::splash(Timestamp { secs: 0, nanos: 0 });
    target.grid = Grid::blank();
    target.grid.0[0][0] = CellContent::Char('A');
    target.grid.0[0][5] = CellContent::Char('A');
    let anim = BoardAnimation::new(&display, &target, 50 * MS, 20 * MS, START);
    let cell0 = anim.cells[0][0].as_ref().unwrap();
    let cell5 = anim.cells[0][5].as_ref().unwrap();
    assert!(cell0.delay < cell5.delay);
    assert_eq!(cell0.delay, 0);
    assert_eq!(cell5.delay, 100 * MS);
}

#[test]
fn test_color_cells_animate_with_flip() {
    let display = make_blank_display();
    let mut target = BoardState::splash(Timestamp { secs: 0, nanos: 0 });
    target.grid = Grid::blank();
    target.grid.0[0][0] = CellContent::Color(Color::Red);
    let anim = BoardAnimation::new(&display, &target, 50 * MS, 20 * MS, START);
    assert!(anim.cells[0][0].is_some());
    let sampled = anim.sample(anim.created_at + 5_000 * MS);
    match &sampled.cells[0][0] {
        CellDisplayState::Normal(CellContent::Color(Color::Red)) => {}
        other => panic!("Expected Normal(Color(Red)), got {other:?}"),
    }
}

#[test]
fn test_mid_animation_restart() {
    let display = make_blank_display();
    let target1 = make_board_with_char('D');
    let anim1 = BoardAnimation::new(&display, &target1, 50 * MS, 20 * MS, START);
    let mid_time = anim1.created_at + 75 * MS;
    let mid_display = anim1.sample(mid_time);
    let target2 = make_board_with_char('A');
    let anim2 = BoardAnimation::new(&mid_display, &target2, 50 * MS, 20 * MS, mid_time);
    let cell_anim = anim2.cells[0][0].as_ref().unwrap();
    match &cell_anim.kind {
        AnimationKind::Char { from_char, steps } => {
            assert_eq!(*from_char, 'B');
            assert_eq!(*steps.last().unwrap(), 'A');
            assert!(steps.len() > 2);
        }
        _ => panic!("Expected Char animation kind"),
    }
}

#[test]
fn test_has_changes_when_no_changes() {
    let display = make_blank_display();
    let mut target = BoardState::splash(Timestamp { secs: 0, nanos: 0 });
    target.grid = Grid::blank();
    let anim = BoardAnimation::new(&display, &target, 50 * MS, 20 * MS, START);
    assert!(!anim.has_changes());
}

#[test]
fn test_has_changes_when_changed() {
    let display = make_blank_display();
    let target = make_board_with_char('A');
    let anim = BoardAnimation::new(&display, &target, 50 * MS, 20 * MS, START);
    assert!(anim.has_changes());
}

#[test]
fn test_sample_into_matches_sample() {
    let display = make_blank_display();
    let target = make_board_with_char('D');
    let anim = BoardAnimation::new(&display, &target, 50 * MS, 20 * MS, START);
    for offset_ms in [0, 25, 75, 150, 500] {
        let t = anim.created_at + offset_ms * MS;
        let from_sample = anim.sample(t);
        let mut into_buf = make_blank_display();
        anim.sample_into(t, &mut into_buf);
        for r in 0..BOARD_ROWS {
            for c in 0..BOARD_COLS {
                assert_eq!(
                    format!("{:?}", from_sample.cells[r][c]),
                    format!("{:?}", into_buf.cells[r][c]),
                    "mismatch at ({r},{c}) t={offset_ms}ms"
                );
            }
        }
    }
}

#[test]
fn test_fill_from_board_state_reuses_allocation() {
    let mut display = make_blank_display();
    let ptr_before = display.cells.as_ptr();
    let target = make_board_with_char('Z');
    display.fill_from_board_state(&target);
    assert_eq!(display.cells.as_ptr(), ptr_before);
    match &display.cells[0][0] {
        CellDisplayState::Normal(CellContent::Char('Z')) => {}
        other => panic!("Expected Normal(Char('Z')), got {other:?}"),
    }
}

#[test]
fn from_board_state_produces_all_normal() {
    let mut state = BoardState::splash(Timestamp { secs: 0, nanos: 0 });
    state.grid.0[0][0] = CellContent::Char('Z');
    state.grid.0[1][2] = CellContent::Color(Color::Red);
    let dg = DisplayGrid::from_board_state(&state);
    assert_eq!(dg.cells.len(), BOARD_ROWS);
    for row in &dg.cells {
        assert_eq!(row.len(), BOARD_COLS);
    }
    for (r, row) in dg.cells.iter().enumerate() {
        for (c, cell) in row.iter().enumerate() {
            match cell {
                CellDisplayState::Normal(_) => {}
                other => panic!("Expected Normal at ({r},{c}), got {other:?}"),
            }
        }
    }
    match &dg.cells[0][0] {
        CellDisplayState::Normal(CellContent::Char('Z')) => {}
        other => panic!("Expected Normal(Char('Z')), got {other:?}"),
    }
    match &dg.cells[1][2] {
        CellDisplayState::Normal(CellContent::Color(Color::Red)) => {}
        other => panic!("Expected Normal(Color(Red)), got {other:?}"),
    }
}

#[test]
fn completed_animation_shows_whole_target() {
    let display = make_blank_display();
    let mut target = BoardState::splash(Timestamp { secs: 0, nanos: 0 });
    target.grid = Grid::from_text("FLIP ME", herald::board::HAlign::Center, herald::board::VAlign::Middle).unwrap();
    let anim = BoardAnimation::new(&display, &target, 50 * MS, 20 * MS, START);
    let end = anim.created_at + 60_000 * MS;
    assert!(anim.is_complete(end));
    let shown = anim.sample(end);
    for r in 0..BOARD_ROWS {
        for c in 0..BOARD_COLS {
            match &shown.cells[r][c] {
                CellDisplayState::Normal(content) => assert_eq!(*content, target.grid.0[r][c]),
                other => panic!("Expected Normal at ({r},{c}), got {other:?}"),
            }
        }
    }
}

#[test]
fn complete_stays_complete() {
    let display = make_blank_display();
    let target = make_board_with_char('B');
    let anim = BoardAnimation::new(&display, &target, 50 * MS, 20 * MS, START);
    let mut first_done = None;
    let mut t = anim.created_at;
    while t <= anim.created_at + 2_000 * MS {
        let done = anim.is_complete(t);
        if let Some(_) = first_done {
            assert!(done);
        } else if done {
            first_done = Some(t);
        }
        t += 5 * MS;
    }
    assert!(first_done.is_some());
}

#[test]
fn changes_exactly_where_display_differs() {
    let display = make_blank_display();
    let mut target = BoardState::splash(Timestamp { secs: 0, nanos: 0 });
    target.grid = Grid::blank();
    target.grid.0[0][0] = CellContent::Color(Color::Red);
    target.grid.0[2][7] = CellContent::Char(' ');
    let anim = BoardAnimation::new(&display, &target, 50 * MS, 20 * MS, START);
    assert!(anim.has_changes());
    for r in 0..BOARD_ROWS {
        for c in 0..BOARD_COLS {
            let differs = (r, c) == (0, 0) || (r, c) == (2, 7);
            assert_eq!(anim.cells[r][c].is_some(), differs);
        }
    }
}
