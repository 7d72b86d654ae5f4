use herald::animation::{CellDisplayState, DisplayGrid};
use herald::board::{BoardState, CellContent, Color, Timestamp};
use herald::terminal::{
    junction, map_color_256, map_color_basic, map_color_with_fallback, supports_256_colors, Area,
    BoardPaint, BoardWidget, ConnectionState, Painted, StatusBar, TermColor, GRID_HEIGHT,
    GRID_WIDTH,
};

fn blank_display() -> DisplayGrid {
    DisplayGrid::from_board_state(&BoardState::splash(Timestamp { secs: 0, nanos: 0 }))
}

fn full_area() -> Area {
    Area { x: 0, y: 0, width: GRID_WIDTH, height: GRID_HEIGHT }
}

fn cells_of(paint: BoardPaint) -> Vec<Vec<Painted>> {
    match paint {
        BoardPaint::Board { cells, .. } => cells,
        BoardPaint::TooSmall { message, .. } => panic!("unexpected warning: {message}"),
    }
}

#[test]
fn too_small_shows_warning() {
    let dg = blank_display();
    let widget = BoardWidget::new(&dg);
    let area = Area { x: 0, y: 0, width: 40, height: 5 };
    match widget.paint(area, true) {
        BoardPaint::TooSmall { message, y } => {
            assert!(message.contains("Terminal too small"));
            assert_eq!(message, "Terminal too small. Minimum: 89×13 (have 40×5)");
            assert_eq!(y, 2);
        }
        BoardPaint::Board { .. } => panic!("expected the warning"),
    }
}

#[test]
fn renders_corners() {
    let dg = blank_display();
    let cells = cells_of(BoardWidget::new(&dg).paint(full_area(), true));
    let w = GRID_WIDTH as usize;
    let h = GRID_HEIGHT as usize;
    assert_eq!(cells[0][0].ch, '┌');
    assert_eq!(cells[0][w - 1].ch, '┐');
    assert_eq!(cells[h - 1][0].ch, '└');
    assert_eq!(cells[h - 1][w - 1].ch, '┘');
}

#[test]
fn renders_char_cell() {
    let mut dg = blank_display();
    dg.cells[0][0] = CellDisplayState::Normal(CellContent::Char('H'));
    let cells = cells_of(BoardWidget::new(&dg).paint(full_area(), true));
    assert_eq!(cells[1][1].ch, ' ');
    assert_eq!(cells[1][2].ch, 'H');
    assert_eq!(cells[1][3].ch, ' ');
}

#[test]
fn renders_color_cell_background() {
    let mut dg = blank_display();
    dg.cells[0][0] = CellDisplayState::Normal(CellContent::Color(Color::Red));
    let cells = cells_of(BoardWidget::new(&dg).paint(full_area(), true));
    let style = cells[1][1].style.unwrap();
    assert_eq!(style.bg, Some(TermColor::Indexed(196)));
}

#[test]
fn renders_white_color_cell_with_dark_foreground() {
    let mut dg = blank_display();
    dg.cells[0][0] = CellDisplayState::Normal(CellContent::Color(Color::White));
    let cells = cells_of(BoardWidget::new(&dg).paint(full_area(), true));
    let style = cells[1][1].style.unwrap();
    assert_eq!(style.bg, Some(TermColor::Indexed(231)));
    assert_eq!(style.fg, Some(TermColor::Indexed(232)));
}

#[test]
fn renders_black_color_cell_with_white_foreground() {
    let mut dg = blank_display();
    dg.cells[0][0] = CellDisplayState::Normal(CellContent::Color(Color::Black));
    let cells = cells_of(BoardWidget::new(&dg).paint(full_area(), true));
    let style = cells[1][1].style.unwrap();
    assert_eq!(style.bg, Some(TermColor::Indexed(232)));
    assert_eq!(style.fg, Some(TermColor::Indexed(231)));
}

#[test]
fn renders_flipping_cell() {
    let mut dg = blank_display();
    dg.cells[0][0] = CellDisplayState::Flipping('A');
    let cells = cells_of(BoardWidget::new(&dg).paint(full_area(), true));
    assert_eq!(cells[1][1].ch, '─');
    assert_eq!(cells[1][2].ch, 'A');
    assert_eq!(cells[1][3].ch, '─');
    assert!(cells[1][1].style.unwrap().dim, "left dash should be DIM");
    assert!(cells[1][3].style.unwrap().dim, "right dash should be DIM");
}

#[test]
fn board_is_centred_in_a_larger_area() {
    let dg = blank_display();
    match BoardWidget::new(&dg).paint(Area { x: 2, y: 1, width: 99, height: 20 }, false) {
        BoardPaint::Board { x, y, cells } => {
            assert_eq!((x, y), (7, 4));
            assert_eq!(cells.len(), 13);
            assert!(cells.iter().all(|row| row.len() == 89));
            assert_eq!(cells[2][0].ch, '├');
            assert_eq!(cells[2][4].ch, '┼');
            assert_eq!(cells[1][4].ch, '│');
        }
        BoardPaint::TooSmall { .. } => panic!("the area is large enough"),
    }
}

#[test]
fn junction_characters() {
    assert_eq!(junction(0, 0), '┌');
    assert_eq!(junction(0, 5), '┬');
    assert_eq!(junction(6, 22), '┘');
    assert_eq!(junction(3, 0), '├');
    assert_eq!(junction(3, 22), '┤');
    assert_eq!(junction(3, 3), '┼');
}

#[test]
fn color_palettes() {
    assert_eq!(map_color_256(&Color::Orange), TermColor::Indexed(208));
    assert_eq!(map_color_basic(&Color::Orange), TermColor::Rgb(255, 165, 0));
    assert_eq!(map_color_basic(&Color::Violet), TermColor::Magenta);
    assert_eq!(map_color_with_fallback(&Color::Green, true), TermColor::Indexed(46));
    assert_eq!(map_color_with_fallback(&Color::Green, false), TermColor::Green);
}

#[test]
fn terminal_color_support() {
    assert!(supports_256_colors(Some("truecolor"), Some("dumb")));
    assert!(supports_256_colors(None, Some("xterm-256color")));
    assert!(supports_256_colors(None, Some("screen")));
    assert!(!supports_256_colors(None, Some("vt100")));
    assert!(!supports_256_colors(Some("yes"), Some("linux")));
    assert!(supports_256_colors(None, None));
}

#[test]
fn test_connected_status() {
    let state = ConnectionState::Connected;
    let widget = StatusBar::new(&state, "ws://localhost:3000/ws", None);
    let (text, color) = widget.connection();
    assert!(text.contains("● Connected"));
    let layout = StatusBar::layout(Area { x: 0, y: 0, width: 80, height: 1 }, 22, widget.time_text().len());
    assert_eq!(layout.left_x, 1);
    assert_eq!(color, TermColor::Green);
}

#[test]
fn test_reconnecting_shows_attempt() {
    let state = ConnectionState::Reconnecting { attempt: 3, next_retry_secs: 5 };
    let widget = StatusBar::new(&state, "ws://localhost:3000/ws", None);
    let (text, color) = widget.connection();
    assert!(text.contains("attempt 3"), "Expected 'attempt 3' in: {text}");
    assert!(text.contains("retry in 5s"), "Expected 'retry in 5s' in: {text}");
    assert_eq!(color, TermColor::Yellow);
}

#[test]
fn status_texts_and_layout() {
    assert_eq!(StatusBar::format_elapsed(5), "Updated 5s ago");
    assert_eq!(StatusBar::format_elapsed(125), "Updated 2m 5s ago");
    assert_eq!(StatusBar::format_elapsed(7_384), "Updated 2h 3m ago");
    let state = ConnectionState::Disconnected;
    let bar = StatusBar::new(&state, "ws://h/ws", None);
    assert_eq!(bar.time_text(), "No updates yet");
    assert_eq!(bar.connection().1, TermColor::Red);
    let l = StatusBar::layout(Area { x: 0, y: 0, width: 80, height: 1 }, 10, 14);
    assert_eq!((l.left_x, l.center_x, l.right_x), (1, 35, 65));
}
