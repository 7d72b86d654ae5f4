use herald::animation::CellDisplayState;
use herald::board::{BoardState, CellContent, Grid, Timestamp};
use herald::cli::AnimationSpeed;
use herald::viewers::{chain_board_update, on_connection_event, ConnectionAction, ConnectionEvent};
use herald::watch::{is_quit_key, tick_millis, TuiState, MILLIS};

fn board_with(ch: char) -> BoardState {
    let mut b = BoardState::splash(Timestamp { secs: 0, nanos: 0 });
    b.grid = Grid::blank();
    b.grid.0[0][0] = CellContent::Char(ch);
    b
}

#[test]
fn heartbeat_closes_silent_clients() {
    let (awaiting, action) = on_connection_event(false, ConnectionEvent::PingTick);
    assert_eq!(action, ConnectionAction::SendPing);
    assert!(awaiting);
    assert_eq!(on_connection_event(awaiting, ConnectionEvent::PingTick).1, ConnectionAction::Close);
    assert_eq!(on_connection_event(awaiting, ConnectionEvent::PongTimeout).1, ConnectionAction::Close);
    let (awaiting, action) = on_connection_event(awaiting, ConnectionEvent::Pong);
    assert_eq!((awaiting, action), (false, ConnectionAction::ClearDeadline));
    assert_eq!(on_connection_event(false, ConnectionEvent::PongTimeout), (false, ConnectionAction::Nothing));
    assert_eq!(on_connection_event(false, ConnectionEvent::Broadcast).1, ConnectionAction::Forward);
    assert_eq!(on_connection_event(false, ConnectionEvent::BroadcastLagged).1, ConnectionAction::Nothing);
    assert_eq!(on_connection_event(false, ConnectionEvent::Closed).1, ConnectionAction::Close);
}

#[test]
fn board_updates_carry_previous_grid() {
    let mut last = Grid::blank();
    let mut first = board_with('A');
    chain_board_update(&mut first, &mut last);
    assert_eq!(first.previous_grid, Grid::blank());
    let mut second = board_with('B');
    chain_board_update(&mut second, &mut last);
    assert_eq!(second.previous_grid, first.grid);
    assert_eq!(last, second.grid);
}

#[test]
fn viewer_animates_and_settles() {
    let start = BoardState::splash(Timestamp { secs: 0, nanos: 0 });
    let mut tui = TuiState::new(&start);
    tui.on_board_update(&board_with('C'), AnimationSpeed::Normal, 1_000 * MILLIS);
    assert!(tui.animation.is_some());
    let sampled = tui.on_tick(1_000 * MILLIS + 60 * MILLIS, 60 * MILLIS, 20);
    assert!(sampled);
    tui.on_tick(10_000 * MILLIS, 10_000 * MILLIS, 20);
    assert!(tui.animation.is_none());
    match tui.display.cells[0][0] {
        CellDisplayState::Normal(CellContent::Char('C')) => {}
        other => panic!("unexpected {other:?}"),
    }
}

#[test]
fn viewer_without_animation_switches_at_once() {
    let start = BoardState::splash(Timestamp { secs: 0, nanos: 0 });
    let mut tui = TuiState::new(&start);
    tui.on_board_update(&board_with('Q'), AnimationSpeed::Off, 5);
    assert!(tui.animation.is_none());
    assert!(matches!(tui.display.cells[0][0], CellDisplayState::Normal(CellContent::Char('Q'))));
    // The same board again changes nothing.
    tui.on_board_update(&board_with('Q'), AnimationSpeed::Fast, 10);
    assert!(tui.animation.is_none());
}

#[test]
fn resize_snaps_to_target() {
    let start = BoardState::splash(Timestamp { secs: 0, nanos: 0 });
    let mut tui = TuiState::new(&start);
    tui.on_board_update(&board_with('Z'), AnimationSpeed::Slow, 0);
    assert!(tui.animation.is_some());
    tui.on_resize();
    assert!(tui.animation.is_none());
    assert!(matches!(tui.display.cells[0][0], CellDisplayState::Normal(CellContent::Char('Z'))));
}

#[test]
fn ticks_and_keys() {
    assert_eq!(tick_millis(false, 30), 33);
    assert_eq!(tick_millis(true, 30), 20);
    assert_eq!(tick_millis(true, 100), 10);
    assert_eq!(tick_millis(false, 0), 1000);
    assert!(is_quit_key(Some('q'), false, false));
    assert!(is_quit_key(None, true, false));
    assert!(is_quit_key(Some('c'), false, true));
    assert!(!is_quit_key(Some('c'), false, false));
    assert!(!is_quit_key(Some('x'), false, true));
}
