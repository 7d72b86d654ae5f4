use herald::board::{BoardState, CellContent, Grid, QueueItemKind, ThemeKind, Timestamp};
use herald::countdown::{Countdown, ZeroBehavior};
use herald::layout::splash_grid;
use herald::queue::{current_queue_item, merge_queue, validate_reorder, QueueItem};
use herald::rate_limit::{RateLimiter, WINDOW_NANOS};
use herald::rotation::{
    board_state_for, cleanup_resets_rotation, next_rotation_step, notify_after_expiry,
    on_refresh_tick, on_rotation_timer, ItemContent, RefreshAction, RotationStep, TimerAction,
};

#[test]
fn rate_limiter_admits_up_to_limit_per_window() {
    let mut l = RateLimiter::new(3);
    assert!(l.check_at(0));
    assert!(l.check_at(1));
    assert!(l.check_at(2));
    assert!(!l.check_at(3));
    // The first admission leaves the window one minute later.
    assert!(!l.check_at(WINDOW_NANOS - 1));
    assert!(l.check_at(WINDOW_NANOS));
    assert!(!l.check_at(WINDOW_NANOS));
}

#[test]
fn rate_limiter_with_zero_limit_refuses_everything() {
    let mut l = RateLimiter::new(0);
    assert!(!l.check_at(0));
    assert!(!l.check());
}

#[test]
fn rate_limiter_with_clock_admits_first_request() {
    let mut l = RateLimiter::new(1);
    assert!(l.check());
    assert!(!l.check());
}

#[test]
fn rotation_steps() {
    assert_eq!(next_rotation_step(0, Some(QueueItemKind::Message)), RotationStep::WaitForConfig);
    assert_eq!(next_rotation_step(10, None), RotationStep::WaitEmpty { secs: 10 });
    assert_eq!(
        next_rotation_step(5, Some(QueueItemKind::Countdown)),
        RotationStep::CountdownMode { secs: 5 }
    );
    assert_eq!(next_rotation_step(5, Some(QueueItemKind::Message)), RotationStep::NormalMode { secs: 5 });
}

#[test]
fn rotation_timer_actions() {
    assert_eq!(on_rotation_timer(0, false), TimerAction::Nothing);
    assert_eq!(on_rotation_timer(1, false), TimerAction::ExpireOnly { always_notify: false });
    assert_eq!(on_rotation_timer(2, false), TimerAction::Advance);
    assert_eq!(on_rotation_timer(0, true), TimerAction::ExpireOnly { always_notify: true });
    assert_eq!(on_rotation_timer(1, true), TimerAction::ExpireOnly { always_notify: true });
    assert_eq!(on_rotation_timer(3, true), TimerAction::Advance);
    assert!(!notify_after_expiry(0, false));
    assert!(notify_after_expiry(2, false));
    assert!(notify_after_expiry(0, true));
}

#[test]
fn countdown_zero_behaviours() {
    let target = Timestamp { secs: 100, nanos: 0 };
    let before = Timestamp { secs: 99, nanos: 999_999_999 };
    assert_eq!(on_refresh_tick(false, target, before, &ZeroBehavior::Remove), (false, RefreshAction::Notify));
    assert_eq!(on_refresh_tick(false, target, target, &ZeroBehavior::Remove), (true, RefreshAction::RemoveAndAdvance));
    assert_eq!(on_refresh_tick(false, target, target, &ZeroBehavior::Pause), (true, RefreshAction::NotifyAndPause));
    assert_eq!(on_refresh_tick(false, target, target, &ZeroBehavior::ShowZero), (true, RefreshAction::Notify));
    assert_eq!(
        on_refresh_tick(false, target, target, &ZeroBehavior::ShowMessage { grid: Grid::blank() }),
        (true, RefreshAction::Notify)
    );
    // Once at zero, later refreshes only notify.
    assert_eq!(on_refresh_tick(true, target, target, &ZeroBehavior::Remove), (true, RefreshAction::Notify));
}

#[test]
fn cleanup_restarts_rotation_when_displayed_item_expired() {
    assert!(!cleanup_resets_rotation(0, Some(1), Some(Some(2))));
    assert!(cleanup_resets_rotation(1, Some(1), Some(Some(2))));
    assert!(!cleanup_resets_rotation(1, Some(1), Some(Some(1))));
    assert!(cleanup_resets_rotation(1, Some(1), Some(None)));
    assert!(!cleanup_resets_rotation(1, Some(1), None));
    assert!(!cleanup_resets_rotation(1, None, Some(Some(2))));
}

#[test]
fn empty_queue_shows_splash() {
    let now = Timestamp { secs: 5, nanos: 0 };
    let s: BoardState = board_state_for(None, ItemContent::Message(None), now, ThemeKind::Classic, None);
    assert_eq!(s.grid, splash_grid());
    assert!(s.current_item.is_none());
    assert_eq!(s.theme, ThemeKind::Dark);
    assert_eq!(s.timestamp, now);
}

#[test]
fn countdown_renders_on_board_state() {
    let now = Timestamp { secs: 1_000, nanos: 0 };
    let item = QueueItem {
        id: 9,
        kind: QueueItemKind::Countdown,
        label: "LAUNCH".to_string(),
        queue_position: 0,
        expires_at: None,
        display_at: None,
    };
    let cd = Countdown {
        id: 9,
        label: "LAUNCH".to_string(),
        target: Timestamp { secs: 1_000 + 3_661, nanos: 0 },
        format_template: "{HH}:{MM}:{SS}".to_string(),
        zero_behavior: ZeroBehavior::ShowZero,
        queue_position: 0,
        created_at: now,
    };
    let s = board_state_for(Some(&item), ItemContent::Countdown(Some(cd)), now, ThemeKind::Classic, None);
    let row3: String = s.grid.0[3]
        .iter()
        .filter_map(|c| match c {
            CellContent::Char(ch) => Some(*ch),
            _ => None,
        })
        .collect();
    assert_eq!(row3, "01:01:01");
    assert_eq!(s.current_item.as_ref().unwrap().id, 9);
    assert_eq!(s.theme, ThemeKind::Classic);
}

#[test]
fn countdown_showing_message_at_zero_shows_the_message() {
    let item = QueueItem {
        id: 5,
        kind: QueueItemKind::Countdown,
        label: "NEW YEAR".to_string(),
        queue_position: 0,
        expires_at: None,
        display_at: None,
    };
    let make = || Countdown {
        id: 5,
        label: "NEW YEAR".to_string(),
        target: Timestamp { secs: 100, nanos: 0 },
        format_template: "{HH}:{MM}:{SS}".to_string(),
        zero_behavior: ZeroBehavior::ShowMessage { grid: splash_grid() },
        queue_position: 0,
        created_at: Timestamp { secs: 0, nanos: 0 },
    };
    // Before the target the countdown is shown.
    let before = Timestamp { secs: 90, nanos: 0 };
    let s = board_state_for(Some(&item), ItemContent::Countdown(Some(make())), before, ThemeKind::Dark, None);
    assert_ne!(s.grid, splash_grid());
    let row3: String = s.grid.0[3]
        .iter()
        .filter_map(|c| match c {
            CellContent::Char(ch) => Some(*ch),
            _ => None,
        })
        .collect();
    assert_eq!(row3, "00:00:10");
    // At and after the target the message is shown.
    let at = Timestamp { secs: 100, nanos: 0 };
    let s = board_state_for(Some(&item), ItemContent::Countdown(Some(make())), at, ThemeKind::Dark, None);
    assert_eq!(s.grid, splash_grid());
    let after = Timestamp { secs: 110, nanos: 0 };
    let s = board_state_for(Some(&item), ItemContent::Countdown(Some(make())), after, ThemeKind::Dark, None);
    assert_eq!(s.grid, splash_grid());
    assert_eq!(s.grid.0[2][5], CellContent::Char('H'));
}

#[test]
fn missing_item_content_is_blank() {
    let now = Timestamp { secs: 1, nanos: 0 };
    let item = QueueItem {
        id: 4,
        kind: QueueItemKind::Message,
        label: "GONE".to_string(),
        queue_position: 0,
        expires_at: None,
        display_at: None,
    };
    let s = board_state_for(Some(&item), ItemContent::Message(None), now, ThemeKind::Dark, None);
    assert_eq!(s.grid, Grid::blank());
    assert_eq!(s.current_item.unwrap().label, "GONE");
}

#[test]
fn ws_initial_state_empty_board() {
    let now = Timestamp { secs: 42, nanos: 0 };
    let s = board_state_for(None, ItemContent::Message(None), now, ThemeKind::Dark, None);
    assert_eq!(s.grid, splash_grid());
    assert_eq!(s.previous_grid, Grid::blank());
    assert!(s.current_item.is_none());
}

#[test]
fn rotation_advance_cycles_through_queue() {
    let item = |id: u128, label: &str| QueueItem {
        id,
        kind: QueueItemKind::Message,
        label: label.to_string(),
        queue_position: id as i64,
        expires_at: None,
        display_at: None,
    };
    let queue = merge_queue(vec![item(0, "AAA"), item(1, "BBB"), item(2, "CCC")], vec![]);
    let now = Timestamp { secs: 0, nanos: 0 };
    let mut seen = vec![];
    for index in 0..4 {
        let current = current_queue_item(&queue, index);
        let grid = Grid::from_text(&current.as_ref().unwrap().label, herald::board::HAlign::Center, herald::board::VAlign::Middle).unwrap();
        let board = board_state_for(current.as_ref(), ItemContent::Message(Some(grid)), now, ThemeKind::Dark, None);
        seen.push(board.current_item.unwrap().id);
    }
    assert_eq!(seen, vec![0, 1, 2, 0]);
}

#[test]
fn queue_merged_and_reorder() {
    let message = QueueItem {
        id: 10,
        kind: QueueItemKind::Message,
        label: "MSG ONE".to_string(),
        queue_position: 0,
        expires_at: None,
        display_at: None,
    };
    let countdown = QueueItem {
        id: 20,
        kind: QueueItemKind::Countdown,
        label: "EVENT".to_string(),
        queue_position: 1,
        expires_at: None,
        display_at: None,
    };
    let queue = merge_queue(vec![message], vec![countdown]);
    assert_eq!(queue.len(), 2);
    let ids: Vec<u128> = queue.iter().map(|i| i.id).collect();
    assert!(validate_reorder(&ids, &[20, 10]).is_ok());
    // After reordering, positions follow the requested order.
    let reordered = merge_queue(
        vec![QueueItem { queue_position: 1, ..queue[0].clone() }],
        vec![QueueItem { queue_position: 0, ..queue[1].clone() }],
    );
    assert_eq!(reordered[0].id, 20);
    assert_eq!(reordered[1].id, 10);
}

#[test]
fn rate_limiter_admits_exactly_while_under_limit_in_last_minute() {
    let limit = 3usize;
    let mut l = RateLimiter::new(limit as u32);
    let times: Vec<u128> = vec![0, 10, 20, 30, 40, WINDOW_NANOS, WINDOW_NANOS + 5, WINDOW_NANOS + 10, WINDOW_NANOS + 15, WINDOW_NANOS + 20, 3 * WINDOW_NANOS];
    let mut admitted: Vec<u128> = Vec::new();
    for &t in &times {
        let recent = admitted.iter().filter(|&&a| a + WINDOW_NANOS > t).count();
        let allowed = l.check_at(t);
        assert_eq!(allowed, recent < limit, "request at {t}");
        if allowed {
            admitted.push(t);
        }
    }
    assert_eq!(admitted, vec![0, 10, 20, WINDOW_NANOS, WINDOW_NANOS + 10, WINDOW_NANOS + 20, 3 * WINDOW_NANOS]);
}
