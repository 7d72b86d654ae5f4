use herald::board::{CellContent, Grid, QueueItemKind, Timestamp};
use herald::queue::{
    current_position, current_queue_item, derive_message_label, displayable_queue, item_info,
    merge_queue, sort_queue, validate_reorder, QueueItem,
};

fn item(id: u128, kind: QueueItemKind, label: &str, pos: i64) -> QueueItem {
    QueueItem { id, kind, label: label.to_string(), queue_position: pos, expires_at: None, display_at: None }
}

#[test]
fn queue_sorted_by_position_then_label() {
    let messages = vec![
        item(1, QueueItemKind::Message, "ZULU", 1),
        item(2, QueueItemKind::Message, "ALPHA", 2),
    ];
    let countdowns = vec![
        item(3, QueueItemKind::Countdown, "BRAVO", 1),
        item(4, QueueItemKind::Countdown, "ALPHA", 0),
    ];
    let q = merge_queue(messages, countdowns);
    let ids: Vec<u128> = q.iter().map(|i| i.id).collect();
    assert_eq!(ids, vec![4, 3, 1, 2]);
}

#[test]
fn queue_sort_is_stable_for_equal_keys() {
    let q = sort_queue(vec![
        item(1, QueueItemKind::Message, "SAME", 0),
        item(2, QueueItemKind::Countdown, "SAME", 0),
        item(3, QueueItemKind::Message, "SAME", 0),
    ]);
    let ids: Vec<u128> = q.iter().map(|i| i.id).collect();
    assert_eq!(ids, vec![1, 2, 3]);
}

#[test]
fn label_order_is_byte_order() {
    let q = sort_queue(vec![
        item(1, QueueItemKind::Message, "b", 0),
        item(2, QueueItemKind::Message, "B", 0),
        item(3, QueueItemKind::Message, "BA", 0),
    ]);
    let ids: Vec<u128> = q.iter().map(|i| i.id).collect();
    assert_eq!(ids, vec![2, 3, 1]);
}

#[test]
fn scheduled_messages_hidden_until_due() {
    let now = Timestamp { secs: 100, nanos: 0 };
    let mut later = item(1, QueueItemKind::Message, "LATER", 0);
    later.display_at = Some(Timestamp { secs: 100, nanos: 1 });
    let mut due = item(2, QueueItemKind::Message, "DUE", 1);
    due.display_at = Some(Timestamp { secs: 100, nanos: 0 });
    let plain = item(3, QueueItemKind::Countdown, "PLAIN", 2);
    let shown = displayable_queue(vec![later, due, plain], now);
    let ids: Vec<u128> = shown.iter().map(|i| i.id).collect();
    assert_eq!(ids, vec![2, 3]);
}

#[test]
fn rotation_index_wraps_around_queue() {
    assert_eq!(current_position(3, 0), 0);
    assert_eq!(current_position(3, 4), 1);
    assert_eq!(current_position(3, 6), 0);
    let q = vec![
        item(10, QueueItemKind::Message, "A", 0),
        item(11, QueueItemKind::Message, "B", 1),
    ];
    let seen: Vec<u128> = (0..5).map(|i| current_queue_item(&q, i).unwrap().id).collect();
    assert_eq!(seen, vec![10, 11, 10, 11, 10]);
    assert!(current_queue_item(&Vec::new(), 3).is_none());
    let info = item_info(&q[1]);
    assert_eq!((info.id, info.kind, info.label.as_str()), (11, QueueItemKind::Message, "B"));
}

#[test]
fn message_labels() {
    assert_eq!(derive_message_label(None), "(message)");
    assert_eq!(derive_message_label(Some(&Grid::blank())), "(message)");
    let grid = Grid::from_text("HELLO\nWORLD", herald::board::HAlign::Center, herald::board::VAlign::Top).unwrap();
    assert_eq!(derive_message_label(Some(&grid)), "HELLO WORLD");
    let mut coloured = Grid::blank();
    coloured.0[0][0] = CellContent::Color(herald::board::Color::Red);
    coloured.0[0][1] = CellContent::Char('A');
    coloured.0[0][3] = CellContent::Char('B');
    assert_eq!(derive_message_label(Some(&coloured)), "A B");
}

#[test]
fn long_message_labels_are_cut() {
    let mut grid = Grid::blank();
    for c in 0..22 {
        grid.0[0][c] = CellContent::Char('X');
        grid.0[1][c] = CellContent::Char('Y');
        grid.0[2][c] = CellContent::Char('Z');
    }
    let label = derive_message_label(Some(&grid));
    assert_eq!(label, format!("{} {}{}...", "X".repeat(22), "Y".repeat(18), ""));
    assert_eq!(label.len(), 44);
}

#[test]
fn queue_reorder_incomplete_ids_returns_400() {
    assert!(validate_reorder(&[1, 2, 3], &[3, 1, 2]).is_ok());
    assert!(validate_reorder(&[1, 2], &[2, 1, 1]).is_ok());
    assert_eq!(
        validate_reorder(&[1, 2, 3], &[1, 2]).unwrap_err(),
        "order must contain exactly all current queue item IDs"
    );
    assert!(validate_reorder(&[1, 2], &[1, 2, 4]).is_err());
}
