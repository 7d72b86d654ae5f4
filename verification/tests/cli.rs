use herald::board::{CellContent, Color, Grid, HAlign, QueueItemKind, Timestamp};
use herald::cli::{
    check_countdown_id, color_symbol, config_description, countdown_target_from, expires_from,
    format_remaining, format_uptime, grid_preview_lines, is_known_config_key, is_valid_uuid,
    kind_name, next_backoff_secs, order_from_parsed, parse_alignment, parse_countdown_target,
    parse_expires, parse_order_ids, parse_template_name, parse_zero_behavior, row_marker,
    truncate_label, AnimationSpeed, MAX_BACKOFF_SECS,
};
use herald::countdown::ZeroBehavior;
use herald::layout::MessageTemplate;

#[test]
fn test_format_uptime() {
    assert_eq!(format_uptime(0), "0s");
    assert_eq!(format_uptime(45), "45s");
    assert_eq!(format_uptime(60), "1m 0s");
    assert_eq!(format_uptime(90), "1m 30s");
    assert_eq!(format_uptime(3600), "1h 0m 0s");
    assert_eq!(format_uptime(8130), "2h 15m 30s");
}

#[test]
fn config_descriptions() {
    assert_eq!(config_description("rotation_interval_seconds"), "Seconds between queue item rotation");
    assert_eq!(config_description("default_v_align"), "Default vertical alignment (top/middle)");
    assert_eq!(config_description("countdown_zero_behavior"), "What happens when countdown reaches zero");
    assert_eq!(config_description("theme"), "");
    assert!(is_known_config_key("default_color"));
    assert!(!is_known_config_key("theme"));
}

#[test]
fn alignment_arguments() {
    assert_eq!(parse_alignment("left").unwrap(), HAlign::Left);
    assert_eq!(parse_alignment("CENTER").unwrap(), HAlign::Center);
    assert_eq!(parse_alignment("Right").unwrap(), HAlign::Right);
    assert_eq!(
        parse_alignment("Middle").unwrap_err(),
        "invalid alignment 'middle': expected 'left', 'center', or 'right'"
    );
}

#[test]
fn template_arguments() {
    assert_eq!(parse_template_name(None).unwrap(), None);
    assert_eq!(parse_template_name(Some("ticker")).unwrap(), Some(MessageTemplate::Ticker));
    assert_eq!(parse_template_name(Some("greeting")).unwrap(), Some(MessageTemplate::Greeting));
    assert_eq!(
        parse_template_name(Some("Ticker")).unwrap_err(),
        "Unknown template: Ticker. Options: announcement, greeting, countdown, ticker"
    );
}

#[test]
fn zero_behavior_arguments() {
    assert!(matches!(parse_zero_behavior("show_zero"), Ok(ZeroBehavior::ShowZero)));
    assert!(matches!(parse_zero_behavior("REMOVE"), Ok(ZeroBehavior::Remove)));
    assert!(matches!(parse_zero_behavior("Pause"), Ok(ZeroBehavior::Pause)));
    match parse_zero_behavior("Stop") {
        Err(e) => assert_eq!(e, "invalid zero_behavior 'stop': expected 'show_zero', 'remove', or 'pause'"),
        Ok(_) => panic!("expected an error"),
    }
}

#[test]
fn color_symbols() {
    assert_eq!(color_symbol(&Color::White), '□');
    assert_eq!(color_symbol(&Color::Red), '■');
    assert_eq!(color_symbol(&Color::Black), '■');
}

#[test]
fn labels_truncated_for_listing() {
    assert_eq!(truncate_label("SHORT"), "SHORT");
    assert_eq!(truncate_label("ABCDEFGHIJKLMNOPQRST"), "ABCDEFGHIJKLMNOPQRST");
    assert_eq!(truncate_label("ABCDEFGHIJKLMNOPQRSTU"), "ABCDEFGHIJKLMNOPQRS…");
}

#[test]
fn remaining_time_texts() {
    let now = Timestamp { secs: 1_000, nanos: 0 };
    let at = |s: i64| Timestamp { secs: 1_000 + s, nanos: 0 };
    assert_eq!(format_remaining(at(0), now), "expired");
    assert_eq!(format_remaining(at(-5), now), "expired");
    assert_eq!(format_remaining(at(59), now), "0m");
    assert_eq!(format_remaining(at(3 * 3600 + 4 * 60), now), "3h 4m");
    assert_eq!(format_remaining(at(2 * 86400 + 3 * 3600 + 4 * 60 + 5), now), "2d 3h 4m");
    assert_eq!(format_remaining(Timestamp { secs: 1_000, nanos: 1 }, now), "0m");
}

#[test]
fn uuid_shapes() {
    assert!(is_valid_uuid("550e8400-e29b-41d4-a716-446655440000"));
    assert!(is_valid_uuid("550E8400-E29B-41D4-A716-446655440000"));
    assert!(!is_valid_uuid("550e8400e29b41d4a716446655440000"));
    assert!(!is_valid_uuid("550e8400-e29b-41d4-a716-44665544000g"));
    assert!(!is_valid_uuid("550e8400-e29b-41d4-a716-4466554400001"));
    assert!(check_countdown_id("550e8400-e29b-41d4-a716-446655440000").is_ok());
    assert_eq!(
        check_countdown_id("abc").unwrap_err(),
        "invalid countdown ID 'abc': expected a UUID (e.g. 550e8400-e29b-41d4-a716-446655440000)"
    );
}

#[test]
fn queue_listing_words() {
    assert_eq!(kind_name(QueueItemKind::Message), "message");
    assert_eq!(kind_name(QueueItemKind::Countdown), "countdown");
    assert_eq!(row_marker(2, 2), "▶");
    assert_eq!(row_marker(1, 2), " ");
    assert_eq!(row_marker(0, -1), " ");
}

#[test]
fn backoff_doubles_up_to_thirty() {
    let mut b = 1;
    let mut seen = vec![];
    for _ in 0..7 {
        seen.push(b);
        b = next_backoff_secs(b);
    }
    assert_eq!(seen, vec![1, 2, 4, 8, 16, 30, 30]);
    assert_eq!(next_backoff_secs(MAX_BACKOFF_SECS), MAX_BACKOFF_SECS);
}

#[test]
fn animation_speed_presets() {
    assert_eq!(AnimationSpeed::Fast.step_duration(), 25);
    assert_eq!(AnimationSpeed::Normal.step_duration(), 50);
    assert_eq!(AnimationSpeed::Slow.step_duration(), 100);
    assert_eq!(AnimationSpeed::Off.step_duration(), 0);
    assert_eq!(AnimationSpeed::Fast.stagger_per_column(), 10);
    assert_eq!(AnimationSpeed::Normal.stagger_per_column(), 20);
    assert_eq!(AnimationSpeed::Slow.stagger_per_column(), 40);
    assert_eq!(AnimationSpeed::Off.stagger_per_column(), 0);
}

#[test]
fn countdown_target_arguments() {
    let t = parse_countdown_target("2025-12-31T00:00:00Z").unwrap();
    assert_eq!(t, Timestamp { secs: 1_767_139_200, nanos: 0 });
    let err = parse_countdown_target("tomorrow").unwrap_err();
    assert!(err.starts_with(
        "invalid target timestamp 'tomorrow': expected ISO-8601 format (e.g. 2025-12-31T00:00:00Z): "
    ));
    assert_eq!(
        countdown_target_from("x", Err("bad".to_string())).unwrap_err(),
        "invalid target timestamp 'x': expected ISO-8601 format (e.g. 2025-12-31T00:00:00Z): bad"
    );
}

#[test]
fn expires_arguments() {
    assert_eq!(parse_expires(None).unwrap(), None);
    assert_eq!(
        parse_expires(Some("2025-12-31T23:59:59Z")).unwrap(),
        Some(Timestamp { secs: 1_767_225_599, nanos: 0 })
    );
    assert_eq!(
        expires_from(Some("soon"), Some(Err("oops".to_string()))).unwrap_err(),
        "invalid expires timestamp 'soon': expected ISO-8601 format (e.g. 2025-12-31T23:59:59Z): oops"
    );
}

#[test]
fn reorder_identifiers() {
    let ids = vec![
        "550e8400-e29b-41d4-a716-446655440000".to_string(),
        "00000000-0000-0000-0000-000000000001".to_string(),
    ];
    let order = parse_order_ids(&ids).unwrap();
    assert_eq!(order, vec![0x550e8400_e29b_41d4_a716_446655440000u128, 1]);
    let bad = vec![ids[0].clone(), "nope".to_string(), "neither".to_string()];
    assert_eq!(
        parse_order_ids(&bad).unwrap_err(),
        "invalid UUID 'nope': expected format like 550e8400-e29b-41d4-a716-446655440000"
    );
    assert_eq!(
        order_from_parsed(&bad, &vec![Some(5), Some(6), None]).unwrap_err(),
        "invalid UUID 'neither': expected format like 550e8400-e29b-41d4-a716-446655440000"
    );
}

#[test]
fn grid_preview_of_blank_and_filled_cells() {
    let mut grid = Grid::blank();
    grid.0[0][0] = CellContent::Char('H');
    grid.0[0][1] = CellContent::Color(Color::White);
    grid.0[0][2] = CellContent::Color(Color::Red);
    let lines = grid_preview_lines(&grid);
    assert_eq!(lines.len(), 13);
    assert_eq!(lines[0], format!("┌{}───┐", "───┬".repeat(21)));
    assert_eq!(lines[2], format!("├{}───┤", "───┼".repeat(21)));
    assert_eq!(lines[12], format!("└{}───┘", "───┴".repeat(21)));
    assert!(lines[1].starts_with("│ H │ □ │ ■ │   │"));
    assert!(lines[1].ends_with("│   │"));
    assert_eq!(lines[1].chars().count(), 89);
}
