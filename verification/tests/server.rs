use herald::api::{
    parse_unsigned, check_config_update, check_update_request, health_response, not_found_message,
    rate_limit_from, rate_limited_response, resolve_create_content, resolve_update_content,
    rotation_interval_from, theme_colors_from, theme_from_config, validate_label,
    validate_label_update, Message, UpdateMessageRequest,
};
use herald::board::{CellContent, Grid, HAlign, ThemeKind, Timestamp, VAlign};

fn message_with_text(text: &str) -> Message {
    Message {
        id: 1,
        grid: Grid::from_text(text, HAlign::Center, VAlign::Middle).unwrap(),
        source_text: Some(text.to_string()),
        h_align: HAlign::Center,
        v_align: VAlign::Middle,
        queue_position: 0,
        created_at: Timestamp { secs: 0, nanos: 0 },
        expires_at: None,
    }
}

fn update(text: Option<&str>, grid: Option<Grid>, h: Option<HAlign>) -> UpdateMessageRequest {
    UpdateMessageRequest {
        text: text.map(|t| t.to_string()),
        grid,
        h_align: h,
        v_align: None,
        queue_position: None,
        expires_at: None,
    }
}

#[test]
fn create_from_text_keeps_source() {
    let (grid, source) =
        resolve_create_content(Some("HELLO".to_string()), None, HAlign::Left, VAlign::Top).unwrap();
    assert_eq!(grid.0[0][0], CellContent::Char('H'));
    assert_eq!(source.as_deref(), Some("HELLO"));
}

#[test]
fn create_from_grid_has_no_source() {
    let (grid, source) = resolve_create_content(None, Some(Grid::blank()), HAlign::Left, VAlign::Top).unwrap();
    assert_eq!(grid, Grid::blank());
    assert!(source.is_none());
}

#[test]
fn create_refusals() {
    assert_eq!(
        resolve_create_content(Some("A".to_string()), Some(Grid::blank()), HAlign::Left, VAlign::Top)
            .unwrap_err(),
        "provide either 'text' or 'grid', not both"
    );
    assert_eq!(
        resolve_create_content(None, None, HAlign::Left, VAlign::Top).unwrap_err(),
        "provide either 'text' or 'grid'"
    );
    let mut bad = Grid::blank();
    bad.0[3].pop();
    assert_eq!(
        resolve_create_content(None, Some(bad), HAlign::Left, VAlign::Top).unwrap_err(),
        "row 3 must have 22 columns, got 21"
    );
    assert_eq!(
        resolve_create_content(Some("A\nB\nC\nD\nE\nF\nG".to_string()), None, HAlign::Left, VAlign::Top)
            .unwrap_err(),
        "text requires 7 lines but the board only has 6 rows"
    );
}

#[test]
fn update_request_checks() {
    assert!(check_update_request(&update(Some("A"), None, None)).is_ok());
    assert_eq!(
        check_update_request(&update(Some("A"), Some(Grid::blank()), None)).unwrap_err(),
        "provide either 'text' or 'grid', not both"
    );
    assert_eq!(
        check_update_request(&update(None, Some(Grid(vec![])), None)).unwrap_err(),
        "grid must have 6 rows, got 0"
    );
}

#[test]
fn update_resolution() {
    let existing = message_with_text("HI");
    let r = resolve_update_content(&existing, &update(Some("BYE"), None, None)).unwrap().unwrap();
    assert_eq!(r.source_text.as_deref(), Some("BYE"));
    assert_eq!(r.grid, Grid::from_text("BYE", HAlign::Center, VAlign::Middle).unwrap());

    let r = resolve_update_content(&existing, &update(None, Some(Grid::blank()), None)).unwrap().unwrap();
    assert_eq!(r.grid, Grid::blank());
    assert!(r.source_text.is_none());

    let r = resolve_update_content(&existing, &update(None, None, Some(HAlign::Left))).unwrap().unwrap();
    assert_eq!(r.grid, Grid::from_text("HI", HAlign::Left, VAlign::Middle).unwrap());
    assert_eq!(r.source_text.as_deref(), Some("HI"));

    assert!(resolve_update_content(&existing, &update(None, None, None)).unwrap().is_none());

    let mut raw = message_with_text("HI");
    raw.source_text = None;
    assert!(resolve_update_content(&raw, &update(None, None, Some(HAlign::Right))).unwrap().is_none());
}

#[test]
fn create_countdown_empty_label_returns_400() {
    assert_eq!(validate_label("").unwrap_err(), "label must not be empty");
}

#[test]
fn countdown_label_limits() {
    assert!(validate_label("LAUNCH").is_ok());
    assert!(validate_label(&"A".repeat(44)).is_ok());
    assert_eq!(validate_label(&"A".repeat(45)).unwrap_err(), "label must be 44 characters or fewer");
    assert_eq!(validate_label(&"é".repeat(23)).unwrap_err(), "label must be 44 characters or fewer");
    assert!(validate_label_update(None).is_ok());
    assert_eq!(validate_label_update(Some("")).unwrap_err(), "label must not be empty");
}

#[test]
fn config_update_empty_returns_400() {
    assert_eq!(
        check_config_update(0).unwrap_err(),
        "request body must contain at least one key-value pair"
    );
    assert!(check_config_update(2).is_ok());
}

#[test]
fn responses() {
    assert_eq!(not_found_message("message", "abc"), "message abc not found");
    let h = health_response("0.1.0", 12, 3);
    assert_eq!((h.status.as_str(), h.version.as_str(), h.uptime_seconds, h.queue_size), ("ok", "0.1.0", 12, 3));
    let e = rate_limited_response();
    assert_eq!(e.error, "too_many_requests");
    assert_eq!(e.message, "rate limit exceeded — try again later");
}

#[test]
fn theme_configuration() {
    assert_eq!(theme_from_config(None), ThemeKind::Dark);
    assert_eq!(theme_from_config(Some("classic")), ThemeKind::Classic);
    assert_eq!(theme_from_config(Some("nonsense")), ThemeKind::Dark);
    assert!(theme_colors_from(ThemeKind::Dark, Some("#000000".to_string()), None, None).is_none());
    assert!(theme_colors_from(ThemeKind::Custom, None, None, None).is_none());
    let c = theme_colors_from(ThemeKind::Custom, None, Some("#112233".to_string()), None).unwrap();
    assert_eq!(c.tile_bg.as_deref(), Some("#112233"));
    assert!(c.board_bg.is_none());
}

#[test]
fn numeric_configuration() {
    assert_eq!(rotation_interval_from(None), 10);
    assert_eq!(rotation_interval_from(Some("30")), 30);
    assert_eq!(rotation_interval_from(Some("+7")), 7);
    assert_eq!(rotation_interval_from(Some(" 30")), 10);
    assert_eq!(rotation_interval_from(Some("-1")), 10);
    assert_eq!(rotation_interval_from(Some("0")), 0);
    assert_eq!(rate_limit_from(None), 60);
    assert_eq!(rate_limit_from(Some("120")), 120);
    assert_eq!(rate_limit_from(Some("4294967296")), 60);
    assert_eq!(rate_limit_from(Some("abc")), 60);
}

#[test]
fn create_message_invalid_grid_returns_400() {
    let bad = Grid((0..3).map(|_| vec![CellContent::Blank; 22]).collect());
    assert_eq!(
        resolve_create_content(None, Some(bad), HAlign::Center, VAlign::Middle).unwrap_err(),
        "grid must have 6 rows, got 3"
    );
    assert_eq!(
        resolve_create_content(None, None, HAlign::Center, VAlign::Middle).unwrap_err(),
        "provide either 'text' or 'grid'"
    );
}

#[test]
fn unsigned_numbers_read_like_std() {
    assert_eq!(parse_unsigned("30", u64::MAX), Some(30));
    assert_eq!(parse_unsigned("+7", u64::MAX), Some(7));
    assert_eq!(parse_unsigned("007", u64::MAX), Some(7));
    assert_eq!(parse_unsigned("", u64::MAX), None);
    assert_eq!(parse_unsigned("+", u64::MAX), None);
    assert_eq!(parse_unsigned("1a", u64::MAX), None);
    assert_eq!(parse_unsigned("1 ", u64::MAX), None);
    assert_eq!(parse_unsigned("18446744073709551615", u64::MAX), Some(u64::MAX));
    assert_eq!(parse_unsigned("18446744073709551616", u64::MAX), None);
    assert_eq!(parse_unsigned("4294967295", 4294967295), Some(4294967295));
    assert_eq!(parse_unsigned("4294967296", 4294967295), None);
    for s in ["0", "12", "+99", "x", "-3", "99999999999999999999", "1_000"] {
        assert_eq!(parse_unsigned(s, u64::MAX), s.parse::<u64>().ok());
    }
}
