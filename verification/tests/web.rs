use herald::board::{CellContent, Color, Grid, HAlign, ThemeColors, ThemeKind, Timestamp};
use herald::countdown::ZeroBehavior;
use herald::layout::MessageTemplate;
use herald::web::{
    check_composer, check_countdown_form, display_at_from_form, preview_grid,
    cell_to_char, cell_to_preview, changed_columns, color_to_css, datetime_from_parsed,
    format_remaining, is_light_color, parse_align, parse_datetime, parse_template,
    parse_zero_behavior, reconnect_delay_ms, theme_attr, theme_custom_style,
    changed_config_values, flip_delay_ms, half_bg_style, order_after_drop, tile_classes,
    tile_starts_flip, tile_style,
};

#[test]
fn tile_texts() {
    assert_eq!(cell_to_char(&CellContent::Char('Q')), "Q");
    assert_eq!(cell_to_char(&CellContent::Blank), " ");
    assert_eq!(cell_to_char(&CellContent::Color(Color::Red)), "");
    assert_eq!(color_to_css(&Color::Violet), "var(--color-violet)");
    assert!(is_light_color(&Color::White));
    assert!(is_light_color(&Color::Yellow));
    assert!(!is_light_color(&Color::Black));
}

#[test]
fn preview_tiles() {
    assert_eq!(cell_to_preview(&CellContent::Char('A')), ("preview-tile", String::new(), "A".to_string()));
    assert_eq!(
        cell_to_preview(&CellContent::Color(Color::Green)),
        ("preview-tile preview-tile--color", "background: var(--color-green);".to_string(), String::new())
    );
    assert_eq!(
        cell_to_preview(&CellContent::Blank),
        ("preview-tile preview-tile--blank", String::new(), " ".to_string())
    );
}

#[test]
fn form_fields() {
    assert_eq!(parse_align("left"), HAlign::Left);
    assert_eq!(parse_align("right"), HAlign::Right);
    assert_eq!(parse_align("LEFT"), HAlign::Center);
    assert_eq!(parse_template("countdown"), Some(MessageTemplate::Countdown));
    assert_eq!(parse_template("none"), None);
    assert!(matches!(parse_zero_behavior("remove"), ZeroBehavior::Remove));
    assert!(matches!(parse_zero_behavior("pause"), ZeroBehavior::Pause));
    assert!(matches!(parse_zero_behavior("whatever"), ZeroBehavior::ShowZero));
}

#[test]
fn remaining_with_seconds() {
    let now = Timestamp { secs: 0, nanos: 0 };
    let at = |s: i64| Timestamp { secs: s, nanos: 0 };
    assert_eq!(format_remaining(at(0), now), "Expired");
    assert_eq!(format_remaining(at(42), now), "42s");
    assert_eq!(format_remaining(at(125), now), "2m 5s");
    assert_eq!(format_remaining(at(3 * 3600 + 2 * 60 + 1), now), "3h 2m 1s");
    assert_eq!(format_remaining(at(86400 + 3600 + 60 + 1), now), "1d 1h 1m");
}

#[test]
fn date_fields() {
    assert_eq!(parse_datetime("2025-12-31T23:59"), Some(Timestamp { secs: 1_767_225_540, nanos: 0 }));
    assert_eq!(parse_datetime("2025-12-31T23:59:30"), Some(Timestamp { secs: 1_767_225_570, nanos: 0 }));
    assert_eq!(parse_datetime("2025-12-31T23:59:59+01:00"), Some(Timestamp { secs: 1_767_221_999, nanos: 0 }));
    assert_eq!(parse_datetime("next week"), None);
    let t = Timestamp { secs: 3, nanos: 0 };
    assert_eq!(datetime_from_parsed(None, Some(t), Err("x".to_string())), Some(t));
    assert_eq!(datetime_from_parsed(None, None, Err("x".to_string())), None);
}

#[test]
fn theme_attributes() {
    assert_eq!(theme_attr(ThemeKind::Classic), "classic");
    assert_eq!(theme_attr(ThemeKind::Custom), "custom");
    let colors = Some(ThemeColors {
        board_bg: Some("#000000".to_string()),
        tile_bg: None,
        char_color: Some("#ffffff".to_string()),
    });
    assert_eq!(
        theme_custom_style(ThemeKind::Custom, &colors),
        "--board-bg:#000000;--body-bg:#000000;--tile-char-color:#ffffff;"
    );
    assert_eq!(theme_custom_style(ThemeKind::Dark, &colors), "");
    assert_eq!(theme_custom_style(ThemeKind::Custom, &None), "");
}

#[test]
fn reconnect_delays() {
    let delays: Vec<u32> = (0..7).map(reconnect_delay_ms).collect();
    assert_eq!(delays, vec![1000, 2000, 4000, 8000, 16000, 30000, 30000]);
    assert_eq!(reconnect_delay_ms(22), 30000);
}

#[test]
fn changed_columns_of_update() {
    let a = Grid::blank();
    let mut b = Grid::blank();
    b.0[0][3] = CellContent::Char('A');
    b.0[5][3] = CellContent::Char('B');
    b.0[2][21] = CellContent::Color(Color::Red);
    assert_eq!(changed_columns(&a, &b, true), vec![3, 21]);
    assert!(changed_columns(&a, &b, false).is_empty());
    assert!(changed_columns(&a, &a, true).is_empty());
}

#[test]
fn composer_preview_grid() {
    assert_eq!(preview_grid("", "left", ""), Grid::blank());
    assert_eq!(
        preview_grid("HI", "left", ""),
        Grid::from_text("HI", HAlign::Left, herald::board::VAlign::Middle).unwrap()
    );
    assert_eq!(
        preview_grid("NEWS", "left", "ticker"),
        Grid::from_template(MessageTemplate::Ticker, "NEWS").unwrap()
    );
    assert_eq!(preview_grid("A\nB\nC\nD\nE\nF\nG", "center", ""), Grid::blank());
}

#[test]
fn composer_and_countdown_form_checks() {
    assert_eq!(check_composer("   ", ""), Err("Message text cannot be empty"));
    assert_eq!(check_composer("HI", ""), Ok(None));
    assert_eq!(check_composer("HI", "later"), Err("Invalid expiry date format"));
    assert_eq!(
        check_composer("HI", "2025-12-31T23:59"),
        Ok(Some(Timestamp { secs: 1_767_225_540, nanos: 0 }))
    );
    assert_eq!(check_countdown_form(" ", "x"), Err("Label cannot be empty"));
    assert_eq!(check_countdown_form("GO", ""), Err("Target date/time is required"));
    assert_eq!(check_countdown_form("GO", "x"), Err("Invalid date/time format"));
    assert!(check_countdown_form("GO", "2025-12-31T23:59:59Z").is_ok());
    assert_eq!(display_at_from_form(""), None);
    assert_eq!(display_at_from_form("2025-12-31T23:59:59"), None);
    assert_eq!(display_at_from_form("2025-12-31T23:59"), Some(Timestamp { secs: 1_767_225_540, nanos: 0 }));
}

#[test]
fn websocket_address_of_page() {
    assert_eq!(herald::web::ws_url_for("https:", "board.example:8443"), "wss://board.example:8443/ws");
    assert_eq!(herald::web::ws_url_for("http:", "localhost:3000"), "ws://localhost:3000/ws");
}

#[test]
fn flap_tile_delay_and_flip() {
    assert_eq!(flip_delay_ms(0), 350);
    assert_eq!(flip_delay_ms(21), 770);
    assert!(tile_starts_flip(true, CellContent::Blank, CellContent::Blank, true));
    assert!(!tile_starts_flip(true, CellContent::Char('A'), CellContent::Blank, false));
    assert!(tile_starts_flip(false, CellContent::Char('A'), CellContent::Blank, true));
    assert!(!tile_starts_flip(false, CellContent::Char('A'), CellContent::Char('A'), true));
}

#[test]
fn flap_tile_classes_and_styles() {
    assert_eq!(tile_classes(&CellContent::Char('A'), true, true), "flap-tile");
    assert_eq!(tile_classes(&CellContent::Char('A'), true, false), "flap-tile flap-tile--idle");
    assert_eq!(tile_classes(&CellContent::Blank, false, false), "flap-tile flap-tile--loading flap-tile--idle");
    assert_eq!(tile_classes(&CellContent::Color(Color::Red), true, true), "flap-tile flap-tile--color");
    assert_eq!(
        tile_classes(&CellContent::Color(Color::Yellow), true, false),
        "flap-tile flap-tile--color flap-tile--light flap-tile--idle"
    );
    assert_eq!(tile_style(&CellContent::Char('A'), 7), "--col-index: 7;");
    assert_eq!(
        tile_style(&CellContent::Color(Color::Blue), 12),
        "--col-index: 12; --tile-bg: var(--color-blue);"
    );
    assert_eq!(half_bg_style(&CellContent::Char('A')), "");
    assert_eq!(half_bg_style(&CellContent::Color(Color::Green)), "background: var(--color-green);");
}

#[test]
fn dragging_an_item_moves_it() {
    let ids: Vec<u128> = vec![10, 20, 30, 40];
    assert_eq!(order_after_drop(&ids, 0, 2), vec![20, 30, 10, 40]);
    assert_eq!(order_after_drop(&ids, 3, 0), vec![40, 10, 20, 30]);
    assert_eq!(order_after_drop(&ids, 1, 1), ids);
}

#[test]
fn only_changed_config_values_are_saved() {
    let pair = |k: &str, v: &str| (k.to_string(), v.to_string());
    let original = vec![pair("rate_limit_per_minute", "60"), pair("rotation_interval_seconds", "10"), pair("theme", "\"dark\"")];
    let same = original.clone();
    assert!(changed_config_values(&original, &same).is_empty());
    let edited = vec![
        pair("rate_limit_per_minute", "60"),
        pair("rotation_interval_seconds", "30"),
        pair("theme", "\"dark\""),
        pair("new_key", "1"),
    ];
    assert_eq!(
        changed_config_values(&original, &edited),
        vec![pair("rotation_interval_seconds", "30"), pair("new_key", "1")]
    );
}
