use herald::board::{CellContent, Timestamp, BOARD_COLS};
use herald::countdown::{
    default_format_template, format_template, render_countdown_grid, Countdown, ZeroBehavior,
};

fn ts(dt: chrono::DateTime<chrono::Utc>) -> Timestamp {
    Timestamp { secs: dt.timestamp(), nanos: dt.timestamp_subsec_nanos() }
}

fn make_countdown(label: &str, target: chrono::DateTime<chrono::Utc>, template: &str) -> Countdown {
    Countdown {
        id: uuid::Uuid::new_v4().as_u128(),
        label: label.to_string(),
        target: ts(target),
        format_template: template.to_string(),
        zero_behavior: ZeroBehavior::ShowZero,
        queue_position: 0,
        created_at: ts(chrono::Utc::now()),
    }
}

#[test]
fn test_format_template_basic() {
    let dur = chrono::Duration::seconds(42 * 86400 + 7 * 3600 + 31 * 60 + 15);
    let result = format_template("{DDD} DAYS  {HH}:{MM}:{SS}", dur.num_seconds());
    assert_eq!(result, "042 DAYS  07:31:15");
}

#[test]
fn test_format_template_no_leading_zeros() {
    let dur = chrono::Duration::seconds(5 * 86400 + 3 * 3600 + 9 * 60 + 2);
    let result = format_template("{D} DAYS  {H}:{M}:{S}", dur.num_seconds());
    assert_eq!(result, "5 DAYS  3:9:2");
}

#[test]
fn test_format_template_zero_duration() {
    let dur = chrono::Duration::zero();
    let result = format_template("{DDD} DAYS  {HH}:{MM}:{SS}", dur.num_seconds());
    assert_eq!(result, "000 DAYS  00:00:00");
}

#[test]
fn test_format_template_over_99_days() {
    let dur = chrono::Duration::seconds(365 * 86400 + 12 * 3600);
    let result = format_template("{D} DAYS  {HH}:{MM}:{SS}", dur.num_seconds());
    assert_eq!(result, "365 DAYS  12:00:00");
}

#[test]
fn test_format_template_ddd_over_999() {
    let dur = chrono::Duration::seconds(1234 * 86400);
    let result = format_template("{DDD} DAYS", dur.num_seconds());
    assert_eq!(result, "1234 DAYS");
}

#[test]
fn format_template_negative_counts_as_zero() {
    assert_eq!(format_template("{HH}:{MM}:{SS}", -3600), "00:00:00");
}

#[test]
fn format_template_without_tokens_is_unchanged() {
    assert_eq!(format_template("LIFTOFF!", 12345), "LIFTOFF!");
}

#[test]
fn default_template_text() {
    assert_eq!(default_format_template(), "{D} DAYS  {HH}:{MM}:{SS}");
}

#[test]
fn test_render_countdown_label_placed_on_row_0() {
    let now = chrono::Utc::now();
    let target = now + chrono::Duration::hours(1);
    let cd = make_countdown("LAUNCH", target, "{HH}:{MM}:{SS}");
    let grid = render_countdown_grid(&cd, ts(now));
    let start = (BOARD_COLS - 6) / 2;
    assert_eq!(grid.0[0][start], CellContent::Char('L'));
    assert_eq!(grid.0[0][start + 1], CellContent::Char('A'));
    assert_eq!(grid.0[0][start + 5], CellContent::Char('H'));
}

#[test]
fn test_render_countdown_time_on_row_3() {
    let now = chrono::Utc::now();
    let target = now + chrono::Duration::seconds(3661);
    let cd = make_countdown("TEST", target, "{HH}:{MM}:{SS}");
    let grid = render_countdown_grid(&cd, ts(now));
    let time_str = "01:01:01";
    let start = (BOARD_COLS - time_str.len()) / 2;
    for (i, ch) in time_str.chars().enumerate() {
        assert_eq!(grid.0[3][start + i], CellContent::Char(ch), "mismatch at row 3, col {}", start + i);
    }
}

#[test]
fn test_render_countdown_past_target_shows_zero() {
    let now = chrono::Utc::now();
    let target = now - chrono::Duration::hours(1);
    let cd = make_countdown("DONE", target, "{HH}:{MM}:{SS}");
    let grid = render_countdown_grid(&cd, ts(now));
    let time_str = "00:00:00";
    let start = (BOARD_COLS - time_str.len()) / 2;
    for (i, ch) in time_str.chars().enumerate() {
        assert_eq!(grid.0[3][start + i], CellContent::Char(ch));
    }
}

#[test]
fn test_render_countdown_row_2_and_5_blank() {
    let now = chrono::Utc::now();
    let target = now + chrono::Duration::hours(1);
    let cd = make_countdown("TEST", target, "{HH}:{MM}:{SS}");
    let grid = render_countdown_grid(&cd, ts(now));
    for col in 0..BOARD_COLS {
        assert_eq!(grid.0[2][col], CellContent::Blank, "row 2, col {col} not blank");
        assert_eq!(grid.0[5][col], CellContent::Blank, "row 5, col {col} not blank");
    }
}

#[test]
fn test_render_countdown_multirow_time() {
    let now = chrono::Utc::now();
    let target = now + chrono::Duration::seconds(42 * 86400 + 7 * 3600 + 31 * 60 + 15);
    let cd = make_countdown("EVENT", target, "{D} DAYS  {H} HRS/{M} MIN   {S} SEC");
    let grid = render_countdown_grid(&cd, ts(now));
    let row3_has_content = grid.0[3].iter().any(|c| *c != CellContent::Blank);
    let row4_has_content = grid.0[4].iter().any(|c| *c != CellContent::Blank);
    assert!(row3_has_content, "row 3 should have time content");
    assert!(row4_has_content, "row 4 should have time content");
}

#[test]
fn test_render_countdown_long_label_wraps_to_row_1() {
    let now = chrono::Utc::now();
    let target = now + chrono::Duration::hours(1);
    let cd = make_countdown("ABCDEFGHIJKLMNOPQRSTUV12345678", target, "{HH}:{MM}:{SS}");
    let grid = render_countdown_grid(&cd, ts(now));
    let row0_has_content = grid.0[0].iter().any(|c| *c != CellContent::Blank);
    assert!(row0_has_content, "row 0 should have label content");
    let row1_has_content = grid.0[1].iter().any(|c| *c != CellContent::Blank);
    assert!(row1_has_content, "row 1 should have label overflow");
}

#[test]
fn render_countdown_fixed_instants() {
    let now = Timestamp { secs: 1_000_000, nanos: 0 };
    let cd = Countdown {
        id: 7,
        label: "GO".to_string(),
        target: Timestamp { secs: 1_000_000 + 2 * 3600 + 5, nanos: 0 },
        format_template: "{HH}:{MM}:{SS}".to_string(),
        zero_behavior: ZeroBehavior::Remove,
        queue_position: 1,
        created_at: now,
    };
    let grid = render_countdown_grid(&cd, now);
    let text: String = grid.0[3]
        .iter()
        .filter_map(|c| match c {
            CellContent::Char(ch) => Some(*ch),
            _ => None,
        })
        .collect();
    assert_eq!(text, "02:00:05");
    for row in [1, 2, 4, 5] {
        assert!(grid.0[row].iter().all(|c| *c == CellContent::Blank), "row {row}");
    }
}
