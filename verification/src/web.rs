//! The decisions of the browser front end: how tiles and colours are shown,
//! how the admin forms read their fields, the theme attributes of the page,
//! the reconnection delay, and which columns an update changes.

use vstd::prelude::*;

use crate::api::text_layout;
use crate::board::{blank_grid, well_formed, CellContent, Color, Grid, HAlign, ThemeColors, ThemeKind, Timestamp,
    VAlign, BOARD_COLS, BOARD_ROWS};
use crate::layout::{template_grid};
use crate::text::{trim, trim_chars};
use crate::countdown::ZeroBehavior;
use crate::dates::{naive_from_str, parse_naive_utc, parse_utc, utc_from_str};
use crate::layout::MessageTemplate;
use crate::text::{chars_of, decimal, push_decimal, push_str, str_eq, string_of};

verus! {

/// Convert a CellContent to its display character.
pub fn cell_to_char(cell: &CellContent) -> (s: String)
    ensures
        s@ == match *cell {
            CellContent::Char(c) => seq![c],
            CellContent::Blank => seq![' '],
            CellContent::Color(_) => Seq::empty(),
        },
{
    let mut v: Vec<char> = Vec::new();
    match cell {
        CellContent::Char(c) => v.push(*c),
        CellContent::Blank => v.push(' '),
        CellContent::Color(_) => {},
    }
    proof {
        if v@.len() == 1 {
            assert(v@ == seq![v@[0]]);
        }
    }
    string_of(v.as_slice())
}

/// The CSS variable of a tile colour.
pub open spec fn css_of(color: Color) -> Seq<char> {
    match color {
        Color::Red => "var(--color-red)"@,
        Color::Orange => "var(--color-orange)"@,
        Color::Yellow => "var(--color-yellow)"@,
        Color::Green => "var(--color-green)"@,
        Color::Blue => "var(--color-blue)"@,
        Color::Violet => "var(--color-violet)"@,
        Color::White => "var(--color-white)"@,
        Color::Black => "var(--color-black)"@,
    }
}

/// Get CSS background color for a Color tile.
pub fn color_to_css(color: &Color) -> (s: &'static str)
    ensures
        s@ == css_of(*color),
{
    match color {
        Color::Red => "var(--color-red)",
        Color::Orange => "var(--color-orange)",
        Color::Yellow => "var(--color-yellow)",
        Color::Green => "var(--color-green)",
        Color::Blue => "var(--color-blue)",
        Color::Violet => "var(--color-violet)",
        Color::White => "var(--color-white)",
        Color::Black => "var(--color-black)",
    }
}

/// Whether a color tile needs dark text (for light backgrounds).
pub fn is_light_color(color: &Color) -> (b: bool)
    ensures
        b == (*color == Color::White || *color == Color::Yellow),
{
    match color {
        Color::White | Color::Yellow => true,
        _ => false,
    }
}

/// The class, inline style and text of a tile in the composer's preview.
pub fn cell_to_preview(cell: &CellContent) -> (p: (&'static str, String, String))
    ensures
        match *cell {
            CellContent::Char(c) => p.0@ == "preview-tile"@ && p.1@ == Seq::<char>::empty() && p.2@
                == seq![c],
            CellContent::Color(k) => p.0@ == "preview-tile preview-tile--color"@ && p.1@
                == "background: "@ + css_of(k) + ";"@ && p.2@ == Seq::<char>::empty(),
            CellContent::Blank => p.0@ == "preview-tile preview-tile--blank"@ && p.1@ == Seq::<
                char,
            >::empty() && p.2@ == seq![' '],
        },
{
    match cell {
        CellContent::Char(c) => {
            let mut v: Vec<char> = Vec::new();
            v.push(*c);
            assert(v@ == seq![*c]);
            ("preview-tile", String::new(), string_of(v.as_slice()))
        },
        CellContent::Color(k) => {
            let mut v: Vec<char> = Vec::new();
            push_str(&mut v, "background: ");
            push_str(&mut v, color_to_css(k));
            push_str(&mut v, ";");
            ("preview-tile preview-tile--color", string_of(v.as_slice()), String::new())
        },
        CellContent::Blank => {
            let mut v: Vec<char> = Vec::new();
            v.push(' ');
            assert(v@ == seq![' ']);
            ("preview-tile preview-tile--blank", String::new(), string_of(v.as_slice()))
        },
    }
}

/// The wait, in milliseconds, before a flipping tile in column `col` comes
/// to rest: the flip itself and a stagger of 20 ms per column.
pub fn flip_delay_ms(col: usize) -> (ms: u32)
    requires
        col * 20 + 350 <= u32::MAX,
    ensures
        ms == col * 20 + 350,
{
    (col as u32) * 20 + 350
}

/// Whether a tile starts flipping when the board updates: on a later update,
/// when its cell changed; on the first run, once the first board update has
/// arrived (all tiles leave the loading state together).
pub fn tile_starts_flip(first_run: bool, cell: CellContent, prev_cell: CellContent, has_received_update: bool) -> (b:
    bool)
    ensures
        b == if first_run {
            has_received_update
        } else {
            cell != prev_cell
        },
{
    if first_run {
        has_received_update
    } else {
        cell != prev_cell
    }
}

/// The CSS classes of a flap tile, separated by spaces: always
/// `flap-tile`; for a colour tile `flap-tile--color`, and `flap-tile--light`
/// for a light colour; `flap-tile--loading` before the first board update;
/// `flap-tile--idle` when it is not flipping.
pub open spec fn tile_class_text(cell: CellContent, has_received_update: bool, is_animating: bool) -> Seq<char> {
    "flap-tile"@ + (match cell {
        CellContent::Color(k) => " flap-tile--color"@ + if k == Color::White || k == Color::Yellow {
            " flap-tile--light"@
        } else {
            Seq::empty()
        },
        _ => Seq::empty(),
    }) + (if !has_received_update {
        " flap-tile--loading"@
    } else {
        Seq::empty()
    }) + (if !is_animating {
        " flap-tile--idle"@
    } else {
        Seq::empty()
    })
}

/// The class attribute of a flap tile.
pub fn tile_classes(cell: &CellContent, has_received_update: bool, is_animating: bool) -> (s: String)
    ensures
        s@ == tile_class_text(*cell, has_received_update, is_animating),
{
    let mut out: Vec<char> = Vec::new();
    push_str(&mut out, "flap-tile");
    let ghost a = out@;
    if let CellContent::Color(k) = cell {
        push_str(&mut out, " flap-tile--color");
        if is_light_color(k) {
            push_str(&mut out, " flap-tile--light");
        }
    }
    let ghost b = out@;
    if !has_received_update {
        push_str(&mut out, " flap-tile--loading");
    }
    let ghost c = out@;
    if !is_animating {
        push_str(&mut out, " flap-tile--idle");
    }
    string_of(out.as_slice())
}

/// The inline style of a flap tile: its column index, and for a colour
/// tile its background colour.
pub fn tile_style(cell: &CellContent, col: usize) -> (s: String)
    ensures
        s@ == "--col-index: "@ + decimal(col as nat) + ";"@ + match *cell {
            CellContent::Color(k) => " --tile-bg: "@ + css_of(k) + ";"@,
            _ => Seq::empty(),
        },
{
    let mut out: Vec<char> = Vec::new();
    push_str(&mut out, "--col-index: ");
    push_decimal(&mut out, col as u64);
    push_str(&mut out, ";");
    let ghost a = out@;
    if let CellContent::Color(k) = cell {
        push_str(&mut out, " --tile-bg: ");
        push_str(&mut out, color_to_css(k));
        push_str(&mut out, ";");
    }
    string_of(out.as_slice())
}

/// The inline style of the halves of a flap tile: a colour tile's
/// background, nothing for any other tile.
pub fn half_bg_style(cell: &CellContent) -> (s: String)
    ensures
        s@ == match *cell {
            CellContent::Color(k) => "background: "@ + css_of(k) + ";"@,
            _ => Seq::empty(),
        },
{
    match cell {
        CellContent::Color(k) => {
            let mut out: Vec<char> = Vec::new();
            push_str(&mut out, "background: ");
            push_str(&mut out, color_to_css(k));
            push_str(&mut out, ";");
            string_of(out.as_slice())
        },
        _ => String::new(),
    }
}

/// The order of the queue after an item is dragged from position `from`
/// and dropped at position `to`: the item is taken out, then put back at
/// `to`. (Dropping an item on itself leaves the order as it was, and no
/// reorder is sent.)
pub fn order_after_drop(ids: &Vec<u128>, from: usize, to: usize) -> (order: Vec<u128>)
    requires
        from < ids.len(),
        to < ids.len(),
    ensures
        order@ == ids@.remove(from as int).insert(to as int, ids@[from as int]),
{
    let mut order = ids.clone();
    let moved = order.remove(from);
    order.insert(to, moved);
    order
}

/// The views of configuration entries, each a key and its value (as JSON
/// text).
pub open spec fn entry_views(s: Seq<(String, String)>) -> Seq<(Seq<char>, Seq<char>)> {
    s.map_values(|e: (String, String)| (e.0@, e.1@))
}

/// The edited entries that differ from the loaded configuration, in edited
/// order: those whose key the loaded configuration lacks or maps to another
/// value.
pub open spec fn changed_entries(original: Seq<(Seq<char>, Seq<char>)>, edited: Seq<(Seq<char>, Seq<char>)>) -> Seq<
    (Seq<char>, Seq<char>),
>
    decreases edited.len(),
{
    if edited.len() == 0 {
        Seq::empty()
    } else {
        let rest = changed_entries(original, edited.drop_last());
        if original.contains(edited.last()) {
            rest
        } else {
            rest.push(edited.last())
        }
    }
}

/// The configuration values to save: the edited entries that differ from
/// the loaded ones (the loaded entries come from a map, so each key occurs
/// there once). Nothing is saved when this is empty.
pub fn changed_config_values(original: &Vec<(String, String)>, edited: &Vec<(String, String)>) -> (changed: Vec<
    (String, String),
>)
    ensures
        entry_views(changed@) == changed_entries(entry_views(original@), entry_views(edited@)),
{
    let ghost ov = entry_views(original@);
    let ghost ev = entry_views(edited@);
    let mut changed: Vec<(String, String)> = Vec::new();
    let mut i: usize = 0;
    while i < edited.len()
        invariant
            i <= edited.len(),
            ov == entry_views(original@),
            ev == entry_views(edited@),
            entry_views(changed@) == changed_entries(ov, ev.take(i as int)),
        decreases edited.len() - i,
    {
        let k = &edited[i].0;
        let v = &edited[i].1;
        let mut found = false;
        let mut j: usize = 0;
        while j < original.len()
            invariant
                j <= original.len(),
                i < edited.len(),
                ov == entry_views(original@),
                ev == entry_views(edited@),
                k@ == ev[i as int].0,
                v@ == ev[i as int].1,
                found == ov.take(j as int).contains(ev[i as int]),
            decreases original.len() - j,
        {
            let same = str_eq(original[j].0.as_str(), k.as_str()) && str_eq(original[j].1.as_str(), v.as_str());
            proof {
                assert(ov.take(j + 1) == ov.take(j as int).push(ov[j as int]));
                if same {
                    assert(ov.take(j + 1)[j as int] == ev[i as int]);
                }
            }
            found = found || same;
            j = j + 1;
        }
        assert(ov.take(original.len() as int) == ov);
        let ghost before = changed@;
        if !found {
            changed.push((k.clone(), v.clone()));
            assert(entry_views(changed@) == entry_views(before).push(ev[i as int]));
        }
        assert(ev.take(i + 1).drop_last() == ev.take(i as int));
        i = i + 1;
    }
    assert(ev.take(edited.len() as int) == ev);
    changed
}

/// The alignment a form value names: `left` or `right`, anything else
/// centred.
pub fn parse_align(s: &str) -> (a: HAlign)
    ensures
        a == if s@ == "left"@ {
            HAlign::Left
        } else if s@ == "right"@ {
            HAlign::Right
        } else {
            HAlign::Center
        },
{
    if str_eq(s, "left") {
        HAlign::Left
    } else if str_eq(s, "right") {
        HAlign::Right
    } else {
        HAlign::Center
    }
}

/// The template a form value names, if any.
pub fn parse_template(s: &str) -> (t: Option<MessageTemplate>)
    ensures
        t == if s@ == "announcement"@ {
            Some(MessageTemplate::Announcement)
        } else if s@ == "greeting"@ {
            Some(MessageTemplate::Greeting)
        } else if s@ == "countdown"@ {
            Some(MessageTemplate::Countdown)
        } else if s@ == "ticker"@ {
            Some(MessageTemplate::Ticker)
        } else {
            None
        },
{
    if str_eq(s, "announcement") {
        Some(MessageTemplate::Announcement)
    } else if str_eq(s, "greeting") {
        Some(MessageTemplate::Greeting)
    } else if str_eq(s, "countdown") {
        Some(MessageTemplate::Countdown)
    } else if str_eq(s, "ticker") {
        Some(MessageTemplate::Ticker)
    } else {
        None
    }
}

/// The zero behaviour a form value names: `remove` or `pause`, anything
/// else shows zero.
pub fn parse_zero_behavior(s: &str) -> (z: ZeroBehavior)
    ensures
        s@ == "remove"@ ==> z is Remove,
        s@ != "remove"@ && s@ == "pause"@ ==> z is Pause,
        s@ != "remove"@ && s@ != "pause"@ ==> z is ShowZero,
{
    if str_eq(s, "remove") {
        ZeroBehavior::Remove
    } else if str_eq(s, "pause") {
        ZeroBehavior::Pause
    } else {
        ZeroBehavior::ShowZero
    }
}

/// The time left until `target` at `now` as the admin panel shows it:
/// `Expired` once not positive; else days, hours and minutes when there is
/// a day; hours, minutes and seconds when there is an hour; minutes and
/// seconds; or seconds.
pub open spec fn remaining_text(target: Timestamp, now: Timestamp) -> Seq<char> {
    let left = target.total_nanos() - now.total_nanos();
    if left <= 0 {
        "Expired"@
    } else {
        let secs = left / 1_000_000_000;
        let d = (secs / 86400) as nat;
        let h = ((secs / 3600) % 24) as nat;
        let m = ((secs / 60) % 60) as nat;
        let s = (secs % 60) as nat;
        if d > 0 {
            decimal(d) + "d "@ + decimal(h) + "h "@ + decimal(m) + "m"@
        } else if h > 0 {
            decimal(h) + "h "@ + decimal(m) + "m "@ + decimal(s) + "s"@
        } else if m > 0 {
            decimal(m) + "m "@ + decimal(s) + "s"@
        } else {
            decimal(s) + "s"@
        }
    }
}

/// The time left until `target` at `now`, as the admin panel shows it.
pub fn format_remaining(target: Timestamp, now: Timestamp) -> (s: String)
    ensures
        s@ == remaining_text(target, now),
{
    let left: i128 = (target.secs as i128 - now.secs as i128) * 1_000_000_000 + (target.nanos as i128
        - now.nanos as i128);
    assert(left == target.total_nanos() - now.total_nanos());
    let mut out: Vec<char> = Vec::new();
    if left <= 0 {
        push_str(&mut out, "Expired");
    } else {
        let secs = left / 1_000_000_000;
        let d = (secs / 86400) as u64;
        let h = ((secs / 3600) % 24) as u64;
        let m = ((secs / 60) % 60) as u64;
        let sec = (secs % 60) as u64;
        if d > 0 {
            push_decimal(&mut out, d);
            push_str(&mut out, "d ");
            push_decimal(&mut out, h);
            push_str(&mut out, "h ");
            push_decimal(&mut out, m);
            push_str(&mut out, "m");
        } else if h > 0 {
            push_decimal(&mut out, h);
            push_str(&mut out, "h ");
            push_decimal(&mut out, m);
            push_str(&mut out, "m ");
            push_decimal(&mut out, sec);
            push_str(&mut out, "s");
        } else if m > 0 {
            push_decimal(&mut out, m);
            push_str(&mut out, "m ");
            push_decimal(&mut out, sec);
            push_str(&mut out, "s");
        } else {
            push_decimal(&mut out, sec);
            push_str(&mut out, "s");
        }
    }
    string_of(out.as_slice())
}

/// The instant a date field gives, from what chrono read of it as
/// `YYYY-MM-DDTHH:MM`, as `YYYY-MM-DDTHH:MM:SS` (both UTC) and as RFC 3339:
/// the first of these that read.
pub fn datetime_from_parsed(
    minutes: Option<Timestamp>,
    seconds: Option<Timestamp>,
    rfc3339: Result<Timestamp, String>,
) -> (t: Option<Timestamp>)
    ensures
        t == match minutes {
            Some(a) => Some(a),
            None => match seconds {
                Some(b) => Some(b),
                None => match rfc3339 {
                    Ok(c) => Some(c),
                    Err(_) => None,
                },
            },
        },
{
    if let Some(a) = minutes {
        return Some(a);
    }
    if let Some(b) = seconds {
        return Some(b);
    }
    match rfc3339 {
        Ok(c) => Some(c),
        Err(_) => None,
    }
}

/// Reads a date field of the admin panel with chrono: a local date and time
/// to the minute or to the second, taken as UTC, else RFC 3339.
pub fn parse_datetime(s: &str) -> (t: Option<Timestamp>)
    ensures
        t == match naive_from_str(s@, "%Y-%m-%dT%H:%M"@) {
            Some((secs, nanos)) => Some(Timestamp { secs, nanos }),
            None => match naive_from_str(s@, "%Y-%m-%dT%H:%M:%S"@) {
                Some((secs, nanos)) => Some(Timestamp { secs, nanos }),
                None => match utc_from_str(s@) {
                    Ok((secs, nanos)) => Some(Timestamp { secs, nanos }),
                    Err(_) => None,
                },
            },
        },
{
    let minutes = parse_naive_utc(s, "%Y-%m-%dT%H:%M");
    if minutes.is_some() {
        return minutes;
    }
    let seconds = parse_naive_utc(s, "%Y-%m-%dT%H:%M:%S");
    if seconds.is_some() {
        return seconds;
    }
    let full = parse_utc(s);
    datetime_from_parsed(None, None, full)
}

/// Map theme to data-theme attribute value.
pub fn theme_attr(theme: ThemeKind) -> (s: String)
    ensures
        s@ == match theme {
            ThemeKind::Classic => "classic"@,
            ThemeKind::Dark => "dark"@,
            ThemeKind::Custom => "custom"@,
        },
{
    let text = match theme {
        ThemeKind::Classic => "classic",
        ThemeKind::Dark => "dark",
        ThemeKind::Custom => "custom",
    };
    string_of(chars_of(text).as_slice())
}

/// The CSS custom properties for custom theme colours: empty unless the
/// theme is custom and colours are set; each set colour adds its
/// properties.
pub open spec fn custom_style(theme: ThemeKind, colors: Option<ThemeColors>) -> Seq<char> {
    if theme != ThemeKind::Custom {
        Seq::empty()
    } else {
        match colors {
            None => Seq::empty(),
            Some(c) => (match c.board_bg {
                Some(bg) => "--board-bg:"@ + bg@ + ";--body-bg:"@ + bg@ + ";"@,
                None => Seq::empty(),
            }) + (match c.tile_bg {
                Some(t) => "--tile-top-bg:"@ + t@ + ";--tile-bottom-bg:"@ + t@ + ";"@,
                None => Seq::empty(),
            }) + (match c.char_color {
                Some(ch) => "--tile-char-color:"@ + ch@ + ";"@,
                None => Seq::empty(),
            }),
        }
    }
}

/// Generate inline CSS custom properties for custom theme colors.
pub fn theme_custom_style(theme: ThemeKind, colors: &Option<ThemeColors>) -> (s: String)
    ensures
        s@ == custom_style(theme, *colors),
{
    if theme != ThemeKind::Custom {
        return String::new();
    }
    let c = match colors {
        Some(c) => c,
        None => return String::new(),
    };
    let mut out: Vec<char> = Vec::new();
    if let Some(bg) = &c.board_bg {
        push_str(&mut out, "--board-bg:");
        push_str(&mut out, bg.as_str());
        push_str(&mut out, ";--body-bg:");
        push_str(&mut out, bg.as_str());
        push_str(&mut out, ";");
    }
    let ghost a = out@;
    if let Some(t) = &c.tile_bg {
        push_str(&mut out, "--tile-top-bg:");
        push_str(&mut out, t.as_str());
        push_str(&mut out, ";--tile-bottom-bg:");
        push_str(&mut out, t.as_str());
        push_str(&mut out, ";");
    }
    let ghost b = out@;
    if let Some(ch) = &c.char_color {
        push_str(&mut out, "--tile-char-color:");
        push_str(&mut out, ch.as_str());
        push_str(&mut out, ";");
    }
    string_of(out.as_slice())
}

/// The wait before reconnecting after `attempt` failed attempts, in
/// milliseconds: one second doubled per attempt, at most 30 seconds.
pub open spec fn reconnect_delay(attempt: nat) -> int {
    let d: int = 1000 * (vstd::arithmetic::power2::pow2(attempt) as int);
    if d < 30_000 {
        d
    } else {
        30_000
    }
}

/// Exponential backoff: 1s, 2s, 4s, 8s, 16s, 30s max. The doubling is
/// multiplied out in 32 bits, so the attempt count stays at most 22.
pub fn reconnect_delay_ms(attempt: u32) -> (ms: u32)
    requires
        attempt <= 22,
    ensures
        ms == reconnect_delay(attempt as nat),
{
    let mut p: u32 = 1;
    let mut k: u32 = 0;
    proof {
        vstd::arithmetic::power2::lemma2_to64();
    }
    while k < attempt
        invariant
            0 <= k <= attempt <= 22,
            p == vstd::arithmetic::power2::pow2(k as nat),
            p <= 4_194_304,
        decreases attempt - k,
    {
        proof {
            vstd::arithmetic::power2::lemma_pow2_unfold((k + 1) as nat);
            if k + 1 < 22 {
                vstd::arithmetic::power2::lemma_pow2_strictly_increases((k + 1) as nat, 22);
            }
            vstd::arithmetic::power2::lemma2_to64();
        }
        p = p * 2;
        k = k + 1;
    }
    let d = 1000 * p;
    if d < 30_000 {
        d
    } else {
        30_000
    }
}

/// Whether column `col` differs between the grids `a` and `b` in any row.
pub open spec fn column_changed(a: Seq<Seq<CellContent>>, b: Seq<Seq<CellContent>>, col: int) -> bool {
    exists|r: int| 0 <= r < BOARD_ROWS && #[trigger] a[r][col] != b[r][col]
}

/// The columns that an update from `current` to `next` changes, in order;
/// none for the first update after connecting (`already_received` false).
pub fn changed_columns(current: &Grid, next: &Grid, already_received: bool) -> (cols: Vec<usize>)
    requires
        well_formed(current@),
        well_formed(next@),
    ensures
        !already_received ==> cols@.len() == 0,
        already_received ==> cols@ == Seq::new(BOARD_COLS as nat, |c: int| c).filter(
            |c: int| column_changed(current@, next@, c),
        ).map_values(|c: int| c as usize),
{
    let mut cols: Vec<usize> = Vec::new();
    if !already_received {
        return cols;
    }
    let ghost pred = |c: int| column_changed(current@, next@, c);
    let ghost all = Seq::new(BOARD_COLS as nat, |c: int| c);
    let mut col: usize = 0;
    assert(all.take(0) == Seq::<int>::empty());
    assert(all.take(0).filter(pred) == Seq::<int>::empty()) by {
        reveal(Seq::filter);
    }
    while col < BOARD_COLS
        invariant
            0 <= col <= BOARD_COLS,
            well_formed(current@),
            well_formed(next@),
            all == Seq::new(BOARD_COLS as nat, |c: int| c),
            pred == (|c: int| column_changed(current@, next@, c)),
            cols@ == all.take(col as int).filter(pred).map_values(|c: int| c as usize),
        decreases BOARD_COLS - col,
    {
        let mut changed = false;
        let mut row: usize = 0;
        while row < BOARD_ROWS
            invariant
                0 <= row <= BOARD_ROWS,
                0 <= col < BOARD_COLS,
                well_formed(current@),
                well_formed(next@),
                changed == exists|r: int| 0 <= r < row && #[trigger] current@[r][col as int] != next@[r][col as int],
            decreases BOARD_ROWS - row,
        {
            assert(current@[row as int] == current.0@[row as int]@);
            assert(next@[row as int] == next.0@[row as int]@);
            if current.0[row][col] != next.0[row][col] {
                changed = true;
            }
            row = row + 1;
        }
        proof {
            let t = all.take(col + 1);
            assert(t.drop_last() == all.take(col as int));
            assert(t.last() == col as int);
            reveal(Seq::filter);
            assert(t.filter(pred) == (if pred(col as int) {
                t.drop_last().filter(pred).push(col as int)
            } else {
                t.drop_last().filter(pred)
            }));
            assert(changed == pred(col as int));
        }
        if changed {
            cols.push(col);
        }
        proof {
            let f = all.take(col as int).filter(pred);
            if changed {
                assert(f.push(col as int).map_values(|c: int| c as usize) =~= f.map_values(|c: int| c as usize).push(col));
            }
        }
        col = col + 1;
    }
    assert(all.take(BOARD_COLS as int) == all);
    cols
}

/// The template a form value names, as a spec.
pub open spec fn template_of(s: Seq<char>) -> Option<MessageTemplate> {
    if s == "announcement"@ {
        Some(MessageTemplate::Announcement)
    } else if s == "greeting"@ {
        Some(MessageTemplate::Greeting)
    } else if s == "countdown"@ {
        Some(MessageTemplate::Countdown)
    } else if s == "ticker"@ {
        Some(MessageTemplate::Ticker)
    } else {
        None
    }
}

/// The alignment a form value names, as a spec.
pub open spec fn align_of(s: Seq<char>) -> HAlign {
    if s == "left"@ {
        HAlign::Left
    } else if s == "right"@ {
        HAlign::Right
    } else {
        HAlign::Center
    }
}

/// The composer's live preview: blank for empty text; else the text laid
/// out by the chosen template, or with the chosen alignment in the middle
/// rows; blank where it does not fit.
pub open spec fn preview_of(text: Seq<char>, align: Seq<char>, template: Seq<char>) -> Seq<Seq<CellContent>> {
    if text.len() == 0 {
        blank_grid()
    } else {
        let h = match template_of(template) {
            Some(MessageTemplate::Announcement) => HAlign::Center,
            _ => align_of(align),
        };
        match template_of(template) {
            Some(t) if t != MessageTemplate::Announcement => template_grid(t, text),
            _ => match text_layout(text, h, VAlign::Middle) {
                Ok(g) => g,
                Err(_) => blank_grid(),
            },
        }
    }
}

/// The composer's live preview of `text` with the chosen alignment and
/// template.
pub fn preview_grid(text: &str, align: &str, template: &str) -> (g: Grid)
    ensures
        g@ == preview_of(text@, align@, template@),
{
    if chars_of(text).len() == 0 {
        return Grid::blank();
    }
    let h = parse_align(align);
    match parse_template(template) {
        Some(t) => match Grid::from_template(t, text) {
            Ok(g) => g,
            Err(_) => Grid::blank(),
        },
        None => match Grid::from_text(text, h, VAlign::Middle) {
            Ok(g) => g,
            Err(_) => Grid::blank(),
        },
    }
}

/// The checks of the composer before pushing: the text must not be blank,
/// and an expiry, where one is typed, must read as a date.
pub fn check_composer(text: &str, expires: &str) -> (r: Result<Option<Timestamp>, &'static str>)
    ensures
        trim(text@).len() == 0 ==> r == Err::<Option<Timestamp>, &'static str>("Message text cannot be empty"),
        trim(text@).len() != 0 && expires@.len() == 0 ==> r == Ok::<Option<Timestamp>, &'static str>(None),
        trim(text@).len() != 0 && expires@.len() != 0 ==> r == match parse_datetime_spec(expires@) {
            Some(t) => Ok::<Option<Timestamp>, &'static str>(Some(t)),
            None => Err("Invalid expiry date format"),
        },
{
    let t = chars_of(text);
    if trim_chars(t.as_slice()).len() == 0 {
        return Err("Message text cannot be empty");
    }
    if chars_of(expires).len() == 0 {
        return Ok(None);
    }
    match parse_datetime(expires) {
        Some(dt) => Ok(Some(dt)),
        None => Err("Invalid expiry date format"),
    }
}

/// The instant a date field gives (see `parse_datetime`), as a spec.
pub open spec fn parse_datetime_spec(s: Seq<char>) -> Option<Timestamp> {
    match naive_from_str(s, "%Y-%m-%dT%H:%M"@) {
        Some((secs, nanos)) => Some(Timestamp { secs, nanos }),
        None => match naive_from_str(s, "%Y-%m-%dT%H:%M:%S"@) {
            Some((secs, nanos)) => Some(Timestamp { secs, nanos }),
            None => match utc_from_str(s) {
                Ok((secs, nanos)) => Some(Timestamp { secs, nanos }),
                Err(_) => None,
            },
        },
    }
}

/// The checks of the countdown form: a label that is not blank, a target
/// that is given and reads as a date.
pub fn check_countdown_form(label: &str, target: &str) -> (r: Result<Timestamp, &'static str>)
    ensures
        trim(label@).len() == 0 ==> r == Err::<Timestamp, &'static str>("Label cannot be empty"),
        trim(label@).len() != 0 && target@.len() == 0 ==> r == Err::<Timestamp, &'static str>(
            "Target date/time is required",
        ),
        trim(label@).len() != 0 && target@.len() != 0 ==> r == match parse_datetime_spec(target@) {
            Some(t) => Ok::<Timestamp, &'static str>(t),
            None => Err("Invalid date/time format"),
        },
{
    let l = chars_of(label);
    if trim_chars(l.as_slice()).len() == 0 {
        return Err("Label cannot be empty");
    }
    if chars_of(target).len() == 0 {
        return Err("Target date/time is required");
    }
    match parse_datetime(target) {
        Some(t) => Ok(t),
        None => Err("Invalid date/time format"),
    }
}

/// The scheduled display time of a pushed message: the form's local time
/// to the minute, taken as UTC; nothing when the field is empty or does not
/// read.
pub fn display_at_from_form(value: &str) -> (t: Option<Timestamp>)
    ensures
        value@.len() == 0 ==> t is None,
        value@.len() != 0 ==> t == match naive_from_str(value@, "%Y-%m-%dT%H:%M"@) {
            Some((secs, nanos)) => Some(Timestamp { secs, nanos }),
            None => None,
        },
{
    if chars_of(value).len() == 0 {
        return None;
    }
    parse_naive_utc(value, "%Y-%m-%dT%H:%M")
}

/// The WebSocket address of the page's server: `wss:` for a page served
/// over `https:`, `ws:` otherwise, then the host and `/ws`.
pub fn ws_url_for(protocol: &str, host: &str) -> (url: String)
    ensures
        url@ == (if protocol@ == "https:"@ {
            "wss:"@
        } else {
            "ws:"@
        }) + "//"@ + host@ + "/ws"@,
{
    let mut out: Vec<char> = Vec::new();
    if str_eq(protocol, "https:") {
        push_str(&mut out, "wss:");
    } else {
        push_str(&mut out, "ws:");
    }
    push_str(&mut out, "//");
    push_str(&mut out, host);
    push_str(&mut out, "/ws");
    string_of(out.as_slice())
}

} // verus!
