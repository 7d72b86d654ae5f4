//! The terminal view of the board: colours for terminals with and without
//! 256-colour support, the box-drawn board as a canvas of painted cells,
//! and the texts and positions of the status bar.

use vstd::prelude::*;

use std::time::Instant;

use crate::animation::{display_well_formed, CellDisplayState, DisplayGrid};
use crate::board::{CellContent, Color, BOARD_COLS, BOARD_ROWS};
use crate::clock::{duration_secs, elapsed_since};
use crate::text::{
    chars_of, decimal, has_substring, contains_chars, push_decimal, push_str, str_eq, string_of,
};

verus! {

/// A terminal colour: an entry of the 256-colour palette, one of the basic
/// named colours, or a true colour.
#[derive(Debug, Clone, Copy, PartialEq, Eq, Structural)]
pub enum TermColor {
    Indexed(u8),
    Red,
    Yellow,
    Green,
    Blue,
    Magenta,
    White,
    Black,
    Gray,
    DarkGray,
    Rgb(u8, u8, u8),
}

/// The 256-colour palette entry for a tile colour.
pub open spec fn color_256(color: Color) -> TermColor {
    match color {
        Color::Red => TermColor::Indexed(196),
        Color::Orange => TermColor::Indexed(208),
        Color::Yellow => TermColor::Indexed(226),
        Color::Green => TermColor::Indexed(46),
        Color::Blue => TermColor::Indexed(21),
        Color::Violet => TermColor::Indexed(93),
        Color::White => TermColor::Indexed(231),
        Color::Black => TermColor::Indexed(232),
    }
}

/// The basic terminal colour for a tile colour (orange as a true colour).
pub open spec fn color_basic(color: Color) -> TermColor {
    match color {
        Color::Red => TermColor::Red,
        Color::Orange => TermColor::Rgb(255, 165, 0),
        Color::Yellow => TermColor::Yellow,
        Color::Green => TermColor::Green,
        Color::Blue => TermColor::Blue,
        Color::Violet => TermColor::Magenta,
        Color::White => TermColor::White,
        Color::Black => TermColor::Black,
    }
}

/// The terminal colour of a tile colour, from the 256-colour palette when
/// `use_256`, else a basic colour.
pub open spec fn color_for(color: Color, use_256: bool) -> TermColor {
    if use_256 {
        color_256(color)
    } else {
        color_basic(color)
    }
}

/// Maps a Herald color to an ANSI 256-color indexed value.
pub fn map_color_256(color: &Color) -> (c: TermColor)
    ensures
        c == color_256(*color),
{
    match color {
        Color::Red => TermColor::Indexed(196),
        Color::Orange => TermColor::Indexed(208),
        Color::Yellow => TermColor::Indexed(226),
        Color::Green => TermColor::Indexed(46),
        Color::Blue => TermColor::Indexed(21),
        Color::Violet => TermColor::Indexed(93),
        Color::White => TermColor::Indexed(231),
        Color::Black => TermColor::Indexed(232),
    }
}

/// Basic 8-color fallback for terminals without 256-color support.
pub fn map_color_basic(color: &Color) -> (c: TermColor)
    ensures
        c == color_basic(*color),
{
    match color {
        Color::Red => TermColor::Red,
        Color::Orange => TermColor::Rgb(255, 165, 0),
        Color::Yellow => TermColor::Yellow,
        Color::Green => TermColor::Green,
        Color::Blue => TermColor::Blue,
        Color::Violet => TermColor::Magenta,
        Color::White => TermColor::White,
        Color::Black => TermColor::Black,
    }
}

/// Maps a Herald color to a terminal color, with fallback for basic terminals.
pub fn map_color_with_fallback(color: &Color, use_256: bool) -> (c: TermColor)
    ensures
        c == color_for(*color, use_256),
{
    if use_256 {
        map_color_256(color)
    } else {
        map_color_basic(color)
    }
}

/// Whether a terminal with these `COLORTERM` and `TERM` values supports 256
/// colours: a true-colour `COLORTERM` says yes; else a `TERM` that mentions
/// `256color`, `xterm` or `screen`; with no `TERM`, yes.
pub open spec fn supports_256(colorterm: Option<Seq<char>>, term: Option<Seq<char>>) -> bool {
    if colorterm matches Some(ct) && (ct == "truecolor"@ || ct == "24bit"@) {
        true
    } else if let Some(t) = term {
        has_substring(t, "256color"@) || has_substring(t, "xterm"@) || has_substring(t, "screen"@)
    } else {
        true
    }
}

/// Decides 256-colour support from the `COLORTERM` and `TERM` environment
/// values (`None` where a variable is not set).
pub fn supports_256_colors(colorterm: Option<&str>, term: Option<&str>) -> (b: bool)
    ensures
        b == supports_256(
            match colorterm {
                Some(c) => Some(c@),
                None => None,
            },
            match term {
                Some(t) => Some(t@),
                None => None,
            },
        ),
{
    if let Some(ct) = colorterm {
        if str_eq(ct, "truecolor") || str_eq(ct, "24bit") {
            return true;
        }
    }
    match term {
        Some(t) => {
            let cs = chars_of(t);
            contains_chars(cs.as_slice(), chars_of("256color").as_slice()) || contains_chars(
                cs.as_slice(),
                chars_of("xterm").as_slice(),
            ) || contains_chars(cs.as_slice(), chars_of("screen").as_slice())
        },
        None => true,
    }
}

/// The width of one tile, in terminal columns.
pub const CELL_WIDTH: u16 = 3;

/// The width of the drawn board: 22 tiles of 3 columns and 23 borders.
pub const GRID_WIDTH: u16 = 89;

/// The height of the drawn board: 6 rows of tiles and 7 borders.
pub const GRID_HEIGHT: u16 = 13;

/// The box-drawing character where border row `row` meets border column
/// `col`.
pub open spec fn junction_at(row: int, col: int) -> char {
    if row == 0 && col == 0 {
        '┌'
    } else if row == 0 && col == BOARD_COLS {
        '┐'
    } else if row == BOARD_ROWS && col == 0 {
        '└'
    } else if row == BOARD_ROWS && col == BOARD_COLS {
        '┘'
    } else if row == 0 {
        '┬'
    } else if row == BOARD_ROWS {
        '┴'
    } else if col == 0 {
        '├'
    } else if col == BOARD_COLS {
        '┤'
    } else {
        '┼'
    }
}

/// The junction character of border row `row` and border column `col`.
pub fn junction(row: usize, col: usize) -> (c: char)
    ensures
        c == junction_at(row as int, col as int),
{
    if row == 0 && col == 0 {
        '┌'
    } else if row == 0 && col == BOARD_COLS {
        '┐'
    } else if row == BOARD_ROWS && col == 0 {
        '└'
    } else if row == BOARD_ROWS && col == BOARD_COLS {
        '┘'
    } else if row == 0 {
        '┬'
    } else if row == BOARD_ROWS {
        '┴'
    } else if col == 0 {
        '├'
    } else if col == BOARD_COLS {
        '┤'
    } else {
        '┼'
    }
}

/// A style patch: a foreground and a background colour to set where given,
/// and whether to add the dim modifier.
#[derive(Debug, Clone, Copy, PartialEq, Eq, Structural)]
pub struct Styled {
    pub fg: Option<TermColor>,
    pub bg: Option<TermColor>,
    pub dim: bool,
}

/// What the board puts in one terminal cell: a character, and a style patch
/// where the style changes.
#[derive(Debug, Clone, Copy, PartialEq, Eq, Structural)]
pub struct Painted {
    pub ch: char,
    pub style: Option<Styled>,
}

/// A cell that only gets a character.
pub open spec fn plain(c: char) -> Painted {
    Painted { ch: c, style: None }
}

/// The style of a colour tile: its colour as background; white tiles get a
/// dark foreground and black tiles a white one.
pub open spec fn tile_style(color: Color, use_256: bool) -> Styled {
    Styled {
        fg: match color {
            Color::White => Some(TermColor::Indexed(232)),
            Color::Black => Some(TermColor::Indexed(231)),
            _ => None,
        },
        bg: Some(color_for(color, use_256)),
        dim: false,
    }
}

/// The style of the flap dashes of a flipping tile.
pub open spec fn dim_style() -> Styled {
    Styled { fg: None, bg: None, dim: true }
}

/// Column `dx` (0 to 2) of a tile in state `state`: a character centred on
/// blanks, a colour tile across all three, a blank tile as spaces, a
/// flipping character between two dim dashes. A tile flipping through
/// colours shows the colour it is passing.
pub open spec fn tile_paint(state: CellDisplayState, use_256: bool, dx: int) -> Painted {
    match state {
        CellDisplayState::Normal(CellContent::Char(c)) => plain(
            if dx == 1 {
                c
            } else {
                ' '
            },
        ),
        CellDisplayState::Normal(CellContent::Color(k)) => Painted {
            ch: ' ',
            style: Some(tile_style(k, use_256)),
        },
        CellDisplayState::FlippingColor(k) => Painted { ch: ' ', style: Some(tile_style(k, use_256)) },
        CellDisplayState::Normal(CellContent::Blank) => plain(' '),
        CellDisplayState::Flipping(c) => if dx == 1 {
            plain(c)
        } else {
            Painted { ch: '─', style: Some(dim_style()) }
        },
    }
}

/// The cell at column `gx`, row `gy` of the drawn board: even rows are
/// borders (junctions every fourth column, dashes between), odd rows hold
/// the tiles between vertical bars.
pub open spec fn painted_at(d: Seq<Seq<CellDisplayState>>, use_256: bool, gx: int, gy: int) -> Painted {
    if gy % 2 == 0 {
        if gx % 4 == 0 {
            plain(junction_at(gy / 2, gx / 4))
        } else {
            plain('─')
        }
    } else if gx % 4 == 0 {
        plain('│')
    } else {
        tile_paint(d[(gy - 1) / 2][gx / 4], use_256, gx % 4 - 1)
    }
}

fn tile_style_of(color: &Color, use_256: bool) -> (s: Styled)
    ensures
        s == tile_style(*color, use_256),
{
    let fg = match color {
        Color::White => Some(TermColor::Indexed(232)),
        Color::Black => Some(TermColor::Indexed(231)),
        _ => None,
    };
    Styled { fg, bg: Some(map_color_with_fallback(color, use_256)), dim: false }
}

fn paint_tile(state: &CellDisplayState, use_256: bool, dx: usize) -> (p: Painted)
    ensures
        p == tile_paint(*state, use_256, dx as int),
{
    match state {
        CellDisplayState::Normal(CellContent::Char(c)) => Painted {
            ch: if dx == 1 {
                *c
            } else {
                ' '
            },
            style: None,
        },
        CellDisplayState::Normal(CellContent::Color(k)) => Painted {
            ch: ' ',
            style: Some(tile_style_of(k, use_256)),
        },
        CellDisplayState::FlippingColor(k) => Painted {
            ch: ' ',
            style: Some(tile_style_of(k, use_256)),
        },
        CellDisplayState::Normal(CellContent::Blank) => Painted { ch: ' ', style: None },
        CellDisplayState::Flipping(c) => if dx == 1 {
            Painted { ch: *c, style: None }
        } else {
            Painted { ch: '─', style: Some(Styled { fg: None, bg: None, dim: true }) }
        },
    }
}

/// A rectangle of the terminal.
#[derive(Debug, Clone, Copy, PartialEq, Eq, Structural)]
pub struct Area {
    pub x: u16,
    pub y: u16,
    pub width: u16,
    pub height: u16,
}

/// What the board widget draws into an area.
#[derive(Debug)]
pub enum BoardPaint {
    /// The area is too small: this warning, centred on row `y`.
    TooSmall { message: String, y: u16 },
    /// The board, its top-left corner at `(x, y)`; `cells[gy][gx]` is the
    /// cell at column `x + gx`, row `y + gy`.
    Board { x: u16, y: u16, cells: Vec<Vec<Painted>> },
}

/// The warning for an area of `width` × `height` that cannot hold the board.
pub open spec fn too_small_text(width: nat, height: nat) -> Seq<char> {
    "Terminal too small. Minimum: 89×13 (have "@ + decimal(width) + "×"@ + decimal(height) + ")"@
}

/// A ratatui widget that renders the Herald 6×22 board grid with box-drawing borders.
pub struct BoardWidget<'a> {
    pub display: &'a DisplayGrid,
}

impl<'a> BoardWidget<'a> {
    pub fn new(display: &'a DisplayGrid) -> (w: Self)
        ensures
            w.display == display,
    {
        BoardWidget { display }
    }

    /// What the board draws into `area`: the warning when the area is
    /// narrower or lower than the board, else the board centred in the area.
    pub fn paint(&self, area: Area, use_256: bool) -> (p: BoardPaint)
        requires
            display_well_formed(self.display@),
            area.x + area.width <= u16::MAX,
            area.y + area.height <= u16::MAX,
        ensures
            match p {
                BoardPaint::TooSmall { message, y } => {
                    &&& area.width < GRID_WIDTH || area.height < GRID_HEIGHT
                    &&& message@ == too_small_text(area.width as nat, area.height as nat)
                    &&& y == area.y + (if area.height > 0 {
                        area.height - 1
                    } else {
                        0
                    }) / 2
                },
                BoardPaint::Board { x, y, cells } => {
                    &&& area.width >= GRID_WIDTH && area.height >= GRID_HEIGHT
                    &&& x == area.x + (area.width - GRID_WIDTH) / 2
                    &&& y == area.y + (area.height - GRID_HEIGHT) / 2
                    &&& cells@.len() == GRID_HEIGHT
                    &&& forall|gy: int| 0 <= gy < GRID_HEIGHT ==> #[trigger] cells@[gy]@.len() == GRID_WIDTH
                    &&& forall|gy: int, gx: int|
                        0 <= gy < GRID_HEIGHT && 0 <= gx < GRID_WIDTH ==> #[trigger] cells@[gy]@[gx]
                            == painted_at(self.display@, use_256, gx, gy)
                },
            },
    {
        if area.width < GRID_WIDTH || area.height < GRID_HEIGHT {
            let mut out: Vec<char> = Vec::new();
            push_str(&mut out, "Terminal too small. Minimum: 89×13 (have ");
            push_decimal(&mut out, area.width as u64);
            push_str(&mut out, "×");
            push_decimal(&mut out, area.height as u64);
            push_str(&mut out, ")");
            let y_off = if area.height > 0 {
                area.height - 1
            } else {
                0
            } / 2;
            return BoardPaint::TooSmall { message: string_of(out.as_slice()), y: area.y + y_off };
        }
        let x = area.x + (area.width - GRID_WIDTH) / 2;
        let y = area.y + (area.height - GRID_HEIGHT) / 2;
        let mut cells: Vec<Vec<Painted>> = Vec::new();
        let mut gy: usize = 0;
        while gy < 13
            invariant
                0 <= gy <= 13,
                display_well_formed(self.display@),
                cells@.len() == gy,
                forall|r: int| 0 <= r < gy ==> #[trigger] cells@[r]@.len() == GRID_WIDTH,
                forall|r: int, c: int|
                    0 <= r < gy && 0 <= c < GRID_WIDTH ==> #[trigger] cells@[r]@[c] == painted_at(
                        self.display@,
                        use_256,
                        c,
                        r,
                    ),
            decreases 13 - gy,
        {
            let mut row: Vec<Painted> = Vec::new();
            let mut gx: usize = 0;
            while gx < 89
                invariant
                    0 <= gx <= 89,
                    0 <= gy < 13,
                    display_well_formed(self.display@),
                    row@.len() == gx,
                    forall|c: int| 0 <= c < gx ==> #[trigger] row@[c] == painted_at(
                        self.display@,
                        use_256,
                        c,
                        gy as int,
                    ),
                decreases 89 - gx,
            {
                let p = self.paint_at(use_256, gx, gy);
                row.push(p);
                gx = gx + 1;
            }
            cells.push(row);
            gy = gy + 1;
        }
        BoardPaint::Board { x, y, cells }
    }

    fn paint_at(&self, use_256: bool, gx: usize, gy: usize) -> (p: Painted)
        requires
            display_well_formed(self.display@),
            gx < 89,
            gy < 13,
        ensures
            p == painted_at(self.display@, use_256, gx as int, gy as int),
    {
        if gy % 2 == 0 {
            if gx % 4 == 0 {
                Painted { ch: junction(gy / 2, gx / 4), style: None }
            } else {
                Painted { ch: '─', style: None }
            }
        } else if gx % 4 == 0 {
            Painted { ch: '│', style: None }
        } else {
            let r = (gy - 1) / 2;
            let c = gx / 4;
            proof {
                assert(self.display@[r as int] == self.display.cells@[r as int]@);
            }
            paint_tile(&self.display.cells[r][c], use_256, gx % 4 - 1)
        }
    }
}

/// The connection to the server, as the status bar reports it.
#[derive(Debug, Clone, Copy, PartialEq, Eq, Structural)]
pub enum ConnectionState {
    Connected,
    Connecting,
    Reconnecting { attempt: u32, next_retry_secs: u64 },
    Disconnected,
}

/// The text and colour of the connection state at the left of the status
/// bar.
pub open spec fn connection_text(state: ConnectionState) -> (Seq<char>, TermColor) {
    match state {
        ConnectionState::Connected => ("● Connected"@, TermColor::Green),
        ConnectionState::Connecting => ("◌ Connecting..."@, TermColor::Yellow),
        ConnectionState::Reconnecting { attempt, next_retry_secs } => (
            "◌ Reconnecting (attempt "@ + decimal(attempt as nat) + ", retry in "@ + decimal(
                next_retry_secs as nat,
            ) + "s)..."@,
            TermColor::Yellow,
        ),
        ConnectionState::Disconnected => ("✖ Disconnected"@, TermColor::Red),
    }
}

/// The time since the last update: seconds below a minute, minutes and
/// seconds below an hour, else hours and minutes.
pub open spec fn elapsed_text(secs: nat) -> Seq<char> {
    if secs < 60 {
        "Updated "@ + decimal(secs) + "s ago"@
    } else if secs < 3600 {
        "Updated "@ + decimal(secs / 60) + "m "@ + decimal(secs % 60) + "s ago"@
    } else {
        "Updated "@ + decimal(secs / 3600) + "h "@ + decimal((secs % 3600) / 60) + "m ago"@
    }
}

/// The positions of the three parts of the status bar.
#[derive(Debug, Clone, Copy, PartialEq, Eq, Structural)]
pub struct StatusLayout {
    pub left_x: u16,
    pub center_x: u16,
    pub right_x: u16,
}

/// The status line below the board: connection state, server address and
/// the time since the last update.
pub struct StatusBar<'a> {
    pub connection_state: &'a ConnectionState,
    pub server_url: &'a str,
    pub last_update: Option<Instant>,
}

impl<'a> StatusBar<'a> {
    pub fn new(
        connection_state: &'a ConnectionState,
        server_url: &'a str,
        last_update: Option<Instant>,
    ) -> (b: Self)
        ensures
            b.connection_state == connection_state,
            b.server_url == server_url,
            b.last_update == last_update,
    {
        StatusBar { connection_state, server_url, last_update }
    }

    /// The time since the last update, `total_secs` seconds.
    pub fn format_elapsed(total_secs: u64) -> (s: String)
        ensures
            s@ == elapsed_text(total_secs as nat),
    {
        let mut out: Vec<char> = Vec::new();
        push_str(&mut out, "Updated ");
        if total_secs < 60 {
            push_decimal(&mut out, total_secs);
            push_str(&mut out, "s ago");
        } else if total_secs < 3600 {
            push_decimal(&mut out, total_secs / 60);
            push_str(&mut out, "m ");
            push_decimal(&mut out, total_secs % 60);
            push_str(&mut out, "s ago");
        } else {
            push_decimal(&mut out, total_secs / 3600);
            push_str(&mut out, "h ");
            push_decimal(&mut out, (total_secs % 3600) / 60);
            push_str(&mut out, "m ago");
        }
        string_of(out.as_slice())
    }

    /// The connection text and its colour.
    pub fn connection(&self) -> (r: (String, TermColor))
        ensures
            r.0@ == connection_text(*self.connection_state).0,
            r.1 == connection_text(*self.connection_state).1,
    {
        let mut out: Vec<char> = Vec::new();
        let color = match self.connection_state {
            ConnectionState::Connected => {
                push_str(&mut out, "● Connected");
                TermColor::Green
            },
            ConnectionState::Connecting => {
                push_str(&mut out, "◌ Connecting...");
                TermColor::Yellow
            },
            ConnectionState::Reconnecting { attempt, next_retry_secs } => {
                push_str(&mut out, "◌ Reconnecting (attempt ");
                push_decimal(&mut out, *attempt as u64);
                push_str(&mut out, ", retry in ");
                push_decimal(&mut out, *next_retry_secs);
                push_str(&mut out, "s)...");
                TermColor::Yellow
            },
            ConnectionState::Disconnected => {
                push_str(&mut out, "✖ Disconnected");
                TermColor::Red
            },
        };
        (string_of(out.as_slice()), color)
    }

    /// The text at the right: the time since the last update, or that none
    /// came yet. The time is read from the monotonic clock.
    pub fn time_text(&self) -> (s: String)
        ensures
            self.last_update is None ==> s@ == "No updates yet"@,
            self.last_update is Some ==> exists|secs: u64| s@ == #[trigger] elapsed_text(secs as nat),
    {
        match &self.last_update {
            Some(instant) => {
                let secs = duration_secs(&elapsed_since(instant));
                Self::format_elapsed(secs)
            },
            None => string_of(chars_of("No updates yet").as_slice()),
        }
    }

    /// Where the three parts go in `area`: the connection one column in, the
    /// address centred, the time ending one column before the right edge.
    /// `url_len` and `time_len` are the byte lengths of the two texts.
    pub fn layout(area: Area, url_len: usize, time_len: usize) -> (l: StatusLayout)
        requires
            area.x + area.width <= u16::MAX,
            url_len < 0x10000,
            time_len < 0xffff,
        ensures
            l.left_x == if area.x < u16::MAX {
                area.x + 1
            } else {
                area.x as int
            },
            l.center_x == area.x + (if area.width > url_len {
                area.width - url_len
            } else {
                0
            }) / 2,
            l.right_x == area.x + (if area.width > time_len + 1 {
                area.width - time_len - 1
            } else {
                0
            }),
    {
        let left_x = area.x.saturating_add(1);
        let ul = url_len as u16;
        let center_x = area.x + area.width.saturating_sub(ul) / 2;
        let tl = time_len as u16;
        let right_x = area.x + area.width.saturating_sub(tl + 1);
        StatusLayout { left_x, center_x, right_x }
    }
}

} // verus!
