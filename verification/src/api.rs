//! The decisions of the server's API: how a message's content is resolved
//! from text or a raw grid, which requests are refused and with what
//! message, and how configuration values are read.

use vstd::prelude::*;

use crate::board::{
    opt_view, validation_error, CellContent, Grid, HAlign, ThemeColors, ThemeKind,
    Timestamp, VAlign, theme_named, BOARD_ROWS,
};
use crate::layout::{overflow_message, text_grid, wrap_text, MessageTemplate};
use crate::text::{chars_of, push_str, string_of, utf8_len, utf8_longer_than};

verus! {

/// A message on the board.
#[derive(Debug)]
pub struct Message {
    pub id: u128,
    pub grid: Grid,
    pub source_text: Option<String>,
    pub h_align: HAlign,
    pub v_align: VAlign,
    pub queue_position: i64,
    pub created_at: Timestamp,
    pub expires_at: Option<Timestamp>,
}

/// Request body for POST /api/messages.
/// Accepts either `text` (auto-rendered) or `grid` (raw 6×22), but not both.
#[derive(Debug)]
pub struct CreateMessageRequest {
    pub text: Option<String>,
    pub grid: Option<Grid>,
    pub h_align: HAlign,
    pub v_align: VAlign,
    pub queue_position: Option<i64>,
    pub expires_at: Option<Timestamp>,
    pub template: Option<MessageTemplate>,
}

/// Request body for PUT /api/messages/:id.
/// Accepts either `text` or `grid` to replace the content.
#[derive(Debug)]
pub struct UpdateMessageRequest {
    pub text: Option<String>,
    pub grid: Option<Grid>,
    pub h_align: Option<HAlign>,
    pub v_align: Option<VAlign>,
    pub queue_position: Option<i64>,
    pub expires_at: Option<Option<Timestamp>>,
}

/// Resolved content for an update (grid + source_text).
#[derive(Debug)]
pub struct ResolvedContent {
    pub grid: Grid,
    pub source_text: Option<String>,
}

/// Standard error response body.
#[derive(Debug)]
pub struct ErrorResponse {
    pub error: String,
    pub message: String,
}

/// Health check response.
#[derive(Debug)]
pub struct HealthResponse {
    pub status: String,
    pub version: String,
    pub uptime_seconds: u64,
    pub queue_size: usize,
}

/// Messages sent from a viewer client to the server over WebSocket.
#[derive(Debug, Clone, Copy, PartialEq, Eq, Structural)]
pub enum ClientMessage {
    /// Response to a heartbeat.
    Pong,
}

/// What laying out `text` gives: its grid, or the error when it needs more
/// rows than the board has.
pub open spec fn text_layout(text: Seq<char>, h: HAlign, v: VAlign) -> Result<Seq<Seq<CellContent>>, Seq<char>> {
    let lines = wrap_text(text);
    if lines.len() <= BOARD_ROWS {
        Ok(text_grid(lines, h, v))
    } else {
        Err(overflow_message(lines.len()))
    }
}

/// The refusal of a request that gives both text and a grid.
pub open spec fn both_given_message() -> Seq<char> {
    "provide either 'text' or 'grid', not both"@
}

/// The refusal of a request that gives neither text nor a grid.
pub open spec fn none_given_message() -> Seq<char> {
    "provide either 'text' or 'grid'"@
}

fn message_of(s: &str) -> (m: String)
    ensures
        m@ == s@,
{
    string_of(chars_of(s).as_slice())
}

/// The grid and source text of a new message: text is laid out with the
/// given alignment and kept as the source; a raw grid must be valid and has
/// no source; giving both or neither is refused.
pub fn resolve_create_content(
    text: Option<String>,
    grid: Option<Grid>,
    h_align: HAlign,
    v_align: VAlign,
) -> (r: Result<(Grid, Option<String>), String>)
    ensures
        match (text, grid) {
            (Some(t), None) => match text_layout(t@, h_align, v_align) {
                Ok(g) => r matches Ok((rg, Some(s))) && rg@ == g && s@ == t@,
                Err(m) => r matches Err(e) && e@ == m,
            },
            (None, Some(g)) => match validation_error(g@) {
                None => r matches Ok((rg, None)) && rg@ == g@,
                Some(m) => r matches Err(e) && e@ == m,
            },
            (Some(_), Some(_)) => r matches Err(e) && e@ == both_given_message(),
            (None, None) => r matches Err(e) && e@ == none_given_message(),
        },
{
    match (text, grid) {
        (Some(t), None) => {
            let g = Grid::from_text(t.as_str(), h_align, v_align)?;
            Ok((g, Some(t)))
        },
        (None, Some(g)) => {
            g.validate()?;
            Ok((g, None))
        },
        (Some(_), Some(_)) => Err(message_of("provide either 'text' or 'grid', not both")),
        (None, None) => Err(message_of("provide either 'text' or 'grid'")),
    }
}

/// The checks on an update request before the message is read: text and a
/// grid together are refused, and a raw grid must be valid.
pub fn check_update_request(req: &UpdateMessageRequest) -> (r: Result<(), String>)
    ensures
        (req.text is Some && req.grid is Some) ==> (r matches Err(e) && e@ == both_given_message()),
        !(req.text is Some && req.grid is Some) ==> match req.grid {
            Some(g) => match validation_error(g@) {
                None => r is Ok,
                Some(m) => r matches Err(e) && e@ == m,
            },
            None => r is Ok,
        },
{
    if req.text.is_some() && req.grid.is_some() {
        return Err(message_of("provide either 'text' or 'grid', not both"));
    }
    if let Some(g) = &req.grid {
        g.validate()?;
    }
    Ok(())
}

/// `o`'s alignment, or `d` where none is given.
pub open spec fn h_or(o: Option<HAlign>, d: HAlign) -> HAlign {
    match o {
        Some(a) => a,
        None => d,
    }
}

/// `o`'s alignment, or `d` where none is given.
pub open spec fn v_or(o: Option<VAlign>, d: VAlign) -> VAlign {
    match o {
        Some(a) => a,
        None => d,
    }
}

/// Whether `r` is the content of laying out `text` with `h` and `v`, kept
/// as the source text, or the error of that layout.
pub open spec fn laid_out_as(
    r: Result<Option<ResolvedContent>, String>,
    text: Seq<char>,
    h: HAlign,
    v: VAlign,
) -> bool {
    match text_layout(text, h, v) {
        Ok(g) => r matches Ok(Some(rc)) && rc.grid@ == g && (rc.source_text matches Some(s) && s@
            == text),
        Err(m) => r matches Err(e) && e@ == m,
    }
}

/// If the update changes text or alignment for a text-based message,
/// recompute the grid: new text is laid out with the new alignment where
/// given, else the message's; a new grid replaces the content and clears the
/// source text; an alignment change alone lays out the message's source
/// text again; anything else leaves the content as it is (`None`).
pub fn resolve_update_content(existing: &Message, req: &UpdateMessageRequest) -> (r: Result<
    Option<ResolvedContent>,
    String,
>)
    ensures
        ({
            let h = h_or(req.h_align, existing.h_align);
            let v = v_or(req.v_align, existing.v_align);
            match req.text {
                Some(t) => laid_out_as(r, t@, h, v),
                None => match req.grid {
                    Some(g) => r matches Ok(Some(rc)) && rc.grid@ == g@ && rc.source_text is None,
                    None => if (req.h_align is Some || req.v_align is Some)
                        && existing.source_text is Some {
                        laid_out_as(r, existing.source_text->0@, h, v)
                    } else {
                        r matches Ok(None)
                    },
                },
            }
        }),
{
    let h_align = match req.h_align {
        Some(a) => a,
        None => existing.h_align,
    };
    let v_align = match req.v_align {
        Some(a) => a,
        None => existing.v_align,
    };
    if let Some(text) = &req.text {
        let grid = Grid::from_text(text.as_str(), h_align, v_align)?;
        return Ok(Some(ResolvedContent { grid, source_text: Some(text.clone()) }));
    }
    if let Some(grid) = &req.grid {
        return Ok(Some(ResolvedContent { grid: grid.clone(), source_text: None }));
    }
    if (req.h_align.is_some() || req.v_align.is_some()) && existing.source_text.is_some() {
        let text = match &existing.source_text {
            Some(t) => t,
            None => {
                return Ok(None);
            },
        };
        let grid = Grid::from_text(text.as_str(), h_align, v_align)?;
        return Ok(Some(ResolvedContent { grid, source_text: Some(text.clone()) }));
    }
    Ok(None)
}

/// The refusal of a countdown label, if any: it must not be empty and must
/// take at most 44 bytes.
pub open spec fn label_error(label: Seq<char>) -> Option<Seq<char>> {
    if label.len() == 0 {
        Some("label must not be empty"@)
    } else if utf8_len(label) > 44 {
        Some("label must be 44 characters or fewer"@)
    } else {
        None
    }
}

/// Validate a countdown label.
pub fn validate_label(label: &str) -> (r: Result<(), String>)
    ensures
        match label_error(label@) {
            None => r is Ok,
            Some(m) => r matches Err(e) && e@ == m,
        },
{
    let cs = chars_of(label);
    if cs.len() == 0 {
        return Err(message_of("label must not be empty"));
    }
    if utf8_longer_than(cs.as_slice(), 44) {
        return Err(message_of("label must be 44 characters or fewer"));
    }
    Ok(())
}

/// Validate the label of a countdown update, where one is given.
pub fn validate_label_update(label: Option<&str>) -> (r: Result<(), String>)
    ensures
        match label {
            None => r is Ok,
            Some(l) => match label_error(l@) {
                None => r is Ok,
                Some(m) => r matches Err(e) && e@ == m,
            },
        },
{
    match label {
        Some(l) => validate_label(l),
        None => Ok(()),
    }
}

/// The refusal of a configuration update without any key.
pub open spec fn empty_config_message() -> Seq<char> {
    "request body must contain at least one key-value pair"@
}

/// A configuration update must carry at least one key.
pub fn check_config_update(key_count: usize) -> (r: Result<(), String>)
    ensures
        r is Ok <==> key_count > 0,
        r matches Err(e) ==> e@ == empty_config_message(),
{
    if key_count == 0 {
        Err(message_of("request body must contain at least one key-value pair"))
    } else {
        Ok(())
    }
}

/// `kind id not found`: the text of a missing item's error.
pub fn not_found_message(kind: &str, id: &str) -> (m: String)
    ensures
        m@ == kind@ + " "@ + id@ + " not found"@,
{
    let mut out: Vec<char> = Vec::new();
    push_str(&mut out, kind);
    push_str(&mut out, " ");
    push_str(&mut out, id);
    push_str(&mut out, " not found");
    string_of(out.as_slice())
}

/// The answer to a health check.
pub fn health_response(version: &str, uptime_seconds: u64, queue_size: usize) -> (h: HealthResponse)
    ensures
        h.status@ == "ok"@,
        h.version@ == version@,
        h.uptime_seconds == uptime_seconds,
        h.queue_size == queue_size,
{
    HealthResponse {
        status: message_of("ok"),
        version: message_of(version),
        uptime_seconds,
        queue_size,
    }
}

/// The body of the answer to a request refused by the rate limiter.
pub fn rate_limited_response() -> (e: ErrorResponse)
    ensures
        e.error@ == "too_many_requests"@,
        e.message@ == "rate limit exceeded — try again later"@,
{
    ErrorResponse {
        error: message_of("too_many_requests"),
        message: message_of("rate limit exceeded — try again later"),
    }
}

/// The board theme that the configured value names; `Dark` when none is
/// configured.
pub fn theme_from_config(value: Option<&str>) -> (t: ThemeKind)
    ensures
        t == match value {
            Some(v) => theme_named(v@),
            None => ThemeKind::Dark,
        },
{
    match value {
        Some(v) => ThemeKind::from_str_lossy(v),
        None => ThemeKind::Dark,
    }
}

/// The custom theme colours: only for the custom theme, and only when at
/// least one colour is configured.
pub fn theme_colors_from(
    theme: ThemeKind,
    board_bg: Option<String>,
    tile_bg: Option<String>,
    char_color: Option<String>,
) -> (c: Option<ThemeColors>)
    ensures
        c is Some <==> theme == ThemeKind::Custom && (board_bg is Some || tile_bg is Some
            || char_color is Some),
        c matches Some(tc) ==> opt_view(tc.board_bg) == opt_view(board_bg) && opt_view(tc.tile_bg)
            == opt_view(tile_bg) && opt_view(tc.char_color) == opt_view(char_color),
{
    if theme != ThemeKind::Custom {
        return None;
    }
    if board_bg.is_some() || tile_bg.is_some() || char_color.is_some() {
        Some(ThemeColors { board_bg, tile_bg, char_color })
    } else {
        None
    }
}

/// The value of a non-empty run of ASCII digits, read as a decimal number.
pub open spec fn digits_value(s: Seq<char>) -> Option<nat>
    decreases s.len(),
{
    if s.len() == 0 || !('0' <= s.last() <= '9') {
        None
    } else if s.len() == 1 {
        Some((s.last() as nat - '0' as nat) as nat)
    } else {
        match digits_value(s.drop_last()) {
            Some(v) => Some(10 * v + (s.last() as nat - '0' as nat) as nat),
            None => None,
        }
    }
}

/// The number an unsigned integer text stands for: an optional `+` and
/// then only ASCII digits.
pub open spec fn unsigned_value(s: Seq<char>) -> Option<nat> {
    if s.len() > 0 && s[0] == '+' {
        digits_value(s.drop_first())
    } else {
        digits_value(s)
    }
}

/// A run of characters that holds a non-digit somewhere has no value.
proof fn lemma_digits_value_non_digit(s: Seq<char>, k: int)
    requires
        0 <= k < s.len(),
        !('0' <= s[k] <= '9'),
    ensures
        digits_value(s) is None,
    decreases s.len(),
{
    if k < s.len() - 1 {
        lemma_digits_value_non_digit(s.drop_last(), k);
    }
}

/// Reads an unsigned decimal number (an optional `+`, then ASCII digits
/// only) that is at most `max`; `None` for any other text, or a larger value.
pub fn parse_unsigned(s: &str, max: u64) -> (r: Option<u64>)
    ensures
        r == match unsigned_value(s@) {
            Some(v) => if v <= max {
                Some(v as u64)
            } else {
                None::<u64>
            },
            None => None,
        },
{
    let cs = chars_of(s);
    let len = cs.len();
    let start: usize = if len > 0 && cs[0] == '+' {
        1
    } else {
        0
    };
    let ghost digits = if len > 0 && cs@[0] == '+' {
        s@.drop_first()
    } else {
        s@
    };
    assert(digits =~= cs@.subrange(start as int, len as int));
    assert(unsigned_value(s@) == digits_value(digits));
    if start >= len {
        return None;
    }
    let mut acc: u64 = 0;
    let mut over = false;
    let ghost mut gv: nat = 0;
    let mut i = start;
    while i < len
        invariant
            start < len == cs.len(),
            cs@ == s@,
            digits == cs@.subrange(start as int, len as int),
            unsigned_value(s@) == digits_value(digits),
            start <= i <= len,
            i > start ==> digits_value(cs@.subrange(start as int, i as int)) == Some(gv),
            i == start ==> gv == 0 && !over && acc == 0,
            over ==> gv > max,
            !over ==> acc == gv && gv <= max,
        decreases len - i,
    {
        let c = cs[i];
        if !('0' <= c && c <= '9') {
            proof {
                lemma_digits_value_non_digit(digits, i - start);
            }
            return None;
        }
        let d = (c as u32) - ('0' as u32);
        let ghost t = cs@.subrange(start as int, i + 1);
        assert(t.drop_last() =~= cs@.subrange(start as int, i as int));
        proof {
            gv = (10 * gv + d) as nat;
        }
        if !over {
            let nv: u128 = (acc as u128) * 10 + (d as u128);
            if nv > (max as u128) {
                over = true;
            } else {
                acc = nv as u64;
            }
        }
        i = i + 1;
    }
    assert(cs@.subrange(start as int, len as int) == digits);
    if over {
        None
    } else {
        Some(acc)
    }
}

/// The rotation interval in seconds from its configured value: the value
/// read as a number, 10 when none is configured or it does not read.
pub fn rotation_interval_from(value: Option<&str>) -> (secs: u64)
    ensures
        secs == match value {
            Some(v) => match unsigned_value(v@) {
                Some(n) => if n <= u64::MAX {
                    n as u64
                } else {
                    10u64
                },
                None => 10,
            },
            None => 10,
        },
{
    match value {
        Some(v) => match parse_unsigned(v, u64::MAX) {
            Some(n) => n,
            None => 10,
        },
        None => 10,
    }
}

/// The admin rate limit per minute from its configured value: the value
/// read as a number, 60 when none is configured or it does not read.
pub fn rate_limit_from(value: Option<&str>) -> (per_minute: u32)
    ensures
        per_minute == match value {
            Some(v) => match unsigned_value(v@) {
                Some(n) => if n <= u32::MAX {
                    n as u32
                } else {
                    60u32
                },
                None => 60,
            },
            None => 60,
        },
{
    match value {
        Some(v) => match parse_unsigned(v, 4294967295) {
            Some(n) => n as u32,
            None => 60,
        },
        None => 60,
    }
}

} // verus!
