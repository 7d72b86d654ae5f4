//! The decisions of the command-line client: parsing its arguments,
//! describing configuration keys, and the texts of its listings.

use vstd::prelude::*;

use crate::board::{is_hex_digit, CellContent, Color, Grid, HAlign, QueueItemKind, Timestamp, BOARD_COLS, BOARD_ROWS};
use crate::countdown::ZeroBehavior;
use crate::dates::{parse_utc, parse_uuid, utc_from_str, uuid_from_str};
use crate::layout::MessageTemplate;
use crate::markup::{lowercase, lowercase_chars};
use crate::text::{
    chars_eq, chars_of, decimal, prefix_within, prefix_within_bytes,
    push_chars, push_decimal, push_str, str_eq, string_of, utf8_len, utf8_longer_than,
};

verus! {

/// The configuration keys the client knows and describes.
pub open spec fn known_config_key(key: Seq<char>) -> bool {
    ||| key == "rotation_interval_seconds"@
    ||| key == "countdown_refresh_seconds"@
    ||| key == "default_h_align"@
    ||| key == "default_v_align"@
    ||| key == "default_color"@
    ||| key == "countdown_zero_behavior"@
}

/// The description shown beside a configuration key (empty for an unknown
/// key).
pub open spec fn description_of(key: Seq<char>) -> Seq<char> {
    if key == "rotation_interval_seconds"@ {
        "Seconds between queue item rotation"@
    } else if key == "countdown_refresh_seconds"@ {
        "How often countdown displays refresh"@
    } else if key == "default_h_align"@ {
        "Default horizontal alignment (left/center/right)"@
    } else if key == "default_v_align"@ {
        "Default vertical alignment (top/middle)"@
    } else if key == "default_color"@ {
        "Default tile color"@
    } else if key == "countdown_zero_behavior"@ {
        "What happens when countdown reaches zero"@
    } else {
        ""@
    }
}

/// The description of a configuration key.
pub fn config_description(key: &str) -> (d: &'static str)
    ensures
        d@ == description_of(key@),
{
    if str_eq(key, "rotation_interval_seconds") {
        "Seconds between queue item rotation"
    } else if str_eq(key, "countdown_refresh_seconds") {
        "How often countdown displays refresh"
    } else if str_eq(key, "default_h_align") {
        "Default horizontal alignment (left/center/right)"
    } else if str_eq(key, "default_v_align") {
        "Default vertical alignment (top/middle)"
    } else if str_eq(key, "default_color") {
        "Default tile color"
    } else if str_eq(key, "countdown_zero_behavior") {
        "What happens when countdown reaches zero"
    } else {
        ""
    }
}

/// Whether the client knows the configuration key `key`.
pub fn is_known_config_key(key: &str) -> (b: bool)
    ensures
        b == known_config_key(key@),
{
    str_eq(key, "rotation_interval_seconds") || str_eq(key, "countdown_refresh_seconds")
        || str_eq(key, "default_h_align") || str_eq(key, "default_v_align") || str_eq(
        key,
        "default_color",
    ) || str_eq(key, "countdown_zero_behavior")
}

/// `secs` as hours, minutes and seconds: `45s`, `1m 30s`, `2h 15m 30s`
/// (leading zero units left out).
pub open spec fn uptime_text(secs: nat) -> Seq<char> {
    let h = secs / 3600;
    let m = (secs % 3600) / 60;
    let s = secs % 60;
    if h == 0 && m == 0 {
        decimal(s) + "s"@
    } else if h == 0 {
        decimal(m) + "m "@ + decimal(s) + "s"@
    } else {
        decimal(h) + "h "@ + decimal(m) + "m "@ + decimal(s) + "s"@
    }
}

/// Format seconds into a human-readable duration string (e.g. "2h 15m 30s").
pub fn format_uptime(secs: u64) -> (s: String)
    ensures
        s@ == uptime_text(secs as nat),
{
    let hours = secs / 3600;
    let minutes = (secs % 3600) / 60;
    let seconds = secs % 60;
    let mut out: Vec<char> = Vec::new();
    if hours == 0 && minutes == 0 {
        push_decimal(&mut out, seconds);
        push_str(&mut out, "s");
    } else if hours == 0 {
        push_decimal(&mut out, minutes);
        push_str(&mut out, "m ");
        push_decimal(&mut out, seconds);
        push_str(&mut out, "s");
    } else {
        push_decimal(&mut out, hours);
        push_str(&mut out, "h ");
        push_decimal(&mut out, minutes);
        push_str(&mut out, "m ");
        push_decimal(&mut out, seconds);
        push_str(&mut out, "s");
    }
    string_of(out.as_slice())
}

/// The text of an error for an argument: `prefix`, the argument, `suffix`.
pub open spec fn quoted_error(prefix: Seq<char>, arg: Seq<char>, suffix: Seq<char>) -> Seq<char> {
    prefix + arg + suffix
}

fn error_text(prefix: &str, arg: &[char], suffix: &str) -> (s: String)
    ensures
        s@ == quoted_error(prefix@, arg@, suffix@),
{
    let mut out: Vec<char> = Vec::new();
    push_str(&mut out, prefix);
    push_chars(&mut out, arg);
    push_str(&mut out, suffix);
    string_of(out.as_slice())
}

/// The horizontal alignment an argument names (case-insensitive), or the
/// error that names the lowercased argument.
pub open spec fn alignment_named(arg: Seq<char>) -> Result<HAlign, Seq<char>> {
    let l = lowercase(arg);
    if l == "left"@ {
        Ok(HAlign::Left)
    } else if l == "center"@ {
        Ok(HAlign::Center)
    } else if l == "right"@ {
        Ok(HAlign::Right)
    } else {
        Err(
            quoted_error(
                "invalid alignment '"@,
                l,
                "': expected 'left', 'center', or 'right'"@,
            ),
        )
    }
}

/// Parse an alignment argument: `left`, `center` or `right`, in any case.
pub fn parse_alignment(align: &str) -> (r: Result<HAlign, String>)
    ensures
        match alignment_named(align@) {
            Ok(a) => r == Ok::<HAlign, String>(a),
            Err(m) => r matches Err(e) && e@ == m,
        },
{
    let arg = chars_of(align);
    let l = lowercase_chars(arg.as_slice());
    if chars_eq(l.as_slice(), chars_of("left").as_slice()) {
        Ok(HAlign::Left)
    } else if chars_eq(l.as_slice(), chars_of("center").as_slice()) {
        Ok(HAlign::Center)
    } else if chars_eq(l.as_slice(), chars_of("right").as_slice()) {
        Ok(HAlign::Right)
    } else {
        Err(
            error_text(
                "invalid alignment '",
                l.as_slice(),
                "': expected 'left', 'center', or 'right'",
            ),
        )
    }
}

/// The template a name stands for (names are matched exactly), or the
/// error that names it.
pub open spec fn template_named(name: Seq<char>) -> Result<MessageTemplate, Seq<char>> {
    if name == "announcement"@ {
        Ok(MessageTemplate::Announcement)
    } else if name == "greeting"@ {
        Ok(MessageTemplate::Greeting)
    } else if name == "countdown"@ {
        Ok(MessageTemplate::Countdown)
    } else if name == "ticker"@ {
        Ok(MessageTemplate::Ticker)
    } else {
        Err(
            quoted_error(
                "Unknown template: "@,
                name,
                ". Options: announcement, greeting, countdown, ticker"@,
            ),
        )
    }
}

/// Parse an optional template argument.
pub fn parse_template_name(name: Option<&str>) -> (r: Result<Option<MessageTemplate>, String>)
    ensures
        match name {
            None => r == Ok::<Option<MessageTemplate>, String>(None),
            Some(n) => match template_named(n@) {
                Ok(t) => r == Ok::<Option<MessageTemplate>, String>(Some(t)),
                Err(m) => r matches Err(e) && e@ == m,
            },
        },
{
    let n = match name {
        None => return Ok(None),
        Some(n) => n,
    };
    if str_eq(n, "announcement") {
        Ok(Some(MessageTemplate::Announcement))
    } else if str_eq(n, "greeting") {
        Ok(Some(MessageTemplate::Greeting))
    } else if str_eq(n, "countdown") {
        Ok(Some(MessageTemplate::Countdown))
    } else if str_eq(n, "ticker") {
        Ok(Some(MessageTemplate::Ticker))
    } else {
        let arg = chars_of(n);
        Err(
            error_text(
                "Unknown template: ",
                arg.as_slice(),
                ". Options: announcement, greeting, countdown, ticker",
            ),
        )
    }
}

/// Which zero behaviour an argument names (case-insensitive): 0 show zero,
/// 1 remove, 2 pause; or the error that names the lowercased argument.
pub open spec fn zero_behavior_named(arg: Seq<char>) -> Result<int, Seq<char>> {
    let l = lowercase(arg);
    if l == "show_zero"@ {
        Ok(0)
    } else if l == "remove"@ {
        Ok(1)
    } else if l == "pause"@ {
        Ok(2)
    } else {
        Err(
            quoted_error(
                "invalid zero_behavior '"@,
                l,
                "': expected 'show_zero', 'remove', or 'pause'"@,
            ),
        )
    }
}

/// Parse a zero-behaviour argument: `show_zero`, `remove` or `pause`.
pub fn parse_zero_behavior(arg: &str) -> (r: Result<ZeroBehavior, String>)
    ensures
        match zero_behavior_named(arg@) {
            Ok(k) => r matches Ok(z) && (k == 0 ==> z is ShowZero) && (k == 1 ==> z is Remove) && (k
                == 2 ==> z is Pause),
            Err(m) => r matches Err(e) && e@ == m,
        },
{
    let a = chars_of(arg);
    let l = lowercase_chars(a.as_slice());
    if chars_eq(l.as_slice(), chars_of("show_zero").as_slice()) {
        Ok(ZeroBehavior::ShowZero)
    } else if chars_eq(l.as_slice(), chars_of("remove").as_slice()) {
        Ok(ZeroBehavior::Remove)
    } else if chars_eq(l.as_slice(), chars_of("pause").as_slice()) {
        Ok(ZeroBehavior::Pause)
    } else {
        Err(
            error_text(
                "invalid zero_behavior '",
                l.as_slice(),
                "': expected 'show_zero', 'remove', or 'pause'",
            ),
        )
    }
}

/// The symbol a colour tile shows in a text preview: an open square for
/// white, a filled one for every other colour.
pub fn color_symbol(color: &Color) -> (c: char)
    ensures
        c == if *color == Color::White {
            '□'
        } else {
            '■'
        },
{
    match color {
        Color::White => '□',
        _ => '■',
    }
}

/// Whether the label is too long for a listing column of 20 bytes.
pub open spec fn label_too_long(label: Seq<char>) -> bool {
    utf8_len(label) > 20
}

/// A label as a listing shows it: labels longer than 20 bytes are cut to
/// their first 19 bytes followed by `…`.
pub open spec fn shown_label(label: Seq<char>) -> Seq<char> {
    if label_too_long(label) {
        prefix_within(label, 19) + "…"@
    } else {
        label
    }
}

/// The label as a listing shows it.
pub fn truncate_label(label: &str) -> (s: String)
    requires
        label_too_long(label@) ==> utf8_len(prefix_within(label@, 19)) == 19,
    ensures
        s@ == shown_label(label@),
{
    let cs = chars_of(label);
    let mut out: Vec<char> = Vec::new();
    if utf8_longer_than(cs.as_slice(), 20) {
        let head = prefix_within_bytes(cs.as_slice(), 19);
        push_chars(&mut out, head.as_slice());
        push_str(&mut out, "…");
    } else {
        push_chars(&mut out, cs.as_slice());
    }
    string_of(out.as_slice())
}

/// The time left until `target` at `now`, in whole days, hours and minutes
/// (`2d 3h 4m`, `3h 4m`, `4m`), or `expired` once it is not positive.
pub open spec fn remaining_text(target: Timestamp, now: Timestamp) -> Seq<char> {
    let left = target.total_nanos() - now.total_nanos();
    if left <= 0 {
        "expired"@
    } else {
        let secs = left / 1_000_000_000;
        let d = (secs / 86400) as nat;
        let h = ((secs / 3600) % 24) as nat;
        let m = ((secs / 60) % 60) as nat;
        if d > 0 {
            decimal(d) + "d "@ + decimal(h) + "h "@ + decimal(m) + "m"@
        } else if h > 0 {
            decimal(h) + "h "@ + decimal(m) + "m"@
        } else {
            decimal(m) + "m"@
        }
    }
}

/// The time left until `target` at `now`, as a listing shows it.
pub fn format_remaining(target: Timestamp, now: Timestamp) -> (s: String)
    ensures
        s@ == remaining_text(target, now),
{
    let left: i128 = (target.secs as i128 - now.secs as i128) * 1_000_000_000 + (target.nanos as i128
        - now.nanos as i128);
    assert(left == target.total_nanos() - now.total_nanos());
    let mut out: Vec<char> = Vec::new();
    if left <= 0 {
        push_str(&mut out, "expired");
    } else {
        let secs = left / 1_000_000_000;
        let d = (secs / 86400) as u64;
        let h = ((secs / 3600) % 24) as u64;
        let m = ((secs / 60) % 60) as u64;
        if d > 0 {
            push_decimal(&mut out, d);
            push_str(&mut out, "d ");
            push_decimal(&mut out, h);
            push_str(&mut out, "h ");
            push_decimal(&mut out, m);
            push_str(&mut out, "m");
        } else if h > 0 {
            push_decimal(&mut out, h);
            push_str(&mut out, "h ");
            push_decimal(&mut out, m);
            push_str(&mut out, "m");
        } else {
            push_decimal(&mut out, m);
            push_str(&mut out, "m");
        }
    }
    string_of(out.as_slice())
}

/// Whether the character at position `i` of a UUID text may be `c`: a dash
/// at positions 8, 13, 18 and 23, an ASCII hex digit elsewhere.
pub open spec fn uuid_char_ok(i: int, c: char) -> bool {
    if i == 8 || i == 13 || i == 18 || i == 23 {
        c == '-'
    } else {
        is_hex_digit(c)
    }
}

/// Whether `id` has the hyphenated UUID form: 36 bytes, 8-4-4-4-12 hex
/// digits.
pub open spec fn uuid_shaped(id: Seq<char>) -> bool {
    &&& utf8_len(id) == 36
    &&& forall|i: int| 0 <= i < id.len() ==> uuid_char_ok(i, #[trigger] id[i])
}

/// Validate UUID format (8-4-4-4-12 hex digits).
pub fn is_valid_uuid(id: &str) -> (b: bool)
    ensures
        b == uuid_shaped(id@),
{
    let cs = chars_of(id);
    if utf8_longer_than(cs.as_slice(), 36) || !utf8_longer_than(cs.as_slice(), 35) {
        return false;
    }
    let mut i: usize = 0;
    while i < cs.len()
        invariant
            0 <= i <= cs@.len(),
            cs@ == id@,
            forall|k: int| 0 <= k < i ==> uuid_char_ok(k, #[trigger] id@[k]),
        decreases cs@.len() - i,
    {
        let c = cs[i];
        let ok = if i == 8 || i == 13 || i == 18 || i == 23 {
            c == '-'
        } else {
            ('0' <= c && c <= '9') || ('a' <= c && c <= 'f') || ('A' <= c && c <= 'F')
        };
        if !ok {
            assert(!uuid_char_ok(i as int, id@[i as int]));
            return false;
        }
        i = i + 1;
    }
    true
}

/// The error for a countdown identifier that is not a UUID.
pub open spec fn bad_countdown_id(id: Seq<char>) -> Seq<char> {
    quoted_error(
        "invalid countdown ID '"@,
        id,
        "': expected a UUID (e.g. 550e8400-e29b-41d4-a716-446655440000)"@,
    )
}

/// Checks the identifier given to `countdown delete`.
pub fn check_countdown_id(id: &str) -> (r: Result<(), String>)
    ensures
        r is Ok <==> uuid_shaped(id@),
        r matches Err(e) ==> e@ == bad_countdown_id(id@),
{
    if is_valid_uuid(id) {
        Ok(())
    } else {
        let cs = chars_of(id);
        Err(
            error_text(
                "invalid countdown ID '",
                cs.as_slice(),
                "': expected a UUID (e.g. 550e8400-e29b-41d4-a716-446655440000)",
            ),
        )
    }
}

/// The word a queue listing uses for an item's kind.
pub fn kind_name(kind: QueueItemKind) -> (s: &'static str)
    ensures
        s@ == match kind {
            QueueItemKind::Message => "message"@,
            QueueItemKind::Countdown => "countdown"@,
        },
{
    match kind {
        QueueItemKind::Message => "message",
        QueueItemKind::Countdown => "countdown",
    }
}

/// The marker in front of row `i` of a queue listing: `▶` for the item the
/// rotation index points at, a space otherwise.
pub fn row_marker(i: usize, current_index: i64) -> (s: &'static str)
    ensures
        s@ == if i as int == current_index as int {
            "▶"@
        } else {
            " "@
        },
{
    let iu = i as u64;
    if iu <= 0x7fff_ffff_ffff_ffffu64 && iu as i64 == current_index {
        "▶"
    } else {
        " "
    }
}

/// The longest wait between reconnection attempts, in seconds.
pub const MAX_BACKOFF_SECS: u64 = 30;

/// The first wait before reconnecting, in seconds.
pub const INITIAL_BACKOFF_SECS: u64 = 1;

/// The wait after `backoff` seconds: doubled, at most 30 seconds.
pub fn next_backoff_secs(backoff: u64) -> (next: u64)
    requires
        backoff <= u64::MAX / 2,
    ensures
        next == if 2 * backoff < MAX_BACKOFF_SECS {
            2 * backoff
        } else {
            MAX_BACKOFF_SECS as int
        },
        INITIAL_BACKOFF_SECS <= backoff <= MAX_BACKOFF_SECS ==> INITIAL_BACKOFF_SECS <= next
            <= MAX_BACKOFF_SECS,
        backoff <= next || backoff > MAX_BACKOFF_SECS,
{
    let doubled = backoff * 2;
    if doubled < MAX_BACKOFF_SECS {
        doubled
    } else {
        MAX_BACKOFF_SECS
    }
}

/// Animation speed presets for split-flap flip animation.
#[derive(Debug, Clone, Copy, PartialEq, Eq, Structural)]
pub enum AnimationSpeed {
    /// Fast: 25ms/step, 10ms stagger
    Fast,
    /// Normal: 50ms/step, 20ms stagger (default)
    Normal,
    /// Slow: 100ms/step, 40ms stagger
    Slow,
    /// Off: instant transitions, no animation
    Off,
}

impl AnimationSpeed {
    /// The time of one flap step, in milliseconds.
    pub fn step_duration(&self) -> (ms: u64)
        ensures
            ms == match *self {
                AnimationSpeed::Fast => 25u64,
                AnimationSpeed::Normal => 50,
                AnimationSpeed::Slow => 100,
                AnimationSpeed::Off => 0,
            },
    {
        match self {
            AnimationSpeed::Fast => 25,
            AnimationSpeed::Normal => 50,
            AnimationSpeed::Slow => 100,
            AnimationSpeed::Off => 0,
        }
    }

    /// The delay between neighbouring columns starting, in milliseconds.
    pub fn stagger_per_column(&self) -> (ms: u64)
        ensures
            ms == match *self {
                AnimationSpeed::Fast => 10u64,
                AnimationSpeed::Normal => 20,
                AnimationSpeed::Slow => 40,
                AnimationSpeed::Off => 0,
            },
    {
        match self {
            AnimationSpeed::Fast => 10,
            AnimationSpeed::Normal => 20,
            AnimationSpeed::Slow => 40,
            AnimationSpeed::Off => 0,
        }
    }
}

/// The error for a timestamp argument that chrono could not read: the
/// argument, the expected form with an example, and chrono's message.
pub open spec fn bad_timestamp(what: Seq<char>, arg: Seq<char>, example: Seq<char>, err: Seq<char>) -> Seq<char> {
    "invalid "@ + what + " timestamp '"@ + arg + "': expected ISO-8601 format (e.g. "@ + example
        + "): "@ + err
}

/// The countdown target from the argument `target` and what chrono read
/// from it.
pub fn countdown_target_from(target: &str, parsed: Result<Timestamp, String>) -> (r: Result<Timestamp, String>)
    ensures
        match parsed {
            Ok(t) => r == Ok::<Timestamp, String>(t),
            Err(m) => r matches Err(e) && e@ == bad_timestamp(
                "target"@,
                target@,
                "2025-12-31T00:00:00Z"@,
                m@,
            ),
        },
{
    match parsed {
        Ok(t) => Ok(t),
        Err(m) => {
            let mut out: Vec<char> = Vec::new();
            push_str(&mut out, "invalid ");
            push_str(&mut out, "target");
            push_str(&mut out, " timestamp '");
            push_str(&mut out, target);
            push_str(&mut out, "': expected ISO-8601 format (e.g. ");
            push_str(&mut out, "2025-12-31T00:00:00Z");
            push_str(&mut out, "): ");
            push_str(&mut out, m.as_str());
            Err(string_of(out.as_slice()))
        },
    }
}

/// Reads the target of `countdown create` with chrono.
pub fn parse_countdown_target(target: &str) -> (r: Result<Timestamp, String>)
    ensures
        match utc_from_str(target@) {
            Ok((secs, nanos)) => r matches Ok(t) && t.secs == secs && t.nanos == nanos,
            Err(m) => r matches Err(e) && e@ == bad_timestamp(
                "target"@,
                target@,
                "2025-12-31T00:00:00Z"@,
                m,
            ),
        },
{
    let parsed = parse_utc(target);
    countdown_target_from(target, parsed)
}

/// The expiry of a pushed message from the argument and what chrono read
/// from it (`None` when no expiry was given).
pub fn expires_from(expires: Option<&str>, parsed: Option<Result<Timestamp, String>>) -> (r: Result<
    Option<Timestamp>,
    String,
>)
    requires
        expires is Some <==> parsed is Some,
    ensures
        match (expires, parsed) {
            (Some(s), Some(Ok(t))) => r == Ok::<Option<Timestamp>, String>(Some(t)),
            (Some(s), Some(Err(m))) => r matches Err(e) && e@ == bad_timestamp(
                "expires"@,
                s@,
                "2025-12-31T23:59:59Z"@,
                m@,
            ),
            _ => r == Ok::<Option<Timestamp>, String>(None),
        },
{
    match (expires, parsed) {
        (Some(s), Some(Ok(t))) => Ok(Some(t)),
        (Some(s), Some(Err(m))) => {
            let mut out: Vec<char> = Vec::new();
            push_str(&mut out, "invalid ");
            push_str(&mut out, "expires");
            push_str(&mut out, " timestamp '");
            push_str(&mut out, s);
            push_str(&mut out, "': expected ISO-8601 format (e.g. ");
            push_str(&mut out, "2025-12-31T23:59:59Z");
            push_str(&mut out, "): ");
            push_str(&mut out, m.as_str());
            Err(string_of(out.as_slice()))
        },
        _ => Ok(None),
    }
}

/// Reads the `--expires` argument of `push` with chrono.
pub fn parse_expires(expires: Option<&str>) -> (r: Result<Option<Timestamp>, String>)
    ensures
        match expires {
            None => r == Ok::<Option<Timestamp>, String>(None),
            Some(s) => match utc_from_str(s@) {
                Ok((secs, nanos)) => r matches Ok(Some(t)) && t.secs == secs && t.nanos == nanos,
                Err(m) => r matches Err(e) && e@ == bad_timestamp(
                    "expires"@,
                    s@,
                    "2025-12-31T23:59:59Z"@,
                    m,
                ),
            },
        },
{
    let parsed = match expires {
        Some(s) => Some(parse_utc(s)),
        None => None,
    };
    expires_from(expires, parsed)
}

/// The error for an identifier of `queue reorder` that is not a UUID.
pub open spec fn bad_uuid(id: Seq<char>) -> Seq<char> {
    "invalid UUID '"@ + id + "': expected format like 550e8400-e29b-41d4-a716-446655440000"@
}

/// The order of `queue reorder` from its arguments and what uuid read from
/// each: all identifiers in order, or the error for the first that did not
/// read.
pub fn order_from_parsed(ids: &Vec<String>, parsed: &Vec<Option<u128>>) -> (r: Result<Vec<u128>, String>)
    requires
        ids@.len() == parsed@.len(),
    ensures
        match r {
            Ok(order) => {
                &&& order@.len() == ids@.len()
                &&& forall|k: int| 0 <= k < parsed@.len() ==> parsed@[k] == Some(#[trigger] order@[k])
            },
            Err(e) => exists|k: int|
                0 <= k < parsed@.len() && parsed@[k] is None && (forall|j: int| 0 <= j < k ==> #[trigger] parsed@[j] is Some)
                    && e@ == bad_uuid(#[trigger] ids@[k]@),
        },
{
    let mut order: Vec<u128> = Vec::new();
    let mut i: usize = 0;
    while i < parsed.len()
        invariant
            0 <= i <= parsed@.len(),
            ids@.len() == parsed@.len(),
            order@.len() == i,
            forall|k: int| 0 <= k < i ==> parsed@[k] == Some(#[trigger] order@[k]),
        decreases parsed@.len() - i,
    {
        match parsed[i] {
            Some(id) => order.push(id),
            None => {
                let mut out: Vec<char> = Vec::new();
                push_str(&mut out, "invalid UUID '");
                push_str(&mut out, ids[i].as_str());
                push_str(&mut out, "': expected format like 550e8400-e29b-41d4-a716-446655440000");
                let e = string_of(out.as_slice());
                assert(forall|j: int| 0 <= j < i ==> #[trigger] parsed@[j] is Some) by {
                    assert forall|j: int| 0 <= j < i implies #[trigger] parsed@[j] is Some by {
                        assert(parsed@[j] == Some(order@[j]));
                    }
                }
                return Err(e);
            },
        }
        i = i + 1;
    }
    Ok(order)
}

/// Reads the identifiers given to `queue reorder` with uuid.
pub fn parse_order_ids(ids: &Vec<String>) -> (r: Result<Vec<u128>, String>)
    ensures
        match r {
            Ok(order) => {
                &&& order@.len() == ids@.len()
                &&& forall|k: int| 0 <= k < ids@.len() ==> uuid_from_str(ids@[k]@) == Some(#[trigger] order@[k])
            },
            Err(e) => exists|k: int|
                0 <= k < ids@.len() && uuid_from_str(ids@[k]@) is None && (forall|j: int| 0 <= j < k ==> #[trigger] uuid_from_str(ids@[j]@) is Some)
                    && e@ == bad_uuid(#[trigger] ids@[k]@),
        },
{
    let mut parsed: Vec<Option<u128>> = Vec::new();
    let mut i: usize = 0;
    while i < ids.len()
        invariant
            0 <= i <= ids@.len(),
            parsed@.len() == i,
            forall|k: int| 0 <= k < i ==> #[trigger] parsed@[k] == uuid_from_str(ids@[k]@),
        decreases ids@.len() - i,
    {
        parsed.push(parse_uuid(ids[i].as_str()));
        i = i + 1;
    }
    let r = order_from_parsed(ids, &parsed);
    if let Ok(order) = &r {
        assert forall|k: int| 0 <= k < ids@.len() implies uuid_from_str(ids@[k]@) == Some(
            #[trigger] order@[k],
        ) by {
            assert(parsed@[k] == uuid_from_str(ids@[k]@));
            assert(parsed@[k] == Some(order@[k]));
        }
    }
    if let Err(e) = &r {
        let ghost k = choose|k: int|
            0 <= k < parsed@.len() && parsed@[k] is None && (forall|j: int|
                0 <= j < k ==> #[trigger] parsed@[j] is Some) && e@ == bad_uuid(#[trigger] ids@[k]@);
        assert forall|j: int| 0 <= j < k implies #[trigger] uuid_from_str(ids@[j]@) is Some by {
            assert(parsed@[j] == uuid_from_str(ids@[j]@));
        }
        assert(parsed@[k] == uuid_from_str(ids@[k]@));
    }
    r
}

/// `s` repeated `n` times.
pub open spec fn repeat(s: Seq<char>, n: nat) -> Seq<char>
    decreases n,
{
    if n == 0 {
        Seq::empty()
    } else {
        repeat(s, (n - 1) as nat) + s
    }
}

/// A border line of the preview: `left`, then a three-dash segment and
/// `joint` for every column but the last, a last segment, and `right`.
pub open spec fn border_line(left: char, joint: char, right: char) -> Seq<char> {
    seq![left] + repeat("───"@.push(joint), (BOARD_COLS - 1) as nat) + "───"@ + seq![right]
}

/// The three characters a tile shows in the preview.
pub open spec fn tile_text(cell: CellContent) -> Seq<char> {
    match cell {
        CellContent::Char(c) => seq![' ', c, ' '],
        CellContent::Color(k) => seq![' ', if k == Color::White {
            '□'
        } else {
            '■'
        }, ' '],
        CellContent::Blank => seq![' ', ' ', ' '],
    }
}

/// The tiles of a row, separated by vertical bars.
pub open spec fn joined_tiles(row: Seq<CellContent>) -> Seq<char>
    decreases row.len(),
{
    if row.len() == 0 {
        Seq::empty()
    } else if row.len() == 1 {
        tile_text(row[0])
    } else {
        joined_tiles(row.drop_last()) + seq!['│'] + tile_text(row.last())
    }
}

/// The line of a row: its tiles between vertical bars.
pub open spec fn row_line(row: Seq<CellContent>) -> Seq<char> {
    seq!['│'] + joined_tiles(row) + seq!['│']
}

/// The lines of the rows, with a middle border after each of the first
/// five.
pub open spec fn preview_body(rows: Seq<Seq<CellContent>>) -> Seq<Seq<char>>
    decreases rows.len(),
{
    if rows.len() == 0 {
        Seq::empty()
    } else {
        let i = rows.len() - 1;
        preview_body(rows.drop_last()) + seq![row_line(rows.last())] + if i < BOARD_ROWS - 1 {
            seq![border_line('├', '┼', '┤')]
        } else {
            Seq::empty()
        }
    }
}

/// The preview of a grid: a top border, the rows, a bottom border.
pub open spec fn grid_preview(rows: Seq<Seq<CellContent>>) -> Seq<Seq<char>> {
    seq![border_line('┌', '┬', '┐')] + preview_body(rows) + seq![border_line('└', '┴', '┘')]
}

fn border_of(left: char, joint: char, right: char) -> (s: Vec<char>)
    ensures
        s@ == border_line(left, joint, right),
{
    let mut out: Vec<char> = Vec::new();
    out.push(left);
    let mut k: usize = 0;
    assert(seq![left] + repeat("───"@.push(joint), 0) == seq![left]);
    while k < BOARD_COLS - 1
        invariant
            0 <= k <= BOARD_COLS - 1,
            out@ == seq![left] + repeat("───"@.push(joint), k as nat),
        decreases BOARD_COLS - 1 - k,
    {
        push_str(&mut out, "───");
        out.push(joint);
        k = k + 1;
        assert(out@ == seq![left] + repeat("───"@.push(joint), k as nat));
    }
    push_str(&mut out, "───");
    out.push(right);
    out
}

fn tile_of(cell: &CellContent) -> (s: Vec<char>)
    ensures
        s@ == tile_text(*cell),
{
    let mid = match cell {
        CellContent::Char(c) => *c,
        CellContent::Color(k) => color_symbol(k),
        CellContent::Blank => ' ',
    };
    let mut v: Vec<char> = Vec::new();
    v.push(' ');
    v.push(mid);
    v.push(' ');
    assert(v@ == seq![' ', mid, ' ']);
    v
}

fn row_line_of(row: &Vec<CellContent>) -> (s: String)
    ensures
        s@ == row_line(row@),
{
    let mut out: Vec<char> = Vec::new();
    out.push('│');
    let mut c: usize = 0;
    assert(row@.take(0) == Seq::<CellContent>::empty());
    while c < row.len()
        invariant
            0 <= c <= row@.len(),
            out@ == seq!['│'] + joined_tiles(row@.take(c as int)),
        decreases row@.len() - c,
    {
        proof {
            assert(row@.take(c + 1).drop_last() == row@.take(c as int));
            assert(row@.take(c + 1).last() == row@[c as int]);
            if c == 0 {
                assert(row@.take(1)[0] == row@[0]);
            }
        }
        if c > 0 {
            out.push('│');
        }
        let t = tile_of(&row[c]);
        push_chars(&mut out, t.as_slice());
        c = c + 1;
    }
    out.push('│');
    assert(row@.take(row@.len() as int) == row@);
    string_of(out.as_slice())
}

/// The lines of the text preview of a grid, as `push --preview` prints them.
pub fn grid_preview_lines(grid: &Grid) -> (lines: Vec<String>)
    ensures
        lines@.len() == grid_preview(grid@).len(),
        forall|i: int| 0 <= i < lines@.len() ==> #[trigger] lines@[i]@ == grid_preview(grid@)[i],
{
    let rows = &grid.0;
    let top = border_of('┌', '┬', '┐');
    let mid = border_of('├', '┼', '┤');
    let bot = border_of('└', '┴', '┘');
    let mut lines: Vec<String> = Vec::new();
    lines.push(string_of(top.as_slice()));
    let ghost views = seq![border_line('┌', '┬', '┐')];
    let mut r: usize = 0;
    assert(grid@.take(0) == Seq::<Seq<CellContent>>::empty());
    while r < rows.len()
        invariant
            0 <= r <= rows@.len(),
            grid@.len() == rows@.len(),
            forall|k: int| 0 <= k < grid@.len() ==> #[trigger] grid@[k] == rows@[k]@,
            mid@ == border_line('├', '┼', '┤'),
            lines@.len() == 1 + preview_body(grid@.take(r as int)).len(),
            forall|i: int| 0 <= i < lines@.len() ==> #[trigger] lines@[i]@ == (seq![border_line('┌', '┬', '┐')] + preview_body(grid@.take(r as int)))[i],
        decreases rows@.len() - r,
    {
        let ghost before = seq![border_line('┌', '┬', '┐')] + preview_body(grid@.take(r as int));
        proof {
            assert(grid@.take(r + 1).drop_last() == grid@.take(r as int));
            assert(grid@.take(r + 1).last() == grid@[r as int]);
        }
        let line = row_line_of(&rows[r]);
        lines.push(line);
        if r < BOARD_ROWS - 1 {
            lines.push(string_of(mid.as_slice()));
        }
        proof {
            let after = seq![border_line('┌', '┬', '┐')] + preview_body(grid@.take(r + 1));
            let block = seq![row_line(grid@[r as int])] + if r < BOARD_ROWS - 1 {
                seq![border_line('├', '┼', '┤')]
            } else {
                Seq::empty()
            };
            assert(after =~= before + block);
        }
        r = r + 1;
    }
    lines.push(string_of(bot.as_slice()));
    assert(grid@.take(rows@.len() as int) == grid@);
    lines
}

} // verus!
