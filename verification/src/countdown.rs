//! Countdowns: the timer records, the rendering of the time left through a
//! format template, and their layout on the board.

use vstd::prelude::*;

use crate::board::{blank_grid, well_formed, CellContent, Grid, HAlign, Timestamp, BOARD_COLS, BOARD_ROWS};
use crate::layout::{placed_cell, placed_row, with_row, blank_row};
use crate::text::{
    chars_of, push_zero_padded, replace_all, replace_chars, split_once, string_of,
    trim, trim_chars, decimal, zero_padded, find_char, slice_chars,
};

verus! {

/// Behavior when a countdown reaches zero.
#[derive(Debug)]
pub enum ZeroBehavior {
    ShowZero,
    ShowMessage { grid: Grid },
    Remove,
    Pause,
}

impl Default for ZeroBehavior {
    fn default() -> (z: Self)
        ensures
            z is ShowZero,
    {
        ZeroBehavior::ShowZero
    }
}

/// A countdown timer entry.
#[derive(Debug)]
pub struct Countdown {
    pub id: u128,
    pub label: String,
    pub target: Timestamp,
    pub format_template: String,
    pub zero_behavior: ZeroBehavior,
    pub queue_position: i64,
    pub created_at: Timestamp,
}

/// The format a countdown uses when none is given.
pub fn default_format_template() -> (s: String)
    ensures
        s@ == "{D} DAYS  {HH}:{MM}:{SS}"@,
{
    string_of(chars_of("{D} DAYS  {HH}:{MM}:{SS}").as_slice())
}

/// The whole days, hours, minutes and seconds in `secs` (negative counts
/// as zero).
pub open spec fn time_fields(secs: int) -> (nat, nat, nat, nat) {
    let t = if secs > 0 {
        secs
    } else {
        0
    };
    ((t / 86400) as nat, ((t % 86400) / 3600) as nat, ((t % 3600) / 60) as nat, (t % 60) as nat)
}

/// `template` with its placeholders filled in for `secs` seconds, longest
/// tokens first: `{DDD}`, `{DD}`, `{D}` the days (3, 2 or more digits),
/// `{HH}`/`{H}` the hours, `{MM}`/`{M}` the minutes and `{SS}`/`{S}` the
/// seconds of the day, two-digit tokens zero-padded.
pub open spec fn formatted(template: Seq<char>, secs: int) -> Seq<char> {
    let (d, h, m, s) = time_fields(secs);
    let r = replace_all(template, "{DDD}"@, zero_padded(d, 3));
    let r = replace_all(r, "{DD}"@, zero_padded(d, 2));
    let r = replace_all(r, "{D}"@, decimal(d));
    let r = replace_all(r, "{HH}"@, zero_padded(h, 2));
    let r = replace_all(r, "{H}"@, decimal(h));
    let r = replace_all(r, "{MM}"@, zero_padded(m, 2));
    let r = replace_all(r, "{M}"@, decimal(m));
    let r = replace_all(r, "{SS}"@, zero_padded(s, 2));
    replace_all(r, "{S}"@, decimal(s))
}

fn replace_token(s: Vec<char>, token: &str, value: Vec<char>) -> (r: Vec<char>)
    requires
        token@.len() > 0,
    ensures
        r@ == replace_all(s@, token@, value@),
{
    let t = chars_of(token);
    replace_chars(s.as_slice(), t.as_slice(), value.as_slice())
}

fn padded(n: u64, width: usize) -> (v: Vec<char>)
    ensures
        v@ == zero_padded(n as nat, width as nat),
{
    let mut v: Vec<char> = Vec::new();
    push_zero_padded(&mut v, n, width);
    v
}

/// Replace format template placeholders with computed time values.
pub fn format_template(template: &str, seconds: i64) -> (s: String)
    ensures
        s@ == formatted(template@, seconds as int),
{
    proof {
        reveal_strlit("{DDD}");
        reveal_strlit("{DD}");
        reveal_strlit("{D}");
        reveal_strlit("{HH}");
        reveal_strlit("{H}");
        reveal_strlit("{MM}");
        reveal_strlit("{M}");
        reveal_strlit("{SS}");
        reveal_strlit("{S}");
    }
    let total: u64 = if seconds > 0 {
        seconds as u64
    } else {
        0
    };
    let days = total / 86400;
    let hours = (total % 86400) / 3600;
    let mins = (total % 3600) / 60;
    let secs = total % 60;
    let r = chars_of(template);
    let r = replace_token(r, "{DDD}", padded(days, 3));
    let r = replace_token(r, "{DD}", padded(days, 2));
    let r = replace_token(r, "{D}", crate::text::decimal_of(days));
    let r = replace_token(r, "{HH}", padded(hours, 2));
    let r = replace_token(r, "{H}", crate::text::decimal_of(hours));
    let r = replace_token(r, "{MM}", padded(mins, 2));
    let r = replace_token(r, "{M}", crate::text::decimal_of(mins));
    let r = replace_token(r, "{SS}", padded(secs, 2));
    let r = replace_token(r, "{S}", crate::text::decimal_of(secs));
    string_of(r.as_slice())
}

/// The first `n` characters of `s` (all of them when it is shorter).
pub open spec fn take_at_most(s: Seq<char>, n: int) -> Seq<char> {
    if s.len() < n {
        s
    } else {
        s.take(n)
    }
}

/// The whole seconds from `now` until `target`; zero once it has passed.
pub open spec fn remaining_secs(target: Timestamp, now: Timestamp) -> int {
    let d = target.total_nanos() - now.total_nanos();
    if d > 0 {
        d / 1_000_000_000
    } else {
        0
    }
}

/// The board for a countdown labelled `label` whose time text is `text`:
/// the label centred on row 0 and, past 22 characters, on row 1; the time
/// text centred on row 3, or, when it holds a `/`, the part before the
/// first `/` on row 3 and the rest on row 4, each trimmed; rows 2 and 5
/// blank.
pub open spec fn countdown_grid(label: Seq<char>, text: Seq<char>) -> Seq<Seq<CellContent>> {
    let row0 = take_at_most(label, BOARD_COLS as int);
    let row1 = if label.len() > BOARD_COLS {
        take_at_most(label.skip(BOARD_COLS as int), BOARD_COLS as int)
    } else {
        Seq::empty()
    };
    let g = with_row(blank_grid(), 0, row0, HAlign::Center);
    let g = with_row(g, 1, row1, HAlign::Center);
    match split_once(text, '/') {
        Some((first, rest)) => with_row(
            with_row(g, 3, take_at_most(trim(first), BOARD_COLS as int), HAlign::Center),
            4,
            take_at_most(trim(rest), BOARD_COLS as int),
            HAlign::Center,
        ),
        None => with_row(g, 3, take_at_most(trim(text), BOARD_COLS as int), HAlign::Center),
    }
}

/// The first `n` characters of `s` (all of them when it is shorter).
fn take_chars(s: &[char], n: usize) -> (v: Vec<char>)
    ensures
        v@ == take_at_most(s@, n as int),
{
    let m = if s.len() < n {
        s.len()
    } else {
        n
    };
    let v = slice_chars(s, 0, m);
    assert(s.len() < n ==> s@.subrange(0, m as int) == s@);
    v
}

/// Place characters centered on a grid row.
fn place_text_centered(row: &mut Vec<CellContent>, chars: &[char])
    requires
        old(row)@.len() == BOARD_COLS,
    ensures
        final(row)@ == placed_row(old(row)@, chars@, HAlign::Center),
{
    if chars.len() == 0 {
        assert(row@ =~= placed_row(old(row)@, chars@, HAlign::Center));
        return;
    }
    Grid::place_line(row, chars, HAlign::Center);
}

/// Render a countdown onto the 6×22 board grid.
///
/// Layout:
/// - Rows 0-1: countdown label (centered, split at 22 chars)
/// - Row 2: blank
/// - Rows 3-4: formatted time remaining (centered, split on "/")
/// - Row 5: blank
#[verifier::loop_isolation(false)]
pub fn render_countdown_grid(countdown: &Countdown, now: Timestamp) -> (g: Grid)
    requires
        countdown.target.secs - now.secs <= i64::MAX - 8,
    ensures
        g@ == countdown_grid(
            countdown.label@,
            formatted(countdown.format_template@, remaining_secs(countdown.target, now)),
        ),
        well_formed(g@),
{
    let label_chars = chars_of(countdown.label.as_str());
    let row0 = take_chars(label_chars.as_slice(), BOARD_COLS);
    let row1: Vec<char> = if label_chars.len() > BOARD_COLS {
        let rest = slice_chars(label_chars.as_slice(), BOARD_COLS, label_chars.len());
        assert(rest@ == label_chars@.skip(BOARD_COLS as int));
        take_chars(rest.as_slice(), BOARD_COLS)
    } else {
        Vec::new()
    };
    let t = countdown.target.secs as i128 * 1_000_000_000 + countdown.target.nanos as i128;
    let n = now.secs as i128 * 1_000_000_000 + now.nanos as i128;
    let remaining: i64 = if t > n {
        let d = (t - n) / 1_000_000_000;
        assert(d * 1_000_000_000 <= t - n) by (nonlinear_arith)
            requires
                d == (t - n) / 1_000_000_000,
                t > n,
        ;
        assert(t - n < (countdown.target.secs - now.secs) * 1_000_000_000 + 5_000_000_000);
        assert(d <= countdown.target.secs - now.secs + 5) by (nonlinear_arith)
            requires
                d * 1_000_000_000 <= t - n,
                t - n < (countdown.target.secs - now.secs) * 1_000_000_000 + 5_000_000_000,
        ;
        if d > i64::MAX as i128 {
            i64::MAX
        } else {
            d as i64
        }
    } else {
        0
    };
    assert(remaining == remaining_secs(countdown.target, now)) by (nonlinear_arith)
        requires
            t == countdown.target.total_nanos(),
            n == now.total_nanos(),
            remaining == (if t > n { (t - n) / 1_000_000_000 } else { 0 }),
    ;
    let formatted_text = format_template(countdown.format_template.as_str(), remaining);
    let text = chars_of(formatted_text.as_str());
    let tl = text.len();
    let (first, rest): (Vec<char>, Option<Vec<char>>) = match find_char(text.as_slice(), '/') {
        Some(k) => (slice_chars(text.as_slice(), 0, k), Some(slice_chars(text.as_slice(), k + 1, tl))),
        None => (slice_chars(text.as_slice(), 0, text.len()), None),
    };
    assert(match split_once(text@, '/') {
        Some((a, b)) => first@ == a && rest is Some && rest->0@ == b,
        None => first@ == text@ && rest is None,
    }) by {
        assert(text@.subrange(0, text@.len() as int) == text@);
    }
    let time0 = take_chars(trim_chars(first.as_slice()).as_slice(), BOARD_COLS);
    let time1: Option<Vec<char>> = match &rest {
        Some(r) => Some(take_chars(trim_chars(r.as_slice()).as_slice(), BOARD_COLS)),
        None => None,
    };
    let ghost target = countdown_grid(
        countdown.label@,
        formatted(countdown.format_template@, remaining_secs(countdown.target, now)),
    );
    proof {
        crate::layout::lemma_blank_grid_rows();
    }
    let mut rows: Vec<Vec<CellContent>> = Vec::new();
    let mut r: usize = 0;
    while r < BOARD_ROWS
        invariant
            0 <= r <= BOARD_ROWS,
            rows@.len() == r,
            forall|k: int| 0 <= k < r ==> #[trigger] rows@[k]@ == target[k],
        decreases BOARD_ROWS - r,
    {
        let mut row = crate::layout::blank_row_vec();
        if r == 0 {
            place_text_centered(&mut row, row0.as_slice());
        } else if r == 1 {
            place_text_centered(&mut row, row1.as_slice());
        } else if r == 3 {
            place_text_centered(&mut row, time0.as_slice());
        } else if r == 4 {
            match &time1 {
                Some(t1) => place_text_centered(&mut row, t1.as_slice()),
                None => {},
            }
        }
        assert(blank_grid()[r as int] == blank_row());
        assert(row@ == target[r as int]);
        rows.push(row);
        r = r + 1;
    }
    let g = Grid(rows);
    assert(g@ =~= target);
    assert forall|k: int| 0 <= k < g@.len() implies #[trigger] g@[k].len() == BOARD_COLS by {
        assert(g@[k] == target[k]);
    }
    g
}

} // verus!

verus! {

/// A countdown leaves rows 2 and 5 of the board blank.
pub proof fn lemma_countdown_rows_blank(label: Seq<char>, text: Seq<char>)
    ensures
        countdown_grid(label, text)[2] == blank_row(),
        countdown_grid(label, text)[5] == blank_row(),
        well_formed(countdown_grid(label, text)),
{
    crate::layout::lemma_blank_grid_rows();
    let g = countdown_grid(label, text);
    assert forall|k: int| 0 <= k < g.len() implies #[trigger] g[k].len() == BOARD_COLS by {}
}

/// The time left is never negative, is zero once the target has passed,
/// and does not grow as time goes on.
pub proof fn lemma_remaining_secs(target: Timestamp, now: Timestamp, later: Timestamp)
    requires
        now.total_nanos() <= later.total_nanos(),
    ensures
        remaining_secs(target, now) >= 0,
        target.total_nanos() <= now.total_nanos() ==> remaining_secs(target, now) == 0,
        remaining_secs(target, later) <= remaining_secs(target, now),
{
    let a = target.total_nanos() - now.total_nanos();
    let b = target.total_nanos() - later.total_nanos();
    if b > 0 {
        assert(b / 1_000_000_000 <= a / 1_000_000_000) by (nonlinear_arith)
            requires
                0 < b <= a,
        ;
    }
    if a > 0 {
        assert(a / 1_000_000_000 >= 0) by (nonlinear_arith)
            requires
                a > 0,
        ;
    }
}

proof fn lemma_replace_without_brace(s: Seq<char>, pat: Seq<char>, rep: Seq<char>)
    requires
        pat.len() > 0,
        pat[0] == '{',
        forall|k: int| 0 <= k < s.len() ==> s[k] != '{',
    ensures
        replace_all(s, pat, rep) == s,
    decreases s.len(),
{
    if s.len() >= pat.len() {
        assert(s.take(pat.len() as int)[0] != pat[0]);
        lemma_replace_without_brace(s.drop_first(), pat, rep);
        assert(seq![s[0]] + s.drop_first() =~= s);
    }
}

/// A format template without any `{` shows as it is, whatever the time.
pub proof fn lemma_plain_template(template: Seq<char>, secs: int)
    requires
        forall|k: int| 0 <= k < template.len() ==> template[k] != '{',
    ensures
        formatted(template, secs) == template,
{
    reveal_strlit("{DDD}");
    reveal_strlit("{DD}");
    reveal_strlit("{D}");
    reveal_strlit("{HH}");
    reveal_strlit("{H}");
    reveal_strlit("{MM}");
    reveal_strlit("{M}");
    reveal_strlit("{SS}");
    reveal_strlit("{S}");
    let (d, h, m, s) = time_fields(secs);
    lemma_replace_without_brace(template, "{DDD}"@, zero_padded(d, 3));
    lemma_replace_without_brace(template, "{DD}"@, zero_padded(d, 2));
    lemma_replace_without_brace(template, "{D}"@, decimal(d));
    lemma_replace_without_brace(template, "{HH}"@, zero_padded(h, 2));
    lemma_replace_without_brace(template, "{H}"@, decimal(h));
    lemma_replace_without_brace(template, "{MM}"@, zero_padded(m, 2));
    lemma_replace_without_brace(template, "{M}"@, decimal(m));
    lemma_replace_without_brace(template, "{SS}"@, zero_padded(s, 2));
    lemma_replace_without_brace(template, "{S}"@, decimal(s));
}

/// Every character of a decimal rendering is a digit.
proof fn lemma_decimal_digits(n: nat)
    ensures
        decimal(n).len() >= 1,
        forall|k: int| 0 <= k < decimal(n).len() ==> '0' <= #[trigger] decimal(n)[k] <= '9',
    decreases n,
{
    if n >= 10 {
        lemma_decimal_digits(n / 10);
        let p = decimal(n / 10);
        assert forall|k: int| 0 <= k < decimal(n).len() implies '0' <= #[trigger] decimal(n)[k] <= '9' by {
            if k < p.len() {
                assert(decimal(n)[k] == p[k]);
            }
        }
    }
}

proof fn lemma_zero_padded_no_brace(n: nat, w: nat)
    ensures
        forall|k: int| 0 <= k < zero_padded(n, w).len() ==> #[trigger] zero_padded(n, w)[k] != '{',
{
    lemma_decimal_digits(n);
    let d = decimal(n);
    if d.len() < w {
        let z = Seq::new((w - d.len()) as nat, |i: int| '0');
        assert forall|k: int| 0 <= k < zero_padded(n, w).len() implies #[trigger] zero_padded(n, w)[k] != '{' by {
            if k >= z.len() {
                assert(zero_padded(n, w)[k] == d[k - z.len()]);
            }
        }
    }
}

/// A token that cannot start anywhere in `s` (it is longer, or its second
/// character or its opening brace never occurs) leaves `s` as it is.
proof fn lemma_keeps_token(s: Seq<char>, pat: Seq<char>, rep: Seq<char>)
    requires
        pat.len() >= 2,
        pat[0] == '{',
        s.len() < pat.len() || (forall|k: int| 0 <= k < s.len() ==> s[k] != pat[1]) || (forall|k: int|
            0 <= k < s.len() ==> s[k] != '{'),
    ensures
        replace_all(s, pat, rep) == s,
    decreases s.len(),
{
    if s.len() >= pat.len() {
        if forall|k: int| 0 <= k < s.len() ==> s[k] != '{' {
            lemma_replace_without_brace(s, pat, rep);
        } else {
            assert(s.take(pat.len() as int)[1] == s[1]);
            let t = s.drop_first();
            assert forall|k: int| 0 <= k < t.len() implies t[k] != pat[1] by {
                assert(t[k] == s[k + 1]);
            }
            lemma_keeps_token(t, pat, rep);
            assert(seq![s[0]] + t =~= s);
        }
    }
}

proof fn lemma_replace_whole(pat: Seq<char>, rep: Seq<char>)
    requires
        pat.len() > 0,
    ensures
        replace_all(pat, pat, rep) == rep,
{
    assert(pat.take(pat.len() as int) =~= pat);
    assert(pat.skip(pat.len() as int) =~= Seq::<char>::empty());
    assert(replace_all(Seq::<char>::empty(), pat, rep) == Seq::<char>::empty());
    assert(rep + Seq::<char>::empty() =~= rep);
}

/// Each placeholder of a format template, on its own, becomes its part of
/// the time left (no time left once it is negative): the whole days, the
/// hours of the day, the minutes of the hour and the seconds of the minute;
/// the two- and three-letter forms zero-padded to that many digits.
pub proof fn lemma_format_tokens(secs: int)
    ensures
        ({
            let t = if secs > 0 {
                secs
            } else {
                0
            };
            let days = (t / 86400) as nat;
            let hours = ((t / 3600) % 24) as nat;
            let minutes = ((t / 60) % 60) as nat;
            let seconds = (t % 60) as nat;
            &&& formatted("{DDD}"@, secs) == zero_padded(days, 3)
            &&& formatted("{DD}"@, secs) == zero_padded(days, 2)
            &&& formatted("{D}"@, secs) == decimal(days)
            &&& formatted("{HH}"@, secs) == zero_padded(hours, 2)
            &&& formatted("{H}"@, secs) == decimal(hours)
            &&& formatted("{MM}"@, secs) == zero_padded(minutes, 2)
            &&& formatted("{M}"@, secs) == decimal(minutes)
            &&& formatted("{SS}"@, secs) == zero_padded(seconds, 2)
            &&& formatted("{S}"@, secs) == decimal(seconds)
        }),
{
    reveal_strlit("{DDD}");
    reveal_strlit("{DD}");
    reveal_strlit("{D}");
    reveal_strlit("{HH}");
    reveal_strlit("{H}");
    reveal_strlit("{MM}");
    reveal_strlit("{M}");
    reveal_strlit("{SS}");
    reveal_strlit("{S}");
    let t = if secs > 0 {
        secs
    } else {
        0
    };
    vstd::arithmetic::div_mod::lemma_mod_breakdown(t, 3600, 24);
    vstd::arithmetic::div_mod::lemma_fundamental_div_mod_converse(
        t % 86400,
        3600,
        (t / 3600) % 24,
        t % 3600,
    );
    vstd::arithmetic::div_mod::lemma_mod_breakdown(t, 60, 60);
    vstd::arithmetic::div_mod::lemma_fundamental_div_mod_converse(t % 3600, 60, (t / 60) % 60, t % 60);
    let (d, h, m, sec) = time_fields(secs);
    assert(h == (t / 3600) % 24);
    assert(m == (t / 60) % 60);
    lemma_zero_padded_no_brace(d, 3);
    lemma_zero_padded_no_brace(d, 2);
    lemma_zero_padded_no_brace(h, 2);
    lemma_zero_padded_no_brace(m, 2);
    lemma_zero_padded_no_brace(sec, 2);
    lemma_decimal_digits(d);
    lemma_decimal_digits(h);
    lemma_decimal_digits(m);
    lemma_decimal_digits(sec);
    // "{DDD}" alone
    lemma_replace_whole("{DDD}"@, zero_padded(d, 3));
    lemma_keeps_token(zero_padded(d, 3), "{DD}"@, zero_padded(d, 2));
    lemma_keeps_token(zero_padded(d, 3), "{D}"@, decimal(d));
    lemma_keeps_token(zero_padded(d, 3), "{HH}"@, zero_padded(h, 2));
    lemma_keeps_token(zero_padded(d, 3), "{H}"@, decimal(h));
    lemma_keeps_token(zero_padded(d, 3), "{MM}"@, zero_padded(m, 2));
    lemma_keeps_token(zero_padded(d, 3), "{M}"@, decimal(m));
    lemma_keeps_token(zero_padded(d, 3), "{SS}"@, zero_padded(sec, 2));
    lemma_keeps_token(zero_padded(d, 3), "{S}"@, decimal(sec));
    // "{DD}" alone
    lemma_keeps_token("{DD}"@, "{DDD}"@, zero_padded(d, 3));
    lemma_replace_whole("{DD}"@, zero_padded(d, 2));
    lemma_keeps_token(zero_padded(d, 2), "{D}"@, decimal(d));
    lemma_keeps_token(zero_padded(d, 2), "{HH}"@, zero_padded(h, 2));
    lemma_keeps_token(zero_padded(d, 2), "{H}"@, decimal(h));
    lemma_keeps_token(zero_padded(d, 2), "{MM}"@, zero_padded(m, 2));
    lemma_keeps_token(zero_padded(d, 2), "{M}"@, decimal(m));
    lemma_keeps_token(zero_padded(d, 2), "{SS}"@, zero_padded(sec, 2));
    lemma_keeps_token(zero_padded(d, 2), "{S}"@, decimal(sec));
    // "{D}" alone
    lemma_keeps_token("{D}"@, "{DDD}"@, zero_padded(d, 3));
    lemma_keeps_token("{D}"@, "{DD}"@, zero_padded(d, 2));
    lemma_replace_whole("{D}"@, decimal(d));
    lemma_keeps_token(decimal(d), "{HH}"@, zero_padded(h, 2));
    lemma_keeps_token(decimal(d), "{H}"@, decimal(h));
    lemma_keeps_token(decimal(d), "{MM}"@, zero_padded(m, 2));
    lemma_keeps_token(decimal(d), "{M}"@, decimal(m));
    lemma_keeps_token(decimal(d), "{SS}"@, zero_padded(sec, 2));
    lemma_keeps_token(decimal(d), "{S}"@, decimal(sec));
    // "{HH}" alone
    lemma_keeps_token("{HH}"@, "{DDD}"@, zero_padded(d, 3));
    lemma_keeps_token("{HH}"@, "{DD}"@, zero_padded(d, 2));
    lemma_keeps_token("{HH}"@, "{D}"@, decimal(d));
    lemma_replace_whole("{HH}"@, zero_padded(h, 2));
    lemma_keeps_token(zero_padded(h, 2), "{H}"@, decimal(h));
    lemma_keeps_token(zero_padded(h, 2), "{MM}"@, zero_padded(m, 2));
    lemma_keeps_token(zero_padded(h, 2), "{M}"@, decimal(m));
    lemma_keeps_token(zero_padded(h, 2), "{SS}"@, zero_padded(sec, 2));
    lemma_keeps_token(zero_padded(h, 2), "{S}"@, decimal(sec));
    // "{H}" alone
    lemma_keeps_token("{H}"@, "{DDD}"@, zero_padded(d, 3));
    lemma_keeps_token("{H}"@, "{DD}"@, zero_padded(d, 2));
    lemma_keeps_token("{H}"@, "{D}"@, decimal(d));
    lemma_keeps_token("{H}"@, "{HH}"@, zero_padded(h, 2));
    lemma_replace_whole("{H}"@, decimal(h));
    lemma_keeps_token(decimal(h), "{MM}"@, zero_padded(m, 2));
    lemma_keeps_token(decimal(h), "{M}"@, decimal(m));
    lemma_keeps_token(decimal(h), "{SS}"@, zero_padded(sec, 2));
    lemma_keeps_token(decimal(h), "{S}"@, decimal(sec));
    // "{MM}" alone
    lemma_keeps_token("{MM}"@, "{DDD}"@, zero_padded(d, 3));
    lemma_keeps_token("{MM}"@, "{DD}"@, zero_padded(d, 2));
    lemma_keeps_token("{MM}"@, "{D}"@, decimal(d));
    lemma_keeps_token("{MM}"@, "{HH}"@, zero_padded(h, 2));
    lemma_keeps_token("{MM}"@, "{H}"@, decimal(h));
    lemma_replace_whole("{MM}"@, zero_padded(m, 2));
    lemma_keeps_token(zero_padded(m, 2), "{M}"@, decimal(m));
    lemma_keeps_token(zero_padded(m, 2), "{SS}"@, zero_padded(sec, 2));
    lemma_keeps_token(zero_padded(m, 2), "{S}"@, decimal(sec));
    // "{M}" alone
    lemma_keeps_token("{M}"@, "{DDD}"@, zero_padded(d, 3));
    lemma_keeps_token("{M}"@, "{DD}"@, zero_padded(d, 2));
    lemma_keeps_token("{M}"@, "{D}"@, decimal(d));
    lemma_keeps_token("{M}"@, "{HH}"@, zero_padded(h, 2));
    lemma_keeps_token("{M}"@, "{H}"@, decimal(h));
    lemma_keeps_token("{M}"@, "{MM}"@, zero_padded(m, 2));
    lemma_replace_whole("{M}"@, decimal(m));
    lemma_keeps_token(decimal(m), "{SS}"@, zero_padded(sec, 2));
    lemma_keeps_token(decimal(m), "{S}"@, decimal(sec));
    // "{SS}" alone
    lemma_keeps_token("{SS}"@, "{DDD}"@, zero_padded(d, 3));
    lemma_keeps_token("{SS}"@, "{DD}"@, zero_padded(d, 2));
    lemma_keeps_token("{SS}"@, "{D}"@, decimal(d));
    lemma_keeps_token("{SS}"@, "{HH}"@, zero_padded(h, 2));
    lemma_keeps_token("{SS}"@, "{H}"@, decimal(h));
    lemma_keeps_token("{SS}"@, "{MM}"@, zero_padded(m, 2));
    lemma_keeps_token("{SS}"@, "{M}"@, decimal(m));
    lemma_replace_whole("{SS}"@, zero_padded(sec, 2));
    lemma_keeps_token(zero_padded(sec, 2), "{S}"@, decimal(sec));
    // "{S}" alone
    lemma_keeps_token("{S}"@, "{DDD}"@, zero_padded(d, 3));
    lemma_keeps_token("{S}"@, "{DD}"@, zero_padded(d, 2));
    lemma_keeps_token("{S}"@, "{D}"@, decimal(d));
    lemma_keeps_token("{S}"@, "{HH}"@, zero_padded(h, 2));
    lemma_keeps_token("{S}"@, "{H}"@, decimal(h));
    lemma_keeps_token("{S}"@, "{MM}"@, zero_padded(m, 2));
    lemma_keeps_token("{S}"@, "{M}"@, decimal(m));
    lemma_keeps_token("{S}"@, "{SS}"@, zero_padded(sec, 2));
    lemma_replace_whole("{S}"@, decimal(sec));
}

/// The label of a countdown is shown on rows 0 and 1, centred: its first
/// 22 characters on row 0 and the next 22, if any, on row 1, so that rows
/// 0 and 1 read in order give the first 44 characters of the label; every
/// other cell of those rows is blank.
pub proof fn lemma_countdown_label_rows(label: Seq<char>, text: Seq<char>)
    ensures
        ({
            let n0 = if label.len() < 22 {
                label.len() as int
            } else {
                22
            };
            let n1 = if label.len() <= 22 {
                0
            } else if label.len() - 22 < 22 {
                label.len() - 22
            } else {
                22
            };
            let s0 = (22 - n0) / 2;
            let s1 = (22 - n1) / 2;
            let g = countdown_grid(label, text);
            &&& g[0].len() == 22 && g[1].len() == 22
            &&& forall|c: int|
                0 <= c < 22 ==> #[trigger] g[0][c] == if s0 <= c < s0 + n0 {
                    CellContent::Char(label[c - s0])
                } else {
                    CellContent::Blank
                }
            &&& forall|c: int|
                0 <= c < 22 ==> #[trigger] g[1][c] == if s1 <= c < s1 + n1 {
                    CellContent::Char(label[22 + c - s1])
                } else {
                    CellContent::Blank
                }
        }),
{
    crate::layout::lemma_blank_grid_rows();
    let row0 = take_at_most(label, BOARD_COLS as int);
    let row1 = if label.len() > BOARD_COLS {
        take_at_most(label.skip(BOARD_COLS as int), BOARD_COLS as int)
    } else {
        Seq::empty()
    };
    let g0 = with_row(blank_grid(), 0, row0, HAlign::Center);
    let g1 = with_row(g0, 1, row1, HAlign::Center);
    let g = countdown_grid(label, text);
    assert(g[0] == g1[0] && g[1] == g1[1]);
    assert(g1[0] == g0[0]);
    assert(g0[0] == placed_row(blank_row(), row0, HAlign::Center));
    assert(g1[1] == placed_row(blank_row(), row1, HAlign::Center));
}

/// A board row showing `x` centred: its first 22 characters, starting at
/// column `(22 - n) / 2` for the `n` characters shown, every other cell
/// blank.
pub open spec fn centred_row(x: Seq<char>) -> Seq<CellContent> {
    Seq::new(22, |c: int| centred_cell(x, c))
}

/// Cell `c` of the row showing `x` centred.
pub open spec fn centred_cell(x: Seq<char>, c: int) -> CellContent {
    let n = if x.len() < 22 {
        x.len() as int
    } else {
        22
    };
    let st = (22 - n) / 2;
    if st <= c < st + n {
        CellContent::Char(x[c - st])
    } else {
        CellContent::Blank
    }
}

proof fn lemma_placed_is_centred(x: Seq<char>)
    ensures
        placed_row(blank_row(), take_at_most(x, BOARD_COLS as int), HAlign::Center) == centred_row(x),
{
    crate::layout::lemma_blank_grid_rows();
    let t = take_at_most(x, BOARD_COLS as int);
    let pr = placed_row(blank_row(), t, HAlign::Center);
    let cr = centred_row(x);
    assert(blank_row().len() == 22);
    assert(pr.len() == 22);
    assert(cr.len() == 22);
    assert forall|c: int| 0 <= c < 22 implies pr[c] == cr[c] by {
        assert(cr[c] == centred_cell(x, c));
        assert(pr[c] == placed_cell(blank_row(), t, HAlign::Center, c));
        assert(blank_row()[c] == CellContent::Blank);
    }
    assert(pr =~= cr);
}

/// The time text of a countdown is shown on rows 3 and 4: without a `/`,
/// all of it (trimmed) centred on row 3 and row 4 blank; with one, what
/// comes before the first `/` on row 3 and what comes after on row 4, each
/// trimmed and centred.
pub proof fn lemma_countdown_time_rows(label: Seq<char>, before: Seq<char>, after: Seq<char>)
    ensures
        (forall|k: int| 0 <= k < before.len() ==> before[k] != '/') ==> ({
            let g = countdown_grid(label, before);
            &&& g[3] == centred_row(trim(before))
            &&& g[4] == centred_row(Seq::empty())
        }),
        (forall|k: int| 0 <= k < before.len() ==> before[k] != '/') ==> ({
            let g = countdown_grid(label, before + seq!['/'] + after);
            &&& g[3] == centred_row(trim(before))
            &&& g[4] == centred_row(trim(after))
        }),
{
    crate::layout::lemma_blank_grid_rows();
    lemma_placed_is_centred(trim(before));
    lemma_placed_is_centred(trim(after));
    lemma_placed_is_centred(Seq::empty());
    assert(take_at_most(Seq::<char>::empty(), BOARD_COLS as int) =~= Seq::<char>::empty());
    if forall|k: int| 0 <= k < before.len() ==> before[k] != '/' {
        assert(split_once(before, '/') is None);
        let t = before + seq!['/'] + after;
        let n = before.len() as int;
        assert(t[n] == '/');
        assert forall|j: int| 0 <= j < n implies t[j] != '/' by {
            assert(t[j] == before[j]);
        }
        let k = choose|k: int| 0 <= k < t.len() && t[k] == '/' && forall|j: int| 0 <= j < k ==> t[j] != '/';
        assert(k == n);
        assert(t.take(n) =~= before);
        assert(t.skip(n + 1) =~= after);
        assert(split_once(t, '/') == Some((before, after)));
    }
}

} // verus!
