//! Laying text out on the board: normalisation to the split-flap character
//! set, word wrapping, alignment, templates, and the splash screen.

use vstd::prelude::*;

use crate::board::{
    blank_grid, well_formed, CellContent, Grid, HAlign, VAlign, BOARD_COLS, BOARD_ROWS,
};
use crate::text::{chars_of, decimal, push_decimal, push_str, string_of};

verus! {

// ── Character set ─────────────────────────────────────────────────

/// The first character of the uppercase mapping of `c` (Unicode case
/// tables; `c` itself when there is no mapping).
pub uninterp spec fn first_uppercase(c: char) -> char;

/// `char::to_uppercase` (std), keeping the first character it yields. The
/// contract names the result and states the ASCII part of the mapping that
/// std documents: `a`–`z` map to `A`–`Z`, every other ASCII character maps
/// to itself. The mapping of other characters is left to the name.
#[verifier::external_body]
fn uppercase_first(c: char) -> (u: char)
    ensures
        u == first_uppercase(c),
        'a' <= c <= 'z' ==> u as u32 == c as u32 - 32,
        (c as u32) < 128 && !('a' <= c <= 'z') ==> u == c,
{
    c.to_uppercase().next().unwrap_or(c)
}

/// The uppercase form of `c` that the board uses: `a`–`z` become `A`–`Z`,
/// every other ASCII character stays as it is, and any other character
/// takes the first character of its Unicode uppercase mapping.
pub open spec fn upper_of(c: char) -> char {
    if 'a' <= c <= 'z' {
        ((c as u32) - 32) as char
    } else if (c as u32) < 128 {
        c
    } else {
        first_uppercase(c)
    }
}

/// The split-flap character set: space, `A`–`Z`, `0`–`9` and the
/// punctuation `! @ # $ % & ( ) - + = ; : ' " , . / ? *`.
pub open spec fn is_flap_char(c: char) -> bool {
    ||| 'A' <= c <= 'Z'
    ||| '0' <= c <= '9'
    ||| c == ' '
    ||| c == '!' || c == '@' || c == '#' || c == '$' || c == '%' || c == '&'
    ||| c == '(' || c == ')' || c == '-' || c == '+' || c == '=' || c == ';'
    ||| c == ':' || c == '\'' || c == '"' || c == ',' || c == '.' || c == '/'
    ||| c == '?' || c == '*'
}

/// The board character that `c` is shown as, if any: its uppercase form
/// when that is in the split-flap set, the ASCII stand-in for a smart quote,
/// dash or ellipsis, and `None` otherwise.
pub open spec fn normalize(c: char) -> Option<char> {
    let u = upper_of(c);
    if is_flap_char(u) {
        Some(u)
    } else if u == '\u{2019}' || u == '\u{2018}' {
        Some('\'')
    } else if u == '\u{201C}' || u == '\u{201D}' {
        Some('"')
    } else if u == '\u{2014}' || u == '\u{2013}' {
        Some('-')
    } else if u == '\u{2026}' {
        Some('.')
    } else {
        None
    }
}

/// `normalize(c)`, with unsupported characters shown as a space.
pub open spec fn normalize_or_space(c: char) -> char {
    match normalize(c) {
        Some(d) => d,
        None => ' ',
    }
}

/// Each character of `s` normalised, unsupported ones as spaces.
pub open spec fn normalize_line(s: Seq<char>) -> Seq<char> {
    s.map_values(|c: char| normalize_or_space(c))
}

// ── Wrapping ──────────────────────────────────────────────────────

/// The pieces of `s` between newlines (what `str::split('\n')` yields).
pub open spec fn split_lines(s: Seq<char>) -> Seq<Seq<char>>
    decreases s.len(),
{
    if s.len() == 0 {
        seq![Seq::empty()]
    } else {
        let p = split_lines(s.drop_last());
        if s.last() == '\n' {
            p.push(Seq::empty())
        } else {
            p.update(p.len() - 1, p.last().push(s.last()))
        }
    }
}

/// The maximal runs of non-space characters of `s`, in order.
pub open spec fn words(s: Seq<char>) -> Seq<Seq<char>>
    decreases s.len(),
{
    if s.len() == 0 {
        Seq::empty()
    } else if s.last() == ' ' {
        words(s.drop_last())
    } else {
        let w = words(s.drop_last());
        if s.len() >= 2 && s[s.len() - 2] != ' ' {
            w.update(w.len() - 1, w.last().push(s.last()))
        } else {
            w.push(seq![s.last()])
        }
    }
}

/// `w` cut into consecutive pieces of `BOARD_COLS` characters, the last one
/// possibly shorter.
pub open spec fn chunks(w: Seq<char>) -> Seq<Seq<char>>
    decreases w.len(),
{
    if w.len() == 0 {
        Seq::empty()
    } else if w.len() <= BOARD_COLS {
        seq![w]
    } else {
        seq![w.take(BOARD_COLS as int)] + chunks(w.skip(BOARD_COLS as int))
    }
}

/// One step of greedy line filling: the finished lines and the line being
/// built, after word `w`. A word longer than a row is cut into pieces on
/// lines of their own.
pub open spec fn fill_step(lines: Seq<Seq<char>>, cur: Seq<char>, w: Seq<char>) -> (
    Seq<Seq<char>>,
    Seq<char>,
) {
    if w.len() > BOARD_COLS {
        let done = if cur.len() > 0 {
            lines.push(cur)
        } else {
            lines
        };
        (done + chunks(w), Seq::empty())
    } else if cur.len() == 0 {
        (lines, w)
    } else if cur.len() + 1 + w.len() <= BOARD_COLS {
        (lines, cur.push(' ') + w)
    } else {
        (lines.push(cur), w)
    }
}

/// Greedy line filling over the words `ws`: finished lines and the line
/// still being built.
pub open spec fn fill(ws: Seq<Seq<char>>) -> (Seq<Seq<char>>, Seq<char>)
    decreases ws.len(),
{
    if ws.len() == 0 {
        (Seq::empty(), Seq::empty())
    } else {
        let (lines, cur) = fill(ws.drop_last());
        fill_step(lines, cur, ws.last())
    }
}

/// The board lines for one input line: its normalised words filled greedily
/// into rows; a line without words gives one empty line.
pub open spec fn wrap_line(line: Seq<char>) -> Seq<Seq<char>> {
    let ws = words(normalize_line(line));
    if ws.len() == 0 {
        seq![Seq::empty()]
    } else {
        let (lines, cur) = fill(ws);
        if cur.len() > 0 {
            lines.push(cur)
        } else {
            lines
        }
    }
}

/// The board lines for each input line, concatenated.
pub open spec fn wrap_all(ls: Seq<Seq<char>>) -> Seq<Seq<char>>
    decreases ls.len(),
{
    if ls.len() == 0 {
        Seq::empty()
    } else {
        wrap_all(ls.drop_last()) + wrap_line(ls.last())
    }
}

/// The board lines for `text`: each newline-separated line wrapped to fit
/// `BOARD_COLS` columns.
pub open spec fn wrap_text(text: Seq<char>) -> Seq<Seq<char>> {
    wrap_all(split_lines(text))
}

// ── Placement ─────────────────────────────────────────────────────

/// The first column of a line of `len` characters under alignment `h`.
pub open spec fn line_start(len: int, h: HAlign) -> int {
    match h {
        HAlign::Left => 0,
        HAlign::Center => (BOARD_COLS - len) / 2,
        HAlign::Right => BOARD_COLS - len,
    }
}

/// The number of characters of `chars` that fit on a row.
pub open spec fn fitted_len(chars: Seq<char>) -> int {
    if chars.len() < BOARD_COLS {
        chars.len() as int
    } else {
        BOARD_COLS as int
    }
}

/// Cell `c` of `row` after the first `BOARD_COLS` characters of `chars` are
/// written into it as `Char` cells, aligned by `h`.
pub open spec fn placed_cell(row: Seq<CellContent>, chars: Seq<char>, h: HAlign, c: int) -> CellContent {
    let len = fitted_len(chars);
    let s = line_start(len, h);
    if s <= c < s + len {
        CellContent::Char(chars[c - s])
    } else {
        row[c]
    }
}

/// `row` with the first `BOARD_COLS` characters of `chars` written into it
/// as `Char` cells, aligned by `h`.
pub open spec fn placed_row(row: Seq<CellContent>, chars: Seq<char>, h: HAlign) -> Seq<CellContent> {
    Seq::new(row.len(), |c: int| placed_cell(row, chars, h, c))
}

/// A row of blank cells.
pub open spec fn blank_row() -> Seq<CellContent> {
    Seq::new(BOARD_COLS as nat, |c: int| CellContent::Blank)
}

/// The first board row used by `n` lines under vertical alignment `v`.
pub open spec fn first_row(n: int, v: VAlign) -> int {
    match v {
        VAlign::Top => 0,
        VAlign::Middle => (BOARD_ROWS - n) / 2,
    }
}

/// The grid showing `lines` (at most `BOARD_ROWS` of them) on consecutive
/// rows, aligned by `h` and `v`, every other cell blank.
pub open spec fn text_grid(lines: Seq<Seq<char>>, h: HAlign, v: VAlign) -> Seq<Seq<CellContent>> {
    let s = first_row(lines.len() as int, v);
    Seq::new(
        BOARD_ROWS as nat,
        |r: int|
            if s <= r < s + lines.len() {
                placed_row(blank_row(), lines[r - s], h)
            } else {
                blank_row()
            },
    )
}

/// The error that `Grid::from_text` reports for text needing `n` lines.
pub open spec fn overflow_message(n: nat) -> Seq<char> {
    "text requires "@ + decimal(n) + " lines but the board only has 6 rows"@
}

} // verus!

verus! {

/// The character sequences held by a vector of character vectors.
pub open spec fn seqs(v: Seq<Vec<char>>) -> Seq<Seq<char>> {
    v.map_values(|x: Vec<char>| x@)
}

proof fn lemma_seqs_push(v: Seq<Vec<char>>, x: Vec<char>)
    ensures
        seqs(v.push(x)) == seqs(v).push(x@),
{
    assert(seqs(v.push(x)) =~= seqs(v).push(x@));
}

proof fn lemma_split_lines_nonempty(s: Seq<char>)
    ensures
        split_lines(s).len() > 0,
    decreases s.len(),
{
    if s.len() > 0 {
        lemma_split_lines_nonempty(s.drop_last());
    }
}

impl Grid {
    /// Normalize a character to the split-flap character set.
    /// Returns `None` for unsupported characters (rendered as blank).
    pub(crate) fn normalize_char(ch: char) -> (r: Option<char>)
        ensures
            r == normalize(ch),
    {
        let upper = uppercase_first(ch);
        assert(upper == upper_of(ch));
        if ('A' <= upper && upper <= 'Z') || ('0' <= upper && upper <= '9') || upper == ' '
            || upper == '!' || upper == '@' || upper == '#' || upper == '$' || upper == '%'
            || upper == '&' || upper == '(' || upper == ')' || upper == '-' || upper == '+'
            || upper == '=' || upper == ';' || upper == ':' || upper == '\'' || upper == '"'
            || upper == ',' || upper == '.' || upper == '/' || upper == '?' || upper == '*' {
            Some(upper)
        } else if upper == '\u{2019}' || upper == '\u{2018}' {
            Some('\'')
        } else if upper == '\u{201C}' || upper == '\u{201D}' {
            Some('"')
        } else if upper == '\u{2014}' || upper == '\u{2013}' {
            Some('-')
        } else if upper == '\u{2026}' {
            Some('.')
        } else {
            None
        }
    }

    /// Each character of `line` normalised, unsupported ones as spaces.
    fn normalize_chars(line: &[char]) -> (v: Vec<char>)
        ensures
            v@ == normalize_line(line@),
    {
        let mut v: Vec<char> = Vec::new();
        let mut i: usize = 0;
        while i < line.len()
            invariant
                0 <= i <= line@.len(),
                v@ == normalize_line(line@.take(i as int)),
            decreases line@.len() - i,
        {
            let c = match Self::normalize_char(line[i]) {
                Some(d) => d,
                None => ' ',
            };
            v.push(c);
            i = i + 1;
            assert(normalize_line(line@.take(i as int)) =~= normalize_line(line@.take(i - 1)).push(
                c,
            ));
        }
        assert(line@.take(line@.len() as int) == line@);
        v
    }

    /// The maximal runs of non-space characters of `s`.
    fn split_words(s: &[char]) -> (ws: Vec<Vec<char>>)
        ensures
            seqs(ws@) == words(s@),
            forall|k: int| 0 <= k < ws@.len() ==> #[trigger] ws@[k]@.len() > 0,
    {
        let mut done: Vec<Vec<char>> = Vec::new();
        let mut cur: Vec<char> = Vec::new();
        let mut i: usize = 0;
        while i < s.len()
            invariant
                0 <= i <= s@.len(),
                words(s@.take(i as int)) == if cur@.len() > 0 {
                    seqs(done@).push(cur@)
                } else {
                    seqs(done@)
                },
                cur@.len() > 0 <==> (i > 0 && s@[i - 1] != ' '),
                forall|k: int| 0 <= k < done@.len() ==> #[trigger] done@[k]@.len() > 0,
            decreases s@.len() - i,
        {
            let c = s[i];
            let ghost pre = s@.take(i as int);
            let ghost post = s@.take(i + 1);
            assert(post.drop_last() == pre);
            assert(post.last() == c);
            if c == ' ' {
                if cur.len() > 0 {
                    proof {
                        lemma_seqs_push(done@, cur);
                    }
                    done.push(cur);
                    cur = Vec::new();
                }
            } else {
                if cur.len() > 0 {
                    assert(post[post.len() - 2] == s@[i - 1]);
                    cur.push(c);
                    assert(words(post) =~= seqs(done@).push(cur@));
                } else {
                    cur.push(c);
                    assert(cur@ =~= seq![c]);
                }
            }
            i = i + 1;
        }
        assert(s@.take(s@.len() as int) == s@);
        if cur.len() > 0 {
            proof {
                lemma_seqs_push(done@, cur);
            }
            done.push(cur);
        }
        done
    }
}

} // verus!

verus! {

impl Grid {
    /// Appends the pieces of `w` of `BOARD_COLS` characters to `lines`.
    fn push_chunks(lines: &mut Vec<Vec<char>>, w: &[char])
        ensures
            seqs(final(lines)@) == seqs(old(lines)@) + chunks(w@),
    {
        let mut pos: usize = 0;
        assert(w@.skip(0) == w@);
        while pos < w.len()
            invariant
                0 <= pos <= w@.len(),
                seqs(old(lines)@) + chunks(w@) == seqs(lines@) + chunks(w@.skip(pos as int)),
            decreases w@.len() - pos,
        {
            let end = if w.len() - pos <= BOARD_COLS {
                w.len()
            } else {
                pos + BOARD_COLS
            };
            let piece = crate::text::slice_chars(w, pos, end);
            let ghost rest = w@.skip(pos as int);
            proof {
                if rest.len() <= BOARD_COLS {
                    assert(chunks(rest) == seq![rest]);
                    assert(piece@ == rest);
                    assert(w@.skip(end as int).len() == 0);
                    assert(chunks(w@.skip(end as int)) == Seq::<Seq<char>>::empty());
                } else {
                    assert(rest.take(BOARD_COLS as int) == piece@);
                    assert(rest.skip(BOARD_COLS as int) == w@.skip(end as int));
                }
                lemma_seqs_push(lines@, piece);
            }
            lines.push(piece);
            pos = end;
            assert(seqs(old(lines)@) + chunks(w@) =~= seqs(lines@) + chunks(w@.skip(pos as int)));
        }
        assert(chunks(w@.skip(pos as int)) == Seq::<Seq<char>>::empty());
        assert(seqs(lines@) + Seq::<Seq<char>>::empty() == seqs(lines@));
    }

    /// The board lines for one input line.
    fn wrap_one_line(line: &[char], out: &mut Vec<Vec<char>>)
        ensures
            seqs(final(out)@) == seqs(old(out)@) + wrap_line(line@),
    {
        let normalized = Self::normalize_chars(line);
        let ws = Self::split_words(normalized.as_slice());
        if ws.len() == 0 {
            let empty: Vec<char> = Vec::new();
            proof {
                lemma_seqs_push(out@, empty);
            }
            out.push(empty);
            assert(seqs(out@) =~= seqs(old(out)@) + wrap_line(line@));
            return;
        }
        let mut lines: Vec<Vec<char>> = Vec::new();
        let mut cur: Vec<char> = Vec::new();
        let mut k: usize = 0;
        while k < ws.len()
            invariant
                0 <= k <= ws@.len(),
                seqs(ws@) == words(normalize_line(line@)),
                fill(seqs(ws@).take(k as int)) == (seqs(lines@), cur@),
            decreases ws@.len() - k,
        {
            let w = &ws[k];
            assert(seqs(ws@).take(k + 1).drop_last() == seqs(ws@).take(k as int));
            assert(seqs(ws@).take(k + 1).last() == w@);
            if w.len() > BOARD_COLS {
                if cur.len() > 0 {
                    proof {
                        lemma_seqs_push(lines@, cur);
                    }
                    lines.push(cur);
                }
                Self::push_chunks(&mut lines, w.as_slice());
                cur = Vec::new();
            } else if cur.len() == 0 {
                cur = crate::text::slice_chars(w.as_slice(), 0, w.len());
                assert(w@.subrange(0, w@.len() as int) == w@);
            } else if cur.len() + 1 + w.len() <= BOARD_COLS {
                cur.push(' ');
                crate::text::push_chars(&mut cur, w.as_slice());
            } else {
                proof {
                    lemma_seqs_push(lines@, cur);
                }
                lines.push(cur);
                cur = crate::text::slice_chars(w.as_slice(), 0, w.len());
                assert(w@.subrange(0, w@.len() as int) == w@);
            }
            k = k + 1;
        }
        assert(seqs(ws@).take(ws@.len() as int) == seqs(ws@));
        if cur.len() > 0 {
            proof {
                lemma_seqs_push(lines@, cur);
            }
            lines.push(cur);
        }
        let mut j: usize = 0;
        while j < lines.len()
            invariant
                0 <= j <= lines@.len(),
                seqs(out@) == seqs(old(out)@) + seqs(lines@).take(j as int),
            decreases lines@.len() - j,
        {
            let piece = crate::text::slice_chars(lines[j].as_slice(), 0, lines[j].len());
            assert(lines@[j as int]@.subrange(0, lines@[j as int]@.len() as int) == lines@[j as int]@);
            proof {
                lemma_seqs_push(out@, piece);
            }
            out.push(piece);
            j = j + 1;
            assert(seqs(lines@).take(j as int) == seqs(lines@).take(j - 1).push(lines@[j - 1]@));
            assert(seqs(out@) =~= seqs(old(out)@) + seqs(lines@).take(j as int));
        }
        assert(seqs(lines@).take(lines@.len() as int) == seqs(lines@));
    }

    /// Word-wrap text into lines that fit within BOARD_COLS.
    pub(crate) fn wrap_text(text: &[char]) -> (lines: Vec<Vec<char>>)
        ensures
            seqs(lines@) == wrap_text(text@),
    {
        let mut lines: Vec<Vec<char>> = Vec::new();
        let mut cur: Vec<char> = Vec::new();
        let mut i: usize = 0;
        while i < text.len()
            invariant
                0 <= i <= text@.len(),
                split_lines(text@.take(i as int)).len() > 0,
                split_lines(text@.take(i as int)).last() == cur@,
                seqs(lines@) == wrap_all(split_lines(text@.take(i as int)).drop_last()),
            decreases text@.len() - i,
        {
            let c = text[i];
            let ghost pre = text@.take(i as int);
            let ghost post = text@.take(i + 1);
            assert(post.drop_last() == pre);
            assert(post.last() == c);
            if c == '\n' {
                let ghost p = split_lines(pre);
                assert(p == p.drop_last().push(cur@));
                Self::wrap_one_line(cur.as_slice(), &mut lines);
                cur = Vec::new();
                assert(split_lines(post).drop_last() == p);
            } else {
                let ghost p = split_lines(pre);
                cur.push(c);
                assert(split_lines(post).drop_last() =~= p.drop_last());
            }
            i = i + 1;
        }
        assert(text@.take(text@.len() as int) == text@);
        let ghost p = split_lines(text@);
        assert(p == p.drop_last().push(cur@));
        Self::wrap_one_line(cur.as_slice(), &mut lines);
        lines
    }
}

} // verus!

verus! {

/// The characters of all lines, concatenated.
pub open spec fn flat(lines: Seq<Seq<char>>) -> Seq<char> {
    lines.flatten()
}

/// The part of `s` before its first newline and the part after it, if `s`
/// holds a newline (what `str::split_once('\n')` returns).
pub open spec fn split_once_newline(s: Seq<char>) -> Option<(Seq<char>, Seq<char>)> {
    if exists|k: int| 0 <= k < s.len() && s[k] == '\n' {
        let k = choose|k: int|
            0 <= k < s.len() && s[k] == '\n' && forall|j: int| 0 <= j < k ==> s[j] != '\n';
        Some((s.take(k), s.skip(k + 1)))
    } else {
        None
    }
}

/// `row` with `chars` written as the board line of `row_index`.
pub open spec fn with_row(g: Seq<Seq<CellContent>>, r: int, chars: Seq<char>, h: HAlign) -> Seq<
    Seq<CellContent>,
> {
    g.update(r, placed_row(g[r], chars, h))
}

/// The grid a message template lays `text` out on (for every template but
/// `Announcement`, which lays out as `text_grid`).
pub open spec fn template_grid(template: MessageTemplate, text: Seq<char>) -> Seq<Seq<CellContent>> {
    match template {
        MessageTemplate::Greeting => match split_once_newline(text) {
            Some((top, bottom)) => with_row(
                with_row(blank_grid(), 1, flat(wrap_text(top)), HAlign::Center),
                3,
                flat(wrap_text(bottom)),
                HAlign::Center,
            ),
            None => with_row(blank_grid(), 2, flat(wrap_text(text)), HAlign::Center),
        },
        MessageTemplate::Countdown => with_row(blank_grid(), 1, flat(wrap_text(text)), HAlign::Center),
        _ => with_row(
            blank_grid(),
            2,
            normalize_line(text).take(
                if text.len() < BOARD_COLS {
                    text.len() as int
                } else {
                    BOARD_COLS as int
                },
            ),
            HAlign::Left,
        ),
    }
}

/// Predefined layout templates for common message patterns.
#[derive(Debug, Clone, Copy, PartialEq, Eq, Structural)]
pub enum MessageTemplate {
    /// Centered text, default alignment — basic message display.
    Announcement,
    /// Two-part greeting: the text before the first newline on row 1 and the
    /// text after it on row 3, both centered; without a newline, the text
    /// centered on row 2.
    Greeting,
    /// Label on top; the countdown timer is rendered separately.
    Countdown,
    /// Left-aligned text on the middle row, cut at the board width.
    Ticker,
}

/// A row of blank cells.
pub(crate) fn blank_row_vec() -> (v: Vec<CellContent>)
    ensures
        v@ == blank_row(),
{
    let mut v: Vec<CellContent> = Vec::new();
    let mut c: usize = 0;
    while c < BOARD_COLS
        invariant
            0 <= c <= BOARD_COLS,
            v@ == Seq::new(c as nat, |k: int| CellContent::Blank),
        decreases BOARD_COLS - c,
    {
        v.push(CellContent::Blank);
        c = c + 1;
        assert(v@ == Seq::new(c as nat, |k: int| CellContent::Blank));
    }
    v
}

impl Grid {
    /// Align a line of characters within a row based on horizontal alignment.
    pub fn place_line(row: &mut Vec<CellContent>, chars: &[char], h_align: HAlign)
        requires
            old(row)@.len() == BOARD_COLS,
        ensures
            final(row)@ == placed_row(old(row)@, chars@, h_align),
    {
        let len = if chars.len() < BOARD_COLS {
            chars.len()
        } else {
            BOARD_COLS
        };
        let start = match h_align {
            HAlign::Left => 0,
            HAlign::Center => (BOARD_COLS - len) / 2,
            HAlign::Right => BOARD_COLS - len,
        };
        let mut i: usize = 0;
        while i < len
            invariant
                0 <= i <= len <= BOARD_COLS,
                len <= chars@.len(),
                len == if chars@.len() < BOARD_COLS {
                    chars@.len() as int
                } else {
                    BOARD_COLS as int
                },
                start == line_start(len as int, h_align),
                start + len <= BOARD_COLS,
                row@.len() == BOARD_COLS,
                old(row)@.len() == BOARD_COLS,
                forall|c: int|
                    0 <= c < BOARD_COLS ==> #[trigger] row@[c] == if start <= c < start + i {
                        CellContent::Char(chars@[c - start])
                    } else {
                        old(row)@[c]
                    },
            decreases len - i,
        {
            row[start + i] = CellContent::Char(chars[i]);
            i = i + 1;
        }
        assert(row@ =~= placed_row(old(row)@, chars@, h_align));
    }

    /// Build a grid from a text string, with word-wrapping, normalization, and alignment.
    ///
    /// Returns an error if the text requires more than BOARD_ROWS lines after wrapping.
    pub fn from_text(text: &str, h_align: HAlign, v_align: VAlign) -> (res: Result<Grid, String>)
        ensures
            match res {
                Ok(g) => {
                    &&& wrap_text(text@).len() <= BOARD_ROWS
                    &&& g@ == text_grid(wrap_text(text@), h_align, v_align)
                    &&& well_formed(g@)
                },
                Err(m) => {
                    &&& wrap_text(text@).len() > BOARD_ROWS
                    &&& m@ == overflow_message(wrap_text(text@).len())
                },
            },
    {
        let chars = chars_of(text);
        let lines = Self::wrap_text(chars.as_slice());
        if lines.len() > BOARD_ROWS {
            let mut m: Vec<char> = Vec::new();
            push_str(&mut m, "text requires ");
            push_decimal(&mut m, lines.len() as u64);
            push_str(&mut m, " lines but the board only has 6 rows");
            return Err(string_of(m.as_slice()));
        }
        let n = lines.len();
        let start_row = match v_align {
            VAlign::Top => 0,
            VAlign::Middle => (BOARD_ROWS - n) / 2,
        };
        let ghost target = text_grid(seqs(lines@), h_align, v_align);
        let mut rows: Vec<Vec<CellContent>> = Vec::new();
        let mut r: usize = 0;
        while r < BOARD_ROWS
            invariant
                0 <= r <= BOARD_ROWS,
                n == lines@.len(),
                n <= BOARD_ROWS,
                start_row == first_row(n as int, v_align),
                target == text_grid(seqs(lines@), h_align, v_align),
                rows@.len() == r,
                forall|k: int| 0 <= k < r ==> #[trigger] rows@[k]@ == target[k],
            decreases BOARD_ROWS - r,
        {
            let mut row = blank_row_vec();
            if start_row <= r && r < start_row + n {
                Self::place_line(&mut row, lines[r - start_row].as_slice(), h_align);
            }
            rows.push(row);
            r = r + 1;
        }
        let g = Grid(rows);
        assert(g@ =~= target);
        assert forall|k: int| 0 <= k < g@.len() implies #[trigger] g@[k].len() == BOARD_COLS by {
            assert(g@[k] == target[k]);
            assert(blank_row().len() == BOARD_COLS);
            let s0 = first_row(n as int, v_align);
            if s0 <= k < s0 + n {
                assert(target[k] == placed_row(blank_row(), seqs(lines@)[k - s0], h_align));
            }
        }
        Ok(g)
    }
}

} // verus!

verus! {

/// The letters of the splash screen, shown with a blank column between them.
pub open spec fn splash_letters() -> Seq<char> {
    seq!['H', 'E', 'R', 'A', 'L', 'D']
}

/// Cell `c` of the splash screen's middle row: the letters of "HERALD" on
/// every other column from column 5 on.
pub open spec fn splash_cell(c: int) -> CellContent {
    if 5 <= c <= 15 && (c - 5) % 2 == 0 {
        CellContent::Char(splash_letters()[(c - 5) / 2])
    } else {
        CellContent::Blank
    }
}

/// The splash screen: "H E R A L D" centred on row 2, all else blank.
pub open spec fn splash() -> Seq<Seq<CellContent>> {
    blank_grid().update(2, Seq::new(BOARD_COLS as nat, |c: int| splash_cell(c)))
}

pub proof fn lemma_blank_grid_rows()
    ensures
        forall|r: int| 0 <= r < BOARD_ROWS ==> #[trigger] blank_grid()[r] == blank_row(),
        blank_row().len() == BOARD_COLS,
{
    assert forall|r: int| 0 <= r < BOARD_ROWS implies #[trigger] blank_grid()[r] == blank_row() by {
        assert(blank_grid()[r] =~= blank_row());
    }
}

/// The characters of all of `lines`, concatenated.
fn flat_chars(lines: &Vec<Vec<char>>) -> (v: Vec<char>)
    ensures
        v@ == flat(seqs(lines@)),
{
    let mut v: Vec<char> = Vec::new();
    let mut i: usize = 0;
    while i < lines.len()
        invariant
            0 <= i <= lines@.len(),
            v@ == seqs(lines@).take(i as int).flatten(),
        decreases lines@.len() - i,
    {
        proof {
            seqs(lines@).take(i as int).lemma_flatten_push(lines@[i as int]@);
            assert(seqs(lines@).take(i + 1) == seqs(lines@).take(i as int).push(lines@[i as int]@));
        }
        crate::text::push_chars(&mut v, lines[i].as_slice());
        i = i + 1;
    }
    assert(seqs(lines@).take(lines@.len() as int) == seqs(lines@));
    v
}

/// Generate the default splash screen grid with "HERALD" centered.
/// Displayed when the queue is empty.
pub fn splash_grid() -> (g: Grid)
    ensures
        g@ == splash(),
        well_formed(g@),
{
    let letters = ['H', 'E', 'R', 'A', 'L', 'D'];
    let mut rows: Vec<Vec<CellContent>> = Vec::new();
    let mut r: usize = 0;
    proof {
        lemma_blank_grid_rows();
    }
    while r < BOARD_ROWS
        invariant
            0 <= r <= BOARD_ROWS,
            rows@.len() == r,
            letters@ == splash_letters(),
            blank_row().len() == BOARD_COLS,
            forall|k: int| 0 <= k < r ==> #[trigger] rows@[k]@ == splash()[k],
        decreases BOARD_ROWS - r,
    {
        let mut row = blank_row_vec();
        if r == 2 {
            let mut i: usize = 0;
            while i < 6
                invariant
                    0 <= i <= 6,
                    letters@ == splash_letters(),
                    row@.len() == BOARD_COLS,
                    forall|c: int|
                        0 <= c < BOARD_COLS ==> #[trigger] row@[c] == if 5 <= c < 5 + 2 * i && (c
                            - 5) % 2 == 0 {
                            splash_cell(c)
                        } else {
                            CellContent::Blank
                        },
                decreases 6 - i,
            {
                row[5 + 2 * i] = CellContent::Char(letters[i]);
                i = i + 1;
            }
            assert(row@ =~= splash()[2]);
        } else {
            assert(row@ =~= splash()[r as int]);
        }
        rows.push(row);
        r = r + 1;
    }
    let g = Grid(rows);
    assert(g@ =~= splash());
    assert forall|k: int| 0 <= k < g@.len() implies #[trigger] g@[k].len() == BOARD_COLS by {
        assert(g@[k] == splash()[k]);
    }
    g
}

/// The position of the first newline in `s`, if any.
fn first_newline(s: &[char]) -> (k: Option<usize>)
    ensures
        match k {
            Some(k) => k < s@.len() && s@[k as int] == '\n' && forall|j: int|
                0 <= j < k ==> s@[j] != '\n',
            None => forall|j: int| 0 <= j < s@.len() ==> s@[j] != '\n',
        },
{
    let mut i: usize = 0;
    while i < s.len()
        invariant
            0 <= i <= s@.len(),
            forall|j: int| 0 <= j < i ==> s@[j] != '\n',
        decreases s@.len() - i,
    {
        if s[i] == '\n' {
            return Some(i);
        }
        i = i + 1;
    }
    None
}

impl Grid {
    /// A grid with `top` on row `r1` and, if given, `bottom` on row `r2`,
    /// both aligned by `h`; every other cell blank.
    fn grid_with_lines(r1: usize, top: &[char], r2: usize, bottom: Option<&[char]>, h: HAlign) -> (g: Grid)
        requires
            r1 < BOARD_ROWS,
            r2 < BOARD_ROWS,
            r1 != r2,
        ensures
            g@ == match bottom {
                Some(b) => with_row(with_row(blank_grid(), r1 as int, top@, h), r2 as int, b@, h),
                None => with_row(blank_grid(), r1 as int, top@, h),
            },
            well_formed(g@),
    {
        let ghost target = match bottom {
            Some(b) => with_row(with_row(blank_grid(), r1 as int, top@, h), r2 as int, b@, h),
            None => with_row(blank_grid(), r1 as int, top@, h),
        };
        proof {
            lemma_blank_grid_rows();
        }
        let mut rows: Vec<Vec<CellContent>> = Vec::new();
        let mut r: usize = 0;
        while r < BOARD_ROWS
            invariant
                0 <= r <= BOARD_ROWS,
                r1 < BOARD_ROWS,
                r2 < BOARD_ROWS,
                r1 != r2,
                rows@.len() == r,
                blank_row().len() == BOARD_COLS,
                forall|k: int| 0 <= k < BOARD_ROWS ==> #[trigger] blank_grid()[k] == blank_row(),
                target == match bottom {
                    Some(b) => with_row(with_row(blank_grid(), r1 as int, top@, h), r2 as int, b@, h),
                    None => with_row(blank_grid(), r1 as int, top@, h),
                },
                forall|k: int| 0 <= k < r ==> #[trigger] rows@[k]@ == target[k],
            decreases BOARD_ROWS - r,
        {
            let mut row = blank_row_vec();
            if r == r1 {
                Self::place_line(&mut row, top, h);
            } else if r == r2 {
                match bottom {
                    Some(b) => Self::place_line(&mut row, b, h),
                    None => {},
                }
            }
            rows.push(row);
            r = r + 1;
        }
        let g = Grid(rows);
        assert(g@ =~= target);
        assert forall|k: int| 0 <= k < g@.len() implies #[trigger] g@[k].len() == BOARD_COLS by {
            assert(g@[k] == target[k]);
        }
        g
    }

    /// Build a grid from a named template and text content.
    pub fn from_template(template: MessageTemplate, text: &str) -> (res: Result<Grid, String>)
        ensures
            template == MessageTemplate::Announcement ==> match res {
                Ok(g) => {
                    &&& wrap_text(text@).len() <= BOARD_ROWS
                    &&& g@ == text_grid(wrap_text(text@), HAlign::Center, VAlign::Middle)
                },
                Err(m) => {
                    &&& wrap_text(text@).len() > BOARD_ROWS
                    &&& m@ == overflow_message(wrap_text(text@).len())
                },
            },
            template != MessageTemplate::Announcement ==> (res matches Ok(g) && g@ == template_grid(
                template,
                text@,
            )),
            res matches Ok(g) ==> well_formed(g@),
    {
        match template {
            MessageTemplate::Announcement => Self::from_text(text, HAlign::Center, VAlign::Middle),
            MessageTemplate::Greeting => {
                let chars = chars_of(text);
                let total = chars.len();
                match first_newline(chars.as_slice()) {
                    Some(k) => {
                        let top = crate::text::slice_chars(chars.as_slice(), 0, k);
                        let bottom = crate::text::slice_chars(chars.as_slice(), k + 1, total);
                        let top_chars = flat_chars(&Self::wrap_text(top.as_slice()));
                        let bottom_chars = flat_chars(&Self::wrap_text(bottom.as_slice()));
                        proof {
                            let kk = choose|j: int|
                                0 <= j < text@.len() && text@[j] == '\n' && forall|i: int|
                                    0 <= i < j ==> text@[i] != '\n';
                            assert(0 <= k < text@.len() && text@[k as int] == '\n');
                            if kk < k {
                                assert(text@[kk] != '\n');
                            }
                            if kk > k {
                                assert(text@[k as int] != '\n');
                            }
                            assert(top@ == text@.take(k as int));
                            assert(bottom@ == text@.skip(k + 1));
                        }
                        Ok(
                            Self::grid_with_lines(
                                1,
                                top_chars.as_slice(),
                                3,
                                Some(bottom_chars.as_slice()),
                                HAlign::Center,
                            ),
                        )
                    },
                    None => {
                        let all = flat_chars(&Self::wrap_text(chars.as_slice()));
                        Ok(Self::grid_with_lines(2, all.as_slice(), 0, None, HAlign::Center))
                    },
                }
            },
            MessageTemplate::Countdown => {
                let chars = chars_of(text);
                let all = flat_chars(&Self::wrap_text(chars.as_slice()));
                Ok(Self::grid_with_lines(1, all.as_slice(), 0, None, HAlign::Center))
            },
            MessageTemplate::Ticker => {
                let chars = chars_of(text);
                let normalized = Self::normalize_chars(chars.as_slice());
                let n = if normalized.len() < BOARD_COLS {
                    normalized.len()
                } else {
                    BOARD_COLS
                };
                let shown = crate::text::slice_chars(normalized.as_slice(), 0, n);
                assert(shown@ == normalize_line(text@).take(n as int));
                Ok(Self::grid_with_lines(2, shown.as_slice(), 0, None, HAlign::Left))
            },
        }
    }
}

} // verus!

verus! {

/// Whether `l` fits on one row and holds only split-flap characters.
pub open spec fn fits(l: Seq<char>) -> bool {
    &&& l.len() <= BOARD_COLS
    &&& forall|j: int| 0 <= j < l.len() ==> is_flap_char(#[trigger] l[j])
}

/// Whether every character of `s` is in the split-flap set.
pub open spec fn all_flap(s: Seq<char>) -> bool {
    forall|j: int| 0 <= j < s.len() ==> is_flap_char(#[trigger] s[j])
}

proof fn lemma_normalize_line_flap(s: Seq<char>)
    ensures
        all_flap(normalize_line(s)),
{
    assert forall|j: int| 0 <= j < normalize_line(s).len() implies is_flap_char(
        #[trigger] normalize_line(s)[j],
    ) by {
        let c = s[j];
        assert(normalize_line(s)[j] == normalize_or_space(c));
    }
}

proof fn lemma_words_nonempty(s: Seq<char>)
    requires
        s.len() > 0,
        s.last() != ' ',
    ensures
        words(s).len() > 0,
    decreases s.len(),
{
    if s.len() >= 2 && s[s.len() - 2] != ' ' {
        let p = s.drop_last();
        assert(p.last() == s[s.len() - 2]);
        lemma_words_nonempty(p);
    }
}

proof fn lemma_words_flap(s: Seq<char>)
    requires
        all_flap(s),
    ensures
        forall|i: int| 0 <= i < words(s).len() ==> #[trigger] all_flap(words(s)[i]),
    decreases s.len(),
{
    if s.len() > 0 {
        let p = s.drop_last();
        assert(all_flap(p)) by {
            assert forall|j: int| 0 <= j < p.len() implies is_flap_char(#[trigger] p[j]) by {
                assert(p[j] == s[j]);
            }
        }
        lemma_words_flap(p);
        let w = words(p);
        if s.last() != ' ' {
            assert(is_flap_char(s.last()));
            if s.len() >= 2 && s[s.len() - 2] != ' ' {
                assert(p.last() == s[s.len() - 2]);
                lemma_words_nonempty(p);
                assert forall|i: int| 0 <= i < words(s).len() implies #[trigger] all_flap(
                    words(s)[i],
                ) by {
                    if i == w.len() - 1 {
                        let nw = w.last().push(s.last());
                        assert(words(s)[i] == nw);
                        assert(all_flap(w[i]));
                        assert forall|j: int| 0 <= j < nw.len() implies is_flap_char(
                            #[trigger] nw[j],
                        ) by {
                            if j < w.last().len() {
                                assert(nw[j] == w[i][j]);
                            }
                        }
                    } else {
                        assert(words(s)[i] == w[i]);
                    }
                }
            } else {
                assert forall|i: int| 0 <= i < words(s).len() implies #[trigger] all_flap(
                    words(s)[i],
                ) by {
                    if i < w.len() {
                        assert(words(s)[i] == w[i]);
                    } else {
                        assert(words(s)[i] == seq![s.last()]);
                    }
                }
            }
        }
    }
}

proof fn lemma_chunks_fit(w: Seq<char>)
    requires
        all_flap(w),
    ensures
        forall|i: int| 0 <= i < chunks(w).len() ==> #[trigger] fits(chunks(w)[i]),
    decreases w.len(),
{
    if w.len() > BOARD_COLS {
        let rest = w.skip(BOARD_COLS as int);
        assert(all_flap(rest)) by {
            assert forall|j: int| 0 <= j < rest.len() implies is_flap_char(#[trigger] rest[j]) by {
                assert(rest[j] == w[j + BOARD_COLS]);
            }
        }
        lemma_chunks_fit(rest);
        let head = w.take(BOARD_COLS as int);
        assert forall|i: int| 0 <= i < chunks(w).len() implies #[trigger] fits(chunks(w)[i]) by {
            if i == 0 {
                assert(chunks(w)[i] == head);
                assert forall|j: int| 0 <= j < head.len() implies is_flap_char(#[trigger] head[j]) by {
                    assert(head[j] == w[j]);
                }
            } else {
                assert(chunks(w)[i] == chunks(rest)[i - 1]);
            }
        }
    }
}

proof fn lemma_fill_fit(ws: Seq<Seq<char>>)
    requires
        forall|i: int| 0 <= i < ws.len() ==> #[trigger] all_flap(ws[i]),
    ensures
        forall|i: int| 0 <= i < fill(ws).0.len() ==> #[trigger] fits(fill(ws).0[i]),
        fits(fill(ws).1),
    decreases ws.len(),
{
    if ws.len() > 0 {
        let p = ws.drop_last();
        assert forall|i: int| 0 <= i < p.len() implies #[trigger] all_flap(p[i]) by {
            assert(p[i] == ws[i]);
        }
        lemma_fill_fit(p);
        let (lines, cur) = fill(p);
        let w = ws.last();
        assert(all_flap(w));
        if w.len() > BOARD_COLS {
            lemma_chunks_fit(w);
            let done = if cur.len() > 0 {
                lines.push(cur)
            } else {
                lines
            };
            assert forall|i: int| 0 <= i < fill(ws).0.len() implies #[trigger] fits(
                fill(ws).0[i],
            ) by {
                assert(fill(ws).0 == done + chunks(w));
                if i < done.len() {
                    assert(fill(ws).0[i] == done[i]);
                    if i < lines.len() {
                        assert(done[i] == lines[i]);
                    }
                } else {
                    assert(fill(ws).0[i] == chunks(w)[i - done.len()]);
                }
            }
        } else if cur.len() == 0 {
        } else if cur.len() + 1 + w.len() <= BOARD_COLS {
            let nc = cur.push(' ') + w;
            assert forall|j: int| 0 <= j < nc.len() implies is_flap_char(#[trigger] nc[j]) by {
                if j < cur.len() {
                    assert(nc[j] == cur[j]);
                } else if j > cur.len() {
                    assert(nc[j] == w[j - cur.len() - 1]);
                }
            }
        } else {
            assert forall|i: int| 0 <= i < fill(ws).0.len() implies #[trigger] fits(
                fill(ws).0[i],
            ) by {
                if i < lines.len() {
                    assert(fill(ws).0[i] == lines[i]);
                }
            }
        }
    }
}

proof fn lemma_wrap_line_fit(line: Seq<char>)
    ensures
        forall|i: int| 0 <= i < wrap_line(line).len() ==> #[trigger] fits(wrap_line(line)[i]),
{
    lemma_normalize_line_flap(line);
    lemma_words_flap(normalize_line(line));
    let ws = words(normalize_line(line));
    if ws.len() > 0 {
        lemma_fill_fit(ws);
        let (lines, cur) = fill(ws);
        assert forall|i: int| 0 <= i < wrap_line(line).len() implies #[trigger] fits(
            wrap_line(line)[i],
        ) by {
            if i < lines.len() {
                assert(wrap_line(line)[i] == lines[i]);
            }
        }
    } else {
        assert(wrap_line(line)[0] == Seq::<char>::empty());
    }
}

proof fn lemma_wrap_all_fit(ls: Seq<Seq<char>>)
    ensures
        forall|i: int| 0 <= i < wrap_all(ls).len() ==> #[trigger] fits(wrap_all(ls)[i]),
    decreases ls.len(),
{
    if ls.len() > 0 {
        lemma_wrap_all_fit(ls.drop_last());
        lemma_wrap_line_fit(ls.last());
        let a = wrap_all(ls.drop_last());
        let b = wrap_line(ls.last());
        assert forall|i: int| 0 <= i < wrap_all(ls).len() implies #[trigger] fits(
            wrap_all(ls)[i],
        ) by {
            if i < a.len() {
                assert(wrap_all(ls)[i] == a[i]);
            } else {
                assert(wrap_all(ls)[i] == b[i - a.len()]);
            }
        }
    }
}

/// Every line that text wraps to fits on one row of the board and shows
/// only characters of the split-flap set.
pub proof fn lemma_wrapped_lines_fit(text: Seq<char>)
    ensures
        forall|i: int| 0 <= i < wrap_text(text).len() ==> #[trigger] fits(wrap_text(text)[i]),
{
    lemma_wrap_all_fit(split_lines(text));
}

/// Every character cell of a grid laid out from text holds a character of
/// the split-flap set.
pub proof fn lemma_text_grid_flap_chars(text: Seq<char>, h: HAlign, v: VAlign)
    requires
        wrap_text(text).len() <= BOARD_ROWS,
    ensures
        forall|r: int, c: int|
            0 <= r < BOARD_ROWS && 0 <= c < BOARD_COLS ==> match #[trigger] text_grid(
                wrap_text(text),
                h,
                v,
            )[r][c] {
                CellContent::Char(ch) => is_flap_char(ch),
                _ => true,
            },
{
    lemma_wrapped_lines_fit(text);
    let lines = wrap_text(text);
    let g = text_grid(lines, h, v);
    let s = first_row(lines.len() as int, v);
    assert forall|r: int, c: int| 0 <= r < BOARD_ROWS && 0 <= c < BOARD_COLS implies match #[trigger] g[r][c] {
        CellContent::Char(ch) => is_flap_char(ch),
        _ => true,
    } by {
        if s <= r < s + lines.len() {
            let l = lines[r - s];
            assert(fits(l));
            assert(g[r] == placed_row(blank_row(), l, h));
            assert(g[r][c] == placed_cell(blank_row(), l, h, c));
        } else {
            assert(g[r] == blank_row());
        }
    }
}

/// Whether `c` and `d` are the same character up to ASCII case: equal, or
/// the same letter of `a`–`z` and `A`–`Z`.
pub open spec fn same_ascii_letter(c: char, d: char) -> bool {
    ||| c == d
    ||| 'a' <= c <= 'z' && (d as u32) == (c as u32) - 32
    ||| 'a' <= d <= 'z' && (c as u32) == (d as u32) - 32
}

/// Whether two texts are the same up to ASCII case, character by character.
pub open spec fn same_up_to_ascii_case(a: Seq<char>, b: Seq<char>) -> bool {
    &&& a.len() == b.len()
    &&& forall|i: int| 0 <= i < a.len() ==> same_ascii_letter(#[trigger] a[i], b[i])
}

proof fn lemma_same_letter_normalizes_alike(c: char, d: char)
    requires
        same_ascii_letter(c, d),
    ensures
        normalize_or_space(c) == normalize_or_space(d),
        (c == '\n') == (d == '\n'),
{
    if 'a' <= c <= 'z' && (d as u32) == (c as u32) - 32 {
        assert(upper_of(c) == d);
    } else if 'a' <= d <= 'z' && (c as u32) == (d as u32) - 32 {
        assert(upper_of(d) == c);
    }
}

proof fn lemma_normalize_line_same_case(a: Seq<char>, b: Seq<char>)
    requires
        same_up_to_ascii_case(a, b),
    ensures
        normalize_line(a) == normalize_line(b),
{
    assert forall|i: int| 0 <= i < a.len() implies normalize_line(a)[i] == normalize_line(b)[i] by {
        lemma_same_letter_normalizes_alike(a[i], b[i]);
    }
    assert(normalize_line(a) =~= normalize_line(b));
}

proof fn lemma_split_lines_same_case(a: Seq<char>, b: Seq<char>)
    requires
        same_up_to_ascii_case(a, b),
    ensures
        split_lines(a).len() == split_lines(b).len(),
        forall|k: int|
            0 <= k < split_lines(a).len() ==> same_up_to_ascii_case(
                #[trigger] split_lines(a)[k],
                split_lines(b)[k],
            ),
    decreases a.len(),
{
    if a.len() > 0 {
        let a0 = a.drop_last();
        let b0 = b.drop_last();
        assert forall|i: int| 0 <= i < a0.len() implies same_ascii_letter(#[trigger] a0[i], b0[i]) by {
            assert(a0[i] == a[i] && b0[i] == b[i]);
        }
        lemma_split_lines_same_case(a0, b0);
        lemma_split_lines_nonempty(a0);
        lemma_same_letter_normalizes_alike(a.last(), b.last());
        let pa = split_lines(a0);
        let pb = split_lines(b0);
        if a.last() != '\n' {
            let la = pa.last().push(a.last());
            let lb = pb.last().push(b.last());
            assert(same_up_to_ascii_case(pa[pa.len() - 1], pb[pb.len() - 1]));
            assert forall|i: int| 0 <= i < la.len() implies same_ascii_letter(#[trigger] la[i], lb[i]) by {
                if i < la.len() - 1 {
                    assert(la[i] == pa.last()[i] && lb[i] == pb.last()[i]);
                }
            }
        }
    }
}

proof fn lemma_wrap_all_same_case(la: Seq<Seq<char>>, lb: Seq<Seq<char>>)
    requires
        la.len() == lb.len(),
        forall|k: int| 0 <= k < la.len() ==> same_up_to_ascii_case(#[trigger] la[k], lb[k]),
    ensures
        wrap_all(la) == wrap_all(lb),
    decreases la.len(),
{
    if la.len() > 0 {
        let a0 = la.drop_last();
        let b0 = lb.drop_last();
        assert forall|k: int| 0 <= k < a0.len() implies same_up_to_ascii_case(#[trigger] a0[k], b0[k]) by {
            assert(a0[k] == la[k] && b0[k] == lb[k]);
        }
        lemma_wrap_all_same_case(a0, b0);
        assert(same_up_to_ascii_case(la[la.len() - 1], lb[lb.len() - 1]));
        lemma_normalize_line_same_case(la.last(), lb.last());
    }
}

/// Texts that differ only in the case of ASCII letters lay out alike: the
/// same board lines, hence the same grid (`Grid::from_text` gives the same
/// result for both), whatever the alignment; "hello" shows as "HELLO".
pub proof fn lemma_ascii_case_lays_out_alike(a: Seq<char>, b: Seq<char>, h: HAlign, v: VAlign)
    requires
        same_up_to_ascii_case(a, b),
    ensures
        wrap_text(a) == wrap_text(b),
        text_grid(wrap_text(a), h, v) == text_grid(wrap_text(b), h, v),
{
    lemma_split_lines_same_case(a, b);
    lemma_wrap_all_same_case(split_lines(a), split_lines(b));
}

/// The number of newlines in `s`.
pub open spec fn newline_count(s: Seq<char>) -> nat
    decreases s.len(),
{
    if s.len() == 0 {
        0
    } else {
        newline_count(s.drop_last()) + if s.last() == '\n' {
            1nat
        } else {
            0nat
        }
    }
}

proof fn lemma_split_lines_count(s: Seq<char>)
    ensures
        split_lines(s).len() == newline_count(s) + 1,
    decreases s.len(),
{
    if s.len() > 0 {
        lemma_split_lines_count(s.drop_last());
        lemma_split_lines_nonempty(s.drop_last());
    }
}

proof fn lemma_split_lines_concat(a: Seq<char>, b: Seq<char>)
    ensures
        split_lines(a + seq!['\n'] + b) == split_lines(a) + split_lines(b),
    decreases b.len(),
{
    let s = a + seq!['\n'] + b;
    if b.len() == 0 {
        assert(s.drop_last() =~= a);
        assert(split_lines(b) == seq![Seq::<char>::empty()]);
        assert(split_lines(s) =~= split_lines(a) + split_lines(b));
    } else {
        let b0 = b.drop_last();
        assert(s.drop_last() =~= a + seq!['\n'] + b0);
        assert(s.last() == b.last());
        lemma_split_lines_concat(a, b0);
        lemma_split_lines_nonempty(b0);
        let pa = split_lines(a);
        let q = split_lines(b0);
        if b.last() == '\n' {
            assert(split_lines(s) =~= pa + q.push(Seq::<char>::empty()));
        } else {
            assert((pa + q).last() == q.last());
            assert(split_lines(s) =~= pa + q.update(q.len() - 1, q.last().push(b.last())));
        }
    }
}

proof fn lemma_wrap_all_concat(p: Seq<Seq<char>>, q: Seq<Seq<char>>)
    ensures
        wrap_all(p + q) == wrap_all(p) + wrap_all(q),
    decreases q.len(),
{
    if q.len() == 0 {
        assert(p + q =~= p);
        assert(wrap_all(p) + wrap_all(q) =~= wrap_all(p));
    } else {
        let q0 = q.drop_last();
        assert((p + q).drop_last() =~= p + q0);
        assert((p + q).last() == q.last());
        lemma_wrap_all_concat(p, q0);
        assert(wrap_all(p + q) =~= wrap_all(p) + wrap_all(q));
    }
}

proof fn lemma_words_elems_nonempty(s: Seq<char>)
    ensures
        forall|k: int| 0 <= k < words(s).len() ==> #[trigger] words(s)[k].len() > 0,
    decreases s.len(),
{
    if s.len() > 0 {
        lemma_words_elems_nonempty(s.drop_last());
        if s.last() != ' ' && s.len() >= 2 && s[s.len() - 2] != ' ' {
            let p = s.drop_last();
            assert(p.last() == s[s.len() - 2]);
            lemma_words_nonempty(p);
        }
    }
}

proof fn lemma_words_all_space(s: Seq<char>)
    requires
        forall|k: int| 0 <= k < s.len() ==> s[k] == ' ',
    ensures
        words(s).len() == 0,
    decreases s.len(),
{
    if s.len() > 0 {
        lemma_words_all_space(s.drop_last());
    }
}

proof fn lemma_wrap_line_nonempty(line: Seq<char>)
    ensures
        wrap_line(line).len() >= 1,
{
    let ws = words(normalize_line(line));
    if ws.len() > 0 {
        lemma_words_elems_nonempty(normalize_line(line));
        let w = ws.last();
        assert(w.len() > 0);
        let (lines, cur) = fill(ws.drop_last());
        if w.len() > BOARD_COLS {
            assert(chunks(w).len() >= 1);
        }
    }
}

proof fn lemma_wrap_all_len(ls: Seq<Seq<char>>)
    ensures
        wrap_all(ls).len() >= ls.len(),
    decreases ls.len(),
{
    if ls.len() > 0 {
        lemma_wrap_all_len(ls.drop_last());
        lemma_wrap_line_nonempty(ls.last());
    }
}

/// Text laid out around a newline is the lines of what comes before it
/// followed by the lines of what comes after it: each newline-separated
/// piece of the text is laid out on its own, and none is dropped.
pub proof fn lemma_wrap_text_at_newline(a: Seq<char>, b: Seq<char>)
    ensures
        wrap_text(a + seq!['\n'] + b) == wrap_text(a) + wrap_text(b),
{
    lemma_split_lines_concat(a, b);
    lemma_wrap_all_concat(split_lines(a), split_lines(b));
}

/// Every newline-separated piece of the text gives at least one board line,
/// so text with `n` newlines needs at least `n + 1` lines.
pub proof fn lemma_wrapped_line_count(text: Seq<char>)
    ensures
        wrap_text(text).len() >= newline_count(text) + 1,
{
    lemma_split_lines_count(text);
    lemma_wrap_all_len(split_lines(text));
}

/// A piece of text without newlines whose characters all show as spaces on
/// the board (spaces, or characters the board cannot show) gives exactly
/// one line, an empty one.
pub proof fn lemma_blank_piece_is_one_empty_line(line: Seq<char>)
    requires
        forall|k: int| 0 <= k < line.len() ==> line[k] != '\n' && normalize_or_space(#[trigger] line[k]) == ' ',
    ensures
        wrap_text(line) == seq![Seq::<char>::empty()],
{
    lemma_split_lines_single(line);
    let ls = split_lines(line);
    assert(ls.drop_last() =~= Seq::<Seq<char>>::empty());
    assert(ls.last() == line);
    assert forall|k: int| 0 <= k < normalize_line(line).len() implies normalize_line(line)[k] == ' ' by {
        assert(normalize_line(line)[k] == normalize_or_space(line[k]));
    }
    lemma_words_all_space(normalize_line(line));
    assert(wrap_all(ls) == wrap_all(ls.drop_last()) + wrap_line(ls.last()));
    assert(wrap_all(ls) =~= seq![Seq::<char>::empty()]);
}

proof fn lemma_split_lines_single(line: Seq<char>)
    requires
        forall|k: int| 0 <= k < line.len() ==> line[k] != '\n',
    ensures
        split_lines(line) == seq![line],
    decreases line.len(),
{
    if line.len() > 0 {
        let l0 = line.drop_last();
        assert forall|k: int| 0 <= k < l0.len() implies l0[k] != '\n' by {
            assert(l0[k] == line[k]);
        }
        lemma_split_lines_single(l0);
        assert(l0.push(line.last()) =~= line);
        assert(split_lines(line) =~= seq![line]);
    } else {
        assert(line =~= Seq::<char>::empty());
    }
}

/// The characters of `s` other than spaces, in order.
pub open spec fn non_spaces(s: Seq<char>) -> Seq<char>
    decreases s.len(),
{
    if s.len() == 0 {
        Seq::empty()
    } else if s.last() == ' ' {
        non_spaces(s.drop_last())
    } else {
        non_spaces(s.drop_last()).push(s.last())
    }
}

/// The characters other than spaces of all of `ls`, line after line.
pub open spec fn lines_non_spaces(ls: Seq<Seq<char>>) -> Seq<char>
    decreases ls.len(),
{
    if ls.len() == 0 {
        Seq::empty()
    } else {
        lines_non_spaces(ls.drop_last()) + non_spaces(ls.last())
    }
}

proof fn lemma_non_spaces_concat(a: Seq<char>, b: Seq<char>)
    ensures
        non_spaces(a + b) == non_spaces(a) + non_spaces(b),
    decreases b.len(),
{
    if b.len() == 0 {
        assert(a + b =~= a);
        assert(non_spaces(a) + non_spaces(b) =~= non_spaces(a));
    } else {
        lemma_non_spaces_concat(a, b.drop_last());
        assert((a + b).drop_last() =~= a + b.drop_last());
        assert((a + b).last() == b.last());
        assert(non_spaces(a + b) =~= non_spaces(a) + non_spaces(b));
    }
}

proof fn lemma_lines_non_spaces_concat(p: Seq<Seq<char>>, q: Seq<Seq<char>>)
    ensures
        lines_non_spaces(p + q) == lines_non_spaces(p) + lines_non_spaces(q),
    decreases q.len(),
{
    if q.len() == 0 {
        assert(p + q =~= p);
        assert(lines_non_spaces(p) + lines_non_spaces(q) =~= lines_non_spaces(p));
    } else {
        lemma_lines_non_spaces_concat(p, q.drop_last());
        assert((p + q).drop_last() =~= p + q.drop_last());
        assert((p + q).last() == q.last());
        assert(lines_non_spaces(p + q) =~= lines_non_spaces(p) + lines_non_spaces(q));
    }
}

proof fn lemma_lines_non_spaces_one(l: Seq<char>)
    ensures
        lines_non_spaces(seq![l]) == non_spaces(l),
{
    assert(seq![l].drop_last() =~= Seq::<Seq<char>>::empty());
    assert(lines_non_spaces(Seq::<Seq<char>>::empty()) =~= Seq::<char>::empty());
    assert(Seq::<char>::empty() + non_spaces(l) =~= non_spaces(l));
}

proof fn lemma_words_keep_non_spaces(s: Seq<char>)
    ensures
        lines_non_spaces(words(s)) == non_spaces(s),
    decreases s.len(),
{
    if s.len() > 0 {
        let s0 = s.drop_last();
        let x = s.last();
        lemma_words_keep_non_spaces(s0);
        if x != ' ' {
            let w = words(s0);
            if s.len() >= 2 && s[s.len() - 2] != ' ' {
                assert(s0.last() == s[s.len() - 2]);
                lemma_words_nonempty(s0);
                let u = w.update(w.len() - 1, w.last().push(x));
                assert(u.drop_last() =~= w.drop_last());
                assert(u.last() == w.last().push(x));
                assert(w.last().push(x).drop_last() =~= w.last());
                assert(non_spaces(w.last().push(x)) == non_spaces(w.last()).push(x));
                assert(lines_non_spaces(w) == lines_non_spaces(w.drop_last()) + non_spaces(w.last()));
                assert(lines_non_spaces(u) =~= lines_non_spaces(w).push(x));
            } else {
                let u = w.push(seq![x]);
                assert(u.drop_last() =~= w);
                assert(seq![x].drop_last() =~= Seq::<char>::empty());
                assert(non_spaces(Seq::<char>::empty()) =~= Seq::<char>::empty());
                assert(non_spaces(seq![x]) =~= seq![x]);
                assert(lines_non_spaces(u) =~= lines_non_spaces(w).push(x));
            }
        }
    }
}

proof fn lemma_chunks_keep_non_spaces(w: Seq<char>)
    ensures
        lines_non_spaces(chunks(w)) == non_spaces(w),
    decreases w.len(),
{
    if w.len() > 0 {
        if w.len() <= BOARD_COLS {
            lemma_lines_non_spaces_one(w);
        } else {
            let a = w.take(BOARD_COLS as int);
            let b = w.skip(BOARD_COLS as int);
            lemma_chunks_keep_non_spaces(b);
            lemma_lines_non_spaces_concat(seq![a], chunks(b));
            lemma_lines_non_spaces_one(a);
            assert(a + b =~= w);
            lemma_non_spaces_concat(a, b);
        }
    }
}

proof fn lemma_fill_keeps_non_spaces(ws: Seq<Seq<char>>)
    ensures
        lines_non_spaces(fill(ws).0) + non_spaces(fill(ws).1) == lines_non_spaces(ws),
    decreases ws.len(),
{
    if ws.len() == 0 {
        assert(non_spaces(Seq::<char>::empty()) =~= Seq::<char>::empty());
        assert(Seq::<char>::empty() + Seq::<char>::empty() =~= Seq::<char>::empty());
    } else {
        let w = ws.last();
        lemma_fill_keeps_non_spaces(ws.drop_last());
        let (lines, cur) = fill(ws.drop_last());
        let before = lines_non_spaces(lines) + non_spaces(cur);
        assert(lines_non_spaces(ws) == lines_non_spaces(ws.drop_last()) + non_spaces(w));
        assert(non_spaces(Seq::<char>::empty()) =~= Seq::<char>::empty());
        if w.len() > BOARD_COLS {
            let done = if cur.len() > 0 {
                lines.push(cur)
            } else {
                lines
            };
            if cur.len() > 0 {
                assert(lines.push(cur).drop_last() =~= lines);
            } else {
                assert(cur =~= Seq::<char>::empty());
            }
            assert(lines_non_spaces(done) =~= before);
            lemma_lines_non_spaces_concat(done, chunks(w));
            lemma_chunks_keep_non_spaces(w);
            assert(lines_non_spaces(done + chunks(w)) + non_spaces(Seq::<char>::empty()) =~= before
                + non_spaces(w));
        } else if cur.len() == 0 {
            assert(cur =~= Seq::<char>::empty());
            assert(lines_non_spaces(lines) + non_spaces(w) =~= before + non_spaces(w));
        } else if cur.len() + 1 + w.len() <= BOARD_COLS {
            lemma_non_spaces_concat(cur.push(' '), w);
            assert(cur.push(' ').drop_last() =~= cur);
            assert(non_spaces(cur.push(' ')) == non_spaces(cur));
            assert(lines_non_spaces(lines) + non_spaces(cur.push(' ') + w) =~= before + non_spaces(w));
        } else {
            assert(lines.push(cur).drop_last() =~= lines);
            assert(lines_non_spaces(lines.push(cur)) + non_spaces(w) =~= before + non_spaces(w));
        }
    }
}

/// Laying out one line keeps its characters: the board lines, read one
/// after the other, hold the characters of the normalised line other than
/// spaces, all of them, in order.
pub proof fn lemma_wrap_line_keeps_characters(line: Seq<char>)
    ensures
        lines_non_spaces(wrap_line(line)) == non_spaces(normalize_line(line)),
{
    let ws = words(normalize_line(line));
    lemma_words_keep_non_spaces(normalize_line(line));
    assert(non_spaces(Seq::<char>::empty()) =~= Seq::<char>::empty());
    if ws.len() == 0 {
        lemma_lines_non_spaces_one(Seq::empty());
    } else {
        lemma_fill_keeps_non_spaces(ws);
        let (lines, cur) = fill(ws);
        if cur.len() > 0 {
            assert(lines.push(cur).drop_last() =~= lines);
        } else {
            assert(cur =~= Seq::<char>::empty());
            assert(lines_non_spaces(lines) + Seq::<char>::empty() =~= lines_non_spaces(lines));
        }
    }
}

/// The last newline of a text that holds one.
proof fn last_newline(s: Seq<char>) -> (k: int)
    requires
        exists|j: int| 0 <= j < s.len() && s[j] == '\n',
    ensures
        0 <= k < s.len(),
        s[k] == '\n',
        forall|j: int| k < j < s.len() ==> s[j] != '\n',
    decreases s.len(),
{
    if s.last() == '\n' {
        (s.len() - 1) as int
    } else {
        let j0 = choose|j: int| 0 <= j < s.len() && s[j] == '\n';
        assert(s.drop_last()[j0] == '\n');
        let k = last_newline(s.drop_last());
        assert forall|j: int| k < j < s.len() implies s[j] != '\n' by {
            if j < s.len() - 1 {
                assert(s.drop_last()[j] == s[j]);
            }
        }
        k
    }
}

/// Laying text out keeps its characters: the board lines, read one after
/// the other, hold every character of the normalised text other than spaces
/// (a newline counts as a space), in order, and nothing else.
pub proof fn lemma_wrap_text_keeps_characters(text: Seq<char>)
    ensures
        lines_non_spaces(wrap_text(text)) == non_spaces(normalize_line(text)),
    decreases text.len(),
{
    if exists|j: int| 0 <= j < text.len() && text[j] == '\n' {
        let k = last_newline(text);
        let a = text.take(k);
        let b = text.skip(k + 1);
        assert(text =~= a + seq!['\n'] + b);
        lemma_wrap_text_at_newline(a, b);
        lemma_wrap_text_keeps_characters(a);
        lemma_split_lines_single(b);
        lemma_lines_non_spaces_one(b);
        assert(wrap_text(b) == wrap_line(b)) by {
            let ls = split_lines(b);
            assert(ls.drop_last() =~= Seq::<Seq<char>>::empty());
            assert(wrap_all(ls) == wrap_all(ls.drop_last()) + wrap_line(ls.last()));
            assert(Seq::<Seq<char>>::empty() + wrap_line(b) =~= wrap_line(b));
        }
        lemma_wrap_line_keeps_characters(b);
        lemma_lines_non_spaces_concat(wrap_text(a), wrap_text(b));
        assert(normalize_line(text) =~= normalize_line(a) + seq![' '] + normalize_line(b));
        lemma_non_spaces_concat(normalize_line(a) + seq![' '], normalize_line(b));
        lemma_non_spaces_concat(normalize_line(a), seq![' ']);
        assert(seq![' '].drop_last() =~= Seq::<char>::empty());
        assert(non_spaces(Seq::<char>::empty()) =~= Seq::<char>::empty());
        assert(non_spaces(seq![' ']) =~= Seq::<char>::empty());
    } else {
        lemma_split_lines_single(text);
        let ls = split_lines(text);
        assert(ls.drop_last() =~= Seq::<Seq<char>>::empty());
        assert(wrap_all(ls) == wrap_all(ls.drop_last()) + wrap_line(ls.last()));
        assert(Seq::<Seq<char>>::empty() + wrap_line(text) =~= wrap_line(text));
        lemma_wrap_line_keeps_characters(text);
    }
}

/// How text is placed on the board: with `n` lines (at most six, none
/// longer than a row), line `i` is on row `i` from the top, or on row
/// `(6 - n) / 2 + i` when centred vertically; a line of `len` characters
/// starts at column 0 when left-aligned, `22 - len` when right-aligned and
/// `(22 - len) / 2` when centred; every other cell is blank.
pub proof fn lemma_text_grid_placement(lines: Seq<Seq<char>>, h: HAlign, v: VAlign, r: int, c: int)
    requires
        lines.len() <= 6,
        forall|i: int| 0 <= i < lines.len() ==> #[trigger] lines[i].len() <= 22,
        0 <= r < 6,
        0 <= c < 22,
    ensures
        ({
            let top = match v {
                VAlign::Top => 0,
                VAlign::Middle => (6 - lines.len()) / 2,
            };
            let g = text_grid(lines, h, v);
            if top <= r < top + lines.len() {
                let l = lines[r - top];
                let start = match h {
                    HAlign::Left => 0,
                    HAlign::Right => 22 - l.len(),
                    HAlign::Center => (22 - l.len()) / 2,
                };
                g[r][c] == if start <= c < start + l.len() {
                    CellContent::Char(l[c - start])
                } else {
                    CellContent::Blank
                }
            } else {
                g[r][c] == CellContent::Blank
            }
        }),
{
    let s = first_row(lines.len() as int, v);
    let g = text_grid(lines, h, v);
    if s <= r < s + lines.len() {
        let l = lines[r - s];
        assert(g[r] == placed_row(blank_row(), l, h));
        assert(g[r][c] == placed_cell(blank_row(), l, h, c));
    } else {
        assert(g[r] == blank_row());
    }
}

/// The position of the first space in `l` at or after `j` (the length of
/// `l` when there is none): the length of the first word of a board line,
/// for `j` zero.
pub open spec fn first_space(l: Seq<char>, j: int) -> int
    decreases l.len() - j,
{
    if j < 0 || j >= l.len() {
        l.len() as int
    } else if l[j] == ' ' {
        j
    } else {
        first_space(l, j + 1)
    }
}

proof fn lemma_first_space_joined(x: Seq<char>, w: Seq<char>, j: int)
    requires
        0 <= j <= x.len(),
    ensures
        first_space(x.push(' ') + w, j) == first_space(x, j),
    decreases x.len() - j,
{
    let y = x.push(' ') + w;
    if j < x.len() {
        assert(y[j] == x[j]);
        if x[j] != ' ' {
            lemma_first_space_joined(x, w, j + 1);
        }
    } else {
        assert(y[j] == ' ');
    }
}

proof fn lemma_first_space_none(w: Seq<char>, j: int)
    requires
        0 <= j <= w.len(),
        forall|i: int| 0 <= i < w.len() ==> w[i] != ' ',
    ensures
        first_space(w, j) == w.len(),
    decreases w.len() - j,
{
    if j < w.len() {
        lemma_first_space_none(w, j + 1);
    }
}

proof fn lemma_words_no_space(s: Seq<char>)
    ensures
        forall|k: int, i: int|
            0 <= k < words(s).len() && 0 <= i < words(s)[k].len() ==> #[trigger] words(s)[k][i] != ' ',
    decreases s.len(),
{
    if s.len() > 0 {
        lemma_words_no_space(s.drop_last());
        let x = s.last();
        if x != ' ' && s.len() >= 2 && s[s.len() - 2] != ' ' {
            let p = s.drop_last();
            assert(p.last() == s[s.len() - 2]);
            lemma_words_nonempty(p);
            let w = words(p);
            assert forall|k: int, i: int|
                0 <= k < words(s).len() && 0 <= i < words(s)[k].len() implies #[trigger] words(s)[k][i] != ' ' by {
                if k == w.len() - 1 && i == w.last().len() {
                    assert(words(s)[k][i] == x);
                } else if k == w.len() - 1 {
                    assert(words(s)[k][i] == w[k][i]);
                } else {
                    assert(words(s)[k] == w[k]);
                }
            }
        } else if x != ' ' {
            let w = words(s.drop_last());
            assert forall|k: int, i: int|
                0 <= k < words(s).len() && 0 <= i < words(s)[k].len() implies #[trigger] words(s)[k][i] != ' ' by {
                if k < w.len() {
                    assert(words(s)[k] == w[k]);
                }
            }
        }
    }
}

/// Whether each line of `ls`, followed by the first word of the next, would
/// not fit on one row: no line could have taken the next word.
pub open spec fn greedy(ls: Seq<Seq<char>>) -> bool {
    forall|i: int| 0 <= i < ls.len() - 1 ==> #[trigger] ls[i].len() + 1 + first_space(ls[i + 1], 0) > BOARD_COLS
}

proof fn lemma_fill_greedy(ws: Seq<Seq<char>>)
    requires
        forall|k: int| 0 <= k < ws.len() ==> 0 < #[trigger] ws[k].len() <= BOARD_COLS,
        forall|k: int, i: int| 0 <= k < ws.len() && 0 <= i < ws[k].len() ==> #[trigger] ws[k][i] != ' ',
    ensures
        ws.len() > 0 ==> fill(ws).1.len() > 0,
        ws.len() == 0 ==> fill(ws).0.len() == 0 && fill(ws).1.len() == 0,
        ws.len() > 0 ==> greedy(fill(ws).0.push(fill(ws).1)),
    decreases ws.len(),
{
    if ws.len() > 0 {
        let ws0 = ws.drop_last();
        let w = ws.last();
        assert(w == ws[ws.len() - 1]);
        assert forall|k: int| 0 <= k < ws0.len() implies 0 < #[trigger] ws0[k].len() <= BOARD_COLS by {
            assert(ws0[k] == ws[k]);
        }
        assert forall|k: int, i: int| 0 <= k < ws0.len() && 0 <= i < ws0[k].len() implies #[trigger] ws0[k][i] != ' ' by {
            assert(ws0[k] == ws[k]);
        }
        lemma_fill_greedy(ws0);
        let (lines, cur) = fill(ws0);
        assert forall|i: int| 0 <= i < w.len() implies w[i] != ' ' by {
            assert(w[i] == ws[ws.len() - 1][i]);
        }
        lemma_first_space_none(w, 0);
        let old_l = lines.push(cur);
        if cur.len() == 0 {
            assert(ws0.len() == 0);
            assert(fill(ws).0.push(fill(ws).1) =~= seq![w]);
        } else if cur.len() + 1 + w.len() <= BOARD_COLS {
            let c2 = cur.push(' ') + w;
            lemma_first_space_joined(cur, w, 0);
            let new_l = lines.push(c2);
            assert forall|i: int| 0 <= i < new_l.len() - 1 implies #[trigger] new_l[i].len() + 1 + first_space(
                new_l[i + 1],
                0,
            ) > BOARD_COLS by {
                assert(old_l[i].len() + 1 + first_space(old_l[i + 1], 0) > BOARD_COLS);
                assert(new_l[i] == old_l[i]);
                if i + 1 < lines.len() {
                    assert(new_l[i + 1] == old_l[i + 1]);
                }
            }
        } else {
            let new_l = lines.push(cur).push(w);
            assert forall|i: int| 0 <= i < new_l.len() - 1 implies #[trigger] new_l[i].len() + 1 + first_space(
                new_l[i + 1],
                0,
            ) > BOARD_COLS by {
                if i < old_l.len() - 1 {
                    assert(old_l[i].len() + 1 + first_space(old_l[i + 1], 0) > BOARD_COLS);
                    assert(new_l[i] == old_l[i] && new_l[i + 1] == old_l[i + 1]);
                } else {
                    assert(new_l[i] == cur && new_l[i + 1] == w);
                }
            }
        }
    }
}

/// Word wrapping is greedy: when every word of a line fits on a row, each
/// board line it gives could not have taken the first word of the next
/// board line (the line, a space and that word would overflow the row).
pub proof fn lemma_wrap_line_greedy(line: Seq<char>)
    requires
        forall|k: int| 0 <= k < words(normalize_line(line)).len() ==> #[trigger] words(
            normalize_line(line),
        )[k].len() <= BOARD_COLS,
    ensures
        greedy(wrap_line(line)),
{
    let ws = words(normalize_line(line));
    lemma_words_elems_nonempty(normalize_line(line));
    lemma_words_no_space(normalize_line(line));
    if ws.len() > 0 {
        lemma_fill_greedy(ws);
    }
}

} // verus!
