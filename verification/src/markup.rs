//! Colour markup: text with `{red}…{/red}` style tags turned into characters
//! that each carry an optional tile colour.

use vstd::prelude::*;

use crate::board::Color;
use crate::text::{chars_eq, chars_of};

verus! {

/// A character with an optional color from markup parsing.
#[derive(Debug, Clone, Copy, PartialEq, Eq, Structural)]
pub struct ColoredChar {
    pub ch: char,
    pub color: Option<Color>,
}

/// The lowercase form of `s` (Unicode case tables).
pub uninterp spec fn lowercase(s: Seq<char>) -> Seq<char>;

/// The ASCII lowercase form of `c`.
pub open spec fn ascii_lower(c: char) -> char {
    if 'A' <= c <= 'Z' {
        ((c as u32) + 32) as char
    } else {
        c
    }
}

/// `str::to_lowercase` (std) on the string made of `s`. The contract names
/// the result and states what std documents for ASCII text: each character
/// lowercased on its own, `A`–`Z` to `a`–`z`. Other text is left to the
/// name.
#[verifier::external_body]
pub(crate) fn lowercase_chars(s: &[char]) -> (r: Vec<char>)
    ensures
        r@ == lowercase(s@),
        (forall|i: int| 0 <= i < s@.len() ==> (s@[i] as u32) < 128) ==> r@ == s@.map_values(
            |c: char| ascii_lower(c),
        ),
{
    let st: String = s.iter().collect();
    st.to_lowercase().chars().collect()
}

/// The colour that a lowercase tag name stands for.
pub open spec fn color_named(t: Seq<char>) -> Option<Color> {
    if t == "red"@ {
        Some(Color::Red)
    } else if t == "orange"@ {
        Some(Color::Orange)
    } else if t == "yellow"@ {
        Some(Color::Yellow)
    } else if t == "green"@ {
        Some(Color::Green)
    } else if t == "blue"@ {
        Some(Color::Blue)
    } else if t == "violet"@ {
        Some(Color::Violet)
    } else if t == "white"@ {
        Some(Color::White)
    } else if t == "black"@ {
        Some(Color::Black)
    } else {
        None
    }
}

/// Whether every character of `s` is ASCII.
pub open spec fn all_ascii(s: Seq<char>) -> bool {
    forall|i: int| 0 <= i < s.len() ==> (s[i] as u32) < 128
}

/// The lowercase form of a tag name: for ASCII text each character
/// lowercased on its own (`A`–`Z` to `a`–`z`), otherwise the Unicode
/// lowercase form.
pub open spec fn lower_of(s: Seq<char>) -> Seq<char> {
    if all_ascii(s) {
        s.map_values(|c: char| ascii_lower(c))
    } else {
        lowercase(s)
    }
}

/// The colour a tag names, compared case-insensitively.
pub open spec fn tag_color(tag: Seq<char>) -> Option<Color> {
    color_named(lower_of(tag))
}

/// Resolve a tag name (case-insensitive) to a `Color`.
fn parse_color_tag(tag: &[char]) -> (c: Option<Color>)
    ensures
        c == tag_color(tag@),
{
    let lower = lowercase_chars(tag);
    assert(lower@ == lower_of(tag@));
    let l = lower.as_slice();
    if chars_eq(l, chars_of("red").as_slice()) {
        Some(Color::Red)
    } else if chars_eq(l, chars_of("orange").as_slice()) {
        Some(Color::Orange)
    } else if chars_eq(l, chars_of("yellow").as_slice()) {
        Some(Color::Yellow)
    } else if chars_eq(l, chars_of("green").as_slice()) {
        Some(Color::Green)
    } else if chars_eq(l, chars_of("blue").as_slice()) {
        Some(Color::Blue)
    } else if chars_eq(l, chars_of("violet").as_slice()) {
        Some(Color::Violet)
    } else if chars_eq(l, chars_of("white").as_slice()) {
        Some(Color::White)
    } else if chars_eq(l, chars_of("black").as_slice()) {
        Some(Color::Black)
    } else {
        None
    }
}

/// The colour in effect: the top of the stack, if any.
pub open spec fn top(stack: Seq<Color>) -> Option<Color> {
    if stack.len() > 0 {
        Some(stack.last())
    } else {
        None
    }
}

/// `stack` with its top removed (unchanged when empty).
pub open spec fn pop(stack: Seq<Color>) -> Seq<Color> {
    if stack.len() > 0 {
        stack.drop_last()
    } else {
        stack
    }
}

/// `ch` coloured `color`.
pub open spec fn colored(ch: char, color: Option<Color>) -> ColoredChar {
    ColoredChar { ch, color }
}

/// Each character of `s` coloured `color`.
pub open spec fn literal(s: Seq<char>, color: Option<Color>) -> Seq<ColoredChar> {
    s.map_values(|ch: char| colored(ch, color))
}

/// The index of the first `}` in `s` at or after `j`.
pub open spec fn closing(s: Seq<char>, j: int) -> Option<int>
    decreases s.len() - j,
{
    if j < 0 || j >= s.len() {
        None
    } else if s[j] == '}' {
        Some(j)
    } else {
        closing(s, j + 1)
    }
}

/// The index of the topmost occurrence of `c` in `stack` below position `n`.
pub open spec fn last_index(stack: Seq<Color>, c: Color, n: int) -> Option<int>
    decreases n,
{
    if n <= 0 {
        None
    } else if stack[n - 1] == c {
        Some(n - 1)
    } else {
        last_index(stack, c, n - 1)
    }
}

/// Where the first `}` at or after `j` stands, if there is one.
pub proof fn lemma_closing(s: Seq<char>, j: int)
    ensures
        match closing(s, j) {
            Some(k) => 0 <= j <= k < s.len() && s[k] == '}' && forall|m: int|
                j <= m < k ==> s[m] != '}',
            None => forall|m: int| 0 <= j <= m < s.len() ==> s[m] != '}',
        },
    decreases s.len() - j,
{
    if 0 <= j < s.len() && s[j] != '}' {
        lemma_closing(s, j + 1);
    }
}

proof fn lemma_last_index(stack: Seq<Color>, c: Color, n: int)
    requires
        n <= stack.len(),
    ensures
        match last_index(stack, c, n) {
            Some(p) => 0 <= p < n && stack[p] == c && forall|m: int| p < m < n ==> stack[m] != c,
            None => forall|m: int| 0 <= m < n ==> stack[m] != c,
        },
    decreases n,
{
    if n > 0 && stack[n - 1] != c {
        lemma_last_index(stack, c, n - 1);
    }
}

/// The coloured characters for `s` from position `i` on, with `stack` the
/// colours opened so far: an opening tag `{name}` pushes a colour, `{}` pops
/// the top, `{/name}` removes the topmost matching colour; a tag naming no
/// colour, or closing a colour that is not open, and a `{` without a `}`
/// after it, are shown literally. Every other character takes the colour on
/// top of the stack.
pub open spec fn markup(s: Seq<char>, i: int, stack: Seq<Color>) -> Seq<ColoredChar>
    decreases s.len() - i,
{
    if i < 0 || i >= s.len() {
        Seq::empty()
    } else if s[i] == '{' {
        proof {
            lemma_closing(s, i + 1);
        }
        match closing(s, i + 1) {
            None => seq![colored('{', top(stack))] + markup(s, i + 1, stack),
            Some(close) => {
                let tag = s.subrange(i + 1, close);
                let lit = literal(s.subrange(i, close + 1), top(stack));
                if tag.len() == 0 {
                    markup(s, close + 1, pop(stack))
                } else if tag[0] == '/' {
                    match tag_color(tag.drop_first()) {
                        Some(c) => match last_index(stack, c, stack.len() as int) {
                            Some(p) => markup(s, close + 1, stack.remove(p)),
                            None => lit + markup(s, close + 1, stack),
                        },
                        None => lit + markup(s, close + 1, stack),
                    }
                } else {
                    match tag_color(tag) {
                        Some(c) => markup(s, close + 1, stack.push(c)),
                        None => lit + markup(s, close + 1, stack),
                    }
                }
            },
        }
    } else {
        seq![colored(s[i], top(stack))] + markup(s, i + 1, stack)
    }
}

/// The position of the topmost `color` in `stack`.
fn rposition(stack: &[Color], color: Color) -> (r: Option<usize>)
    ensures
        match r {
            Some(p) => last_index(stack@, color, stack@.len() as int) == Some(p as int),
            None => last_index(stack@, color, stack@.len() as int) is None,
        },
{
    let mut p = stack.len();
    while p > 0
        invariant
            p <= stack@.len(),
            last_index(stack@, color, stack@.len() as int) == last_index(stack@, color, p as int),
        decreases p,
    {
        if stack[p - 1] == color {
            return Some(p - 1);
        }
        p = p - 1;
    }
    None
}

/// Emit a slice of characters literally with the current color.
fn emit_literal(chars: &[char], color_stack: &[Color], result: &mut Vec<ColoredChar>)
    ensures
        final(result)@ == old(result)@ + literal(chars@, top(color_stack@)),
{
    let color = if color_stack.len() > 0 {
        Some(color_stack[color_stack.len() - 1])
    } else {
        None
    };
    let mut i: usize = 0;
    while i < chars.len()
        invariant
            0 <= i <= chars@.len(),
            color == top(color_stack@),
            result@ == old(result)@ + literal(chars@.take(i as int), color),
        decreases chars@.len() - i,
    {
        result.push(ColoredChar { ch: chars[i], color });
        i = i + 1;
        assert(literal(chars@.take(i as int), color) =~= literal(chars@.take(i - 1), color).push(
            colored(chars@[i - 1], color),
        ));
    }
    assert(chars@.take(chars@.len() as int) == chars@);
}

/// Parse text with color markup tags.
///
/// Supported syntax:
/// - `{red}text{/red}` — applies red color to "text"
/// - `{red}text{}` — shorthand: `{}` closes the current color
/// - Nested tags: innermost color wins (stack-based)
/// - Invalid/unrecognized tags are rendered literally including braces
pub fn parse_color_markup(input: &str) -> (result: Vec<ColoredChar>)
    ensures
        result@ == markup(input@, 0, Seq::empty()),
{
    let chars = chars_of(input);
    let len = chars.len();
    let mut result: Vec<ColoredChar> = Vec::new();
    let mut color_stack: Vec<Color> = Vec::new();
    let mut i: usize = 0;
    while i < len
        invariant
            0 <= i <= len,
            len == chars@.len(),
            chars@ == input@,
            markup(input@, 0, Seq::empty()) == result@ + markup(input@, i as int, color_stack@),
        decreases len - i,
    {
        let ghost before = result@;
        let ghost st = color_stack@;
        if chars[i] == '{' {
            let mut j = i + 1;
            while j < len && chars[j] != '}'
                invariant
                    i + 1 <= j <= len,
                    len == chars@.len(),
                    closing(chars@, i + 1) == closing(chars@, j as int),
                decreases len - j,
            {
                j = j + 1;
            }
            if j < len {
                let close = j;
                assert(closing(chars@, i + 1) == Some(close as int));
                let tag = crate::text::slice_chars(chars.as_slice(), i + 1, close);
                let ghost lit = literal(chars@.subrange(i as int, close + 1), top(st));
                if tag.len() == 0 {
                    color_stack.pop();
                    i = close + 1;
                } else if tag[0] == '/' {
                    let name = crate::text::slice_chars(tag.as_slice(), 1, tag.len());
                    assert(name@ == tag@.drop_first());
                    match parse_color_tag(name.as_slice()) {
                        Some(color) => {
                            match rposition(color_stack.as_slice(), color) {
                                Some(p) => {
                                    proof {
                                        lemma_last_index(st, color, st.len() as int);
                                    }
                                    color_stack.remove(p);
                                },
                                None => {
                                    let whole = crate::text::slice_chars(chars.as_slice(), i, close + 1);
                                    emit_literal(whole.as_slice(), color_stack.as_slice(), &mut result);
                                },
                            }
                        },
                        None => {
                            let whole = crate::text::slice_chars(chars.as_slice(), i, close + 1);
                            emit_literal(whole.as_slice(), color_stack.as_slice(), &mut result);
                        },
                    }
                    i = close + 1;
                } else {
                    match parse_color_tag(tag.as_slice()) {
                        Some(color) => {
                            color_stack.push(color);
                        },
                        None => {
                            let whole = crate::text::slice_chars(chars.as_slice(), i, close + 1);
                            emit_literal(whole.as_slice(), color_stack.as_slice(), &mut result);
                        },
                    }
                    i = close + 1;
                }
            } else {
                assert(closing(chars@, i + 1) is None);
                let color = if color_stack.len() > 0 {
                    Some(color_stack[color_stack.len() - 1])
                } else {
                    None
                };
                result.push(ColoredChar { ch: '{', color });
                i = i + 1;
            }
        } else {
            let color = if color_stack.len() > 0 {
                Some(color_stack[color_stack.len() - 1])
            } else {
                None
            };
            result.push(ColoredChar { ch: chars[i], color });
            i = i + 1;
        }
        assert(markup(input@, 0, Seq::empty()) =~= result@ + markup(input@, i as int, color_stack@));
    }
    result
}

} // verus!

verus! {

proof fn lemma_markup_plain(s: Seq<char>, i: int)
    requires
        0 <= i <= s.len(),
        forall|k: int| 0 <= k < s.len() ==> s[k] != '{',
    ensures
        markup(s, i, Seq::empty()) == literal(s.skip(i), None),
    decreases s.len() - i,
{
    if i < s.len() {
        lemma_markup_plain(s, i + 1);
        assert(literal(s.skip(i), None) =~= seq![colored(s[i], None)] + literal(s.skip(i + 1), None));
    } else {
        assert(literal(s.skip(i), None) =~= Seq::empty());
    }
}

/// Text without any `{` comes out unchanged, every character uncoloured.
pub proof fn lemma_plain_text_uncolored(s: Seq<char>)
    requires
        forall|k: int| 0 <= k < s.len() ==> s[k] != '{',
    ensures
        markup(s, 0, Seq::empty()) == literal(s, None),
{
    lemma_markup_plain(s, 0);
    assert(s.skip(0) == s);
}

/// Markup never yields more characters than the text it reads.
pub proof fn lemma_markup_len(s: Seq<char>, i: int, stack: Seq<Color>)
    requires
        0 <= i <= s.len(),
    ensures
        markup(s, i, stack).len() <= s.len() - i,
    decreases s.len() - i,
{
    if i < s.len() {
        if s[i] == '{' {
            lemma_closing(s, i + 1);
            match closing(s, i + 1) {
                None => lemma_markup_len(s, i + 1, stack),
                Some(close) => {
                    let tag = s.subrange(i + 1, close);
                    lemma_markup_len(s, close + 1, stack);
                    lemma_markup_len(s, close + 1, pop(stack));
                    if tag.len() > 0 && tag[0] == '/' {
                        match tag_color(tag.drop_first()) {
                            Some(c) => match last_index(stack, c, stack.len() as int) {
                                Some(p) => lemma_markup_len(s, close + 1, stack.remove(p)),
                                None => {},
                            },
                            None => {},
                        }
                    } else if tag.len() > 0 {
                        match tag_color(tag) {
                            Some(c) => lemma_markup_len(s, close + 1, stack.push(c)),
                            None => {},
                        }
                    }
                },
            }
        } else {
            lemma_markup_len(s, i + 1, stack);
        }
    }
}

/// Tag names are read without regard to ASCII case: two ASCII tag names
/// that lowercase alike (such as `RED`, `Red` and `red`) name the same
/// colour, or both none.
pub proof fn lemma_tag_color_ignores_ascii_case(a: Seq<char>, b: Seq<char>)
    requires
        all_ascii(a),
        all_ascii(b),
        a.len() == b.len(),
        forall|i: int| 0 <= i < a.len() ==> ascii_lower(#[trigger] a[i]) == ascii_lower(b[i]),
    ensures
        tag_color(a) == tag_color(b),
{
    assert(a.map_values(|c: char| ascii_lower(c)) =~= b.map_values(|c: char| ascii_lower(c)));
}

proof fn lemma_closing_shift(p: Seq<char>, q: Seq<char>, j: int)
    requires
        0 <= j,
    ensures
        closing(p + q, p.len() + j) == match closing(q, j) {
            Some(k) => Some(p.len() + k),
            None => None,
        },
    decreases q.len() - j,
{
    if j < q.len() {
        assert((p + q)[p.len() + j] == q[j]);
        if q[j] != '}' {
            lemma_closing_shift(p, q, j + 1);
        }
    }
}

/// The colours of the text from position `i` of `q` do not depend on what
/// stands before `q`.
proof fn lemma_markup_shift(p: Seq<char>, q: Seq<char>, i: int, stack: Seq<Color>)
    requires
        0 <= i,
    ensures
        markup(p + q, p.len() + i, stack) == markup(q, i, stack),
    decreases q.len() - i,
{
    let s = p + q;
    let o = p.len() as int;
    if i < q.len() {
        assert(s[o + i] == q[i]);
        if q[i] == '{' {
            lemma_closing_shift(p, q, i + 1);
            lemma_closing(q, i + 1);
            match closing(q, i + 1) {
                None => {
                    lemma_markup_shift(p, q, i + 1, stack);
                },
                Some(close) => {
                    assert(s.subrange(o + i + 1, o + close) =~= q.subrange(i + 1, close));
                    assert(s.subrange(o + i, o + close + 1) =~= q.subrange(i, close + 1));
                    let tag = q.subrange(i + 1, close);
                    lemma_markup_shift(p, q, close + 1, stack);
                    lemma_markup_shift(p, q, close + 1, pop(stack));
                    lemma_markup_shift(p, q, close + 1, stack.push(tag_color(tag)->0));
                    if tag.len() > 0 && tag[0] == '/' {
                        match tag_color(tag.drop_first()) {
                            Some(c) => match last_index(stack, c, stack.len() as int) {
                                Some(k) => {
                                    lemma_markup_shift(p, q, close + 1, stack.remove(k));
                                },
                                None => {},
                            },
                            None => {},
                        }
                    }
                },
            }
        } else {
            lemma_markup_shift(p, q, i + 1, stack);
        }
    }
}

/// Text without `{` takes the colour on top of the stack, character by
/// character.
proof fn lemma_markup_plain_then(u: Seq<char>, x: Seq<char>, i: int, stack: Seq<Color>)
    requires
        forall|k: int| 0 <= k < u.len() ==> u[k] != '{',
        0 <= i <= u.len(),
    ensures
        markup(u + x, i, stack) == literal(u.skip(i), top(stack)) + markup(u + x, u.len() as int, stack),
    decreases u.len() - i,
{
    if i < u.len() {
        assert((u + x)[i] == u[i]);
        lemma_markup_plain_then(u, x, i + 1, stack);
        assert(literal(u.skip(i), top(stack)) =~= seq![colored(u[i], top(stack))] + literal(
            u.skip(i + 1),
            top(stack),
        ));
    } else {
        assert(literal(u.skip(i), top(stack)) =~= Seq::<ColoredChar>::empty());
    }
}

/// `{}` closes exactly the colour opened last: text opened by a colour tag
/// and closed by `{}` takes that colour, and what follows is coloured as it
/// would have been without the pair, under the colours open before it.
pub proof fn lemma_shorthand_close_restores(
    tag: Seq<char>,
    c: Color,
    text: Seq<char>,
    rest: Seq<char>,
    stack: Seq<Color>,
)
    requires
        tag.len() > 0,
        tag[0] != '/',
        tag_color(tag) == Some(c),
        forall|k: int| 0 <= k < tag.len() ==> tag[k] != '}',
        forall|k: int| 0 <= k < text.len() ==> text[k] != '{',
    ensures
        markup(seq!['{'] + tag + seq!['}'] + text + seq!['{', '}'] + rest, 0, stack) == literal(
            text,
            Some(c),
        ) + markup(rest, 0, stack),
{
    let a = seq!['{'] + tag + seq!['}'];
    let y = seq!['{', '}'] + rest;
    let v = text + y;
    let s = seq!['{'] + tag + seq!['}'] + text + seq!['{', '}'] + rest;
    assert(s =~= a + v);
    let opened = stack.push(c);
    // the opening tag
    lemma_closing(s, 1);
    let close: int = tag.len() as int + 1;
    assert(s[close] == '}');
    assert forall|m: int| 1 <= m < close implies s[m] != '}' by {
        assert(s[m] == tag[m - 1]);
    }
    assert(closing(s, 1) == Some(close));
    assert(s.subrange(1, close) =~= tag);
    assert(markup(s, 0, stack) == markup(s, close + 1, opened));
    lemma_markup_shift(a, v, 0, opened);
    assert(markup(s, close + 1, opened) == markup(v, 0, opened));
    // the text, in the opened colour
    lemma_markup_plain_then(text, y, 0, opened);
    assert(text.skip(0) =~= text);
    assert(top(opened) == Some(c));
    lemma_markup_shift(text, y, 0, opened);
    // the closing `{}`
    lemma_closing(y, 1);
    assert(closing(y, 1) == Some(1int));
    assert(y.subrange(1, 1) =~= Seq::<char>::empty());
    assert(pop(opened) =~= stack);
    assert(markup(y, 0, opened) == markup(y, 2, stack));
    lemma_markup_shift(seq!['{', '}'], rest, 0, stack);
}

/// A named closing tag closes the colour its opening tag opened: text
/// between `{name}` and `{/name}` takes that colour, and what follows is
/// coloured under the colours open before the pair. A tag naming no colour
/// is shown as it is, in the colour in effect.
pub proof fn lemma_named_close_restores(
    tag: Seq<char>,
    c: Color,
    text: Seq<char>,
    rest: Seq<char>,
    stack: Seq<Color>,
)
    requires
        tag.len() > 0,
        tag[0] != '/',
        tag_color(tag) == Some(c),
        forall|k: int| 0 <= k < tag.len() ==> tag[k] != '}',
        forall|k: int| 0 <= k < text.len() ==> text[k] != '{',
    ensures
        markup(seq!['{'] + tag + seq!['}'] + text + seq!['{', '/'] + tag + seq!['}'] + rest, 0, stack)
            == literal(text, Some(c)) + markup(rest, 0, stack),
{
    let a = seq!['{'] + tag + seq!['}'];
    let b = seq!['{', '/'] + tag + seq!['}'];
    let y = b + rest;
    let v = text + y;
    let s = seq!['{'] + tag + seq!['}'] + text + seq!['{', '/'] + tag + seq!['}'] + rest;
    assert(s =~= a + v);
    let opened = stack.push(c);
    lemma_closing(s, 1);
    let close: int = tag.len() as int + 1;
    assert(s[close] == '}');
    assert forall|m: int| 1 <= m < close implies s[m] != '}' by {
        assert(s[m] == tag[m - 1]);
    }
    assert(closing(s, 1) == Some(close));
    assert(s.subrange(1, close) =~= tag);
    assert(markup(s, 0, stack) == markup(s, close + 1, opened));
    lemma_markup_shift(a, v, 0, opened);
    lemma_markup_plain_then(text, y, 0, opened);
    assert(text.skip(0) =~= text);
    lemma_markup_shift(text, y, 0, opened);
    // the closing `{/name}`
    lemma_closing(y, 1);
    let close2: int = tag.len() as int + 2;
    assert(y[close2] == '}');
    assert forall|m: int| 1 <= m < close2 implies y[m] != '}' by {
        if m >= 2 {
            assert(y[m] == tag[m - 2]);
        }
    }
    assert(closing(y, 1) == Some(close2));
    let tag2 = y.subrange(1, close2);
    assert(tag2[0] == '/');
    assert(tag2.drop_first() =~= tag);
    assert(last_index(opened, c, opened.len() as int) == Some(stack.len() as int));
    assert(opened.remove(stack.len() as int) =~= stack);
    assert(markup(y, 0, opened) == markup(y, close2 + 1, stack));
    assert(y =~= (b + rest));
    lemma_markup_shift(b, rest, 0, stack);
}

/// An opening tag that names no colour is shown as it is, braces and all,
/// in the colour in effect, and changes nothing after it.
pub proof fn lemma_unknown_tag_is_literal(tag: Seq<char>, rest: Seq<char>, stack: Seq<Color>)
    requires
        tag.len() > 0,
        tag[0] != '/',
        tag_color(tag) is None,
        forall|k: int| 0 <= k < tag.len() ==> tag[k] != '}',
    ensures
        markup(seq!['{'] + tag + seq!['}'] + rest, 0, stack) == literal(seq!['{'] + tag + seq!['}'], top(stack))
            + markup(rest, 0, stack),
{
    let a = seq!['{'] + tag + seq!['}'];
    let s = a + rest;
    assert(s =~= seq!['{'] + tag + seq!['}'] + rest);
    lemma_closing(s, 1);
    let close: int = tag.len() as int + 1;
    assert(s[close] == '}');
    assert forall|m: int| 1 <= m < close implies s[m] != '}' by {
        assert(s[m] == tag[m - 1]);
    }
    assert(closing(s, 1) == Some(close));
    assert(s.subrange(1, close) =~= tag);
    assert(s.subrange(0, close + 1) =~= a);
    lemma_markup_shift(a, rest, 0, stack);
}

/// Text without tags, with no colour open, is every character uncoloured.
pub proof fn lemma_plain_text_uncoloured(text: Seq<char>)
    requires
        forall|k: int| 0 <= k < text.len() ==> text[k] != '{',
    ensures
        markup(text, 0, Seq::empty()) == literal(text, None),
{
    lemma_markup_plain_then(text, Seq::empty(), 0, Seq::empty());
    assert(text + Seq::<char>::empty() =~= text);
    assert(text.skip(0) =~= text);
    assert(markup(text, text.len() as int, Seq::empty()) == Seq::<ColoredChar>::empty());
    assert(literal(text, None) + Seq::<ColoredChar>::empty() =~= literal(text, None));
}

} // verus!
