//! Planning and sampling the split-flap animation from one board to the
//! next: each changed cell cycles forward through the flap characters (or
//! tile colours) after a cascade delay that grows with its column.
//!
//! Time is measured in nanoseconds on a monotonic clock whose origin the
//! caller chooses.

use vstd::prelude::*;

use crate::board::{well_formed, BoardState, CellContent, Color, Grid, BOARD_COLS, BOARD_ROWS};
use crate::layout::is_flap_char;

verus! {

/// The ordered character cycle for split-flap boards.
/// Space (blank) at index 0, then A-Z, 0-9, and punctuation.
pub const CHAR_SET: [char; 57] = [
    ' ', 'A', 'B', 'C', 'D', 'E', 'F', 'G', 'H', 'I', 'J', 'K', 'L', 'M', 'N', 'O', 'P', 'Q', 'R',
    'S', 'T', 'U', 'V', 'W', 'X', 'Y', 'Z', '0', '1', '2', '3', '4', '5', '6', '7', '8', '9', '!',
    '@', '#', '$', '%', '&', '(', ')', '-', '+', '=', ';', ':', '\'', '"', ',', '.', '/', '?', '*',
];

/// The ordered color cycle for split-flap color tiles.
pub const COLOR_SET: [Color; 8] = [
    Color::Red,
    Color::Orange,
    Color::Yellow,
    Color::Green,
    Color::Blue,
    Color::Violet,
    Color::White,
    Color::Black,
];

/// The position of the first `x` in `s` at or after `j`.
pub open spec fn first_index<T>(s: Seq<T>, x: T, j: int) -> Option<int>
    decreases s.len() - j,
{
    if j < 0 || j >= s.len() {
        None
    } else if s[j] == x {
        Some(j)
    } else {
        first_index(s, x, j + 1)
    }
}

/// The position of `c` in the character cycle, if it is there.
pub open spec fn char_pos(c: char) -> Option<int> {
    first_index(CHAR_SET@, c, 0)
}

/// The position of `c` in the colour cycle.
pub open spec fn color_pos(c: Color) -> int {
    match c {
        Color::Red => 0,
        Color::Orange => 1,
        Color::Yellow => 2,
        Color::Green => 3,
        Color::Blue => 4,
        Color::Violet => 5,
        Color::White => 6,
        Color::Black => 7,
    }
}

/// The `k`-th character after position `f` in the cycle.
pub open spec fn char_after(f: int, k: int) -> char {
    CHAR_SET@[(f + 1 + k) % 57]
}

/// The `k`-th colour after position `f` in the cycle.
pub open spec fn color_after(f: int, k: int) -> Color {
    COLOR_SET@[(f + 1 + k) % 8]
}

/// The characters shown when flipping forward from `from` to `to`, without
/// `from` and ending with `to`; a character outside the cycle snaps
/// straight to `to`.
pub open spec fn cycle_steps(from: char, to: char) -> Seq<char> {
    if from == to {
        Seq::empty()
    } else {
        match (char_pos(from), char_pos(to)) {
            (Some(f), Some(t)) => Seq::new(((t - f + 57) % 57) as nat, |k: int| char_after(f, k)),
            _ => seq![to],
        }
    }
}

/// The colours shown when flipping forward from `from` to `to`, without
/// `from` and ending with `to`.
pub open spec fn color_steps(from: Color, to: Color) -> Seq<Color> {
    if from == to {
        Seq::empty()
    } else {
        let f = color_pos(from);
        let t = color_pos(to);
        Seq::new(((t - f + 8) % 8) as nat, |k: int| color_after(f, k))
    }
}

proof fn lemma_first_index<T>(s: Seq<T>, x: T, j: int)
    requires
        0 <= j,
    ensures
        match first_index(s, x, j) {
            Some(i) => j <= i < s.len() && s[i] == x && forall|m: int| j <= m < i ==> s[m] != x,
            None => forall|m: int| j <= m < s.len() ==> s[m] != x,
        },
    decreases s.len() - j,
{
    if j < s.len() && s[j] != x {
        lemma_first_index(s, x, j + 1);
    }
}

/// Find a character's position in `CHAR_SET`.
pub fn char_index(ch: char) -> (r: Option<usize>)
    ensures
        r matches Some(i) ==> char_pos(ch) == Some(i as int),
        r is None ==> char_pos(ch) is None,
{
    let mut i: usize = 0;
    while i < 57
        invariant
            0 <= i <= 57,
            char_pos(ch) == first_index(CHAR_SET@, ch, i as int),
        decreases 57 - i,
    {
        if CHAR_SET[i] == ch {
            return Some(i);
        }
        i = i + 1;
    }
    None
}

/// Compute the intermediate characters when cycling forward through `CHAR_SET`.
///
/// Always cycles forward (real split-flap boards go one direction).
/// Returns the sequence excluding `from` but including `to`.
/// If `from == to`, returns empty.
pub fn cycling_steps(from: char, to: char) -> (steps: Vec<char>)
    ensures
        steps@ == cycle_steps(from, to),
{
    if from == to {
        return Vec::new();
    }
    let from_idx = match char_index(from) {
        Some(i) => i,
        None => {
            let mut v = Vec::new();
            v.push(to);
            return v;
        },
    };
    let to_idx = match char_index(to) {
        Some(i) => i,
        None => {
            let mut v = Vec::new();
            v.push(to);
            return v;
        },
    };
    proof {
        lemma_first_index(CHAR_SET@, from, 0);
        lemma_first_index(CHAR_SET@, to, 0);
    }
    let n: usize = if to_idx > from_idx {
        to_idx - from_idx
    } else {
        to_idx + 57 - from_idx
    };
    assert(n as int == (to_idx - from_idx + 57) % 57);
    let mut steps: Vec<char> = Vec::new();
    let mut k: usize = 0;
    while k < n
        invariant
            from_idx < 57,
            to_idx < 57,
            0 <= k <= n <= 57,
            steps@ == Seq::new(k as nat, |m: int| char_after(from_idx as int, m)),
        decreases n - k,
    {
        let j = from_idx + 1 + k;
        let j = if j >= 57 {
            j - 57
        } else {
            j
        };
        assert(j as int == (from_idx + 1 + k) % 57);
        steps.push(CHAR_SET[j]);
        k = k + 1;
        assert(steps@ =~= Seq::new(k as nat, |m: int| char_after(from_idx as int, m)));
    }
    assert(steps@ =~= cycle_steps(from, to));
    steps
}

} // verus!

verus! {

/// Find a color's position in `COLOR_SET`.
pub fn color_index(color: &Color) -> (i: usize)
    ensures
        i as int == color_pos(*color),
{
    match color {
        Color::Red => 0,
        Color::Orange => 1,
        Color::Yellow => 2,
        Color::Green => 3,
        Color::Blue => 4,
        Color::Violet => 5,
        Color::White => 6,
        Color::Black => 7,
    }
}

/// The colour `k` places after position `f` in `COLOR_SET` (`k < 8`).
fn color_at_offset(f: usize, k: usize) -> (c: Color)
    requires
        f < 8,
        k < 8,
    ensures
        c == color_after(f as int, k as int),
{
    let j = f + 1 + k;
    let j = if j >= 16 {
        j - 16
    } else if j >= 8 {
        j - 8
    } else {
        j
    };
    assert(j as int == (f + 1 + k) % 8);
    COLOR_SET[j]
}

/// Compute the intermediate colors when cycling forward through `COLOR_SET`.
/// Returns the sequence excluding `from` but including `to`.
pub fn color_cycling_steps(from: &Color, to: &Color) -> (steps: Vec<Color>)
    ensures
        steps@ == color_steps(*from, *to),
{
    if *from == *to {
        return Vec::new();
    }
    let from_idx = color_index(from);
    let to_idx = color_index(to);
    let n: usize = if to_idx > from_idx {
        to_idx - from_idx
    } else {
        to_idx + 8 - from_idx
    };
    assert(n as int == (to_idx - from_idx + 8) % 8);
    let mut steps: Vec<Color> = Vec::new();
    let mut k: usize = 0;
    while k < n
        invariant
            from_idx < 8,
            0 <= k <= n <= 8,
            steps@ == Seq::new(k as nat, |m: int| color_after(from_idx as int, m)),
        decreases n - k,
    {
        steps.push(color_at_offset(from_idx, k));
        k = k + 1;
        assert(steps@ =~= Seq::new(k as nat, |m: int| color_after(from_idx as int, m)));
    }
    assert(steps@ =~= color_steps(*from, *to));
    steps
}

/// What to display in a single cell during rendering.
#[derive(Debug, Clone, Copy, PartialEq, Eq, Structural)]
pub enum CellDisplayState {
    /// Show normal content from the grid.
    Normal(CellContent),
    /// Show a character mid-flip (the intermediate cycling character, with flap visual).
    Flipping(char),
    /// Show a color tile mid-flip (cycling through intermediate colors).
    FlippingColor(Color),
}

/// The character a displayed cell stands at in the character cycle; colour
/// cells count as a space.
pub open spec fn shown_char(state: CellDisplayState) -> char {
    match state {
        CellDisplayState::Normal(CellContent::Char(c)) => c,
        CellDisplayState::Flipping(c) => c,
        _ => ' ',
    }
}

/// The character a target cell stands at in the character cycle; colour
/// cells count as a space.
pub open spec fn content_char(content: CellContent) -> char {
    match content {
        CellContent::Char(c) => c,
        _ => ' ',
    }
}

/// Whether a displayed cell is not simply showing `to` already.
pub open spec fn state_differs(from: CellDisplayState, to: CellContent) -> bool {
    match from {
        CellDisplayState::Normal(content) => content != to,
        _ => true,
    }
}

/// The colour a displayed cell shows, if it is a colour tile.
pub open spec fn shown_color(state: CellDisplayState) -> Option<Color> {
    match state {
        CellDisplayState::Normal(CellContent::Color(c)) => Some(c),
        CellDisplayState::FlippingColor(c) => Some(c),
        _ => None,
    }
}

/// The settled display of a plain character: a space shows as a blank cell.
pub open spec fn settled_char(ch: char) -> CellDisplayState {
    if ch == ' ' {
        CellDisplayState::Normal(CellContent::Blank)
    } else {
        CellDisplayState::Normal(CellContent::Char(ch))
    }
}

/// Extract the displayable character from a `CellDisplayState`.
/// Color cells are treated as space for animation purposes so they participate in cycling.
fn display_char(state: &CellDisplayState) -> (c: char)
    ensures
        c == shown_char(*state),
{
    match state {
        CellDisplayState::Normal(CellContent::Char(c)) => *c,
        CellDisplayState::Normal(CellContent::Blank) => ' ',
        CellDisplayState::Normal(CellContent::Color(_)) => ' ',
        CellDisplayState::Flipping(c) => *c,
        CellDisplayState::FlippingColor(_) => ' ',
    }
}

/// Map a target `CellContent` to the character used in the char set.
/// Color cells are treated as space for animation purposes.
fn target_char(content: &CellContent) -> (c: char)
    ensures
        c == content_char(*content),
{
    match content {
        CellContent::Char(c) => *c,
        CellContent::Blank => ' ',
        CellContent::Color(_) => ' ',
    }
}

/// Check if the display state and target content are actually different,
/// even when their animation characters are the same (e.g., Blank vs Color both map to ' ').
fn from_state_differs_from_target(from: &CellDisplayState, to: &CellContent) -> (b: bool)
    ensures
        b == state_differs(*from, *to),
{
    match from {
        CellDisplayState::Normal(content) => *content != *to,
        CellDisplayState::Flipping(_) | CellDisplayState::FlippingColor(_) => true,
    }
}

/// Extract the color from a display state, if it's a color cell.
fn display_color(state: &CellDisplayState) -> (c: Option<Color>)
    ensures
        c == shown_color(*state),
{
    match state {
        CellDisplayState::Normal(CellContent::Color(c)) => Some(*c),
        CellDisplayState::FlippingColor(c) => Some(*c),
        _ => None,
    }
}

/// Convert a plain character to a `CellDisplayState::Normal` for display.
fn cell_display_for_char(ch: char) -> (s: CellDisplayState)
    ensures
        s == settled_char(ch),
{
    if ch == ' ' {
        CellDisplayState::Normal(CellContent::Blank)
    } else {
        CellDisplayState::Normal(CellContent::Char(ch))
    }
}

/// The display state for the full board — drives what BoardWidget actually renders.
#[derive(Debug)]
pub struct DisplayGrid {
    pub cells: Vec<Vec<CellDisplayState>>,
}

impl View for DisplayGrid {
    type V = Seq<Seq<CellDisplayState>>;

    open spec fn view(&self) -> Seq<Seq<CellDisplayState>> {
        self.cells@.map_values(|r: Vec<CellDisplayState>| r@)
    }
}

/// Whether `d` has `BOARD_ROWS` rows of `BOARD_COLS` cells.
pub open spec fn display_well_formed(d: Seq<Seq<CellDisplayState>>) -> bool {
    &&& d.len() == BOARD_ROWS
    &&& forall|r: int| 0 <= r < d.len() ==> #[trigger] d[r].len() == BOARD_COLS
}

/// Every cell of `g` shown as it is.
pub open spec fn settled(g: Seq<Seq<CellContent>>) -> Seq<Seq<CellDisplayState>> {
    Seq::new(g.len(), |r: int| Seq::new(g[r].len(), |c: int| normal_cell(g, r, c)))
}

/// Cell `(r, c)` of `g` shown as it is.
pub open spec fn normal_cell(g: Seq<Seq<CellContent>>, r: int, c: int) -> CellDisplayState {
    CellDisplayState::Normal(g[r][c])
}

impl DisplayGrid {
    /// Convert a `BoardState` into a `DisplayGrid` with all cells set to `Normal`.
    pub fn from_board_state(state: &BoardState) -> (d: DisplayGrid)
        ensures
            d@ == settled(state.grid@),
    {
        let mut cells: Vec<Vec<CellDisplayState>> = Vec::new();
        let mut r: usize = 0;
        while r < state.grid.0.len()
            invariant
                0 <= r <= state.grid@.len(),
                cells@.len() == r,
                forall|k: int| 0 <= k < r ==> #[trigger] cells@[k]@ == settled(state.grid@)[k],
            decreases state.grid@.len() - r,
        {
            let row = &state.grid.0[r];
            assert(state.grid@[r as int] == state.grid.0@[r as int]@);
            assert(row@ == state.grid@[r as int]);
            let mut out: Vec<CellDisplayState> = Vec::new();
            let mut c: usize = 0;
            while c < row.len()
                invariant
                    0 <= c <= row@.len(),
                    row@ == state.grid@[r as int],
                    out@ == Seq::new(c as nat, |k: int| normal_cell(state.grid@, r as int, k)),
                decreases row@.len() - c,
            {
                out.push(CellDisplayState::Normal(row[c]));
                c = c + 1;
                assert(out@ =~= Seq::new(c as nat, |k: int| normal_cell(state.grid@, r as int, k)));
            }
            assert(out@ =~= settled(state.grid@)[r as int]);
            cells.push(out);
            r = r + 1;
        }
        let d = DisplayGrid { cells };
        assert(d@ =~= settled(state.grid@));
        d
    }

    /// Create a blank display grid (all `Normal(Blank)` cells).
    pub fn blank() -> (d: DisplayGrid)
        ensures
            d@ == settled(crate::board::blank_grid()),
            display_well_formed(d@),
    {
        let b = BoardState {
            grid: Grid::blank(),
            previous_grid: Grid::blank(),
            current_item: None,
            timestamp: crate::board::Timestamp { secs: 0, nanos: 0 },
            theme: crate::board::ThemeKind::Dark,
            theme_colors: None,
        };
        let d = Self::from_board_state(&b);
        assert forall|r: int| 0 <= r < d@.len() implies #[trigger] d@[r].len() == BOARD_COLS by {
            assert(d@[r] == settled(b.grid@)[r]);
        }
        d
    }

    /// Set a cell in the display grid.
    pub fn set(&mut self, row: usize, col: usize, state: CellDisplayState)
        requires
            row < old(self)@.len(),
            col < old(self)@[row as int].len(),
        ensures
            final(self)@ == old(self)@.update(row as int, old(self)@[row as int].update(col as int, state)),
    {
        self.cells[row][col] = state;
        assert(self@ =~= old(self)@.update(row as int, old(self)@[row as int].update(col as int, state)));
    }

    /// Overwrite every cell from a `BoardState`, reusing the existing allocation.
    pub fn fill_from_board_state(&mut self, state: &BoardState)
        requires
            display_well_formed(old(self)@),
            well_formed(state.grid@),
        ensures
            final(self)@ == settled(state.grid@),
    {
        let mut r: usize = 0;
        while r < BOARD_ROWS
            invariant
                0 <= r <= BOARD_ROWS,
                well_formed(state.grid@),
                display_well_formed(self@),
                forall|k: int| 0 <= k < r ==> #[trigger] self@[k] == settled(state.grid@)[k],
            decreases BOARD_ROWS - r,
        {
            let mut c: usize = 0;
            while c < BOARD_COLS
                invariant
                    0 <= r < BOARD_ROWS,
                    0 <= c <= BOARD_COLS,
                    well_formed(state.grid@),
                    display_well_formed(self@),
                    forall|k: int| 0 <= k < r ==> #[trigger] self@[k] == settled(state.grid@)[k],
                    forall|k: int| 0 <= k < c ==> #[trigger] self@[r as int][k] == normal_cell(state.grid@, r as int, k),
                decreases BOARD_COLS - c,
            {
                assert(state.grid@[r as int] == state.grid.0@[r as int]@);
                let cell = state.grid.0[r][c];
                self.set(r, c, CellDisplayState::Normal(cell));
                c = c + 1;
            }
            assert(self@[r as int] =~= settled(state.grid@)[r as int]);
            r = r + 1;
        }
        assert(self@ =~= settled(state.grid@));
    }
}

} // verus!

verus! {

/// The kind of cycling animation for a cell.
#[derive(Debug)]
#[allow(inconsistent_fields)]
pub enum AnimationKind {
    /// Cycling through characters (for Char/Blank cells).
    Char { steps: Vec<char>, from_char: char },
    /// Cycling through colors (for Color cells).
    ColorCycle { steps: Vec<Color>, from_color: Color },
}

/// What a cell's animation shows: the characters or colours it flips
/// through, and what it started from.
#[allow(inconsistent_fields)]
pub enum Plan {
    Chars { steps: Seq<char>, from_char: char },
    Colors { steps: Seq<Color>, from_color: Color },
}

impl View for AnimationKind {
    type V = Plan;

    open spec fn view(&self) -> Plan {
        match self {
            AnimationKind::Char { steps, from_char } => Plan::Chars {
                steps: steps@,
                from_char: *from_char,
            },
            AnimationKind::ColorCycle { steps, from_color } => Plan::Colors {
                steps: steps@,
                from_color: *from_color,
            },
        }
    }
}

impl Plan {
    /// The number of flips.
    pub open spec fn count(self) -> nat {
        match self {
            Plan::Chars { steps, .. } => steps.len(),
            Plan::Colors { steps, .. } => steps.len(),
        }
    }

    /// What the cell shows before its animation starts.
    pub open spec fn before(self) -> CellDisplayState {
        match self {
            Plan::Chars { from_char, .. } => settled_char(from_char),
            Plan::Colors { from_color, .. } => CellDisplayState::Normal(CellContent::Color(from_color)),
        }
    }

    /// What the cell shows at flip `k` (before the last one).
    pub open spec fn flipping(self, k: int) -> CellDisplayState {
        match self {
            Plan::Chars { steps, .. } => CellDisplayState::Flipping(steps[k]),
            Plan::Colors { steps, .. } => CellDisplayState::FlippingColor(steps[k]),
        }
    }
}

/// The three colours after `c` in the cycle.
pub open spec fn three_after(c: Color) -> Seq<Color> {
    seq![color_after(color_pos(c), 0), color_after(color_pos(c), 1), color_after(color_pos(c), 2)]
}

/// The animation a cell gets when it goes from showing `from` to holding
/// `to`, if any:
/// - colour to a different colour: cycle through the colours between;
/// - colour to the same colour: none;
/// - a blank (or space) to a colour: a short ramp of colours from red;
/// - a character to a colour: flip through the characters to the space;
/// - colour to a non-colour: three colours on from it;
/// - character to a different character: flip forward to it;
/// - same character but different content (blank versus space, a
///   mid-flip cell): a short flip through `A`;
/// - otherwise none.
pub open spec fn plan(from: CellDisplayState, to: CellContent) -> Option<Plan> {
    let to_color = match to {
        CellContent::Color(c) => Some(c),
        _ => None,
    };
    match (shown_color(from), to_color) {
        (Some(fc), Some(tc)) => if fc != tc {
            Some(Plan::Colors { steps: color_steps(fc, tc), from_color: fc })
        } else {
            None
        },
        (None, Some(tc)) => {
            let ch = shown_char(from);
            if ch == ' ' {
                Some(
                    Plan::Colors {
                        steps: seq![Color::Red] + color_steps(Color::Red, tc),
                        from_color: Color::Red,
                    },
                )
            } else {
                Some(Plan::Chars { steps: cycle_steps(ch, ' '), from_char: ch })
            }
        },
        (Some(fc), None) => Some(Plan::Colors { steps: three_after(fc), from_color: fc }),
        (None, None) => {
            let f = shown_char(from);
            let t = content_char(to);
            if f != t {
                Some(Plan::Chars { steps: cycle_steps(f, t), from_char: f })
            } else if state_differs(from, to) {
                Some(Plan::Chars { steps: seq!['A', t], from_char: f })
            } else {
                None
            }
        },
    }
}

/// Per-cell animation state.
#[derive(Debug)]
pub struct CellAnimation {
    pub kind: AnimationKind,
    /// When this cell's animation was created (used with `delay` to compute start).
    pub created_at: u64,
    /// Cascade delay before this cell starts cycling.
    pub delay: u64,
    /// The target cell content (for producing the final `CellDisplayState`).
    pub target: CellContent,
}

impl CellAnimation {
    /// When the cell starts flipping.
    pub open spec fn start(&self) -> int {
        self.created_at + self.delay
    }

    pub fn step_count(&self) -> (n: usize)
        ensures
            n == self.kind@.count(),
    {
        match &self.kind {
            AnimationKind::Char { steps, .. } => steps.len(),
            AnimationKind::ColorCycle { steps, .. } => steps.len(),
        }
    }
}

/// What a cell shows at time `now`: its target when it has no animation;
/// else what it started from before its start, then the flip reached after
/// whole steps of `step` nanoseconds, and its target from the last step on.
pub open spec fn sample_at(
    anim: Option<CellAnimation>,
    target: CellContent,
    step: u64,
    now: u64,
) -> CellDisplayState {
    match anim {
        None => CellDisplayState::Normal(target),
        Some(a) => if now < a.start() {
            a.kind@.before()
        } else if a.kind@.count() == 0 {
            CellDisplayState::Normal(a.target)
        } else {
            let idx = (((now - a.start()) / (step as int)) as u64) as usize;
            if idx >= a.kind@.count() - 1 {
                CellDisplayState::Normal(a.target)
            } else {
                a.kind@.flipping(idx as int)
            }
        },
    }
}

/// Builds the animation for one cell, if it needs one.
fn plan_cell(from_state: &CellDisplayState, to_content: CellContent, created_at: u64, delay: u64) -> (a: Option<CellAnimation>)
    ensures
        match a {
            None => plan(*from_state, to_content) is None,
            Some(a) => {
                &&& plan(*from_state, to_content) == Some(a.kind@)
                &&& a.created_at == created_at
                &&& a.delay == delay
                &&& a.target == to_content
            },
        },
{
    let from_color = display_color(from_state);
    let to_color = match to_content {
        CellContent::Color(c) => Some(c),
        _ => None,
    };
    match (from_color, to_color) {
        (Some(fc), Some(tc)) => {
            if fc != tc {
                let steps = color_cycling_steps(&fc, &tc);
                Some(CellAnimation {
                    kind: AnimationKind::ColorCycle { steps, from_color: fc },
                    created_at,
                    delay,
                    target: to_content,
                })
            } else {
                None
            }
        },
        (None, Some(tc)) => {
            let from_ch = display_char(from_state);
            if from_ch == ' ' {
                let steps = color_cycling_steps(&Color::Red, &tc);
                let mut full = Vec::new();
                full.push(Color::Red);
                let mut i: usize = 0;
                while i < steps.len()
                    invariant
                        0 <= i <= steps@.len(),
                        full@ == seq![Color::Red] + steps@.take(i as int),
                    decreases steps@.len() - i,
                {
                    full.push(steps[i]);
                    i = i + 1;
                    assert(full@ =~= seq![Color::Red] + steps@.take(i as int));
                }
                assert(steps@.take(steps@.len() as int) == steps@);
                Some(CellAnimation {
                    kind: AnimationKind::ColorCycle { steps: full, from_color: Color::Red },
                    created_at,
                    delay,
                    target: to_content,
                })
            } else {
                let steps = cycling_steps(from_ch, ' ');
                Some(CellAnimation {
                    kind: AnimationKind::Char { steps, from_char: from_ch },
                    created_at,
                    delay,
                    target: to_content,
                })
            }
        },
        (Some(fc), None) => {
            let f = color_index(&fc);
            let mut color_steps: Vec<Color> = Vec::new();
            color_steps.push(color_at_offset(f, 0));
            color_steps.push(color_at_offset(f, 1));
            color_steps.push(color_at_offset(f, 2));
            assert(color_steps@ =~= three_after(fc));
            Some(CellAnimation {
                kind: AnimationKind::ColorCycle { steps: color_steps, from_color: fc },
                created_at,
                delay,
                target: to_content,
            })
        },
        (None, None) => {
            let from_ch = display_char(from_state);
            let to_ch = target_char(&to_content);
            if from_ch != to_ch {
                let steps = cycling_steps(from_ch, to_ch);
                Some(CellAnimation {
                    kind: AnimationKind::Char { steps, from_char: from_ch },
                    created_at,
                    delay,
                    target: to_content,
                })
            } else if from_state_differs_from_target(from_state, &to_content) {
                let mut steps = Vec::new();
                steps.push('A');
                steps.push(to_ch);
                assert(steps@ =~= seq!['A', to_ch]);
                Some(CellAnimation {
                    kind: AnimationKind::Char { steps, from_char: from_ch },
                    created_at,
                    delay,
                    target: to_content,
                })
            } else {
                None
            }
        },
    }
}

} // verus!

verus! {

/// Manages the animation of the full board transitioning from one state to another.
#[derive(Debug)]
pub struct BoardAnimation {
    pub cells: Vec<Vec<Option<CellAnimation>>>,
    /// When this animation was created — used as the reference point for sampling.
    pub created_at: u64,
    pub step_duration: u64,
    /// The target board state (for cells with no animation).
    pub target: BoardState,
}

/// Whether `(r2, c2)` comes before `(r, c)` in row-major order.
pub open spec fn row_major_before(r2: int, c2: int, r: int, c: int) -> bool {
    r2 < r || (r2 == r && c2 < c)
}

impl BoardAnimation {
    /// The animation of cell `(r, c)`, if it has one.
    pub open spec fn anim(&self, r: int, c: int) -> Option<CellAnimation> {
        self.cells@[r]@[c]
    }

    /// Whether cell `(r, c)` has an animation with at least one flip.
    pub open spec fn counted(&self, r: int, c: int) -> bool {
        self.anim(r, c) matches Some(a) && a.kind@.count() > 0
    }

    /// Whether the animation has a board of cells, a well-formed target and
    /// start times that fit the clock.
    pub open spec fn wf(&self) -> bool {
        &&& self.cells@.len() == BOARD_ROWS
        &&& forall|r: int| 0 <= r < BOARD_ROWS ==> #[trigger] self.cells@[r]@.len() == BOARD_COLS
        &&& well_formed(self.target.grid@)
        &&& forall|r: int, c: int|
            0 <= r < BOARD_ROWS && 0 <= c < BOARD_COLS && #[trigger] self.anim(r, c) is Some
                ==> self.anim(r, c)->0.start() <= u64::MAX
    }

    /// Whether every cell's animation is the one planned for going from
    /// display `from` to grid `to`, created at `now`, with the cascade
    /// delay `stagger` per column.
    pub open spec fn planned(
        &self,
        from: Seq<Seq<CellDisplayState>>,
        to: Seq<Seq<CellContent>>,
        stagger: u64,
        now: u64,
    ) -> bool {
        forall|r: int, c: int|
            0 <= r < BOARD_ROWS && 0 <= c < BOARD_COLS ==> match #[trigger] self.anim(r, c) {
                None => plan(from[r][c], to[r][c]) is None,
                Some(a) => {
                    &&& plan(from[r][c], to[r][c]) == Some(a.kind@)
                    &&& a.created_at == now
                    &&& a.delay == stagger * c
                    &&& a.target == to[r][c]
                },
            }
    }

    /// Cell `(r, c)` as shown at `now`.
    pub open spec fn sample_cell_at(&self, r: int, c: int, now: u64) -> CellDisplayState {
        sample_at(self.anim(r, c), self.target.grid@[r][c], self.step_duration, now)
    }

    /// The whole board as shown at `now`.
    pub open spec fn sampled(&self, now: u64) -> Seq<Seq<CellDisplayState>> {
        Seq::new(
            BOARD_ROWS as nat,
            |r: int| Seq::new(BOARD_COLS as nat, |c: int| self.sample_cell_at(r, c, now)),
        )
    }

    /// Whether sampling at `now` divides by the step length: some cell with
    /// flips has started.
    pub open spec fn divides_at(&self, now: u64) -> bool {
        exists|r: int, c: int|
            0 <= r < BOARD_ROWS && 0 <= c < BOARD_COLS && #[trigger] self.counted(r, c) && now
                >= self.anim(r, c)->0.start()
    }

    /// Whether every cell with flips has started and reached its last flip
    /// by `now`.
    pub open spec fn done_at(&self, now: u64) -> bool {
        forall|r: int, c: int|
            0 <= r < BOARD_ROWS && 0 <= c < BOARD_COLS && #[trigger] self.counted(r, c) ==> {
                let a = self.anim(r, c)->0;
                &&& now >= a.start()
                &&& (((now - a.start()) / (self.step_duration as int)) as u64) as usize >= a.kind@.count() - 1
            }
    }

    /// Whether checking completion at `now` divides by the step length:
    /// the first cell with flips, in row-major order, has started.
    pub open spec fn completion_divides_at(&self, now: u64) -> bool {
        exists|r: int, c: int|
            0 <= r < BOARD_ROWS && 0 <= c < BOARD_COLS && #[trigger] self.counted(r, c) && now
                >= self.anim(r, c)->0.start() && forall|r2: int, c2: int|
                0 <= r2 < BOARD_ROWS && 0 <= c2 < BOARD_COLS && row_major_before(r2, c2, r, c)
                    && #[trigger] self.counted(r2, c2) ==> now >= self.anim(r2, c2)->0.start()
    }

    /// Create a new board animation transitioning from the current display to a new target.
    ///
    /// - `from`: the currently rendered `DisplayGrid` (handles mid-animation restarts)
    /// - `to`: the new target `BoardState`
    /// - `step_duration`: time per character step (~50ms)
    /// - `stagger_per_column`: cascade delay between columns (~20ms)
    /// - `now`: the current time, which the animation counts from
    pub fn new(
        from: &DisplayGrid,
        to: &BoardState,
        step_duration: u64,
        stagger_per_column: u64,
        now: u64,
    ) -> (anim: BoardAnimation)
        requires
            display_well_formed(from@),
            well_formed(to.grid@),
            now + stagger_per_column * (BOARD_COLS - 1) <= u64::MAX,
        ensures
            anim.wf(),
            anim.planned(from@, to.grid@, stagger_per_column, now),
            anim.created_at == now,
            anim.step_duration == step_duration,
            anim.target.grid@ == to.grid@,
            anim.target.previous_grid@ == to.previous_grid@,
            anim.target.timestamp == to.timestamp,
            anim.target.theme == to.theme,
    {
        let mut cells: Vec<Vec<Option<CellAnimation>>> = Vec::new();
        let mut row: usize = 0;
        while row < BOARD_ROWS
            invariant
                0 <= row <= BOARD_ROWS,
                display_well_formed(from@),
                well_formed(to.grid@),
                now + stagger_per_column * (BOARD_COLS - 1) <= u64::MAX,
                cells@.len() == row,
                forall|r: int| 0 <= r < row ==> #[trigger] cells@[r]@.len() == BOARD_COLS,
                forall|r: int, c: int|
                    0 <= r < row && 0 <= c < BOARD_COLS ==> match #[trigger] cells@[r]@[c] {
                        None => plan(from@[r][c], to.grid@[r][c]) is None,
                        Some(a) => {
                            &&& plan(from@[r][c], to.grid@[r][c]) == Some(a.kind@)
                            &&& a.created_at == now
                            &&& a.delay == stagger_per_column * c
                            &&& a.target == to.grid@[r][c]
                        },
                    },
            decreases BOARD_ROWS - row,
        {
            let mut row_cells: Vec<Option<CellAnimation>> = Vec::new();
            let mut col: usize = 0;
            while col < BOARD_COLS
                invariant
                    0 <= row < BOARD_ROWS,
                    0 <= col <= BOARD_COLS,
                    display_well_formed(from@),
                    well_formed(to.grid@),
                    now + stagger_per_column * (BOARD_COLS - 1) <= u64::MAX,
                    row_cells@.len() == col,
                    forall|c: int| 0 <= c < col ==> match #[trigger] row_cells@[c] {
                        None => plan(from@[row as int][c], to.grid@[row as int][c]) is None,
                        Some(a) => {
                            &&& plan(from@[row as int][c], to.grid@[row as int][c]) == Some(a.kind@)
                            &&& a.created_at == now
                            &&& a.delay == stagger_per_column * c
                            &&& a.target == to.grid@[row as int][c]
                        },
                    },
                decreases BOARD_COLS - col,
            {
                assert(from@[row as int] == from.cells@[row as int]@);
                assert(to.grid@[row as int] == to.grid.0@[row as int]@);
                let from_state = &from.cells[row][col];
                let to_content = to.grid.0[row][col];
                assert(stagger_per_column * col <= stagger_per_column * (BOARD_COLS - 1)) by (nonlinear_arith)
                    requires
                        col <= BOARD_COLS - 1,
                ;
                let delay = stagger_per_column * (col as u64);
                let anim = plan_cell(from_state, to_content, now, delay);
                row_cells.push(anim);
                col = col + 1;
            }
            cells.push(row_cells);
            row = row + 1;
        }
        let anim = BoardAnimation { cells, created_at: now, step_duration, target: to.clone() };
        assert forall|r: int, c: int|
            0 <= r < BOARD_ROWS && 0 <= c < BOARD_COLS && #[trigger] anim.anim(r, c) is Some
                implies anim.anim(r, c)->0.start() <= u64::MAX by {
            let a = anim.anim(r, c)->0;
            assert(stagger_per_column * c <= stagger_per_column * (BOARD_COLS - 1)) by (nonlinear_arith)
                requires
                    c <= BOARD_COLS - 1,
            ;
        }
        anim
    }

    /// Returns true if there are any animated cells (boards were not identical).
    pub fn has_changes(&self) -> (b: bool)
        requires
            self.wf(),
        ensures
            b == exists|r: int, c: int|
                0 <= r < BOARD_ROWS && 0 <= c < BOARD_COLS && #[trigger] self.anim(r, c) is Some,
    {
        let mut r: usize = 0;
        while r < BOARD_ROWS
            invariant
                0 <= r <= BOARD_ROWS,
                self.wf(),
                forall|r2: int, c2: int|
                    0 <= r2 < r && 0 <= c2 < BOARD_COLS ==> #[trigger] self.anim(r2, c2) is None,
            decreases BOARD_ROWS - r,
        {
            let mut c: usize = 0;
            while c < BOARD_COLS
                invariant
                    0 <= r < BOARD_ROWS,
                    0 <= c <= BOARD_COLS,
                    self.wf(),
                    forall|c2: int| 0 <= c2 < c ==> #[trigger] self.anim(r as int, c2) is None,
                decreases BOARD_COLS - c,
            {
                if self.cells[r][c].is_some() {
                    assert(self.anim(r as int, c as int) is Some);
                    return true;
                }
                c = c + 1;
            }
            r = r + 1;
        }
        false
    }

    /// Get the target board state this animation is transitioning to.
    pub fn target(&self) -> (t: &BoardState)
        ensures
            t == &self.target,
    {
        &self.target
    }

    /// Sample a single cell's animation state at a given instant.
    fn sample_cell(&self, row: usize, col: usize, now: u64) -> (s: CellDisplayState)
        requires
            self.wf(),
            row < BOARD_ROWS,
            col < BOARD_COLS,
            self.step_duration > 0 || !(self.counted(row as int, col as int) && now >= self.anim(
                row as int,
                col as int,
            )->0.start()),
        ensures
            s == self.sample_cell_at(row as int, col as int, now),
    {
        assert(self.target.grid@[row as int] == self.target.grid.0@[row as int]@);
        match &self.cells[row][col] {
            None => CellDisplayState::Normal(self.target.grid.0[row][col]),
            Some(anim) => {
                let effective_start = anim.created_at + anim.delay;
                if now < effective_start {
                    match &anim.kind {
                        AnimationKind::Char { from_char, .. } => cell_display_for_char(*from_char),
                        AnimationKind::ColorCycle { from_color, .. } => {
                            CellDisplayState::Normal(CellContent::Color(*from_color))
                        },
                    }
                } else if anim.step_count() == 0 {
                    CellDisplayState::Normal(anim.target)
                } else {
                    let elapsed = now - effective_start;
                    let step_idx = (#[verifier::truncate] ((elapsed / self.step_duration) as usize));
                    if step_idx >= anim.step_count() - 1 {
                        CellDisplayState::Normal(anim.target)
                    } else {
                        match &anim.kind {
                            AnimationKind::Char { steps, .. } => {
                                CellDisplayState::Flipping(steps[step_idx])
                            },
                            AnimationKind::ColorCycle { steps, .. } => {
                                CellDisplayState::FlippingColor(steps[step_idx])
                            },
                        }
                    }
                }
            },
        }
    }

    /// Sample the animation at a given instant, producing the current `DisplayGrid`.
    pub fn sample(&self, now: u64) -> (d: DisplayGrid)
        requires
            self.wf(),
            self.step_duration > 0 || !self.divides_at(now),
        ensures
            d@ == self.sampled(now),
    {
        let mut grid_cells: Vec<Vec<CellDisplayState>> = Vec::new();
        let mut row: usize = 0;
        while row < BOARD_ROWS
            invariant
                0 <= row <= BOARD_ROWS,
                self.wf(),
                self.step_duration > 0 || !self.divides_at(now),
                grid_cells@.len() == row,
                forall|r: int| 0 <= r < row ==> #[trigger] grid_cells@[r]@ == self.sampled(now)[r],
            decreases BOARD_ROWS - row,
        {
            let mut row_cells: Vec<CellDisplayState> = Vec::new();
            let mut col: usize = 0;
            while col < BOARD_COLS
                invariant
                    0 <= row < BOARD_ROWS,
                    0 <= col <= BOARD_COLS,
                    self.wf(),
                    self.step_duration > 0 || !self.divides_at(now),
                    row_cells@ == Seq::new(col as nat, |c: int| self.sample_cell_at(row as int, c, now)),
                decreases BOARD_COLS - col,
            {
                let s = self.sample_cell(row, col, now);
                row_cells.push(s);
                col = col + 1;
                assert(row_cells@ =~= Seq::new(col as nat, |c: int| self.sample_cell_at(row as int, c, now)));
            }
            assert(row_cells@ =~= self.sampled(now)[row as int]);
            grid_cells.push(row_cells);
            row = row + 1;
        }
        let d = DisplayGrid { cells: grid_cells };
        assert(d@ =~= self.sampled(now));
        d
    }

    /// Sample the animation at a given instant, writing into an existing `DisplayGrid`
    /// to avoid per-frame allocation.
    pub fn sample_into(&self, now: u64, display: &mut DisplayGrid)
        requires
            self.wf(),
            self.step_duration > 0 || !self.divides_at(now),
            display_well_formed(old(display)@),
        ensures
            final(display)@ == self.sampled(now),
    {
        let mut row: usize = 0;
        while row < BOARD_ROWS
            invariant
                0 <= row <= BOARD_ROWS,
                self.wf(),
                self.step_duration > 0 || !self.divides_at(now),
                display_well_formed(display@),
                forall|r: int| 0 <= r < row ==> #[trigger] display@[r] == self.sampled(now)[r],
            decreases BOARD_ROWS - row,
        {
            let mut col: usize = 0;
            while col < BOARD_COLS
                invariant
                    0 <= row < BOARD_ROWS,
                    0 <= col <= BOARD_COLS,
                    self.wf(),
                    self.step_duration > 0 || !self.divides_at(now),
                    display_well_formed(display@),
                    forall|r: int| 0 <= r < row ==> #[trigger] display@[r] == self.sampled(now)[r],
                    forall|c: int| 0 <= c < col ==> #[trigger] display@[row as int][c] == self.sample_cell_at(row as int, c, now),
                decreases BOARD_COLS - col,
            {
                let s = self.sample_cell(row, col, now);
                display.set(row, col, s);
                col = col + 1;
            }
            assert(display@[row as int] =~= self.sampled(now)[row as int]);
            row = row + 1;
        }
        assert(display@ =~= self.sampled(now));
    }

    /// Returns `true` when all cells have finished their animation.
    pub fn is_complete(&self, now: u64) -> (b: bool)
        requires
            self.wf(),
            self.step_duration > 0 || !self.completion_divides_at(now),
        ensures
            b == self.done_at(now),
    {
        let mut r: usize = 0;
        while r < BOARD_ROWS
            invariant
                0 <= r <= BOARD_ROWS,
                self.wf(),
                self.step_duration > 0 || !self.completion_divides_at(now),
                forall|r2: int, c2: int|
                    0 <= r2 < r && 0 <= c2 < BOARD_COLS && #[trigger] self.counted(r2, c2) ==> {
                        let a = self.anim(r2, c2)->0;
                        &&& now >= a.start()
                        &&& (((now - a.start()) / (self.step_duration as int)) as u64) as usize >= a.kind@.count() - 1
                    },
            decreases BOARD_ROWS - r,
        {
            let mut c: usize = 0;
            while c < BOARD_COLS
                invariant
                    0 <= r < BOARD_ROWS,
                    0 <= c <= BOARD_COLS,
                    self.wf(),
                    self.step_duration > 0 || !self.completion_divides_at(now),
                    forall|r2: int, c2: int|
                        0 <= r2 < BOARD_ROWS && 0 <= c2 < BOARD_COLS && row_major_before(r2, c2, r as int, c as int) && #[trigger] self.counted(r2, c2) ==> {
                            let a = self.anim(r2, c2)->0;
                            &&& now >= a.start()
                            &&& (((now - a.start()) / (self.step_duration as int)) as u64) as usize >= a.kind@.count() - 1
                        },
                decreases BOARD_COLS - c,
            {
                match &self.cells[r][c] {
                    None => {},
                    Some(anim) => {
                        let count = anim.step_count();
                        if count != 0 {
                            assert(self.anim(r as int, c as int) is Some);
                            let effective_start = anim.created_at + anim.delay;
                            if now < effective_start {
                                assert(self.counted(r as int, c as int));
                                return false;
                            }
                            if self.step_duration == 0 {
                                assert(self.completion_divides_at(now)) by {
                                    assert(self.counted(r as int, c as int));
                                }
                            }
                            let steps_completed = (#[verifier::truncate] (((now - effective_start) / self.step_duration) as usize));
                            if steps_completed < count - 1 {
                                assert(self.counted(r as int, c as int));
                                return false;
                            }
                        }
                    },
                }
                c = c + 1;
            }
            r = r + 1;
        }
        true
    }
}

} // verus!

verus! {

proof fn lemma_char_set_flap()
    ensures
        forall|i: int| 0 <= i < 57 ==> is_flap_char(#[trigger] CHAR_SET@[i]),
{
    assert forall|i: int| 0 <= i < 57 implies is_flap_char(#[trigger] CHAR_SET@[i]) by {
        if i < 10 {
        } else if i < 20 {
        } else if i < 30 {
        } else if i < 40 {
        } else if i < 50 {
        } else {
        }
    }
}

/// The characters of the flap cycle are exactly the split-flap character
/// set that text is normalised to, so every character laid out from text
/// flips forward through the cycle rather than snapping.
pub proof fn lemma_char_set_is_flap_set(c: char)
    ensures
        is_flap_char(c) <==> char_pos(c) is Some,
{
    lemma_first_index(CHAR_SET@, c, 0);
    lemma_char_set_flap();
    if is_flap_char(c) {
        assert(exists|i: int| 0 <= i < 57 && CHAR_SET@[i] == c);
    }
}

proof fn lemma_positions_distinct(a: char, b: char)
    requires
        a != b,
        char_pos(a) is Some,
        char_pos(b) is Some,
    ensures
        char_pos(a)->0 != char_pos(b)->0,
{
    lemma_first_index(CHAR_SET@, a, 0);
    lemma_first_index(CHAR_SET@, b, 0);
}

/// Flipping from one character to another cycles forward one flap at a
/// time and ends on the target: at least one flip, the last flip is `to`,
/// and, for characters of the cycle, each flip is the one after the
/// previous.
pub proof fn lemma_cycle_steps_reach_target(from: char, to: char)
    requires
        from != to,
    ensures
        cycle_steps(from, to).len() >= 1,
        cycle_steps(from, to).last() == to,
        char_pos(from) is Some && char_pos(to) is Some ==> (forall|k: int|
            0 <= k < cycle_steps(from, to).len() ==> #[trigger] cycle_steps(from, to)[k] == char_after(
                char_pos(from)->0,
                k,
            )),
{
    if char_pos(from) is Some && char_pos(to) is Some {
        lemma_positions_distinct(from, to);
        lemma_first_index(CHAR_SET@, to, 0);
        lemma_first_index(CHAR_SET@, from, 0);
        let f = char_pos(from)->0;
        let t = char_pos(to)->0;
        let n = (t - f + 57) % 57;
        assert(1 <= n <= 56);
        assert((f + 1 + (n - 1)) % 57 == t);
    }
}

/// Flipping between two different colours cycles forward and ends on the
/// target colour.
pub proof fn lemma_color_steps_reach_target(from: Color, to: Color)
    requires
        from != to,
    ensures
        color_steps(from, to).len() >= 1,
        color_steps(from, to).last() == to,
{
    let f = color_pos(from);
    let t = color_pos(to);
    let n = (t - f + 8) % 8;
    assert(1 <= n <= 7);
    assert((f + 1 + (n - 1)) % 8 == t);
    assert(COLOR_SET@[t] == to);
}

proof fn lemma_plan_counts(from: CellDisplayState, to: CellContent)
    ensures
        plan(from, to) matches Some(p) ==> p.count() >= 1,
{
    match plan(from, to) {
        Some(p) => {
            let to_color = match to {
                CellContent::Color(c) => Some(c),
                _ => None,
            };
            match (shown_color(from), to_color) {
                (Some(fc), Some(tc)) => lemma_color_steps_reach_target(fc, tc),
                (None, Some(tc)) => {
                    if shown_char(from) != ' ' {
                        lemma_cycle_steps_reach_target(shown_char(from), ' ');
                    }
                },
                (Some(fc), None) => {},
                (None, None) => {
                    if shown_char(from) != content_char(to) {
                        lemma_cycle_steps_reach_target(shown_char(from), content_char(to));
                    }
                },
            }
        },
        None => {},
    }
}

/// Once an animation is complete, sampling it shows every cell of the
/// target grid, settled.
pub proof fn lemma_complete_shows_target(
    anim: BoardAnimation,
    from: Seq<Seq<CellDisplayState>>,
    to: Seq<Seq<CellContent>>,
    stagger: u64,
    created: u64,
    now: u64,
)
    requires
        anim.wf(),
        anim.planned(from, to, stagger, created),
        anim.target.grid@ == to,
        anim.step_duration > 0,
        anim.done_at(now),
    ensures
        anim.sampled(now) == settled(to),
{
    assert(well_formed(to));
    assert forall|r: int| 0 <= r < BOARD_ROWS implies #[trigger] anim.sampled(now)[r] == settled(to)[r] by {
        assert forall|c: int| 0 <= c < BOARD_COLS implies #[trigger] anim.sampled(now)[r][c] == settled(
            to,
        )[r][c] by {
            match anim.anim(r, c) {
                None => {},
                Some(a) => {
                    lemma_plan_counts(from[r][c], to[r][c]);
                    assert(anim.counted(r, c));
                },
            }
        }
        assert(anim.sampled(now)[r] =~= settled(to)[r]);
    }
    assert(anim.sampled(now) =~= settled(to));
}

/// When the display already shows the target grid, no cell is animated.
pub proof fn lemma_no_change_no_animation(
    anim: BoardAnimation,
    to: Seq<Seq<CellContent>>,
    stagger: u64,
    created: u64,
)
    requires
        well_formed(to),
        anim.planned(settled(to), to, stagger, created),
    ensures
        forall|r: int, c: int|
            0 <= r < BOARD_ROWS && 0 <= c < BOARD_COLS ==> #[trigger] anim.anim(r, c) is None,
{
    assert forall|r: int, c: int| 0 <= r < BOARD_ROWS && 0 <= c < BOARD_COLS implies #[trigger] anim.anim(
        r,
        c,
    ) is None by {
        assert(settled(to)[r][c] == CellDisplayState::Normal(to[r][c]));
        match anim.anim(r, c) {
            None => {},
            Some(a) => {
                assert(plan(settled(to)[r][c], to[r][c]) is None);
            },
        }
    }
}

/// Whether a displayed cell already shows `to`, so that it needs no
/// animation: it shows `to` settled, or, for a colour tile, it is mid-flip
/// on that very colour.
pub open spec fn shows_already(from: CellDisplayState, to: CellContent) -> bool {
    ||| from == CellDisplayState::Normal(to)
    ||| (to matches CellContent::Color(k) && from == CellDisplayState::FlippingColor(k))
}

proof fn lemma_plan_none_iff_shown(from: CellDisplayState, to: CellContent)
    ensures
        plan(from, to) is None <==> shows_already(from, to),
{
}

/// A new board animation animates exactly the cells whose display does not
/// already show the target, so `has_changes` is true exactly when some cell
/// differs; for a display of settled cells, exactly where the display
/// differs from the target grid.
pub proof fn lemma_changes_exactly_where_display_differs(
    anim: BoardAnimation,
    from: Seq<Seq<CellDisplayState>>,
    to: Seq<Seq<CellContent>>,
    stagger: u64,
    created: u64,
)
    requires
        anim.planned(from, to, stagger, created),
    ensures
        forall|r: int, c: int|
            0 <= r < BOARD_ROWS && 0 <= c < BOARD_COLS ==> (#[trigger] anim.anim(r, c) is Some
                <==> !shows_already(from[r][c], to[r][c])),
        forall|r: int, c: int|
            0 <= r < BOARD_ROWS && 0 <= c < BOARD_COLS && (from[r][c] is Normal) ==> (
            #[trigger] anim.anim(r, c) is Some <==> from[r][c] != CellDisplayState::Normal(to[r][c])),
        (exists|r: int, c: int|
            0 <= r < BOARD_ROWS && 0 <= c < BOARD_COLS && #[trigger] anim.anim(r, c) is Some) <==> (
        exists|r: int, c: int|
            0 <= r < BOARD_ROWS && 0 <= c < BOARD_COLS && !shows_already(
                #[trigger] from[r][c],
                to[r][c],
            )),
{
    assert forall|r: int, c: int| 0 <= r < BOARD_ROWS && 0 <= c < BOARD_COLS implies (
    #[trigger] anim.anim(r, c) is Some <==> !shows_already(from[r][c], to[r][c])) by {
        lemma_plan_none_iff_shown(from[r][c], to[r][c]);
    }
    if exists|r: int, c: int|
        0 <= r < BOARD_ROWS && 0 <= c < BOARD_COLS && !shows_already(#[trigger] from[r][c], to[r][c]) {
        let (r, c) = choose|r: int, c: int|
            0 <= r < BOARD_ROWS && 0 <= c < BOARD_COLS && !shows_already(#[trigger] from[r][c], to[r][c]);
        assert(anim.anim(r, c) is Some);
    }
}

/// Once an animation is complete it stays complete: if every flipping cell
/// has reached its last flip at `t`, it has at every later `t2` (whose step
/// count fits a machine word).
pub proof fn lemma_complete_stays_complete(anim: BoardAnimation, t: u64, t2: u64)
    requires
        anim.wf(),
        anim.step_duration > 0,
        t <= t2,
        t2 / anim.step_duration <= usize::MAX,
        anim.done_at(t),
    ensures
        anim.done_at(t2),
{
    let step = anim.step_duration as int;
    assert forall|r: int, c: int|
        0 <= r < BOARD_ROWS && 0 <= c < BOARD_COLS && #[trigger] anim.counted(r, c) implies {
        let a = anim.anim(r, c)->0;
        &&& t2 >= a.start()
        &&& (((t2 - a.start()) / step) as u64) as usize >= a.kind@.count() - 1
    } by {
        let a = anim.anim(r, c)->0;
        let st = a.start();
        assert(t >= st);
        vstd::arithmetic::div_mod::lemma_div_is_ordered(t - st, t2 - st, step);
        vstd::arithmetic::div_mod::lemma_div_is_ordered(t2 - st, t2 as int, step);
        vstd::arithmetic::div_mod::lemma_div_pos_is_pos(t - st, step);
        let q1 = (t - st) / step;
        let q2 = (t2 - st) / step;
        assert(0 <= q1 <= q2 <= usize::MAX);
        assert((q1 as u64) as usize == q1);
        assert((q2 as u64) as usize == q2);
    }
}

/// A cell showing a character of the flap cycle other than the space, on
/// its way to a colour tile, first flips forward through the characters
/// after it, one position of the cycle at a time, down to the space (the
/// colour then comes with the last flip): exactly `57 - p` flips for the
/// character at position `p`, the `i`-th showing the character at position
/// `p + 1 + i` (around the cycle), the last one the space.
pub proof fn lemma_character_to_colour_flips_to_space(from: CellDisplayState, k: Color)
    requires
        shown_color(from) is None,
        shown_char(from) != ' ',
        char_pos(shown_char(from)) is Some,
    ensures
        ({
            let ch = shown_char(from);
            let p = char_pos(ch)->0;
            &&& 1 <= p < 57
            &&& plan(from, CellContent::Color(k)) matches Some(Plan::Chars { steps, from_char })
                && from_char == ch && steps.len() == 57 - p && steps.last() == ' ' && forall|i: int|
                0 <= i < steps.len() ==> #[trigger] steps[i] == CHAR_SET@[(p + 1 + i) % 57]
        }),
{
    let ch = shown_char(from);
    lemma_first_index(CHAR_SET@, ch, 0);
    lemma_first_index(CHAR_SET@, ' ', 0);
    assert(CHAR_SET@[0] == ' ');
    assert(char_pos(' ') == Some(0int));
    let p = char_pos(ch)->0;
    assert(p != 0);
    lemma_cycle_steps_reach_target(ch, ' ');
    let steps = cycle_steps(ch, ' ');
    assert(steps.len() == 57 - p);
    assert forall|i: int| 0 <= i < steps.len() implies #[trigger] steps[i] == CHAR_SET@[(p + 1 + i) % 57] by {
        assert(steps[i] == char_after(p, i));
    }
}

/// Colour tiles flip forward through the colour cycle: from one colour to
/// another, through the colours after it up to the target (the `i`-th
/// flip shows the colour `i + 1` places on), at most seven flips; to the
/// same colour, not at all; a colour tile becoming a character first shows
/// the next three colours; a blank cell becoming a colour ramps up from red
/// through the cycle to the target.
pub proof fn lemma_colour_plans(from: CellDisplayState, to: CellContent)
    ensures
        shown_color(from) matches Some(fc) ==> (to matches CellContent::Color(tc) ==> (if fc == tc {
            plan(from, to) is None
        } else {
            let f = color_pos(fc);
            plan(from, to) matches Some(Plan::Colors { steps, from_color }) && from_color == fc
                && 1 <= steps.len() <= 7 && steps.len() == (color_pos(tc) - f + 8) % 8 && steps.last()
                == tc && forall|i: int|
                0 <= i < steps.len() ==> #[trigger] steps[i] == COLOR_SET@[(f + 1 + i) % 8]
        })),
        shown_color(from) matches Some(fc) ==> (!(to is Color) ==> plan(from, to) == Some(
            Plan::Colors {
                steps: seq![
                    COLOR_SET@[(color_pos(fc) + 1) % 8],
                    COLOR_SET@[(color_pos(fc) + 2) % 8],
                    COLOR_SET@[(color_pos(fc) + 3) % 8],
                ],
                from_color: fc,
            },
        )),
        shown_color(from) is None && shown_char(from) == ' ' ==> (to matches CellContent::Color(tc) ==> (
        plan(from, to) matches Some(Plan::Colors { steps, from_color }) && from_color == Color::Red
            && steps.len() == 1 + color_pos(tc) && steps[0] == Color::Red && steps.last() == tc
            && forall|i: int| 1 <= i < steps.len() ==> #[trigger] steps[i] == COLOR_SET@[i])),
{
    if let Some(fc) = shown_color(from) {
        if let CellContent::Color(tc) = to {
            if fc != tc {
                lemma_color_steps_reach_target(fc, tc);
            }
        }
    }
    if shown_color(from) is None && shown_char(from) == ' ' {
        if let CellContent::Color(tc) = to {
            let steps = seq![Color::Red] + color_steps(Color::Red, tc);
            if tc != Color::Red {
                lemma_color_steps_reach_target(Color::Red, tc);
                assert(steps.last() == color_steps(Color::Red, tc).last());
            }
            assert forall|i: int| 1 <= i < steps.len() implies #[trigger] steps[i] == COLOR_SET@[i] by {
                assert(steps[i] == color_steps(Color::Red, tc)[i - 1]);
            }
        }
    }
}

/// A character flips forward through the character cycle to a different
/// target character: the `i`-th flip shows the character `i + 1` places
/// on, the last one the target, at most 56 flips, starting from the
/// character shown.
pub proof fn lemma_character_plans(from: CellDisplayState, to: CellContent)
    requires
        shown_color(from) is None,
        !(to is Color),
        shown_char(from) != content_char(to),
        char_pos(shown_char(from)) is Some,
        char_pos(content_char(to)) is Some,
    ensures
        ({
            let f = char_pos(shown_char(from))->0;
            let t = char_pos(content_char(to))->0;
            plan(from, to) matches Some(Plan::Chars { steps, from_char }) && from_char == shown_char(from)
                && 1 <= steps.len() <= 56 && steps.len() == (t - f + 57) % 57 && steps.last()
                == content_char(to) && forall|i: int|
                0 <= i < steps.len() ==> #[trigger] steps[i] == CHAR_SET@[(f + 1 + i) % 57]
        }),
{
    let a = shown_char(from);
    let b = content_char(to);
    lemma_cycle_steps_reach_target(a, b);
    lemma_positions_distinct(a, b);
    lemma_first_index(CHAR_SET@, a, 0);
    lemma_first_index(CHAR_SET@, b, 0);
    let steps = cycle_steps(a, b);
    assert forall|i: int| 0 <= i < steps.len() implies #[trigger] steps[i] == CHAR_SET@[(char_pos(a)->0 + 1 + i) % 57] by {
        assert(steps[i] == char_after(char_pos(a)->0, i));
    }
}

} // verus!
