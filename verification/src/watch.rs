//! The decisions of the terminal viewer's loop: what is on screen after a
//! board update, a timer tick or a resize, how long to wait between ticks,
//! and which keys quit. Times are nanoseconds of the monotonic clock.

use vstd::prelude::*;

use crate::animation::{
    display_well_formed, plan, settled, BoardAnimation, CellDisplayState, DisplayGrid,
};
use crate::board::{well_formed, BoardState, CellContent, BOARD_COLS, BOARD_ROWS};
use crate::cli::AnimationSpeed;

verus! {

/// One millisecond in nanoseconds.
pub const MILLIS: u64 = 1_000_000;

/// The latest instant at which an animation can start: the last column of
/// the slowest preset must still start within the clock's range.
pub const LATEST_START: u64 = 18_446_744_072_869_551_615;

/// Whether going from display `from` to grid `to` flips any cell.
pub open spec fn any_change(from: Seq<Seq<CellDisplayState>>, to: Seq<Seq<CellContent>>) -> bool {
    exists|r: int, c: int|
        0 <= r < BOARD_ROWS && 0 <= c < BOARD_COLS && #[trigger] plan(from[r][c], to[r][c]) is Some
}

/// The time of one flap step of `speed`, in nanoseconds.
pub open spec fn step_nanos(speed: AnimationSpeed) -> u64 {
    match speed {
        AnimationSpeed::Fast => 25_000_000,
        AnimationSpeed::Normal => 50_000_000,
        AnimationSpeed::Slow => 100_000_000,
        AnimationSpeed::Off => 0,
    }
}

/// The cascade delay per column of `speed`, in nanoseconds.
pub open spec fn stagger_nanos(speed: AnimationSpeed) -> u64 {
    match speed {
        AnimationSpeed::Fast => 10_000_000,
        AnimationSpeed::Normal => 20_000_000,
        AnimationSpeed::Slow => 40_000_000,
        AnimationSpeed::Off => 0,
    }
}

/// What the viewer shows: the display, and the animation in progress.
pub struct TuiState {
    pub display: DisplayGrid,
    pub animation: Option<BoardAnimation>,
}

impl TuiState {
    /// The display has the board's shape, and an animation in progress is
    /// well formed and takes time per step.
    pub open spec fn inv(&self) -> bool {
        &&& display_well_formed(self.display@)
        &&& self.animation matches Some(a) ==> a.wf() && a.step_duration > 0
    }

    /// What is on screen before `now` changes anything: the animation in
    /// progress as sampled at `now`, else the display.
    pub open spec fn visible_at(&self, now: u64) -> Seq<Seq<CellDisplayState>> {
        match self.animation {
            Some(a) => a.sampled(now),
            None => self.display@,
        }
    }

    /// The viewer showing `board` as it is, with nothing animating.
    pub fn new(board: &BoardState) -> (s: Self)
        requires
            well_formed(board.grid@),
        ensures
            s.inv(),
            s.display@ == settled(board.grid@),
            s.animation is None,
    {
        TuiState { display: DisplayGrid::from_board_state(board), animation: None }
    }

    /// A new board arrived at `now`. With animation off the display takes
    /// the board at once. Otherwise an animation starts from what is on
    /// screen now (mid-animation included); if it flips no cell, the display
    /// takes the board at once, else its first frame is shown.
    pub fn on_board_update(&mut self, new_board: &BoardState, speed: AnimationSpeed, now: u64)
        requires
            old(self).inv(),
            well_formed(new_board.grid@),
            now <= LATEST_START,
        ensures
            final(self).inv(),
            speed == AnimationSpeed::Off ==> final(self).animation is None && final(self).display@
                == settled(new_board.grid@),
            speed != AnimationSpeed::Off ==> {
                let from = old(self).visible_at(now);
                match final(self).animation {
                    Some(a) => {
                        &&& any_change(from, new_board.grid@)
                        &&& a.planned(from, new_board.grid@, stagger_nanos(speed), now)
                        &&& a.created_at == now
                        &&& a.step_duration == step_nanos(speed)
                        &&& a.target.grid@ == new_board.grid@
                        &&& final(self).display@ == a.sampled(now)
                    },
                    None => {
                        &&& !any_change(from, new_board.grid@)
                        &&& final(self).display@ == settled(new_board.grid@)
                    },
                }
            },
    {
        if speed == AnimationSpeed::Off {
            self.animation = None;
            self.display.fill_from_board_state(new_board);
            return;
        }
        if let Some(anim) = &self.animation {
            anim.sample_into(now, &mut self.display);
        }
        let ghost from = self.display@;
        let step = speed.step_duration() * MILLIS;
        let stagger = speed.stagger_per_column() * MILLIS;
        let new_anim = BoardAnimation::new(&self.display, new_board, step, stagger, now);
        let changes = new_anim.has_changes();
        proof {
            if changes {
                let (r, c) = choose|r: int, c: int|
                    0 <= r < BOARD_ROWS && 0 <= c < BOARD_COLS && #[trigger] new_anim.anim(r, c) is Some;
                assert(plan(from[r][c], new_board.grid@[r][c]) is Some);
            } else {
                assert forall|r: int, c: int|
                    0 <= r < BOARD_ROWS && 0 <= c < BOARD_COLS implies !(#[trigger] plan(
                        from[r][c],
                        new_board.grid@[r][c],
                    ) is Some) by {
                    assert(new_anim.anim(r, c) is None);
                }
            }
        }
        if changes {
            new_anim.sample_into(now, &mut self.display);
            self.animation = Some(new_anim);
        } else {
            self.animation = None;
            self.display.fill_from_board_state(new_board);
        }
    }

    /// A timer tick at `now`, `since_frame` after the last frame was drawn.
    /// An animation in progress is sampled when a whole tick has passed, and
    /// dropped once complete. Returns whether a frame was sampled.
    pub fn on_tick(&mut self, now: u64, since_frame: u64, tick: u64) -> (sampled: bool)
        requires
            old(self).inv(),
        ensures
            final(self).inv(),
            match old(self).animation {
                None => !sampled && final(self).display@ == old(self).display@
                    && final(self).animation is None,
                Some(a) => {
                    &&& sampled == (since_frame >= tick)
                    &&& final(self).display@ == if sampled {
                        a.sampled(now)
                    } else {
                        old(self).display@
                    }
                    &&& final(self).animation is None <==> a.done_at(now)
                    &&& final(self).animation is Some ==> final(self).animation == old(self).animation
                },
            },
    {
        let mut sampled = false;
        let mut done = false;
        if let Some(anim) = &self.animation {
            if since_frame >= tick {
                anim.sample_into(now, &mut self.display);
                sampled = true;
            }
            done = anim.is_complete(now);
        }
        if done {
            self.animation = None;
        }
        sampled
    }

    /// The terminal was resized: an animation in progress is cancelled and
    /// the display snaps to its target.
    pub fn on_resize(&mut self)
        requires
            old(self).inv(),
        ensures
            final(self).inv(),
            final(self).animation is None,
            match old(self).animation {
                Some(a) => final(self).display@ == settled(a.target.grid@),
                None => final(self).display@ == old(self).display@,
            },
    {
        if let Some(anim) = &self.animation {
            self.display.fill_from_board_state(anim.target());
        }
        self.animation = None;
    }
}

/// The wait between ticks, in milliseconds: a frame at `fps` frames per
/// second (at least one), and at most 20 ms while animating.
pub fn tick_millis(animating: bool, fps: u16) -> (ms: u64)
    ensures
        ({
            let normal = 1000int / (if fps == 0 {
                1
            } else {
                fps as int
            });
            ms == if animating && 20 < normal {
                20
            } else {
                normal
            }
        }),
{
    let f: u64 = if fps == 0 {
        1
    } else {
        fps as u64
    };
    let normal = 1000 / f;
    if animating && 20 < normal {
        20
    } else {
        normal
    }
}

/// Whether a key press quits the viewer: `q`, Escape, or Ctrl-C.
pub fn is_quit_key(key: Option<char>, is_escape: bool, control: bool) -> (b: bool)
    ensures
        b == (key == Some('q') || is_escape || (control && key == Some('c'))),
{
    match key {
        Some('q') => true,
        Some('c') => control || is_escape,
        _ => is_escape,
    }
}

} // verus!
