//! The decisions of the server's background tasks: what the rotation task
//! does next, what a rotation tick does to the queue, how a countdown on
//! display reacts to reaching zero, when the expiry cleanup restarts the
//! rotation, and the board state that the current queue item gives.

use vstd::prelude::*;

use crate::board::{
    blank_grid, BoardState, Grid, QueueItemInfo, QueueItemKind, ThemeColors, ThemeKind, Timestamp,
};
use crate::countdown::{
    countdown_grid, formatted, remaining_secs, render_countdown_grid, Countdown, ZeroBehavior,
};
use crate::layout::splash;
use crate::queue::QueueItem;

verus! {

/// What the rotation task does next.
#[derive(Debug, Clone, Copy, PartialEq, Eq, Structural)]
pub enum RotationStep {
    /// Rotation is off (interval 0): wait until the configuration changes.
    WaitForConfig,
    /// Nothing to show: wait the interval, or until the timer is reset.
    WaitEmpty { secs: u64 },
    /// A countdown is on display: refresh it every second until the interval
    /// is over.
    CountdownMode { secs: u64 },
    /// A message is on display: wait the interval, then rotate.
    NormalMode { secs: u64 },
}

/// The next step of the rotation task, from the rotation interval and the
/// kind of the item on display (`None` for an empty queue).
pub fn next_rotation_step(interval_secs: u64, current: Option<QueueItemKind>) -> (s: RotationStep)
    ensures
        s == if interval_secs == 0 {
            RotationStep::WaitForConfig
        } else {
            match current {
                None => RotationStep::WaitEmpty { secs: interval_secs },
                Some(QueueItemKind::Countdown) => RotationStep::CountdownMode { secs: interval_secs },
                Some(QueueItemKind::Message) => RotationStep::NormalMode { secs: interval_secs },
            }
        },
{
    if interval_secs == 0 {
        return RotationStep::WaitForConfig;
    }
    match current {
        None => RotationStep::WaitEmpty { secs: interval_secs },
        Some(QueueItemKind::Countdown) => RotationStep::CountdownMode { secs: interval_secs },
        Some(QueueItemKind::Message) => RotationStep::NormalMode { secs: interval_secs },
    }
}

/// What to do when the rotation interval is over.
#[derive(Debug, Clone, Copy, PartialEq, Eq, Structural)]
pub enum TimerAction {
    /// The queue is empty: nothing.
    Nothing,
    /// Too few items to rotate: only expire messages; viewers are told when
    /// any expired, or always if `always_notify`.
    ExpireOnly { always_notify: bool },
    /// Expire messages and move to the next item, then tell viewers.
    Advance,
}

/// What the end of the rotation interval does to a queue of `queue_len`
/// items, when a message (`in_countdown` false) or a countdown is on
/// display.
pub fn on_rotation_timer(queue_len: usize, in_countdown: bool) -> (a: TimerAction)
    ensures
        a == if in_countdown {
            if queue_len <= 1 {
                TimerAction::ExpireOnly { always_notify: true }
            } else {
                TimerAction::Advance
            }
        } else if queue_len == 0 {
            TimerAction::Nothing
        } else if queue_len == 1 {
            TimerAction::ExpireOnly { always_notify: false }
        } else {
            TimerAction::Advance
        },
        a is Advance <==> queue_len >= 2,
{
    if in_countdown {
        if queue_len <= 1 {
            TimerAction::ExpireOnly { always_notify: true }
        } else {
            TimerAction::Advance
        }
    } else if queue_len == 0 {
        TimerAction::Nothing
    } else if queue_len == 1 {
        TimerAction::ExpireOnly { always_notify: false }
    } else {
        TimerAction::Advance
    }
}

/// Whether viewers are told of the board after expiring `deleted` messages.
pub fn notify_after_expiry(deleted: u64, always_notify: bool) -> (b: bool)
    ensures
        b == (always_notify || deleted > 0),
{
    always_notify || deleted > 0
}

/// What a countdown on display does on its one-second refresh.
#[derive(Debug, Clone, Copy, PartialEq, Eq, Structural)]
pub enum RefreshAction {
    /// Tell viewers of the board, and keep refreshing.
    Notify,
    /// Remove the countdown, move to the next item, tell viewers; stop.
    RemoveAndAdvance,
    /// Tell viewers, then wait until the rotation timer is reset; stop.
    NotifyAndPause,
}

/// Whether a countdown to `target` has reached zero at `now`.
pub open spec fn reached(target: Timestamp, now: Timestamp) -> bool {
    !target.later_than(now)
}

/// The refresh of a countdown: the first refresh at or after its target
/// applies its zero behaviour (show zero or a message: tell viewers and keep
/// refreshing, the board then showing zero or the message, see
/// `content_grid`; remove; pause); every other refresh only tells viewers. Returns whether
/// the countdown is at zero afterwards, and the action.
pub fn on_refresh_tick(is_at_zero: bool, target: Timestamp, now: Timestamp, zero: &ZeroBehavior) -> (r: (
    bool,
    RefreshAction,
))
    ensures
        r.0 == (is_at_zero || reached(target, now)),
        (!is_at_zero && reached(target, now)) ==> r.1 == match *zero {
            ZeroBehavior::ShowZero => RefreshAction::Notify,
            ZeroBehavior::ShowMessage { .. } => RefreshAction::Notify,
            ZeroBehavior::Remove => RefreshAction::RemoveAndAdvance,
            ZeroBehavior::Pause => RefreshAction::NotifyAndPause,
        },
        (is_at_zero || !reached(target, now)) ==> r.1 == RefreshAction::Notify,
{
    if !is_at_zero && !target.is_after(&now) {
        let action = match zero {
            ZeroBehavior::ShowZero => RefreshAction::Notify,
            ZeroBehavior::ShowMessage { .. } => RefreshAction::Notify,
            ZeroBehavior::Remove => RefreshAction::RemoveAndAdvance,
            ZeroBehavior::Pause => RefreshAction::NotifyAndPause,
        };
        (true, action)
    } else {
        (is_at_zero, RefreshAction::Notify)
    }
}

/// Whether the expiry cleanup restarts the rotation: some messages expired,
/// an item was on display before, and afterwards another item is current or
/// the queue is empty. `after` is `None` when the current item could not be
/// read again.
pub fn cleanup_resets_rotation(expired: u64, before: Option<u128>, after: Option<Option<u128>>) -> (b:
    bool)
    ensures
        b == (expired > 0 && match before {
            Some(prev) => match after {
                Some(Some(id)) => id != prev,
                Some(None) => true,
                None => false,
            },
            None => false,
        }),
{
    if expired == 0 {
        return false;
    }
    match before {
        Some(prev) => match after {
            Some(Some(id)) => id != prev,
            Some(None) => true,
            None => false,
        },
        None => false,
    }
}

/// The content of the item on display, as read from the store: a message's
/// grid, or a countdown; `None` where the item was not found.
#[derive(Debug)]
pub enum ItemContent {
    Message(Option<Grid>),
    Countdown(Option<Countdown>),
}

/// The grid that the content of the item on display gives at `now`: a
/// countdown shows its remaining time, except one that shows a message at
/// zero and has reached its target, which shows that message.
pub open spec fn content_grid(content: ItemContent, now: Timestamp) -> Seq<Seq<crate::board::CellContent>> {
    match content {
        ItemContent::Message(Some(g)) => g@,
        ItemContent::Message(None) => blank_grid(),
        ItemContent::Countdown(Some(cd)) => if reached(cd.target, now)
            && cd.zero_behavior is ShowMessage {
            cd.zero_behavior->grid@
        } else {
            countdown_grid(
                cd.label@,
                formatted(cd.format_template@, remaining_secs(cd.target, now)),
            )
        },
        ItemContent::Countdown(None) => blank_grid(),
    }
}

/// Build the current board state from the item on display: with no item,
/// the splash board with the default theme; else the item's grid, the item
/// itself, and the configured theme.
pub fn board_state_for(
    item: Option<&QueueItem>,
    content: ItemContent,
    now: Timestamp,
    theme: ThemeKind,
    theme_colors: Option<ThemeColors>,
) -> (s: BoardState)
    requires
        content matches ItemContent::Countdown(Some(cd)) ==> cd.target.secs - now.secs <= i64::MAX - 8,
    ensures
        s.previous_grid@ == blank_grid(),
        s.timestamp == now,
        match item {
            None => {
                &&& s.grid@ == splash()
                &&& s.current_item is None
                &&& s.theme == ThemeKind::Dark
                &&& s.theme_colors is None
            },
            Some(it) => {
                &&& s.grid@ == content_grid(content, now)
                &&& s.current_item matches Some(info) && info.id == it.id && info.kind == it.kind
                    && info.label@ == it.label@
                &&& s.theme == theme
                &&& s.theme_colors == theme_colors
            },
        },
{
    let it = match item {
        None => return BoardState::splash(now),
        Some(it) => it,
    };
    let grid = match &content {
        ItemContent::Message(Some(g)) => g.clone(),
        ItemContent::Message(None) => Grid::blank(),
        ItemContent::Countdown(Some(cd)) => {
            let at_zero = !cd.target.is_after(&now);
            match &cd.zero_behavior {
                ZeroBehavior::ShowMessage { grid } => {
                    if at_zero {
                        grid.clone()
                    } else {
                        render_countdown_grid(cd, now)
                    }
                },
                _ => render_countdown_grid(cd, now),
            }
        },
        ItemContent::Countdown(None) => Grid::blank(),
    };
    BoardState {
        grid,
        previous_grid: Grid::blank(),
        current_item: Some(QueueItemInfo { id: it.id, kind: it.kind, label: it.label.clone() }),
        timestamp: now,
        theme,
        theme_colors,
    }
}

} // verus!
