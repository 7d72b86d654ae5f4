//! Herald: the logic of a split-flap message board — text layout on a 6×22
//! grid, colour markup, countdown rendering, flip animation planning, queue
//! ordering and rate limiting — with its behaviour stated and proved.

pub mod animation;
pub mod api;
pub mod board;
pub mod cli;
pub mod client;
pub mod clock;
pub mod countdown;
pub mod dates;
pub mod layout;
pub mod markup;
pub mod queue;
pub mod rate_limit;
pub mod rotation;
pub mod terminal;
pub mod text;


pub mod web;
pub mod watch;
pub mod viewers;
