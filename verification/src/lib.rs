//! The rules behind `outpost`, which talks to a session on another machine.
//!
//! The program next door runs ssh, reads files and watches the clock. What sits
//! here is everything that decides: what to run on the far side and what its
//! answers mean in [`remote`], where to point in [`config`], what a command line
//! asks for in [`args`] and [`cli`], who said what in [`transcript`], when a
//! message counts as sent in [`send`], and when a wait is over in [`watch`].
//!
//! Every function states what it returns over a model of its arguments. What
//! holds across functions is stated by the proof functions whose names begin
//! with `law_`: in [`text_laws`], [`transcript_laws`] and [`send_laws`], beside
//! the functions that they are about, and, for what callers get back, in
//! [`outcome_laws`].
pub mod args;
pub mod chronology;
pub mod cli;
pub mod config;
pub mod json;
pub mod number;
pub mod order;
pub mod outcome_laws;
pub mod remote;
pub mod send;
pub mod send_laws;
pub mod text;
pub mod text_laws;
pub mod transcript;
pub mod transcript_laws;
pub mod unicode;
pub mod watch;
