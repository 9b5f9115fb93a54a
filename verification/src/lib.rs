//! The logic of Coach Cuts: the recorded commentary replayed over game video,
//! the plans and schedules an export renders, the match panel's text and the
//! state machines behind transport, export and transcription.
//!
//! Times are whole **ticks** ([`time`]), a third of a nanosecond, so that both
//! the capture clock's nanosecond and a 30 fps output frame are exact.

pub mod callbacks;
pub mod clips;
pub mod command;
pub mod drawing;
pub mod event;
pub mod export;
pub mod export_job;
pub mod export_run;
pub mod format;
pub mod id;
pub mod lifecycle;
pub mod match_events;
pub mod match_panel;
pub mod pickers;
pub mod plan;
pub mod preview;
pub mod project;
pub mod recording;
pub mod reel;
pub mod rows;
pub mod scoreboard_config;
pub mod sheets;
pub mod signals;
pub mod skip;
pub mod sources;
pub mod state;
pub mod store;
pub mod tag;
pub mod text;
pub mod transcription;
pub mod transport;
pub mod trash;
pub mod undo;
pub mod user_error;
pub mod window;
pub mod time;
pub mod timeline;
