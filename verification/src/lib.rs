//! The logic of a streaming dictation daemon, verified.
//!
//! Audio goes out to a speech server through [`audio`]; the snapshots of the transcript that come
//! back are cut into deltas by [`tracker`], cleaned up by [`postprocess`] with [`filter`],
//! [`speech`] and [`spacing`], and handed to the focused window by [`inject`] and its [`drivers`].
//! [`session`] ties these together and [`daemon`] says when a session runs.

pub mod audio;
pub mod config;
pub mod daemon;
pub mod drivers;
pub mod filter;
pub mod inject;
pub mod matching;
pub mod postprocess;
pub mod session;
pub mod spacing;
pub mod speech;
pub mod text;
pub mod tracker;
