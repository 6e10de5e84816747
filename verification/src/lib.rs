//! Core logic of an osu!-compatible game server: the binary packet codec,
//! score grading and submission rules, leaderboard ordering, presence and
//! channel management, and the HMAC-signed session token scheme.

pub mod bot;
pub mod channels;
pub mod chart;
pub mod client;
pub mod crypto;
pub mod decimal;
pub mod gateway;
pub mod admin;
pub mod api;
pub mod leaderboard;
pub mod level;
pub mod modes;
pub mod mods;
pub mod multi;
pub mod packets;
pub mod presence;
pub mod score;
pub mod session;
pub mod stats;
pub mod score_table;
pub mod status;
pub mod submission;
pub mod tokens;
pub mod user;

use vstd::prelude::*;

verus! {

/// Errors surfaced by server operations.
#[derive(Debug, Clone)]
pub enum OsuServerError {
    Internal(String),
    BeatmapProcessingFailed(String),
    FailedToFetch(String),
}

} // verus!
