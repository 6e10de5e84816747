//! The data shapes of the HTTP surface: request and response records for
//! the token endpoint, profiles, rankings, listings, the internal admin
//! channel, and the match lobby's slot codes.

use vstd::prelude::*;

verus! {

/// Kinds of request failure the API reports.
#[derive(Debug, Clone, Copy, PartialEq, Eq, Structural)]
pub enum ErrorKind {
    Auth,
}

/// Body of a failed authentication response.
#[derive(Debug)]
pub struct AuthFailedError {
    pub ok: bool,
    pub message: String,
    pub kind: ErrorKind,
}

/// Body of a token request.
#[derive(Debug, Clone)]
pub struct AccessTokenRequestBody {
    pub client_id: String,
    pub client_secret: String,
    pub grant_type: String,
    pub scope: String,
    pub username: Option<String>,
    pub password: Option<String>,
    pub refresh_token: Option<String>,
    pub code: Option<String>,
}

/// Body of a token response.
#[derive(Debug, Clone)]
pub struct AccessTokenResponse {
    pub access_token: Option<String>,
    pub refresh_token: Option<String>,
    pub expires_in: Option<u32>,
    pub token_type: Option<String>,
    pub error: Option<String>,
    pub hint: Option<String>,
    pub message: Option<String>,
}

/// Envelope of an API response.
#[derive(Debug)]
pub struct FailableResponse<T> {
    pub ok: bool,
    pub message: Option<String>,
    pub data: Option<T>,
}

/// A user's level and the progress into it.
#[derive(Debug, Clone, Copy, PartialEq, Eq, Structural)]
pub struct Leveling {
    pub level: i64,
    pub progress: i64,
}

/// Global and country placements of a user.
#[derive(Debug, Clone, Copy, PartialEq, Eq, Structural)]
pub struct UserRankings {
    pub global: Option<i32>,
    pub country: Option<i32>,
}

/// Counts of the top grades a user holds.
#[derive(Debug, Clone, Copy, PartialEq, Eq, Structural)]
pub struct Grades {
    pub xh: i32,
    pub x: i32,
    pub sh: i32,
    pub s: i32,
    pub a: i32,
}

/// One friend-list entry.
#[derive(Debug, Clone)]
pub struct Friend {
    pub id: i32,
    pub username: String,
    pub is_mutual: bool,
    pub is_online: bool,
    pub banner: Option<String>,
    pub country: String,
}

/// The internal admin channel's update request.
#[derive(Debug, Clone)]
pub struct ServerMessageStruct {
    pub key: String,
    pub user_id: i32,
    pub args: Vec<String>,
    pub method: String,
}

/// The internal admin channel's notification request.
#[derive(Debug, Clone)]
pub struct MessageBody {
    pub message: String,
    pub message_type: String,
    pub target: String,
    pub key: String,
}

/// Server-wide counters.
#[derive(Debug, Clone, Copy, PartialEq, Eq, Structural)]
pub struct ServerStats {
    pub users: i32,
    pub online: i32,
}

/// State of one multiplayer slot. Wire codes: 1 open, 2 locked, 4 not
/// ready, 8 ready, 16 no map, 32 playing, 64 complete, 128 quit.
#[derive(Debug, Clone, Copy, PartialEq, Eq, Structural)]
pub enum SlotStatus {
    Open,
    Locked,
    NotReady,
    Ready,
    NoMap,
    Playing,
    Complete,
    Quit,
}

impl SlotStatus {
    /// The slot state a wire code denotes; unknown codes read as open.
    pub fn from(value: u8) -> (r: SlotStatus)
        ensures
            value == 2 ==> r is Locked,
            value == 4 ==> r is NotReady,
            value == 8 ==> r is Ready,
            value == 16 ==> r is NoMap,
            value == 32 ==> r is Playing,
            value == 64 ==> r is Complete,
            value == 128 ==> r is Quit,
            value != 2 && value != 4 && value != 8 && value != 16 && value != 32 && value != 64
                && value != 128 ==> r is Open,
    {
        match value {
            2 => SlotStatus::Locked,
            4 => SlotStatus::NotReady,
            8 => SlotStatus::Ready,
            16 => SlotStatus::NoMap,
            32 => SlotStatus::Playing,
            64 => SlotStatus::Complete,
            128 => SlotStatus::Quit,
            _ => SlotStatus::Open,
        }
    }
}

/// Team of one multiplayer slot: 0 neutral, 1 blue, 2 red.
#[derive(Debug, Clone, Copy, PartialEq, Eq, Structural)]
pub enum SlotTeam {
    Neutral,
    Blue,
    Red,
}

impl SlotTeam {
    pub fn from(value: u8) -> (r: SlotTeam)
        ensures
            value == 1 ==> r is Blue,
            value == 2 ==> r is Red,
            value != 1 && value != 2 ==> r is Neutral,
    {
        match value {
            1 => SlotTeam::Blue,
            2 => SlotTeam::Red,
            _ => SlotTeam::Neutral,
        }
    }
}

/// The environment-supplied configuration of a running component.
#[derive(Debug, Clone)]
pub struct RunConfiguration {
    pub app_component: String,
    pub database_dsn: String,
    pub redis_url: String,
    pub alert_discord_webhook: Option<String>,
    pub server_url: String,
    pub token_hmac_secret: String,
    pub port: Option<i16>,
    pub listing_key: Option<String>,
}

/// Cover image links of a beatmap set, as the mirror serves them.
#[derive(Debug, Clone)]
pub struct Covers {
    pub cover: String,
    pub cover_2x: String,
    pub card: String,
    pub card_2x: String,
    pub list: String,
    pub list_2x: String,
    pub slimcover: String,
    pub slimcover_2x: String,
}

/// Hype progress of a beatmap set.
#[derive(Debug, Clone, Copy, PartialEq, Eq, Structural)]
pub struct Hype {
    pub current: i64,
    pub required: i64,
}

/// Nomination progress of a beatmap set.
#[derive(Debug, Clone, Copy, PartialEq, Eq, Structural)]
pub struct NominationsSummary {
    pub current: i64,
    pub required: i64,
}

/// A chat channel as storage holds it.
#[derive(Debug, Clone)]
pub struct DatabaseChannel {
    pub id: i32,
    pub name: String,
    pub description: String,
    pub channel_type: String,
}

/// The kinds of chat channel storage distinguishes.
#[derive(Debug, Clone, Copy, PartialEq, Eq, Structural)]
pub enum ChannelType {
    Public,
    Private,
    Multi,
}

/// A profile badge.
#[derive(Debug, Clone)]
pub struct Badge {
    pub id: i32,
    pub name: String,
    pub icon: String,
    pub color: String,
}

/// A user's stored hardware identifiers.
#[derive(Debug, Clone)]
pub struct DatabaseHwid {
    pub id: i32,
    pub user_id: i32,
    pub mac: String,
    pub unique_id: String,
    pub disk_id: String,
}

/// One direction of a friendship.
#[derive(Debug, Clone)]
pub struct RelationShip {
    pub friend_id: i32,
    pub username: String,
    pub is_mutual: bool,
    pub banner: Option<String>,
    pub country: String,
}

/// A friendship joined with the friend's public fields.
#[derive(Debug, Clone)]
pub struct UserRelationShip {
    pub friend_id: i32,
    pub is_mutual: bool,
    pub username: String,
    pub banner: Option<String>,
    pub country: String,
}

/// One member of a ranking sorted set.
#[derive(Debug, Clone, Copy, PartialEq, Eq, Structural)]
pub struct RedisRankingsEntry {
    pub user_id: i32,
    pub performance: u64,
}

/// A registered OAuth application.
#[derive(Debug, Clone)]
pub struct App {
    pub id: i32,
    pub name: String,
    pub description: String,
    pub secret: String,
    pub redirect_uri: String,
    pub owner_id: i32,
    pub icon_hash: Option<String>,
    pub allowed_grant_type: Vec<String>,
}

/// The listing vote-return query.
#[derive(Debug, Clone)]
pub struct GetBackQuery {
    pub username: String,
    pub key: String,
}

/// The download-search query of the client.
#[derive(Debug, Clone)]
pub struct BeatmapsQuery {
    pub u: String,
    pub h: String,
    pub r: u8,
    pub q: String,
    pub m: i8,
    pub p: i32,
}

/// The set-lookup query of the client.
#[derive(Debug, Clone)]
pub struct BeatmapSetQuery {
    pub u: String,
    pub h: String,
    pub s: Option<i32>,
    pub b: Option<i32>,
    pub c: Option<String>,
}

/// The replay-download query of the client.
#[derive(Debug, Clone)]
pub struct ReplayRequestQuery {
    pub c: i32,
    pub m: i32,
    pub u: String,
    pub h: String,
}

/// The internal admin channel accepts a request only when its key equals
/// the server secret.
pub fn admin_key_matches(key: &String, secret: &String) -> (r: bool)
    ensures
        r == (key@ == secret@),
{
    key.eq(secret)
}

} // verus!
