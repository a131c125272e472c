//! The backend service probe's data and decisions: which status field says
//! the backend is in use, and the verdict drawn from a status readout. The
//! transport that fetches the readout lives outside this crate.

use vstd::prelude::*;

verus! {

/// Why a probe of the backend failed: an error in the external transport,
/// carried as its message.
pub enum ServiceError {
    External(String),
}

impl ServiceError {
    /// The carried transport message.
    pub fn message(&self) -> (m: &String)
        ensures
            self matches ServiceError::External(s) && m@ == s@,
    {
        match self {
            ServiceError::External(s) => s,
        }
    }
}

/// Which status field decides whether the backend is in use.
#[derive(Clone, Copy, Debug, PartialEq, Eq, Structural)]
pub enum MinecraftServiceDetectionMode {
    /// Go by the numeric online-player count.
    OnlinePlayers,
    /// Go by the player sample list, which can disagree with the count on
    /// servers that report a custom number.
    PlayerList,
}

impl Default for MinecraftServiceDetectionMode {
    fn default() -> (m: Self)
        ensures
            m == MinecraftServiceDetectionMode::OnlinePlayers,
    {
        MinecraftServiceDetectionMode::OnlinePlayers
    }
}

/// The backend game server as a probe target.
pub struct MinecraftService {
    /// Backend server address.
    pub address: String,
    /// Backend server port.
    pub port: u16,
    /// Which status field decides busyness.
    pub detection_mode: MinecraftServiceDetectionMode,
}

impl MinecraftService {
    /// The verdict `busy` draws from one status readout: the online-player
    /// count, or the length of the player sample when one was reported (no
    /// sample means idle).
    pub fn evaluate_busy(&self, online_players: u32, player_sample_len: Option<usize>) -> (busy:
        bool)
        ensures
            busy == match self.detection_mode {
                MinecraftServiceDetectionMode::OnlinePlayers => online_players > 0,
                MinecraftServiceDetectionMode::PlayerList => player_sample_len matches Some(n) && n
                    > 0,
            },
    {
        match self.detection_mode {
            MinecraftServiceDetectionMode::OnlinePlayers => online_players > 0,
            MinecraftServiceDetectionMode::PlayerList => match player_sample_len {
                Some(n) => n > 0,
                None => false,
            },
        }
    }
}

} // verus!
