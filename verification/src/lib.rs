//! The rules behind Disactivity: which games are offered, which executable
//! stands for a game, where files are put and removed again, how long a cached
//! catalogue counts, and what the favorites are.

pub mod cache;
pub mod catalog;
pub mod favorites;
pub mod fetch;
pub mod json;
pub mod launch;
pub mod manifest;
pub mod paths;
pub mod plan;
pub mod ranking;
pub mod running;
pub mod steam;
pub mod steam_path;
pub mod text;
pub mod web;

pub use crate::catalog::{Executable, Game, ThirdPartySku};
pub use crate::fetch::FetchGamesResponse;
pub use crate::steam::SteamLaunchInfo;
