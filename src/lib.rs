//! Verified core of a terminal remote control for a desktop media player:
//! the time-synchronised lyrics parser and provider chain, the two-tier
//! artwork cache, the fetch orchestrators that keep background work in step
//! with track changes, and the small text utilities the view layer uses.
pub mod artwork;
pub mod cache;
pub mod chain;
pub mod config;
pub mod display;
pub mod fetch;
pub mod lrc;
pub mod lyrics;
pub mod player;
pub mod settings;
pub mod text;
pub mod lrc_laws;
