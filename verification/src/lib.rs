//! Verified core of a desktop launcher: Steam manifest parsing, manual game
//! bookkeeping, custom icon handling and audio-device bookkeeping.
//!
//! Everything here computes on plain values; reading files, the registry,
//! COM objects and launching programs is left to the surrounding program.

pub mod text;
pub mod paths;
pub mod encoding;
pub mod steam;
pub mod manual_games;
pub mod icons;
pub mod audio;
