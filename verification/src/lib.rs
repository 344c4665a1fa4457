//! Verified core of a desktop companion for Heroes of the Storm: the
//! battle-lobby probe that pulls printable strings out of lobby files, the
//! game-focus poller, and the input-session recorder's bookkeeping.

pub mod text;
pub mod battle_lobby_probe;
pub mod game_focus;
pub mod game_session;
