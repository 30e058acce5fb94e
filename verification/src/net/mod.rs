//! Multiplayer logic: bandwidth budgeting, chunk streaming, voxel edit
//! authority, snapshots, clocks and client prediction.

pub mod budget;
pub mod chunk_streaming;
pub mod replication;
pub mod voxel_edit;
pub mod snapshot;
pub mod clock;
pub mod time;
pub mod chat;
pub mod authority;
pub mod prediction;
pub mod reconciliation;
pub mod interest;
pub mod player_session;
