//! A verified session router for a multiplayer game service.
//!
//! The lobby owns all cross-connection shared state: which users are
//! connected (and on which outbound channel), and which users are members of
//! which rooms. It resolves message destinations into concrete deliveries,
//! derives presence transitions from connect/disconnect events, and assembles
//! the initial state pushed to a freshly connected user.

pub mod messages;
pub mod registry;
pub mod membership;
pub mod lobby;
pub mod hydration;
pub mod online_users;
pub mod piece_type;
pub mod challenge_error;
