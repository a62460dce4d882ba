//! The decisions of two of Hydra's services.
//!
//! The ad-hoc build daemon: [`hangup`] watches a client connection for the
//! client closing it, [`inflight`] cancels what such a client left behind, and
//! [`queries`] reads and writes the `Builds` table, whose rows [`table`]
//! describes. A finished build reports its [`outputs`].
//!
//! The authentication backend: [`config`] makes its configuration, and
//! [`state`] brings it up.
//!
//! Sockets, files, the database and the process environment are reached from
//! outside. What came of reaching them is handed in as plain values.

pub mod clock;
pub mod config;
pub mod hangup;
pub mod inflight;
pub mod outputs;
pub mod pairs;
pub mod queries;
pub mod secret;
pub mod state;
pub mod table;
pub mod text;
