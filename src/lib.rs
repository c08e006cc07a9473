//! A supervised event-and-command bus for chat bots: the typed event and
//! command vocabulary, per-service middleware pipelines, reconnection backoff,
//! and the decision logic of the bundled middlewares.

pub mod attendance_relay;
pub mod bus;
pub mod chat_relay;
pub mod clock;
pub mod command;
pub mod config;
pub mod echo;
pub mod event;
pub mod invite;
pub mod logger;
pub mod middleware;
pub mod movie_showtimes;
pub mod scaled;
pub mod service;
pub mod text;
