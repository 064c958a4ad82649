//! Core logic of a referral-tracking client: bearer-token decoding, the
//! login-handshake state machine, bounded-retry fetch policies, a
//! time-windowed roster cache, timeline analytics, and a randomized
//! notification scheduler.
pub mod auth;
pub mod cache;
pub mod env;
pub mod holly;
pub mod metrics;
pub mod persons;
pub mod report;
pub mod retry;
pub mod scheduler;
pub mod send;
pub mod text;
pub mod token;
