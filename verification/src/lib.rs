//! The logic of a network video recorder: events and their grouping, regions
//! and alerts, users and tokens, recordings and playback.

pub mod alerts;
pub mod api;
pub mod auth;
pub mod client;
pub mod database;
pub mod detector;
pub mod dvr;
pub mod error;
pub mod events;
pub mod keymap;
pub mod link;
pub mod model;
pub mod mqtt;
pub mod oid;
pub mod playback;
pub mod routes;
pub mod source;
pub mod surface;
pub mod text;
pub mod time;
pub mod track;
