//! The decisions behind the HTTP API.
//!
//! Every function here takes what a request carries and what was looked up for it, and says what is
//! answered and what is to be done. Reading, storing and sending happen outside.
pub mod access_laws;
pub mod auth;
pub mod dto;
pub mod error;
pub mod jobs;
pub mod layers;
pub mod ops;
pub mod request_laws;
pub mod tiles;
pub mod uploads;
pub use error::ApiError;
