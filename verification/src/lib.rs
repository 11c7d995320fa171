//! A manager for the Stem Player: the frames and commands of its USB protocol,
//! the upload of songs, the reading of its library, and the copies that are
//! kept on the host.

pub mod auth;
pub mod bundle;
pub mod cache;
pub mod calendar;
pub mod commands;
pub mod device;
pub mod enumerate;
pub mod error;
pub mod files;
pub mod frame;
pub mod json;
pub mod library;
pub mod paths;
pub mod progress;
pub mod received;
pub mod sequence;
pub mod stems;
pub mod text;
pub mod upload;
