//! Verified core of a mediated device management utility.

pub mod text;
pub mod json;
pub mod callouts;
pub mod commands;
pub mod environment;
pub mod error;
pub mod groups;
pub mod ids;
pub mod mdev;
pub mod sorting;
