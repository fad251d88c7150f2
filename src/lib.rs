//! Core of a screenshot uploader that posts VRChat photos to Discord webhooks:
//! metadata recovery from PNG containers, grouping by world and time,
//! message composition, the upload driver's decisions and session progress.

pub mod model;
pub mod errors;
pub mod text;
pub mod composer;
pub mod grouper;
pub mod progress;
pub mod driver;
pub mod json;
pub mod discord;
pub mod group_upload;
pub mod security;
pub mod png;
pub mod xmp;
pub mod metadata;
pub mod timestamp;
pub mod config;
pub mod chunk_upload;
