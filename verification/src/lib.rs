//! Finding and choosing releases that are published as objects of an S3 bucket.

pub mod catalog;
pub mod credentials;
pub mod endpoint;
pub mod errors;
pub mod listing;
pub mod pattern;
pub mod release;
pub mod release_list;
pub mod selection;
pub mod text;
pub mod update;
pub mod version;
