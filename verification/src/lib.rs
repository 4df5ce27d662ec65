//! Verified core of the biliup desktop uploader: configuration model,
//! AI title post-processing, upload scheduling decisions and helpers.
pub mod text;
pub mod named_map;
pub mod order;
pub mod config;
pub mod config_laws;
pub mod error;
pub mod json;
pub mod ai;
pub mod titles;
pub mod media;
pub mod version;
pub mod compat;
pub mod bili;
pub mod season;
pub mod upload;
pub mod chunk;
pub mod ffmpeg;
pub mod queue;
pub mod service;
