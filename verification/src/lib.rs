//! The logic of a terminal program that compares speech recognisers side by side.

pub mod app;
pub mod capture;
pub mod config;
pub mod engine;
pub mod media;
pub mod models;
pub mod number;
pub mod report;
pub mod segments;
pub mod system_audio;
pub mod text;
pub mod ui;
pub mod util;
pub mod vad;
