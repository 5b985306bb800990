//! The decisions behind a small FFmpeg front end.

pub mod batch;
pub mod clock;
pub mod command;
pub mod crop;
pub mod decimal;
pub mod editor;
pub mod files;
pub mod frame;
pub mod jobs;
pub mod log;
pub mod monitor;
pub mod number;
pub mod outputs;
pub mod paths;
pub mod probe;
pub mod progress;
pub mod reading;
pub mod report;
pub mod setup;
pub mod text;
