//! The standalone downloader: one book at a time, with its own book model, event
//! stream and EPUB writer, configured by the caller.
pub mod error;
pub mod event;
pub mod model;
pub mod client;
pub mod parser;
pub mod epub;
pub mod downloader;
