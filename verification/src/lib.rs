//! Building EPUB books from the light-novel pages of wenku8: page parsing,
//! chapter selection, EPUB document generation and download bookkeeping.
pub mod text;
pub mod error;
pub mod model;
pub mod book;
pub mod package;
pub mod gen_v3;
pub mod gen_v2;
pub mod parser;
pub mod protocol;
pub mod manager;
pub mod html;
pub mod weburl;
pub mod client;
pub mod archive;
pub mod cover;
pub mod menu;
pub mod standalone;
