//! A decoder for SMAF/MMF containers: a signature followed by a tree of
//! length-prefixed chunks that carry metadata, score tracks and audio tracks.

pub mod chunk;
pub mod cli;
pub mod cursor;
pub mod encoding;
pub mod error;
pub mod laws;
pub mod metadata;
pub mod parser;
pub mod report;
pub mod track;
pub mod walker;
