//! Core logic of a small desktop toolbox: a hex editor, a media converter
//! front end, a video downloader front end and the shared settings.
//! The graphical shell lives outside this crate; everything it decides
//! about bytes, paths, commands and status text is computed here.

pub mod text;
pub mod hex_text;
pub mod hex_editor;
pub mod downloader;
pub mod settings;
pub mod media_converter;
