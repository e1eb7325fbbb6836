//! Playlist parsing, download planning and configuration logic for a VOD downloader.

pub mod text;
pub mod urls;
pub mod m3u;
pub mod keyed;
pub mod headers;
pub mod config;
pub mod request;
pub mod download;
pub mod streams;
pub mod analysis;
pub mod tmdb;
pub mod bodies;
pub mod http;
pub mod settings;
pub mod laws;
