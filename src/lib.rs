//! WebDAV client core: resource listing projection, download planning and
//! transfer bookkeeping, with the byte assembly of segmented downloads.

pub mod auth;
pub mod download;
pub mod downloader;
pub mod files;
pub mod hooks;
pub mod plan;
pub mod segments;
pub mod text;
pub mod transfer;
pub mod url;
pub mod webdav;
