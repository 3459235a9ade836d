//! Steam depot content: the protocol, manifest and chunk logic of a depot
//! downloader, stated in contracts and proved.
//!
//! The library computes on plain values. Sockets, files, clocks and the
//! protobuf codec stay with the program that uses it.

pub mod cdn;
pub mod chunk;
pub mod connection;
pub mod crypto;
pub mod download;
pub mod emsg;
pub mod error;
pub mod json;
pub mod jwt;
pub mod laws;
pub mod login;
pub mod manifest;
pub mod order;
pub mod outside;
pub mod paths;
pub mod pics;
pub mod prepare;
pub mod proto;
pub mod report;
pub mod session;
pub mod text;
pub mod wire;
pub mod workshop;
pub mod zstd;

