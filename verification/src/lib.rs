//! Core logic of an IRC bot that bridges W3C-style IRC meeting minuting and
//! GitHub: it watches minuted discussion in a channel, detects which GitHub
//! issue or pull request a "topic" refers to, and when the topic ends renders
//! a Markdown summary comment for that issue.
//!
//! This crate holds the verified logic: line classification, GitHub URL
//! validation against a per-channel allow-list, the per-channel topic state
//! machine, Markdown comment rendering, the status-line assembly for the
//! asynchronous comment task, and the outbound IRC line chunker.  Message
//! text is carried as UTF-8 bytes (`Vec<u8>`), which is what the byte-level
//! operations (case-insensitive comparison, UTF-8 boundary splitting) work
//! on; the unverified shell around the crate converts from and to `String`
//! at its edge.

pub mod chunk;
pub mod comment;
pub mod config;
pub mod render;
pub mod state;
pub mod text;
pub mod urls;
