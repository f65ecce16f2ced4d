//! Verified core of the KakaoTalk command-line tool: text handling, chat
//! matching, key derivation and the decisions behind the diagnostics.

pub mod text;
pub mod local_db;
pub mod crypto;
pub mod ax_send;
pub mod config;
pub mod auth;
pub mod doctor;
