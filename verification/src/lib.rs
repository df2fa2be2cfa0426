//! Verified core of the Ferrite web front-end: the formatting, filtering,
//! state and protocol logic behind its admin and tavern pages.

pub mod api;
pub mod format;
pub mod text;
pub mod session;
pub mod sse;
pub mod network;
pub mod dock;
pub mod users;
pub mod characters;
pub mod chat;
pub mod entities;
pub mod personas;
pub mod lorebook;
pub mod settings;
pub mod console;
pub mod manage;
