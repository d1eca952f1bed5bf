//! Verified core logic of the Escher/Atlas tool set: an insertion-ordered map, the
//! scaffold tree and its slot paths, terminal row counting and the assistant view's keys,
//! prompts and text, the WebRTC signaling relay's room bookkeeping, slash-command parsing
//! and discovery, transcript persistence encoding, colors, and the small parsers those
//! tools share.

pub mod anvil;
pub mod assistant;
pub mod browser;
pub mod chalk;
pub mod collections;
pub mod command_run;
pub mod commands;
pub mod config;
pub mod content;
pub mod edit;
pub mod element;
pub mod extensions;
pub mod hex;
pub mod history;
pub mod log_stream;
pub mod navigation;
pub mod palette;
pub mod protocol;
pub mod relay;
pub mod render;
pub mod relay_client;
pub mod room;
pub mod scaffold;
pub mod text;
pub mod shape;
pub mod style;
pub mod styleguide;
pub mod templates;
pub mod writer;
