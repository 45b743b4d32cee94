//! Core logic of lazydeck, a terminal command palette driven by Lua plugins.

pub mod text;
pub mod keys;
pub mod priority;
pub mod keymap;
pub mod page;
pub mod path_cache;
pub mod edit;
pub mod dialogs;
pub mod state;
pub mod bindings;
pub mod paths;
pub mod path_codec;
pub mod cli;
pub mod command;
pub mod text_map;
pub mod cache;
pub mod secrets;
pub mod time;
pub mod width;
pub mod input_view;
pub mod hash;
pub mod input_keys;
pub mod confirm_keys;
pub mod select_keys;
pub mod key_dispatch;
pub mod socket;
pub mod utf8_check;
pub mod limited_read;
pub mod preview_layout;
pub mod half_block;
pub mod preview_cache;
pub mod codec;
pub mod screen_layout;
pub mod system;
pub mod header;
pub mod style;
pub mod http;
pub mod highlight;
pub mod highlight_engine;
pub mod http_client;
pub mod clipboard;
pub mod resolver;
pub mod plugin_log;
pub mod html;
