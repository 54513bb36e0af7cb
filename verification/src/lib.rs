//! Decisions of a terminal chat display: which messages stay on screen, what a frame looks like,
//! what a key press does, how images turn into text, how logins and engine traffic are interpreted.
//! Everything here computes on plain values; the program around it owns sockets, files and clocks.
pub mod ascii;
pub mod audio;
pub mod cache;
pub mod config;
pub mod controller;
pub mod easing;
pub mod embed;
pub mod emoji;
pub mod engine;
pub mod fade;
pub mod images;
pub mod json;
pub mod layout;
pub mod login;
pub mod message;
pub mod numbers;
pub mod oauth;
pub mod overlay;
pub mod pattern;
pub mod pkce;
pub mod render;
pub mod screen;
pub mod single;
pub mod text;
pub mod time;
pub mod tokens;
pub mod types;
