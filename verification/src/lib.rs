//! Core of a desktop manager for interactive coding-agent sessions.
pub mod app;
pub mod auth;
pub mod bao;
pub mod bytes;
pub mod clipboard;
pub mod cloud;
pub mod cloud_api;
pub mod convert;
pub mod dialogs;
pub mod digits;
pub mod history;
pub mod html;
pub mod http;
pub mod iso;
pub mod json;
pub mod letters;
pub mod markdown;
pub mod oidc;
pub mod order;
pub mod params;
pub mod path;
pub mod picture;
pub mod repo;
pub mod rows;
pub mod screen;
pub mod session;
pub mod sidebar;
pub mod split;
pub mod subagents;
pub mod tab;
pub mod tasks;
pub mod terminal;
pub mod text;
pub mod touch;
pub mod transcript;
pub mod urlenc;
