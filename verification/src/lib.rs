//! Verified core of Lapi Launcher: text handling, configuration values,
//! desktop-entry command lines, search state, storage and system parsing,
//! terminal graphics framing and layout arithmetic.
pub mod text;
pub mod i18n;
pub mod history;
pub mod config;
pub mod paths;
pub mod document;
pub mod icons;
pub mod cli;
pub mod laws;
pub mod fuzzy;
pub mod desktop;
pub mod system;
pub mod storage;
pub mod graphics;
pub mod app;
pub mod layout;
