//! The logic of the mofi launcher.
pub mod apps;
pub mod cli;
pub mod clipboard;
pub mod config;
pub mod explorer;
pub mod files;
pub mod fonts;
pub mod frame;
pub mod frecency;
pub mod glyphs;
pub mod highlight;
pub mod ipc;
pub mod launcher;
pub mod layer;
pub mod measure;
pub mod order;
pub mod pass;
pub mod paths;
pub mod pictures;
pub mod session;
pub mod switcher;
pub mod text;
pub mod tiff;
pub mod tray;
pub mod ui;
