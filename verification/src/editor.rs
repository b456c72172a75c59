//! The editor's own rules: export folder names, dialog file filters, docking, inspector
//! labels and the gameplay key latch.
pub mod asset_browser;
pub mod component_ui;
pub mod docking;
pub mod export;
pub mod files;
pub mod gameplay_input;
