//! Bozz-torio, a cooperative factory game on the Bozzard engine: its factory rules, the lobby
//! session and snapshot protocol that share a factory over Steam, the factory screen's
//! controls, saves and exports, and the rules of the Bozzard editor it is built with.
//! Windows, rendering, Steam and the file system are left to the caller.
pub mod sim;
pub mod text;
pub mod factory_laws;
pub mod multiplayer;
pub mod stage;
pub mod runtime;
pub mod hud;
pub mod json;
pub mod scene_numbers;
pub mod scene;
pub mod text_scan;
pub mod steam_net;
pub mod editor;
pub mod snapshot;
pub mod save;
pub mod package;
