//! Core of an autonomous maze-exploring client: the radar wire format, the
//! incrementally built maze map, and the move-selection procedure.

pub mod ascii_utils;
pub mod base64;
pub mod cell;
pub mod challengehandler;
pub mod direction;
pub mod display;
pub mod graph_radar;
pub mod map;
pub mod navigator;
pub mod player;
pub mod position;
pub mod radarview;
pub mod search;
pub mod session;
pub mod walls;
