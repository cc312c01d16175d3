//! Builds the status menu of a music-playback daemon: a cross index of the
//! daemon's playlists and the menu tree that a menu-bar host renders.

pub mod index;
pub mod menu;
pub mod model;
pub mod order;
