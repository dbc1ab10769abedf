//! Game rules of a side-scrolling "jump over the trees" game: sprite alpha
//! masks, two-phase collision detection, game state, scoring and HUD text.
pub mod pixel_mask;
pub mod collision;
pub mod game;
pub mod hud;
pub mod trees;
