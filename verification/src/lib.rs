//! Game rules of the Red-Black Maze raycaster: screen-state transitions,
//! game modes, player health, the weapon state machine, the Dealer Hands
//! progression and the deterministic placement of enemies and supplies.
//!
//! Everything that touches floating point geometry, the window, audio
//! devices or textures lives in the companion application crate.

pub mod mode;
pub mod placement;
pub mod rng;
pub mod state;
pub mod grid;
pub mod hand;
pub mod level;
pub mod distance;
pub mod weapon;
pub mod health;
pub mod session;
pub mod audio;
pub mod hud;
pub mod input;
pub mod flow;
