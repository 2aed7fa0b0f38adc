//! Dungeon generation for a tile-based game: a grid of tiles, rectangular
//! rooms placed at random without overlap, and L-shaped corridors between
//! consecutive rooms.
pub mod map;
pub mod line;
pub mod dungeon;
pub mod game;
