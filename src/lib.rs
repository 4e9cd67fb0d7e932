pub mod display;
pub mod error;
pub mod flatten;
pub mod game;
pub mod generator;
pub mod input;
pub mod level;
pub mod palette;
pub mod position;
pub mod quadtree;
pub mod room;
pub mod tile;
pub mod ui;
pub mod vec2;
