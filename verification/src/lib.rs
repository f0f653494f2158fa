pub mod block;
pub mod world;
pub mod worldgen;
pub mod clock;
pub mod inventory;
pub mod controls;
pub mod hud;
pub mod menu;
pub mod actions;
