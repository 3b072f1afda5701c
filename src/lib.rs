pub mod caster;
pub mod framebuffer;
pub mod game;
pub mod hud;
pub mod map_view;
pub mod maze;
pub mod player;
pub mod renderer;
pub mod sprites;
pub mod textures;
