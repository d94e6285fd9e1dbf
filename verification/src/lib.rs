pub mod chunks;
pub mod entities;
pub mod fps;
pub mod renderer;
