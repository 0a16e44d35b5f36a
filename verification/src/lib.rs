pub mod game;
pub mod shapes;
