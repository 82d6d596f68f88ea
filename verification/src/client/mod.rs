pub mod game;
pub mod chatbox;
