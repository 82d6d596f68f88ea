pub mod client;
pub mod formatting;
pub mod graphics;
pub mod model;
pub mod networking;
