pub mod battery;
pub mod encoding;
pub mod handler;
pub mod laws;
pub mod model;
pub mod registry;
pub mod setting;
pub mod text;
