pub mod model;
pub mod text;
pub mod args;
pub mod manifest;
pub mod listing;
pub mod serialize;
pub mod toml;
