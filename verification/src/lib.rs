pub mod text;
pub mod url;
pub mod theme;
pub mod updater;
pub mod search;
pub mod recent;
pub mod parser;
pub mod auth;
pub mod components;
pub mod app;
