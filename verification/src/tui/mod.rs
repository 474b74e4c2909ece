pub mod app;
pub mod commands;
pub mod effects;
pub mod history;
pub mod keys;
pub mod scrolling;
pub mod view;
