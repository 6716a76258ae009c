//! chiba: a markdown checklist task manager's core, verified.
#![allow(unused_imports)]

pub mod chars;
pub mod todo;
pub mod doc;
pub mod convert;
pub mod paths;
pub mod app;
pub mod store;
pub mod migrate;
pub mod herdr;
pub mod xdg;
pub mod cmd;
pub mod theme;
pub mod ui;
pub mod sample;
