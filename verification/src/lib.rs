pub mod text;
pub mod error;
pub mod data;
pub mod config;
pub mod portfolio;
pub mod site;
pub mod crosslink;
