pub mod text;
pub mod choice;
pub mod cli;
pub mod config;
pub mod human;
pub mod keyed;
pub mod notify;
pub mod profile;
pub mod sorted;
pub mod status;
pub mod wg;
