//! Verified planning core of the Swiss workstation bootstrapper.
pub mod blocks;
pub mod cli;
pub mod commands;
pub mod config_loader;
pub mod doctor;
pub mod error;
pub mod executor;
pub mod expand;
pub mod parser;
pub mod paths;
pub mod persistence;
pub mod plan;
pub mod report;
pub mod session;
pub mod shellgen;
pub mod strmap;
pub mod text;
