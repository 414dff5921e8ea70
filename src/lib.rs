//! A small interactive command interpreter: line parsing, pipeline planning
//! and the decisions around running external commands.

pub mod text;
pub mod command;
pub mod pipeline;
pub mod host;
