pub mod text;
pub mod naming;
pub mod config;
pub mod tools;
pub mod probe;
pub mod cli;
pub mod encode;
pub mod cover;
pub mod music;
pub mod pipeline;
