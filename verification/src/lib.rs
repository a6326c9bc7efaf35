pub mod text;
pub mod types;
pub mod scan;
pub mod profile;
pub mod deepseek;
pub mod parser;
pub mod workspace;
pub mod guidance;
pub mod failures;
pub mod diff;
pub mod agent;
pub mod cli;
pub mod session;
pub mod tools;
