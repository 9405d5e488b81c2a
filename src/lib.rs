//! A minimal interactive command shell: the line parser, the pipeline wiring
//! decisions and the terminal-mode session bracket, each with its contract.
pub mod pipeline;
pub mod session;
pub mod terminal;
pub mod text;
pub mod wiring;
