//! Turns cfg predicates into nix expressions and normalises generated nix files.

pub mod escape;
pub mod text;
pub mod cfg;
pub mod filter;
mod platform;
pub mod output;
pub mod context;
