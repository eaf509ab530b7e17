//! A small symbolic-computation engine: atoms, unification-based matching,
//! an atomspace and a reducer whose rules are written in the language it
//! interprets.

pub mod atom;
pub mod bindings_text;
pub mod catalog;
pub mod display;
pub mod git_catalog;
pub mod grounded;
pub mod interpreter;
pub mod managed_catalog;
pub mod matcher;
pub mod runner;
pub mod space;
pub mod stdlib;
pub mod strings;
pub mod text;
pub mod types;
pub mod unification;
