//! An in-memory employee directory: a store of departments and their
//! employees, the small command language that adds to it, and the state
//! machine that drives an interactive session.

pub mod command;
pub mod common;
pub mod employee_database;
pub mod text;
