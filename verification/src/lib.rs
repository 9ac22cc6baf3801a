//! A small compiler for a line-oriented notation of `goal`, `risk` and
//! `agent` statements. Source lines are parsed into typed statements,
//! laid out by vertical stacking with label-driven resizing, assembled
//! into styled graph cells, and rendered into exact polygon outlines
//! with placed label lines. File handling, XML transport and raster
//! drawing live outside this crate.

pub mod builder;
pub mod layout;
pub mod parser;
pub mod render;
pub mod statement;
pub mod style;
pub mod text;
pub mod wrap;
