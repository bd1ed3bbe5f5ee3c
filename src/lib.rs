// A personal catalog of games with their screenshots and genres: adding,
// reading, updating and deleting games, searching with optional filters and a
// sort order, and figures over the whole catalog.
//
// models    the data types and the stored form of a status
// rows      the child tables and what they hold for each game
// query     search conditions, text matching and sort order
// tally     counting names, and distinct names in order
// stats     the figures over a catalog, as mathematical functions
// catalog   the store itself and the laws its operations obey
// images    naming stored images
// commands  errors as reported to callers

pub mod models;
pub mod rows;
pub mod query;
pub mod tally;
pub mod stats;
pub mod catalog;
pub mod images;
pub mod commands;
