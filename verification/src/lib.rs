//! A small data frame library: a two-dimensional table of cells with named
//! rows and columns, and lazy streams of named lines (rows or columns) that can
//! be filtered, extended, concatenated and joined.

pub mod types;
pub mod matrix;
pub mod dataframe;
pub mod join;
