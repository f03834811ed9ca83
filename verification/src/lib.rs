//! Core of a hex-dump viewer: locates the occurrences of a search pattern in
//! a byte buffer, maps them onto fixed-width display rows, and renders each
//! row as an offset column, hexadecimal byte cells and a decoded-text column,
//! with a highlight flag on every cell.  Printing, argument handling and the
//! interactive prompt live outside this crate; it computes values only.
pub mod document;
pub mod numerals;
pub mod pager;
pub mod renderer;
pub mod row_mapper;
pub mod text_highlighter;
