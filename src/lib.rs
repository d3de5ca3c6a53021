//! Picks the text drawn at the largest font size in the first pages of a PDF
//! document, from the drawing operators of each page.
//!
//! Numbers from the document (font sizes, positions, spacings) are held as
//! integers in thousandths of a unit.
pub mod encoding;
pub mod error;
pub mod font;
pub mod operation;
pub mod title;
