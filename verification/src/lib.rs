//! A minimal browser-style rendering library.
//!
//! The crate turns a small tree of markup elements into a styled document
//! tree, lays the document out with block stacking and greedy inline text
//! wrapping, and produces a hit-test index of bounding boxes for pointer
//! interaction.  Text measurement and drawing go through an abstract
//! text-provider boundary; all geometry is kept in integer hundredths of a
//! pixel (centipixels) so that layout arithmetic is exact.

pub mod dom;
pub mod geometry;
pub mod html;
pub mod interaction;
pub mod parser;
pub mod provider;
pub mod rendering;
pub mod style;
pub mod text;
