//! Reads polygon models from geometry text and the material libraries it
//! names, and flattens them into one interleaved vertex sequence.
//!
//! Everything here works on bytes that the caller has already read: the
//! geometry text, and the contents of the material libraries beside it.
//! Numbers stay as the decimal literals found in the text, checked against
//! the grammar of decimal literals; nothing here computes with them.
//!
//! [`model::load_model`] reads a model, [`library::load_material_file`] a
//! material library, and [`model::material_libraries`] tells which
//! libraries a geometry text wants beside it. The module [`laws`] states
//! what holds of every text.

pub mod encoding;
pub mod error;
pub mod face;
pub mod geometry;
pub mod laws;
pub mod library;
pub mod material;
pub mod model;
pub mod numeral;
pub mod pool;
pub mod program;
pub mod text;

pub use crate::error::LoadError;
pub use crate::geometry::LibraryFile;
pub use crate::library::load_material_file;
pub use crate::material::{Material, MaterialTable};
pub use crate::model::{load_model, material_libraries, Model};
pub use crate::numeral::Numeral;
pub use crate::program::Program;

