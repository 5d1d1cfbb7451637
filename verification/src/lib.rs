//! Core of a CAD drawing viewer: ingestion of vector drawing entities into a
//! render-ready overlay cache, arc tessellation, and a lazily expanded mirror
//! of a project directory with stable node ids.
//!
//! Geometry is carried in fixed-point coordinates (see [`fixed`]): every
//! contract over positions and angles is stated in exact integer arithmetic.

pub mod dialog;
pub mod editor;
pub mod entity;
pub mod file_tree;
pub mod fixed;
pub mod viewer;
pub mod node;
pub mod reach;
pub mod overlay;
pub mod project;
pub mod tessellate;
pub mod text;
pub mod tree_order;

use vstd::prelude::*;

verus! {

} // verus!
