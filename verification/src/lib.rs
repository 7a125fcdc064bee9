//! Rendering of a tree of drawable nodes onto a drawing surface.
//!
//! The library decides what is to be done to which surface and in what
//! order; the caller's surfaces do it. [`render_to_image`] and
//! [`render_to_canvas`] start a picture and hand back a
//! [`render::Renderer`], a state machine that asks for one
//! [`protocol::Action`] at a time and takes the surface's
//! [`protocol::Reply`] to it.
//!
//! - [`geom`]: sizes, boxes and their union, colours, affine coefficients.
//! - [`tree`]: the document.
//! - [`protocol`]: actions and replies.
//! - [`machine`]: the states of the renderer and its steps.
//! - [`render`]: the renderer and the two ways to start it.
//! - [`script`]: what rendering means, by recursion over the tree.
//! - [`trace`]: the proof that the renderer does what the scripts say.
//! - [`laws`]: what holds of every script.

pub mod geom;
pub mod laws;
pub mod machine;
pub mod protocol;
pub mod render;
pub mod script;
pub mod trace;
pub mod tree;

pub use crate::render::{render_to_canvas, render_to_image};
