//! What the renderer asks of the drawing surfaces, and what they answer.
//!
//! Surfaces are numbered by nesting: surface 0 is the canvas that the
//! picture ends up on, and surface `n + 1` is the offscreen surface of a
//! group that is being painted for surface `n`.

use vstd::prelude::*;
use crate::geom::{Color, Matrix, Rect};

verus! {

/// Why no picture came about.
#[derive(Clone, Copy, Debug, PartialEq, Eq)]
pub enum Error {
    /// The canvas for the whole picture could not be had.
    NoCanvas,
}

/// One thing for the caller to do. Every action but the last two is
/// answered by a [`Reply`].
#[derive(Clone, Copy, Debug, PartialEq, Eq)]
pub enum Action {
    /// Allocate surface 0, as wide and as high as `view`, fully transparent.
    /// Answered by `Created` or `Failed`.
    CreateCanvas { view: Rect },
    /// Paint all of surface 0 with `color`, fully opaque.
    Fill { color: Color },
    /// Compose onto the matrix of surface 0 the map that takes `view_box`
    /// into `view`.
    ApplyViewBox { view_box: Rect, view: Rect },
    /// Read the matrix of `surface`. Answered by `Matrix`.
    GetMatrix { surface: usize },
    /// Replace the matrix of `surface`.
    SetMatrix { surface: usize, matrix: Matrix },
    /// Replace the matrix of `surface` by the identity.
    ResetMatrix { surface: usize },
    /// Compose `matrix` onto the matrix of `surface`.
    Transform { surface: usize, matrix: Matrix },
    /// Paint the path `node` onto `surface`. Answered by `Drawn` with the
    /// node's bounding box. The surface's matrix is left as it was.
    DrawPath { surface: usize, node: usize },
    /// Paint the text `node`, as for a path.
    DrawText { surface: usize, node: usize },
    /// Paint the image `node`, as for a path.
    DrawImage { surface: usize, node: usize },
    /// Allocate `surface`, as wide and as high as `view`, fully
    /// transparent. Answered by `Created` or `Failed`.
    CreateSurface { surface: usize, view: Rect },
    /// Make transparent what of `surface` lies outside the clip path at
    /// index `clip` of the definitions; `bbox` is the bounding box of what
    /// was painted there. The surface's matrix is left as it was.
    ApplyClip { surface: usize, clip: usize, bbox: Rect },
    /// Paint surface `onto + 1` onto surface `onto` with its top left corner
    /// at the origin, as opaque as `opacity` says (`None`: fully), and
    /// release surface `onto + 1`.
    Paste { onto: usize, opacity: Option<i64> },
    /// The picture is complete; `bbox` is the bounding box of all of it.
    Finish { bbox: Rect },
    /// There is no picture.
    Fail { error: Error },
}

/// The answer to an action.
#[derive(Clone, Copy, Debug, PartialEq, Eq)]
pub enum Reply {
    /// The action was carried out.
    Done,
    /// The matrix that was read.
    Matrix(Matrix),
    /// The node was painted; its bounding box.
    Drawn(Rect),
    /// The surface was allocated.
    Created,
    /// The surface could not be allocated.
    Failed,
}

} // verus!
