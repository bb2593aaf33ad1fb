//! Keyframe interpolation for two-dimensional skeletons.
//!
//! A [`Frame`] holds [`Figure`]s, and a figure is a tree of [`Pivot`]s.
//! [`interpolate_frame`] walks two frames in step, pairs figures and pivots by
//! id, and builds the frame in between: it has the shape of the first frame,
//! and the coordinates of every paired pivot are blended.

pub mod blend;
pub mod interpolate;
pub mod matching;
pub mod model;
pub mod paths;

pub use interpolate::{interpolate_figure, interpolate_frame, interpolate_pivot};
pub use model::{Figure, Frame, Pivot};
