//! Recognition of free-hand pointer gestures against a library of templates.
//!
//! A [`GestureRecorder`] is given gestures, each a path of points, and then
//! strokes, point by point. When a stroke ends it says which gesture the
//! stroke was, if any. Comparisons are exact: scales and tolerances are
//! ratios of whole numbers, and every function states what it computes in
//! a contract that is proved of its code.

pub mod color;
pub mod config;
pub mod geometry;
pub mod gesture;
pub mod recorder;
pub mod text;
pub mod tracking;

pub use color::{color_to_argb, parse_hex};
pub use config::{Config, ConfigError};
pub use geometry::{Point, Ratio};
pub use gesture::{Area, Constraint, Gesture, GestureAttributes, DEFAULT_TOLERANCE};
pub use recorder::{GestureRecorder, RecorderError};
pub use tracking::TrackedGesture;
