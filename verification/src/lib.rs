//! Deterministic keyframe animation on whole ticks and fixed-point values.
//!
//! A [`Clip`] bundles curves, each a run of keyframes for one property of
//! one object, which a [`TargetPath`] addresses by name below an animation
//! root. A [`Player`] keeps the playback clock of one animated object. On
//! every tick it moves the clock, follows each path through a snapshot of
//! the object [`Hierarchy`] with the help of a [`PathResolver`], samples the
//! curves at the clock's tick and returns, object by object, the values to
//! write.
//!
//! Time is counted in whole ticks, positions and scale factors are integers
//! in the caller's fixed-point scale, and an orientation between two
//! keyframes is handed out as the arc to evaluate. Playback therefore gives
//! the same result on every run and on every machine.

pub mod clip;
pub mod curve;
pub mod hierarchy;
pub mod input;
pub mod path;
pub mod player;
pub mod pose;
pub mod resolver;
pub mod value;

pub use crate::clip::Clip;
pub use crate::curve::{AuthoringError, CurveKind, Keyframes, Sample, Slerp, VariableCurve};
pub use crate::hierarchy::{Hierarchy, Link, ObjectId, Resolution};
pub use crate::input::InputPlugin;
pub use crate::path::TargetPath;
pub use crate::player::{Player, PlayerStatus};
pub use crate::pose::{TrackPose, Transform};
pub use crate::resolver::PathResolver;
pub use crate::value::{Quat, Vec3};
