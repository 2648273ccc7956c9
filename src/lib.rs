//! Light-ray paths through a model atmosphere: the discrete core.
//!
//! The library decides how an atmosphere definition is laid out and anchored, in which order
//! the pressure profile is derived, how an altitude is located among interval ends and which
//! kind of path answers a query, and it reads the text form of a definition. Every decision
//! is taken on plain values (altitudes as order keys, interval kinds, indices) and proved
//! against its contract; evaluating the resulting closed forms is left to the caller.
pub mod altitude;
pub mod anchoring;
pub mod lowering;
pub mod options;
pub mod parser;
pub mod paths;
pub mod pressure;

pub use altitude::{
    altitude_key, ascending_order, interval_index, is_ascending, is_strictly_ascending,
};
pub use anchoring::{
    plan_anchoring, plan_profile, plan_steps, AnchorStep, Anchoring, FixedPoint, PlanError,
    ProfilePlan, Side,
};
pub use lowering::{lower_segments, Boundary, Layout, Piece, PieceKind, SegmentShape};
pub use paths::{path_kind, PathKind};
pub use pressure::{pressure_order, pressure_shape, PressureShape, PressureStep, TemperatureShape};
