//! Planning of procedural snowflake ornaments.
//!
//! A snowflake is grown from a seed: a recursive, depth-bounded branching
//! process draws the arms of a planar silhouette, the silhouette is replicated
//! around the centre, and the result is lifted into a solid that carries a
//! magnet mount. This crate holds the decisions of that process. It emits the
//! construction as a sequence of commands for a geometry backend, which draws
//! the reals and builds the shapes, and it proves the shape of that sequence.
//!
//! - [`measure`], [`config`], [`solid`]: exact dimensions, the parameters of
//!   a class of snowflakes, and the dimensions of the mount.
//! - [`source`]: the seeded random source.
//! - [`plan`], [`planner`], [`session`]: the protocol between planner and
//!   backend, its model, and the executable planner with its source.
//! - [`run`], [`termination`]: runs of the planner; that arms never nest
//!   deeper than the ceiling, that the unions of a child come in pairs, and
//!   that every plan ends within a budget.
//! - [`construction`], [`follows`], [`complete`], [`script`]: the plan of a
//!   snowflake as the construction of a tree; that every complete plan is
//!   one, with six copies and the socket cut last; and that every tree is
//!   planned.
//! - [`symmetry`]: where the compounding copies put the root arm.

pub mod complete;
pub mod config;
pub mod construction;
pub mod follows;
pub mod measure;
pub mod plan;
pub mod planner;
pub mod run;
pub mod script;
pub mod session;
pub mod solid;
pub mod source;
pub mod symmetry;
pub mod termination;
