//! An execution engine for a two-dimensional dataflow language: a program is a
//! rectangular grid of cells across which values travel on conveyors, are
//! combined by operators, routed by logical conveyors and consumed by
//! processors, one global tick at a time.
pub mod arith;
pub mod builder;
pub mod engine;
pub mod model;
pub mod program;
pub mod render;
pub mod space;
pub mod tally;
pub mod text;

pub use builder::{StructureError, find_longest_line_and_count_lines};
pub use model::RunError;
pub use program::Program;
pub use space::{ConveyorType, OperatorType, ProcessorType, Space, SpaceType, ValueType};
