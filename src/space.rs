//! The cell model: the values a cell can hold and the structural kinds of cell.
use vstd::prelude::*;

verus! {

/// What a cell's value slot holds.
#[derive(Clone, Copy, Debug, PartialEq, Eq, Structural)]
pub enum ValueType {
    /// The slot of a cell that never carries a value (wall, logical conveyor, operator).
    CannotHoldValue,
    /// A value-carrying cell that currently carries nothing.
    Empty,
    /// The halt marker: a print processor that consumes it ends the run.
    HaltProgram,
    Integer(i32),
    Character(char),
}

/// The structural kind of a cell; it never changes after the grid is built.
#[derive(Clone, Copy, Debug, PartialEq, Eq, Structural)]
pub enum SpaceType {
    Wall,
    Conveyor(ConveyorType),
    LogicalConveyor,
    Operator(OperatorType),
    Processor(ProcessorType),
}

#[derive(Clone, Copy, Debug, PartialEq, Eq, Structural)]
pub enum ConveyorType {
    Up,
    Down,
    Left,
    Right,
    DoubleUp,
    DoubleDown,
    DoubleLeft,
    DoubleRight,
}

#[derive(Clone, Copy, Debug, PartialEq, Eq, Structural)]
pub enum OperatorType {
    Addition,
    Subtraction,
    Multiplication,
    Division,
    Modulus,
    And,
    Or,
    Equals,
    LessThan,
    GreaterThan,
    Invert,
    Duplicate,
}

#[derive(Clone, Copy, Debug, PartialEq, Eq, Structural)]
pub enum ProcessorType {
    Print,
    Delete,
}

/// One grid position: a fixed structural kind and a mutable value slot.
#[derive(Clone, Copy, Debug, PartialEq, Eq, Structural)]
pub struct Space {
    pub value: ValueType,
    pub space_type: SpaceType,
}

/// A value that actually travels: halt marker, integer or character.
pub open spec fn is_real(v: ValueType) -> bool {
    v is HaltProgram || v is Integer || v is Character
}

/// Only conveyors and processors carry values between ticks.
pub open spec fn holds_values(t: SpaceType) -> bool {
    t is Conveyor || t is Processor
}

/// The numeric reading of an operand: an integer, or a character's code point.
pub open spec fn numeric(v: ValueType) -> Option<i32> {
    match v {
        ValueType::Integer(i) => Some(i),
        ValueType::Character(c) => Some(c as i32),
        _ => None,
    }
}

/// The row and column offset that a conveyor moves its value by.
pub open spec fn conveyor_step(d: ConveyorType) -> (int, int) {
    match d {
        ConveyorType::Up => (-1, 0),
        ConveyorType::Down => (1, 0),
        ConveyorType::Left => (0, -1),
        ConveyorType::Right => (0, 1),
        ConveyorType::DoubleUp => (-2, 0),
        ConveyorType::DoubleDown => (2, 0),
        ConveyorType::DoubleLeft => (0, -2),
        ConveyorType::DoubleRight => (0, 2),
    }
}

impl Space {
    /// A cell's slot agrees with its kind: carriers never hold the structural
    /// marker, and every other kind holds nothing but it.
    pub open spec fn wf(self) -> bool {
        if holds_values(self.space_type) {
            !(self.value is CannotHoldValue)
        } else {
            self.value is CannotHoldValue
        }
    }

    /// A literal in the program text: the value on a down conveyor.
    pub fn new_value(value: ValueType) -> (r: Space)
        ensures
            r.value == value,
            r.space_type == SpaceType::Conveyor(ConveyorType::Down),
    {
        Space { value, space_type: SpaceType::Conveyor(ConveyorType::Down) }
    }

    /// A cell of the given kind with nothing in it.
    pub fn new_space(space_type: SpaceType) -> (r: Space)
        ensures
            r.space_type == space_type,
            r.value == (if holds_values(space_type) {
                ValueType::Empty
            } else {
                ValueType::CannotHoldValue
            }),
            r.wf(),
    {
        let value = match space_type {
            SpaceType::Conveyor(_) | SpaceType::Processor(_) => ValueType::Empty,
            _ => ValueType::CannotHoldValue,
        };
        Space { value, space_type }
    }
}

impl ConveyorType {
    /// How far a conveyor of this kind moves its value: rows, then columns.
    pub fn step(self) -> (r: (i8, i8))
        ensures
            r.0 as int == conveyor_step(self).0,
            r.1 as int == conveyor_step(self).1,
    {
        match self {
            ConveyorType::Up => (-1, 0),
            ConveyorType::Down => (1, 0),
            ConveyorType::Left => (0, -1),
            ConveyorType::Right => (0, 1),
            ConveyorType::DoubleUp => (-2, 0),
            ConveyorType::DoubleDown => (2, 0),
            ConveyorType::DoubleLeft => (0, -2),
            ConveyorType::DoubleRight => (0, 2),
        }
    }
}

} // verus!
