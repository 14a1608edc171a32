//! The meaning of a tick, as spec functions over a board: the grid, the tick's
//! bookkeeping and what has been emitted. The executable engine is proved to
//! compute exactly these.
use vstd::prelude::*;
use crate::arith::{binary_result, divides_by_zero, is_binary};
use crate::space::{
    ConveyorType,
    OperatorType,
    ProcessorType,
    Space,
    SpaceType,
    ValueType,
    conveyor_step,
    is_real,
    numeric,
};
use crate::tally::{lemma_unacted_mark, unacted};
use crate::text::decimal;

verus! {

/// A fatal error that ends a run.
#[derive(Clone, Copy, Debug, PartialEq, Eq, Structural)]
pub enum RunError {
    /// The division or remainder operator at this row and column met a zero divisor.
    DivisionByZero { row: usize, col: usize },
}

/// Everything a tick reads and writes: the cells, row by row, `width` wide and
/// `height` high; the snapshot taken as the tick began; which cells have acted;
/// how many values have left the grid; the text emitted; whether the run goes on.
pub ghost struct Board {
    pub grid: Seq<Space>,
    pub width: int,
    pub height: int,
    pub snap: Seq<ValueType>,
    pub acted: Seq<bool>,
    pub dropped: int,
    pub output: Seq<char>,
    pub running: bool,
}

pub open spec fn spot_index(b: Board, y: usize, x: usize) -> int {
    y * b.width + x
}

/// The cell `dy` rows and `dx` columns away from (`y`, `x`), if it is on the grid.
pub open spec fn spot(b: Board, y: usize, x: usize, dy: int, dx: int) -> Option<(usize, usize)> {
    if 0 <= y + dy < b.height && 0 <= x + dx < b.width {
        Some(((y + dy) as usize, (x + dx) as usize))
    } else {
        None
    }
}

pub open spec fn with_value(b: Board, i: int, v: ValueType) -> Board {
    Board { grid: b.grid.update(i, Space { value: v, space_type: b.grid[i].space_type }), ..b }
}

/// The text a processor of kind `kind` emits when it consumes `v`.
pub open spec fn emitted(kind: ProcessorType, v: ValueType) -> Seq<char> {
    if kind is Print {
        match v {
            ValueType::Integer(n) => decimal(n as int),
            ValueType::Character(c) => seq![c],
            _ => Seq::empty(),
        }
    } else {
        Seq::empty()
    }
}

/// A logical conveyor sends the value above it left unless the value below it
/// was the integer zero.
pub open spec fn routes_left(below: ValueType) -> bool {
    match below {
        ValueType::Integer(i) => i != 0,
        _ => true,
    }
}

/// What a unary operator emits for an operand read from the snapshot.
pub open spec fn unary_result(op: OperatorType, v: ValueType) -> ValueType {
    if op is Invert {
        ValueType::Integer(if numeric(v) == Some(0i32) { 1 } else { 0 })
    } else {
        v
    }
}

/// Pushing `v` into `dest`: off the grid it is dropped and the push succeeds;
/// a structural cell refuses it; an empty cell acts first (if it has not) and
/// takes it; an occupied cell that has not acted acts first and takes it if
/// that left it empty; otherwise the push fails.
pub open spec fn push_model(b: Board, v: ValueType, dest: Option<(usize, usize)>) -> (Board, bool)
    decreases unacted(b.acted), 1int,
{
    match dest {
        None => (Board { dropped: b.dropped + 1, ..b }, true),
        Some((y, x)) => {
            let i = spot_index(b, y, x);
            match b.grid[i].value {
                ValueType::CannotHoldValue => (b, false),
                ValueType::Empty => {
                    let (b1, _r) = act_model(b, y, x);
                    (with_value(b1, i, v), true)
                },
                _ => {
                    if b.acted[i] {
                        (b, false)
                    } else {
                        let (b1, _r) = act_model(b, y, x);
                        if b1.grid[i].value is Empty {
                            (with_value(b1, i, v), true)
                        } else {
                            (b1, false)
                        }
                    }
                },
            }
        },
    }
}

/// The cell at (`y`, `x`) acts, unless it has already acted this tick: it is
/// marked, then does what its kind does.
pub open spec fn act_model(b: Board, y: usize, x: usize) -> (Board, Result<(), RunError>)
    decreases unacted(b.acted), 0int,
{
    let i = spot_index(b, y, x);
    if !(0 <= i < b.acted.len()) || b.acted[i] {
        (b, Ok(()))
    } else {
        proof {
            lemma_unacted_mark(b.acted, i);
        }
        let b1 = Board { acted: b.acted.update(i, true), ..b };
        match b.grid[i].space_type {
            SpaceType::Conveyor(d) => (conveyor_model(b1, y, x, d), Ok(())),
            SpaceType::LogicalConveyor => (logical_model(b1, y, x), Ok(())),
            SpaceType::Operator(op) => {
                let (b2, r) = operator_model(b1, y, x, op);
                match r {
                    Ok(_) => (b2, Ok(())),
                    Err(e) => (b2, Err(e)),
                }
            },
            SpaceType::Processor(k) => (processor_model(b1, y, x, k), Ok(())),
            SpaceType::Wall => (b1, Ok(())),
        }
    }
}

/// A conveyor holding a value pushes it by its step, and is cleared when
/// the push succeeds.
pub open spec fn conveyor_model(b: Board, y: usize, x: usize, d: ConveyorType) -> Board
    decreases unacted(b.acted), 2int,
{
    let i = spot_index(b, y, x);
    let v = b.grid[i].value;
    if is_real(v) {
        let (dy, dx) = conveyor_step(d);
        let (b1, ok) = push_model(b, v, spot(b, y, x, dy, dx));
        if ok {
            with_value(b1, i, ValueType::Empty)
        } else {
            b1
        }
    } else {
        b
    }
}

/// Away from the top and bottom rows, a logical conveyor pushes the value
/// above it one column left, or right when the snapshot shows the integer zero
/// below it; nothing moves when the snapshot shows the cell below empty.
pub open spec fn logical_model(b: Board, y: usize, x: usize) -> Board
    decreases unacted(b.acted), 2int,
{
    if y == 0 || y + 1 >= b.height {
        b
    } else {
        let below = b.snap[spot_index(b, (y + 1) as usize, x)];
        let src = spot_index(b, (y - 1) as usize, x);
        let v = b.grid[src].value;
        if below is Empty || !is_real(v) {
            b
        } else {
            let dx: int = if routes_left(below) {
                -1
            } else {
                1
            };
            let (b1, ok) = push_model(b, v, spot(b, y, x, 0, dx));
            if ok {
                with_value(b1, src, ValueType::Empty)
            } else {
                b1
            }
        }
    }
}

/// A binary operator between two numeric neighbours clears them and pushes
/// its result down, putting both back if the push fails; a unary operator
/// reads its left neighbour in the snapshot, clears that cell and pushes its
/// result right, putting the value back if the push fails.
pub open spec fn operator_model(b: Board, y: usize, x: usize, op: OperatorType) -> (
    Board,
    Result<bool, RunError>,
)
    decreases unacted(b.acted), 2int,
{
    if !is_binary(op) {
        if x == 0 {
            (b, Ok(false))
        } else {
            let li = spot_index(b, y, (x - 1) as usize);
            let sv = b.snap[li];
            if numeric(sv) is None {
                (b, Ok(false))
            } else {
                let lv = b.grid[li].value;
                let (b1, ok) = push_model(
                    with_value(b, li, ValueType::Empty),
                    unary_result(op, sv),
                    spot(b, y, x, 0, 1),
                );
                if ok {
                    (b1, Ok(true))
                } else {
                    (with_value(b1, li, lv), Ok(false))
                }
            }
        }
    } else {
        if x == 0 || x + 1 >= b.width {
            (b, Ok(false))
        } else {
            let li = spot_index(b, y, (x - 1) as usize);
            let ri = spot_index(b, y, (x + 1) as usize);
            let lv = b.grid[li].value;
            let rv = b.grid[ri].value;
            if numeric(lv) is None || numeric(rv) is None {
                (b, Ok(false))
            } else if divides_by_zero(op, numeric(rv)->0) {
                (b, Err(RunError::DivisionByZero { row: y, col: x }))
            } else {
                let res = binary_result(op, numeric(lv)->0, numeric(rv)->0);
                let cleared = with_value(
                    with_value(b, li, ValueType::Empty),
                    ri,
                    ValueType::Empty,
                );
                let (b1, ok) = push_model(cleared, ValueType::Integer(res), spot(b, y, x, 1, 0));
                if ok {
                    (b1, Ok(true))
                } else {
                    (with_value(with_value(b1, li, lv), ri, rv), Ok(false))
                }
            }
        }
    }
}

/// A processor emits what it holds (print only), stops the run on the halt
/// marker (print only), and is cleared.
pub open spec fn processor_model(b: Board, y: usize, x: usize, k: ProcessorType) -> Board {
    let i = spot_index(b, y, x);
    let v = b.grid[i].value;
    with_value(
        Board {
            output: b.output + emitted(k, v),
            running: b.running && !(k is Print && v is HaltProgram),
            ..b
        },
        i,
        ValueType::Empty,
    )
}

/// Pass 1 from cell `i` on, over the first `n` cells: each operator and
/// processor, in row-major order, acts unless it already has; the pass stops
/// at the first error.
pub open spec fn first_pass(b: Board, n: int, i: int) -> (Board, Result<(), RunError>)
    decreases n - i,
{
    if i < 0 || i >= n || b.width <= 0 {
        (b, Ok(()))
    } else {
        let t = b.grid[i].space_type;
        if t is Operator || t is Processor {
            let (b1, r) = act_model(b, (i / b.width) as usize, (i % b.width) as usize);
            if r is Err {
                (b1, r)
            } else {
                first_pass(b1, n, i + 1)
            }
        } else {
            first_pass(b, n, i + 1)
        }
    }
}

/// Pass 2 from cell `i` on, over the first `n` cells: every cell, in
/// row-major order, acts unless it already has; the pass stops at the first
/// error.
pub open spec fn second_pass(b: Board, n: int, i: int) -> (Board, Result<(), RunError>)
    decreases n - i,
{
    if i < 0 || i >= n || b.width <= 0 {
        (b, Ok(()))
    } else {
        let (b1, r) = act_model(b, (i / b.width) as usize, (i % b.width) as usize);
        if r is Err {
            (b1, r)
        } else {
            second_pass(b1, n, i + 1)
        }
    }
}

/// The board as a tick on `grid` begins: the snapshot is the grid's values,
/// no cell has acted, nothing has left the grid.
pub open spec fn start_board(
    grid: Seq<Space>,
    width: int,
    height: int,
    output: Seq<char>,
    running: bool,
) -> Board {
    Board {
        grid,
        width,
        height,
        snap: Seq::new(grid.len(), |i: int| grid[i].value),
        acted: Seq::new(grid.len(), |i: int| false),
        dropped: 0,
        output,
        running,
    }
}

/// One whole tick: pass 1, then, unless it failed, pass 2.
pub open spec fn tick_model(b: Board) -> (Board, Result<(), RunError>) {
    let n = b.grid.len() as int;
    let (b1, r1) = first_pass(b, n, 0);
    if r1 is Err {
        (b1, r1)
    } else {
        second_pass(b1, n, 0)
    }
}

} // verus!
