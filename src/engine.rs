//! One tick of execution: the two scheduling passes, the push that moves a
//! value into a cell (cascading through occupied cells), and what each kind
//! of cell does when it acts.
use vstd::prelude::*;
use vstd::arithmetic::div_mod::{lemma_fundamental_div_mod, lemma_mod_pos_bound};
use crate::arith::{apply_binary, binary_result, divides_by_zero, is_binary};
use crate::program::{Program, lemma_index_bounds, lemma_movers_kept, movers_only};
use crate::space::{
    ConveyorType,
    OperatorType,
    ProcessorType,
    Space,
    SpaceType,
    ValueType,
    conveyor_step,
    holds_values,
    is_real,
    numeric,
};
use crate::tally::{lemma_count_real_update, lemma_unacted_mark, lemma_unacted_none, unacted};
use crate::text::write_decimal;
use crate::model::{
    Board,
    RunError,
    act_model,
    conveyor_model,
    emitted,
    first_pass,
    logical_model,
    operator_model,
    push_model,
    routes_left,
    second_pass,
    start_board,
    tick_model,
    unary_result,
};

verus! {

/// Bookkeeping of one tick: which cells have acted, and how many values have
/// left the grid.
pub struct TickState {
    pub acted: Vec<bool>,
    pub dropped: usize,
}

/// The snapshot has one value per cell, and reads as structural exactly where
/// the cell cannot hold a value.
pub open spec fn snapshot_fits(snap: Seq<ValueType>, g: Seq<Space>) -> bool {
    &&& snap.len() == g.len()
    &&& forall|i: int|
        0 <= i < g.len() ==> ((#[trigger] snap[i]) is CannotHoldValue <==> !holds_values(
            g[i].space_type,
        ))
}

/// Values dropped so far plus cells still free to act: every action spends
/// one unit of this, and a drop needs an action.
pub open spec fn budget(t: &TickState) -> int {
    t.dropped + unacted(t.acted@)
}

pub open spec fn tracks(t: &TickState, p: &Program) -> bool {
    t.acted@.len() == p.grid@.len()
}

/// The board that a program and a tick in progress on it make together.
pub open spec fn board_of(p: &Program, t: &TickState, snap: Seq<ValueType>) -> Board {
    Board {
        grid: p.grid@,
        width: p.width as int,
        height: p.height as int,
        snap,
        acted: t.acted@,
        dropped: t.dropped as int,
        output: p.output@,
        running: p.running,
    }
}

/// A cell that has acted stays marked.
pub open spec fn grows(a: Seq<bool>, b: Seq<bool>) -> bool {
    &&& a.len() == b.len()
    &&& forall|i: int| 0 <= i < a.len() && a[i] ==> #[trigger] b[i]
}

/// Every cell that had acted and held a value in `a`, except those in `skip`,
/// holds the same value in `b`.
pub open spec fn settled_kept(a: &Program, b: &Program, acted: Seq<bool>, skip: Set<int>) -> bool {
    forall|i: int|
        0 <= i < a.grid@.len() && acted[i] && is_real(a.grid@[i].value) && !skip.contains(i)
            ==> #[trigger] b.grid@[i].value == a.grid@[i].value
}

/// On a grid with no operator and no processor, values are neither made nor
/// destroyed: those on the grid plus those that left it change by `extra`.
pub open spec fn conserves(a: &Program, b: &Program, ta: &TickState, tb: &TickState, extra: int) -> bool {
    movers_only(a.grid@) ==> b.count() + tb.dropped == a.count() + ta.dropped + extra
}

pub proof fn lemma_index_shift(y: int, x: int, dy: int, dx: int, w: int)
    requires
        w > 0,
        -2 <= dy <= 2,
        dy != 0 || dx != 0,
        0 <= x < w,
        0 <= x + dx < w,
    ensures
        (y + dy) * w + (x + dx) != y * w + x,
{
    assert((y + dy) * w == y * w + dy * w) by (nonlinear_arith);
    if dy != 0 {
        assert(dy * w >= w || dy * w <= -w) by (nonlinear_arith)
            requires
                dy != 0,
                w > 0,
        ;
    }
}

pub proof fn lemma_evolves_trans(a: &Program, b: &Program, c: &Program)
    requires
        a.evolves_to(b),
        b.evolves_to(c),
    ensures
        a.evolves_to(c),
{
    assert(c.output@.subrange(0, a.output@.len() as int) =~= c.output@.subrange(
        0,
        b.output@.len() as int,
    ).subrange(0, a.output@.len() as int));
}

pub proof fn lemma_evolves_refl(a: &Program)
    requires
        a.wf(),
    ensures
        a.evolves_to(a),
{
    assert(a.output@.subrange(0, a.output@.len() as int) =~= a.output@);
}

impl Program {
    /// Replaces the value in cell `i`, keeping its kind.
    fn set_value(&mut self, i: usize, v: ValueType)
        requires
            old(self).wf(),
            i < old(self).grid@.len(),
            (Space { value: v, space_type: old(self).grid@[i as int].space_type }).wf(),
        ensures
            final(self).grid@ == old(self).grid@.update(
                i as int,
                Space { value: v, space_type: old(self).grid@[i as int].space_type },
            ),
            final(self).output@ == old(self).output@,
            final(self).running == old(self).running,
            old(self).evolves_to(final(self)),
            final(self).count() + (if is_real(old(self).grid@[i as int].value) {
                1int
            } else {
                0int
            }) == old(self).count() + (if is_real(v) {
                1int
            } else {
                0int
            }),
    {
        let kind = self.grid[i].space_type;
        self.grid.set(i, Space { value: v, space_type: kind });
        proof {
            lemma_count_real_update(
                old(self).grid@,
                i as int,
                Space { value: v, space_type: kind },
            );
            lemma_evolves_refl(old(self));
        }
    }

    /// Moves `new_value` into the cell at `dest`, making an occupied cell that
    /// has not acted yet act first so that it may clear the way. A value sent
    /// off the grid is gone, and the push succeeds. When the push fails,
    /// nothing but the acted marks has changed.
    fn push_value(
        &mut self,
        new_value: ValueType,
        dest: Option<(usize, usize)>,
        t: &mut TickState,
        snap: &Vec<ValueType>,
    ) -> (r: bool)
        requires
            old(self).wf(),
            tracks(old(t), old(self)),
            budget(old(t)) < old(self).grid@.len(),
            snapshot_fits(snap@, old(self).grid@),
            is_real(new_value),
            dest matches Some((y, x)) ==> old(self).in_grid(y as int, x as int),
        ensures
            old(self).evolves_to(final(self)),
            tracks(final(t), final(self)),
            grows(old(t).acted@, final(t).acted@),
            budget(final(t)) <= budget(old(t)) + 1,
            settled_kept(old(self), final(self), old(t).acted@, Set::empty()),
            !r ==> old(self).same_state(final(self)) && final(t).dropped == old(t).dropped,
            dest is None ==> r && old(self).same_state(final(self)) && final(t).dropped
                == old(t).dropped + 1,
            r ==> (dest matches Some((y, x)) ==> final(self).value_at(y as int, x as int)
                == new_value),
            conserves(old(self), final(self), old(t), final(t), if r { 1int } else { 0int }),
            (board_of(final(self), final(t), snap@), r) == push_model(
                board_of(old(self), old(t), snap@),
                new_value,
                dest,
            ),
        decreases unacted(old(t).acted@), 1int,
    {
        proof {
            lemma_evolves_refl(self);
        }
        let cells = self.grid.len();
        match dest {
            None => {
                proof {
                    assert(t.dropped < cells);
                }
                t.dropped = t.dropped + 1;
                true
            },
            Some((y, x)) => {
                let i = self.cell_index(y, x);
                match self.grid[i].value {
                    ValueType::CannotHoldValue => false,
                    ValueType::Empty => {
                        let _ = self.update_space(y, x, t, snap);
                        self.set_value(i, new_value);
                        proof {
                            lemma_evolves_trans(old(self), old(self), self);
                        }
                        true
                    },
                    _ => {
                        if t.acted[i] {
                            return false;
                        }
                        let _ = self.update_space(y, x, t, snap);
                        if self.grid[i].value == ValueType::Empty {
                            let ghost mid = *self;
                            self.set_value(i, new_value);
                            proof {
                                lemma_evolves_trans(old(self), &mid, self);
                            }
                            true
                        } else {
                            false
                        }
                    },
                }
            },
        }
    }

    /// Makes the cell at (`y`, `x`) act, unless it already has this tick.
    fn update_space(&mut self, y: usize, x: usize, t: &mut TickState, snap: &Vec<ValueType>) -> (r:
        Result<(), RunError>)
        requires
            old(self).wf(),
            tracks(old(t), old(self)),
            budget(old(t)) <= old(self).grid@.len(),
            snapshot_fits(snap@, old(self).grid@),
            old(self).in_grid(y as int, x as int),
            old(self).kind_at(y as int, x as int) is LogicalConveyor && y > 0 ==> old(
                t,
            ).acted@[old(self).index(y - 1, x as int)],
        ensures
            old(self).evolves_to(final(self)),
            tracks(final(t), final(self)),
            grows(old(t).acted@, final(t).acted@),
            final(t).acted@[old(self).index(y as int, x as int)],
            budget(final(t)) <= budget(old(t)),
            conserves(old(self), final(self), old(t), final(t), 0),
            (board_of(final(self), final(t), snap@), r) == act_model(
                board_of(old(self), old(t), snap@),
                y,
                x,
            ),
            old(t).acted@[old(self).index(y as int, x as int)] ==> old(self).same_state(
                final(self),
            ) && final(t).dropped == old(t).dropped,
            r is Err ==> r == Err::<(), RunError>(RunError::DivisionByZero { row: y, col: x }) && (
            old(self).kind_at(y as int, x as int) == SpaceType::Operator(OperatorType::Division)
                || old(self).kind_at(y as int, x as int) == SpaceType::Operator(
                OperatorType::Modulus,
            )),
            holds_values(old(self).kind_at(y as int, x as int)) ==> {
                &&& r is Ok
                &&& settled_kept(old(self), final(self), old(t).acted@, Set::empty())
                &&& (final(self).value_at(y as int, x as int) is Empty || (old(self).same_state(
                    final(self),
                ) && final(t).dropped == old(t).dropped))
                &&& (old(self).value_at(y as int, x as int) is Empty ==> old(self).same_state(
                    final(self),
                ) && final(t).dropped == old(t).dropped)
            },
        decreases unacted(old(t).acted@), 0int,
    {
        let i = self.cell_index(y, x);
        proof {
            lemma_evolves_refl(self);
        }
        if t.acted[i] {
            return Ok(());
        }
        proof {
            lemma_unacted_mark(t.acted@, i as int);
        }
        t.acted.set(i, true);
        proof {
            lemma_index_bounds(y as int, x as int, self.width as int, self.height as int);
        }
        match self.grid[i].space_type {
            SpaceType::Conveyor(d) => {
                self.update_conveyor(y, x, d, t, snap);
                Ok(())
            },
            SpaceType::LogicalConveyor => {
                self.update_logical_conveyor(y, x, t, snap);
                Ok(())
            },
            SpaceType::Operator(op) => {
                match self.update_operator(y, x, op, t, snap) {
                    Ok(_) => Ok(()),
                    Err(e) => Err(e),
                }
            },
            SpaceType::Processor(k) => {
                self.update_processor(y, x, k);
                proof {
                    assert(old(self).grid@.update(i as int, old(self).grid@[i as int]) =~= old(
                        self,
                    ).grid@);
                    assert(old(self).output@ + Seq::empty() =~= old(self).output@);
                }
                Ok(())
            },
            SpaceType::Wall => Ok(()),
        }
    }

    /// A conveyor holding a value pushes it by its step; the cell is cleared
    /// when the push succeeds.
    pub fn update_conveyor(
        &mut self,
        y: usize,
        x: usize,
        d: ConveyorType,
        t: &mut TickState,
        snap: &Vec<ValueType>,
    )
        requires
            old(self).wf(),
            tracks(old(t), old(self)),
            budget(old(t)) < old(self).grid@.len(),
            snapshot_fits(snap@, old(self).grid@),
            old(self).in_grid(y as int, x as int),
            old(self).kind_at(y as int, x as int) == SpaceType::Conveyor(d),
            old(t).acted@[old(self).index(y as int, x as int)],
        ensures
            old(self).evolves_to(final(self)),
            tracks(final(t), final(self)),
            grows(old(t).acted@, final(t).acted@),
            budget(final(t)) <= budget(old(t)) + 1,
            settled_kept(
                old(self),
                final(self),
                old(t).acted@,
                set![old(self).index(y as int, x as int)],
            ),
            conserves(old(self), final(self), old(t), final(t), 0),
            board_of(final(self), final(t), snap@) == conveyor_model(
                board_of(old(self), old(t), snap@),
                y,
                x,
                d,
            ),
            final(self).value_at(y as int, x as int) is Empty || (old(self).same_state(final(self))
                && final(t).dropped == old(t).dropped),
            !is_real(old(self).value_at(y as int, x as int)) ==> old(self).same_state(final(self))
                && final(t).dropped == old(t).dropped,
            ({
                let (dy, dx) = conveyor_step(d);
                final(self).value_at(y as int, x as int) is Empty && is_real(
                    old(self).value_at(y as int, x as int),
                ) && old(self).in_grid(y + dy, x + dx) ==> final(self).value_at(y + dy, x + dx)
                    == old(self).value_at(y as int, x as int)
            }),
        decreases unacted(old(t).acted@), 2int,
    {
        let i = self.cell_index(y, x);
        let v = self.grid[i].value;
        proof {
            lemma_evolves_refl(self);
        }
        match v {
            ValueType::Integer(_) | ValueType::Character(_) | ValueType::HaltProgram => {
                let (dy, dx) = d.step();
                let dest = self.offset(y, x, dy, dx);
                if self.push_value(v, dest, t, snap) {
                    let ghost mid = *self;
                    proof {
                        if let Some((ny, nx)) = dest {
                            lemma_index_bounds(ny as int, nx as int, self.width as int, self.height as int);
                            lemma_index_shift(y as int, x as int, dy as int, dx as int, self.width as int);
                        }
                    }
                    self.set_value(i, ValueType::Empty);
                    proof {
                        lemma_evolves_trans(old(self), &mid, self);
                    }
                }
            },
            _ => {},
        }
    }

    /// A logical conveyor, away from the top and bottom rows, moves the value
    /// above it one column sideways: left unless the snapshot shows the
    /// integer zero below it; an empty cell below means nothing moves.
    fn update_logical_conveyor(&mut self, y: usize, x: usize, t: &mut TickState, snap: &Vec<ValueType>)
        requires
            old(self).wf(),
            tracks(old(t), old(self)),
            budget(old(t)) < old(self).grid@.len(),
            snapshot_fits(snap@, old(self).grid@),
            old(self).in_grid(y as int, x as int),
            old(self).kind_at(y as int, x as int) is LogicalConveyor,
            y > 0 ==> old(t).acted@[old(self).index(y - 1, x as int)],
        ensures
            old(self).evolves_to(final(self)),
            tracks(final(t), final(self)),
            grows(old(t).acted@, final(t).acted@),
            budget(final(t)) <= budget(old(t)) + 1,
            conserves(old(self), final(self), old(t), final(t), 0),
            board_of(final(self), final(t), snap@) == logical_model(
                board_of(old(self), old(t), snap@),
                y,
                x,
            ),
            y == 0 || y + 1 == old(self).height || snap@[old(self).index(y + 1, x as int)] is Empty
                || !is_real(old(self).value_at(y - 1, x as int)) ==> old(self).same_state(
                final(self),
            ) && final(t).dropped == old(t).dropped,
            0 < y && y + 1 < old(self).height ==> {
                let v = old(self).value_at(y - 1, x as int);
                let dx: int = if routes_left(snap@[old(self).index(y + 1, x as int)]) {
                    -1
                } else {
                    1
                };
                (final(self).value_at(y - 1, x as int) is Empty && (old(self).in_grid(
                    y as int,
                    x + dx,
                ) ==> final(self).value_at(y as int, x + dx) == v)) || (old(self).same_state(
                    final(self),
                ) && final(t).dropped == old(t).dropped)
            },
        decreases unacted(old(t).acted@), 2int,
    {
        proof {
            lemma_evolves_refl(self);
        }
        if y == 0 || y + 1 >= self.height {
            return ;
        }
        let below = snap[self.cell_index(y + 1, x)];
        let left = match below {
            ValueType::Empty => {
                return ;
            },
            ValueType::Integer(n) => n != 0,
            _ => true,
        };
        let src = self.cell_index(y - 1, x);
        let v = self.grid[src].value;
        match v {
            ValueType::Integer(_) | ValueType::Character(_) | ValueType::HaltProgram => {},
            _ => {
                return ;
            },
        }
        let dest = if left {
            self.offset(y, x, 0, -1)
        } else {
            self.offset(y, x, 0, 1)
        };
        proof {
            lemma_index_bounds(y as int, x as int, self.width as int, self.height as int);
        }
        if self.push_value(v, dest, t, snap) {
            let ghost mid = *self;
            proof {
                if let Some((ny, nx)) = dest {
                    lemma_index_bounds(ny as int, nx as int, self.width as int, self.height as int);
                }
            }
            self.set_value(src, ValueType::Empty);
            proof {
                lemma_evolves_trans(old(self), &mid, self);
            }
        }
    }

    /// An operator combines its neighbours' values and pushes the result on.
    /// It either consumes its operands and emits a result, or changes nothing:
    /// when its push fails the operands are put back as they were.
    pub fn update_operator(
        &mut self,
        y: usize,
        x: usize,
        op: OperatorType,
        t: &mut TickState,
        snap: &Vec<ValueType>,
    ) -> (r: Result<bool, RunError>)
        requires
            old(self).wf(),
            tracks(old(t), old(self)),
            budget(old(t)) < old(self).grid@.len(),
            snapshot_fits(snap@, old(self).grid@),
            old(self).in_grid(y as int, x as int),
            old(self).kind_at(y as int, x as int) == SpaceType::Operator(op),
        ensures
            old(self).evolves_to(final(self)),
            tracks(final(t), final(self)),
            grows(old(t).acted@, final(t).acted@),
            budget(final(t)) <= budget(old(t)) + 1,
            (board_of(final(self), final(t), snap@), r) == operator_model(
                board_of(old(self), old(t), snap@),
                y,
                x,
                op,
            ),
            !(r == Ok::<bool, RunError>(true)) ==> old(self).same_state(final(self))
                && final(t).dropped == old(t).dropped,
            is_binary(op) ==> {
                let lv = numeric(old(self).value_at(y as int, x - 1));
                let rv = numeric(old(self).value_at(y as int, x + 1));
                let applies = 0 < x && x + 1 < old(self).width && lv is Some && rv is Some;
                &&& (r is Err <==> applies && divides_by_zero(op, rv->0))
                &&& (r is Err ==> r == Err::<bool, RunError>(
                    RunError::DivisionByZero { row: y, col: x },
                ))
                &&& (!applies ==> r == Ok::<bool, RunError>(false))
                &&& (r == Ok::<bool, RunError>(true) && old(self).in_grid(y + 1, x as int)
                    ==> final(self).value_at(y + 1, x as int) == ValueType::Integer(
                    binary_result(op, lv->0, rv->0),
                ))
            },
            !is_binary(op) ==> {
                let sv = snap@[old(self).index(y as int, x - 1)];
                &&& r is Ok
                &&& (x == 0 || numeric(sv) is None ==> r == Ok::<bool, RunError>(false))
                &&& (r == Ok::<bool, RunError>(true) && old(self).in_grid(y as int, x + 1)
                    ==> final(self).value_at(y as int, x + 1) == unary_result(op, sv))
            },
        decreases unacted(old(t).acted@), 3int,
    {
        match op {
            OperatorType::Invert | OperatorType::Duplicate => self.update_unary(y, x, op, t, snap),
            _ => self.update_binary(y, x, op, t, snap),
        }
    }

    /// Invert or duplicate: reads the left neighbour in the snapshot and pushes
    /// the result right, consuming the left cell's value only if the push succeeds.
    fn update_unary(
        &mut self,
        y: usize,
        x: usize,
        op: OperatorType,
        t: &mut TickState,
        snap: &Vec<ValueType>,
    ) -> (r: Result<bool, RunError>)
        requires
            old(self).wf(),
            tracks(old(t), old(self)),
            budget(old(t)) < old(self).grid@.len(),
            snapshot_fits(snap@, old(self).grid@),
            old(self).in_grid(y as int, x as int),
            old(self).kind_at(y as int, x as int) == SpaceType::Operator(op),
            !is_binary(op),
        ensures
            old(self).evolves_to(final(self)),
            tracks(final(t), final(self)),
            grows(old(t).acted@, final(t).acted@),
            budget(final(t)) <= budget(old(t)) + 1,
            (board_of(final(self), final(t), snap@), r) == operator_model(
                board_of(old(self), old(t), snap@),
                y,
                x,
                op,
            ),
            !(r == Ok::<bool, RunError>(true)) ==> old(self).same_state(final(self))
                && final(t).dropped == old(t).dropped,
            r is Ok,
            x == 0 || numeric(snap@[old(self).index(y as int, x - 1)]) is None
                ==> r == Ok::<bool, RunError>(false),
            r == Ok::<bool, RunError>(true) && old(self).in_grid(y as int, x + 1)
                ==> final(self).value_at(y as int, x + 1)
                == unary_result(op, snap@[old(self).index(y as int, x - 1)]),
        decreases unacted(old(t).acted@), 2int,
    {
        proof {
            lemma_evolves_refl(self);
            lemma_index_bounds(y as int, x as int, self.width as int, self.height as int);
        }
        if x == 0 {
            return Ok(false);
        }
        let li = self.cell_index(y, x - 1);
        let sv = snap[li];
        let out = match sv {
            ValueType::Integer(n) => {
                if op == OperatorType::Invert {
                    ValueType::Integer(if n == 0 { 1 } else { 0 })
                } else {
                    sv
                }
            },
            ValueType::Character(c) => {
                if op == OperatorType::Invert {
                    ValueType::Integer(if c as u32 == 0 { 1 } else { 0 })
                } else {
                    sv
                }
            },
            _ => {
                return Ok(false);
            },
        };
        let lv = self.grid[li].value;
        self.set_value(li, ValueType::Empty);
        let ghost cleared = *self;
        let dest = self.offset(y, x, 0, 1);
        if self.push_value(out, dest, t, snap) {
            proof {
                lemma_evolves_trans(old(self), &cleared, self);
            }
            Ok(true)
        } else {
            self.set_value(li, lv);
            proof {
                assert(self.grid@ =~= old(self).grid@);
            }
            Ok(false)
        }
    }

    /// A binary operator between two numeric neighbours pushes its result down,
    /// consuming both operands only if the push succeeds.
    fn update_binary(
        &mut self,
        y: usize,
        x: usize,
        op: OperatorType,
        t: &mut TickState,
        snap: &Vec<ValueType>,
    ) -> (r: Result<bool, RunError>)
        requires
            old(self).wf(),
            tracks(old(t), old(self)),
            budget(old(t)) < old(self).grid@.len(),
            snapshot_fits(snap@, old(self).grid@),
            old(self).in_grid(y as int, x as int),
            old(self).kind_at(y as int, x as int) == SpaceType::Operator(op),
            is_binary(op),
        ensures
            old(self).evolves_to(final(self)),
            tracks(final(t), final(self)),
            grows(old(t).acted@, final(t).acted@),
            budget(final(t)) <= budget(old(t)) + 1,
            (board_of(final(self), final(t), snap@), r) == operator_model(
                board_of(old(self), old(t), snap@),
                y,
                x,
                op,
            ),
            !(r == Ok::<bool, RunError>(true)) ==> old(self).same_state(final(self))
                && final(t).dropped == old(t).dropped,
            ({
                let lv = numeric(old(self).value_at(y as int, x - 1));
                let rv = numeric(old(self).value_at(y as int, x + 1));
                let applies = 0 < x && x + 1 < old(self).width && lv is Some && rv is Some;
                &&& (r is Err <==> applies && divides_by_zero(op, rv->0))
                &&& (r is Err ==> r == Err::<bool, RunError>(
                    RunError::DivisionByZero { row: y, col: x },
                ))
                &&& (!applies ==> r == Ok::<bool, RunError>(false))
                &&& (r == Ok::<bool, RunError>(true) && old(self).in_grid(y + 1, x as int)
                    ==> final(self).value_at(y + 1, x as int) == ValueType::Integer(
                    binary_result(op, lv->0, rv->0),
                ))
            }),
        decreases unacted(old(t).acted@), 2int,
    {
        proof {
            lemma_evolves_refl(self);
            lemma_index_bounds(y as int, x as int, self.width as int, self.height as int);
        }
        if x == 0 || x + 1 >= self.width {
            return Ok(false);
        }
        let li = self.cell_index(y, x - 1);
        let ri = self.cell_index(y, x + 1);
        let lv = self.grid[li].value;
        let rv = self.grid[ri].value;
        let l = match lv {
            ValueType::Integer(n) => n,
            ValueType::Character(c) => c as i32,
            _ => {
                return Ok(false);
            },
        };
        let r = match rv {
            ValueType::Integer(n) => n,
            ValueType::Character(c) => c as i32,
            _ => {
                return Ok(false);
            },
        };
        let res = match apply_binary(op, l, r) {
            Some(v) => v,
            None => {
                return Err(RunError::DivisionByZero { row: y, col: x });
            },
        };
        self.set_value(li, ValueType::Empty);
        self.set_value(ri, ValueType::Empty);
        let ghost cleared = *self;
        proof {
            lemma_evolves_trans(old(self), old(self), &cleared);
        }
        let dest = self.offset(y, x, 1, 0);
        if self.push_value(ValueType::Integer(res), dest, t, snap) {
            proof {
                lemma_evolves_trans(old(self), &cleared, self);
            }
            Ok(true)
        } else {
            self.set_value(li, lv);
            self.set_value(ri, rv);
            proof {
                assert(self.grid@ =~= old(self).grid@);
            }
            Ok(false)
        }
    }

    /// A processor consumes what it holds: a print processor emits an integer
    /// in decimal or a character as itself, and stops the run on the halt
    /// marker; a delete processor emits nothing.
    fn update_processor(&mut self, y: usize, x: usize, k: ProcessorType)
        requires
            old(self).wf(),
            old(self).in_grid(y as int, x as int),
            old(self).kind_at(y as int, x as int) == SpaceType::Processor(k),
        ensures
            final(self).grid@ == old(self).grid@.update(
                old(self).index(y as int, x as int),
                Space { value: ValueType::Empty, space_type: SpaceType::Processor(k) },
            ),
            final(self).output@ == old(self).output@ + emitted(k, old(self).value_at(y as int, x as int)),
            final(self).running == (old(self).running && !(k is Print && old(self).value_at(
                y as int,
                x as int,
            ) is HaltProgram)),
            old(self).evolves_to(final(self)),
    {
        let i = self.cell_index(y, x);
        let v = self.grid[i].value;
        if k == ProcessorType::Print {
            match v {
                ValueType::Integer(n) => write_decimal(&mut self.output, n),
                ValueType::Character(c) => self.output.push(c),
                ValueType::HaltProgram => self.running = false,
                _ => {},
            }
        }
        proof {
            assert(self.output@ =~= old(self).output@ + emitted(k, v));
            assert(self.output@.subrange(0, old(self).output@.len() as int) =~= old(self).output@);
        }
        self.set_value(i, ValueType::Empty);
    }

    /// Splits a position in `grid` into its row and column.
    fn coords(&self, i: usize) -> (r: (usize, usize))
        requires
            self.wf(),
            i < self.grid@.len(),
        ensures
            self.in_grid(r.0 as int, r.1 as int),
            self.index(r.0 as int, r.1 as int) == i,
            self.width > 0,
            r.0 == i / self.width,
            r.1 == i % self.width,
    {
        let w = self.width;
        let h = self.height;
        proof {
            assert(w > 0) by (nonlinear_arith)
                requires
                    i < w * h,
                    i >= 0,
                    h >= 0,
            ;
            lemma_fundamental_div_mod(i as int, w as int);
            lemma_mod_pos_bound(i as int, w as int);
            let y = i as int / w as int;
            let x = i as int % w as int;
            assert(y < h) by (nonlinear_arith)
                requires
                    i == w * y + x,
                    0 <= x,
                    i < w * h,
                    w > 0,
            ;
            assert(w * y == y * w) by (nonlinear_arith);
        }
        (i / w, i % w)
    }

    /// The snapshot of a tick: the value of every cell as the tick starts.
    fn take_snapshot(&self) -> (snap: Vec<ValueType>)
        requires
            self.wf(),
        ensures
            snap@.len() == self.grid@.len(),
            forall|i: int| 0 <= i < snap@.len() ==> #[trigger] snap@[i] == self.grid@[i].value,
            snapshot_fits(snap@, self.grid@),
    {
        let n = self.grid.len();
        let mut snap: Vec<ValueType> = Vec::new();
        let mut i: usize = 0;
        while i < n
            invariant
                n == self.grid@.len(),
                i <= n,
                snap@.len() == i,
                forall|j: int| 0 <= j < i ==> #[trigger] snap@[j] == self.grid@[j].value,
            decreases n - i,
        {
            snap.push(self.grid[i].value);
            i = i + 1;
        }
        proof {
            assert forall|j: int| 0 <= j < self.grid@.len() implies ((#[trigger] snap@[j]) is CannotHoldValue
                <==> !holds_values(self.grid@[j].space_type)) by {
                assert(self.grid@[j].wf());
            }
        }
        snap
    }

    /// Runs one tick. Pass 1 lets every operator and processor act, in row-major
    /// order; pass 2 then lets every cell that has not acted yet act, in the
    /// same order. Each cell acts at most once. The result is how many values
    /// left the grid during the tick; a zero divisor ends the tick at once with
    /// an error.
    pub fn update_board(&mut self) -> (r: Result<usize, RunError>)
        requires
            old(self).wf(),
        ensures
            old(self).evolves_to(final(self)),
            r matches Ok(n) ==> (movers_only(old(self).grid@) ==> final(self).count() + n == old(
                self,
            ).count()),
            ({
                let (b, res) = tick_model(
                    start_board(
                        old(self).grid@,
                        old(self).width as int,
                        old(self).height as int,
                        old(self).output@,
                        old(self).running,
                    ),
                );
                &&& final(self).grid@ == b.grid
                &&& final(self).output@ == b.output
                &&& final(self).running == b.running
                &&& (r matches Ok(n) ==> res is Ok && n == b.dropped)
                &&& (r matches Err(e) ==> res == Err::<(), RunError>(e))
            }),
            r matches Err(RunError::DivisionByZero { row, col }) ==> old(self).in_grid(
                row as int,
                col as int,
            ) && (old(self).kind_at(row as int, col as int) == SpaceType::Operator(
                OperatorType::Division,
            ) || old(self).kind_at(row as int, col as int) == SpaceType::Operator(
                OperatorType::Modulus,
            )),
    {
        let n = self.grid.len();
        let snap = self.take_snapshot();
        let mut acted: Vec<bool> = Vec::new();
        let mut k: usize = 0;
        while k < n
            invariant
                k <= n,
                acted@ == Seq::new(k as nat, |j: int| false),
            decreases n - k,
        {
            acted.push(false);
            k = k + 1;
            assert(acted@ =~= Seq::new(k as nat, |j: int| false));
        }
        proof {
            lemma_unacted_none(n as nat);
            lemma_evolves_refl(self);
        }
        let mut t = TickState { acted, dropped: 0 };
        let ghost start = *self;
        let ghost b0 = start_board(
            self.grid@,
            self.width as int,
            self.height as int,
            self.output@,
            self.running,
        );
        proof {
            assert(snap@ =~= b0.snap);
            assert(t.acted@ =~= b0.acted);
            assert(board_of(self, &t, snap@) == b0);
        }
        let mut i: usize = 0;
        while i < n
            invariant
                n == self.grid@.len(),
                start == *old(self),
                b0 == start_board(
                    start.grid@,
                    start.width as int,
                    start.height as int,
                    start.output@,
                    start.running,
                ),
                start.evolves_to(self),
                self.wf(),
                tracks(&t, self),
                budget(&t) <= n,
                snapshot_fits(snap@, self.grid@),
                movers_only(start.grid@) ==> self.count() + t.dropped == start.count(),
                i <= n,
                first_pass(board_of(self, &t, snap@), n as int, i as int) == first_pass(
                    b0,
                    n as int,
                    0,
                ),
            decreases n - i,
        {
            let (y, x) = self.coords(i);
            match self.grid[i].space_type {
                SpaceType::Operator(_) | SpaceType::Processor(_) => {
                    let ghost before = *self;
                    let ghost bb = board_of(self, &t, snap@);
                    proof {
                        if movers_only(start.grid@) {
                            lemma_movers_kept(start.grid@, self.grid@);
                        }
                    }
                    match self.update_space(y, x, &mut t, &snap) {
                        Ok(()) => {},
                        Err(e) => {
                            proof {
                                lemma_evolves_trans(&start, &before, self);
                                assert(first_pass(bb, n as int, i as int) == (
                                    board_of(self, &t, snap@),
                                    Err::<(), RunError>(e),
                                ));
                                assert(tick_model(b0) == (
                                    board_of(self, &t, snap@),
                                    Err::<(), RunError>(e),
                                ));
                            }
                            return Err(e);
                        },
                    }
                    proof {
                        lemma_evolves_trans(&start, &before, self);
                    }
                },
                _ => {},
            }
            i = i + 1;
        }
        let ghost b1 = board_of(self, &t, snap@);
        let mut i: usize = 0;
        while i < n
            invariant
                n == self.grid@.len(),
                start == *old(self),
                b0 == start_board(
                    start.grid@,
                    start.width as int,
                    start.height as int,
                    start.output@,
                    start.running,
                ),
                start.evolves_to(self),
                self.wf(),
                tracks(&t, self),
                budget(&t) <= n,
                snapshot_fits(snap@, self.grid@),
                movers_only(start.grid@) ==> self.count() + t.dropped == start.count(),
                i <= n,
                first_pass(b0, n as int, 0) == (b1, Ok::<(), RunError>(())),
                second_pass(board_of(self, &t, snap@), n as int, i as int) == second_pass(
                    b1,
                    n as int,
                    0,
                ),
                forall|j: int| 0 <= j < i ==> #[trigger] t.acted@[j],
            decreases n - i,
        {
            let (y, x) = self.coords(i);
            let ghost before = *self;
            let ghost bb = board_of(self, &t, snap@);
            proof {
                lemma_index_bounds(y as int, x as int, self.width as int, self.height as int);
                if movers_only(start.grid@) {
                    lemma_movers_kept(start.grid@, self.grid@);
                }
            }
            match self.update_space(y, x, &mut t, &snap) {
                Ok(()) => {},
                Err(e) => {
                    proof {
                        lemma_evolves_trans(&start, &before, self);
                        assert(second_pass(bb, n as int, i as int) == (
                            board_of(self, &t, snap@),
                            Err::<(), RunError>(e),
                        ));
                    }
                    return Err(e);
                },
            }
            proof {
                lemma_evolves_trans(&start, &before, self);
            }
            i = i + 1;
        }
        Ok(t.dropped)
    }
}

} // verus!
