//! Building the grid from program text: one row per line, one cell per
//! recognised character, short rows padded with down conveyors.
use vstd::prelude::*;
use vstd::std_specs::iter::IteratorSpec;
use crate::program::Program;
use crate::space::{ConveyorType, OperatorType, ProcessorType, Space, SpaceType, ValueType};

verus! {

broadcast use vstd::string::next_postcondition, vstd::string::axiom_spec_iter;

/// Why program text cannot be built into a grid.
#[derive(Clone, Copy, Debug, PartialEq, Eq, Structural)]
pub enum StructureError {
    /// The text holds no line at all.
    EmptyProgram,
}

/// A line without the carriage return of a `\r\n` ending.
pub open spec fn strip_cr(l: Seq<char>) -> Seq<char> {
    if l.len() > 0 && l.last() == '\r' {
        l.drop_last()
    } else {
        l
    }
}

/// Reading `s` from the left: the lines ended by a newline so far, and the
/// characters of the line still open.
pub open spec fn scan(s: Seq<char>) -> (Seq<Seq<char>>, Seq<char>)
    decreases s.len(),
{
    if s.len() == 0 {
        (seq![], seq![])
    } else {
        let (done, cur) = scan(s.drop_last());
        if s.last() == '\n' {
            (done.push(strip_cr(cur)), seq![])
        } else {
            (done, cur.push(s.last()))
        }
    }
}

/// The lines of `s`: split at each newline, a `\r\n` ending counting as one,
/// and a final line ending optional.
pub open spec fn lines_of(s: Seq<char>) -> Seq<Seq<char>> {
    let (done, cur) = scan(s);
    if cur.len() == 0 {
        done
    } else {
        done.push(cur)
    }
}

/// The length of the longest line.
pub open spec fn longest(ls: Seq<Seq<char>>) -> nat
    decreases ls.len(),
{
    if ls.len() == 0 {
        0
    } else {
        let m = longest(ls.drop_last());
        if ls.last().len() > m {
            ls.last().len()
        } else {
            m
        }
    }
}

pub open spec fn down_conveyor() -> Space {
    Space { value: ValueType::Empty, space_type: SpaceType::Conveyor(ConveyorType::Down) }
}

pub open spec fn literal(v: ValueType) -> Option<Space> {
    Some(Space { value: v, space_type: SpaceType::Conveyor(ConveyorType::Down) })
}

pub open spec fn structure(t: SpaceType) -> Option<Space> {
    Some(
        Space {
            value: if t is Conveyor || t is Processor {
                ValueType::Empty
            } else {
                ValueType::CannotHoldValue
            },
            space_type: t,
        },
    )
}

/// The cell that a character of program text stands for; `None` for a
/// character that is ignored.
pub open spec fn cell_of(c: char) -> Option<Space> {
    if '0' <= c && c <= '9' {
        literal(ValueType::Integer((c as u32 - '0' as u32) as i32))
    } else if ('a' <= c && c <= 'z') || ('A' <= c && c <= 'Z') {
        literal(ValueType::Character(c))
    } else {
        match c {
            '"' => literal(ValueType::Character(' ')),
            '\\' => literal(ValueType::Character('\n')),
            ';' => literal(ValueType::HaltProgram),
            '+' => structure(SpaceType::Operator(OperatorType::Addition)),
            '-' => structure(SpaceType::Operator(OperatorType::Subtraction)),
            '*' => structure(SpaceType::Operator(OperatorType::Multiplication)),
            '/' => structure(SpaceType::Operator(OperatorType::Division)),
            '%' => structure(SpaceType::Operator(OperatorType::Modulus)),
            '&' => structure(SpaceType::Operator(OperatorType::And)),
            '|' => structure(SpaceType::Operator(OperatorType::Or)),
            '=' => structure(SpaceType::Operator(OperatorType::Equals)),
            '<' => structure(SpaceType::Operator(OperatorType::LessThan)),
            '>' => structure(SpaceType::Operator(OperatorType::GreaterThan)),
            '!' => structure(SpaceType::Operator(OperatorType::Invert)),
            ':' => structure(SpaceType::Operator(OperatorType::Duplicate)),
            ' ' => structure(SpaceType::Conveyor(ConveyorType::Down)),
            ',' => structure(SpaceType::Conveyor(ConveyorType::DoubleDown)),
            '^' => structure(SpaceType::Conveyor(ConveyorType::Up)),
            '\'' => structure(SpaceType::Conveyor(ConveyorType::DoubleUp)),
            '}' => structure(SpaceType::Conveyor(ConveyorType::Right)),
            ']' => structure(SpaceType::Conveyor(ConveyorType::DoubleRight)),
            '{' => structure(SpaceType::Conveyor(ConveyorType::Left)),
            '[' => structure(SpaceType::Conveyor(ConveyorType::DoubleLeft)),
            '?' => structure(SpaceType::LogicalConveyor),
            '@' => structure(SpaceType::Processor(ProcessorType::Print)),
            '#' => structure(SpaceType::Processor(ProcessorType::Delete)),
            '_' => structure(SpaceType::Wall),
            _ => None,
        }
    }
}

/// The cells of one line, in order, ignored characters left out.
pub open spec fn row_cells(l: Seq<char>) -> Seq<Space>
    decreases l.len(),
{
    if l.len() == 0 {
        seq![]
    } else {
        let r = row_cells(l.drop_last());
        match cell_of(l.last()) {
            Some(c) => r.push(c),
            None => r,
        }
    }
}

/// A row filled up to `w` cells with down conveyors.
pub open spec fn padded(row: Seq<Space>, w: nat) -> Seq<Space> {
    row + Seq::new(
        if row.len() < w {
            (w - row.len()) as nat
        } else {
            0
        },
        |i: int| down_conveyor(),
    )
}

/// The grid of the lines `ls`, row after row, each padded to `w` cells.
pub open spec fn rows_of(ls: Seq<Seq<char>>, w: nat) -> Seq<Space>
    decreases ls.len(),
{
    if ls.len() == 0 {
        seq![]
    } else {
        rows_of(ls.drop_last(), w) + padded(row_cells(ls.last()), w)
    }
}

/// The characters of `s`, in order.
fn chars_of(s: &str) -> (r: Vec<char>)
    ensures
        r@ == s@,
{
    let mut it = s.chars();
    let mut out: Vec<char> = Vec::new();
    loop
        invariant
            out@ + it.remaining() == s@,
            it.decrease() is Some,
        ensures
            out@ == s@,
        decreases it.decrease()->0,
    {
        match it.next() {
            Some(c) => {
                out.push(c);
            },
            None => {
                assert(out@ + it.remaining() =~= out@);
                break ;
            },
        }
    }
    out
}

/// The cell for one character of program text, as `cell_of` gives it.
fn cell_for(c: char) -> (r: Option<Space>)
    ensures
        r == cell_of(c),
{
    if '0' <= c && c <= '9' {
        Some(Space::new_value(ValueType::Integer((c as u32 - '0' as u32) as i32)))
    } else if ('a' <= c && c <= 'z') || ('A' <= c && c <= 'Z') {
        Some(Space::new_value(ValueType::Character(c)))
    } else {
        let kind = match c {
            '"' => {
                return Some(Space::new_value(ValueType::Character(' ')));
            },
            '\\' => {
                return Some(Space::new_value(ValueType::Character('\n')));
            },
            ';' => {
                return Some(Space::new_value(ValueType::HaltProgram));
            },
            '+' => SpaceType::Operator(OperatorType::Addition),
            '-' => SpaceType::Operator(OperatorType::Subtraction),
            '*' => SpaceType::Operator(OperatorType::Multiplication),
            '/' => SpaceType::Operator(OperatorType::Division),
            '%' => SpaceType::Operator(OperatorType::Modulus),
            '&' => SpaceType::Operator(OperatorType::And),
            '|' => SpaceType::Operator(OperatorType::Or),
            '=' => SpaceType::Operator(OperatorType::Equals),
            '<' => SpaceType::Operator(OperatorType::LessThan),
            '>' => SpaceType::Operator(OperatorType::GreaterThan),
            '!' => SpaceType::Operator(OperatorType::Invert),
            ':' => SpaceType::Operator(OperatorType::Duplicate),
            ' ' => SpaceType::Conveyor(ConveyorType::Down),
            ',' => SpaceType::Conveyor(ConveyorType::DoubleDown),
            '^' => SpaceType::Conveyor(ConveyorType::Up),
            '\'' => SpaceType::Conveyor(ConveyorType::DoubleUp),
            '}' => SpaceType::Conveyor(ConveyorType::Right),
            ']' => SpaceType::Conveyor(ConveyorType::DoubleRight),
            '{' => SpaceType::Conveyor(ConveyorType::Left),
            '[' => SpaceType::Conveyor(ConveyorType::DoubleLeft),
            '?' => SpaceType::LogicalConveyor,
            '@' => SpaceType::Processor(ProcessorType::Print),
            '#' => SpaceType::Processor(ProcessorType::Delete),
            '_' => SpaceType::Wall,
            _ => {
                return None;
            },
        };
        Some(Space::new_space(kind))
    }
}

/// Width and height of the grid that the characters `cs` build.
fn line_dims(cs: &Vec<char>) -> (r: (usize, usize))
    ensures
        r.0 == longest(lines_of(cs@)),
        r.1 == lines_of(cs@).len(),
{
    let n = cs.len();
    let mut i: usize = 0;
    let mut lines: usize = 0;
    let mut max_len: usize = 0;
    let mut cur: usize = 0;
    let mut cr = false;
    while i < n
        invariant
            i <= n,
            n == cs@.len(),
            lines + cur <= i,
            lines == scan(cs@.subrange(0, i as int)).0.len(),
            max_len == longest(scan(cs@.subrange(0, i as int)).0),
            cur == scan(cs@.subrange(0, i as int)).1.len(),
            cr == (cur > 0 && scan(cs@.subrange(0, i as int)).1.last() == '\r'),
        decreases n - i,
    {
        let c = cs[i];
        let ghost prev = scan(cs@.subrange(0, i as int));
        proof {
            assert(cs@.subrange(0, i + 1).drop_last() =~= cs@.subrange(0, i as int));
        }
        if c == '\n' {
            let l = if cr {
                cur - 1
            } else {
                cur
            };
            proof {
                assert(prev.0.push(strip_cr(prev.1)).drop_last() =~= prev.0);
            }
            if l > max_len {
                max_len = l;
            }
            lines = lines + 1;
            cur = 0;
            cr = false;
        } else {
            cur = cur + 1;
            cr = c == '\r';
        }
        i = i + 1;
    }
    proof {
        assert(cs@.subrange(0, n as int) =~= cs@);
        let (done, last) = scan(cs@);
        assert(done.push(last).drop_last() =~= done);
    }
    if cur > 0 {
        if cur > max_len {
            max_len = cur;
        }
        lines = lines + 1;
    }
    (max_len, lines)
}

/// The width and height of the grid that `file_contents` builds: the length
/// in characters of its longest line, and its number of lines.
pub fn find_longest_line_and_count_lines(file_contents: &str) -> (r: (usize, usize))
    ensures
        r.0 == longest(lines_of(file_contents@)),
        r.1 == lines_of(file_contents@).len(),
{
    let cs = chars_of(file_contents);
    line_dims(&cs)
}

/// Appends down conveyors until a row of `row` cells has `width`.
fn pad_row(grid: &mut Vec<Space>, row: usize, width: usize)
    ensures
        final(grid)@ == old(grid)@ + Seq::new(
            if row < width {
                (width - row) as nat
            } else {
                0
            },
            |j: int| down_conveyor(),
        ),
{
    let mut k = row;
    while k < width
        invariant
            row <= width ==> row <= k <= width,
            row > width ==> k == row,
            grid@ == old(grid)@ + Seq::new(
                if row < k {
                    (k - row) as nat
                } else {
                    0
                },
                |j: int| down_conveyor(),
            ),
        decreases width - k,
    {
        grid.push(Space::new_space(SpaceType::Conveyor(ConveyorType::Down)));
        k = k + 1;
        assert(grid@ =~= old(grid)@ + Seq::new((k - row) as nat, |j: int| down_conveyor()));
    }
}

pub proof fn lemma_longest(ls: Seq<Seq<char>>)
    ensures
        forall|j: int| 0 <= j < ls.len() ==> (#[trigger] ls[j]).len() <= longest(ls),
    decreases ls.len(),
{
    if ls.len() > 0 {
        lemma_longest(ls.drop_last());
        assert forall|j: int| 0 <= j < ls.len() implies (#[trigger] ls[j]).len() <= longest(ls) by {
            if j < ls.len() - 1 {
                assert(ls[j] == ls.drop_last()[j]);
            }
        }
    }
}

pub proof fn lemma_row_cells(l: Seq<char>)
    ensures
        row_cells(l).len() <= l.len(),
        forall|j: int| 0 <= j < row_cells(l).len() ==> (#[trigger] row_cells(l)[j]).wf(),
    decreases l.len(),
{
    if l.len() > 0 {
        lemma_row_cells(l.drop_last());
    }
}

pub proof fn lemma_rows_of(ls: Seq<Seq<char>>, w: nat)
    requires
        forall|j: int| 0 <= j < ls.len() ==> (#[trigger] ls[j]).len() <= w,
    ensures
        rows_of(ls, w).len() == w * ls.len(),
        forall|j: int| 0 <= j < rows_of(ls, w).len() ==> (#[trigger] rows_of(ls, w)[j]).wf(),
    decreases ls.len(),
{
    if ls.len() > 0 {
        let init = ls.drop_last();
        assert forall|j: int| 0 <= j < init.len() implies (#[trigger] init[j]).len() <= w by {
            assert(init[j] == ls[j]);
        }
        lemma_rows_of(init, w);
        lemma_row_cells(ls.last());
        assert(ls.last() == ls[ls.len() - 1]);
        let a = rows_of(init, w);
        let b = padded(row_cells(ls.last()), w);
        assert(b.len() == w);
        assert(w * ls.len() == w * init.len() + w) by (nonlinear_arith)
            requires
                init.len() + 1 == ls.len(),
        ;
        assert forall|j: int| 0 <= j < rows_of(ls, w).len() implies (#[trigger] rows_of(
            ls,
            w,
        )[j]).wf() by {
            if j < a.len() {
                assert(rows_of(ls, w)[j] == a[j]);
            } else {
                assert(rows_of(ls, w)[j] == b[j - a.len()]);
            }
        }
    }
}

impl Program {
    /// Builds the grid of the program text `file_contents`: one row per line,
    /// as wide as the longest line; each recognised character gives one cell,
    /// other characters are skipped, and short rows are padded on the right
    /// with down conveyors. Text with no line is refused.
    pub fn new(file_contents: String) -> (r: Result<Program, StructureError>)
        ensures
            r is Err <==> lines_of(file_contents@).len() == 0,
            r matches Ok(p) ==> {
                &&& p.wf()
                &&& p.width == longest(lines_of(file_contents@))
                &&& p.height == lines_of(file_contents@).len()
                &&& p.grid@ == rows_of(lines_of(file_contents@), p.width as nat)
                &&& p.running
                &&& p.output@.len() == 0
            },
    {
        let cs = chars_of(file_contents.as_str());
        let (width, height) = line_dims(&cs);
        if height == 0 {
            return Err(StructureError::EmptyProgram);
        }
        let n = cs.len();
        let mut grid: Vec<Space> = Vec::new();
        let mut i: usize = 0;
        let mut row: usize = 0;
        let mut cur: usize = 0;
        while i < n
            invariant
                i <= n,
                n == cs@.len(),
                row <= cur <= i,
                grid@ == rows_of(scan(cs@.subrange(0, i as int)).0, width as nat) + row_cells(
                    scan(cs@.subrange(0, i as int)).1,
                ),
                row == row_cells(scan(cs@.subrange(0, i as int)).1).len(),
                cur == scan(cs@.subrange(0, i as int)).1.len(),
            decreases n - i,
        {
            let c = cs[i];
            let ghost prev = scan(cs@.subrange(0, i as int));
            proof {
                assert(cs@.subrange(0, i + 1).drop_last() =~= cs@.subrange(0, i as int));
            }
            if c == '\n' {
                pad_row(&mut grid, row, width);
                proof {
                    let ls = prev.0.push(strip_cr(prev.1));
                    assert(ls.drop_last() =~= prev.0);
                    if prev.1.len() > 0 && prev.1.last() == '\r' {
                        assert(row_cells(prev.1) == row_cells(prev.1.drop_last()));
                    }
                    assert(row_cells(seq![]) =~= Seq::<Space>::empty());
                    assert(grid@ =~= rows_of(ls, width as nat) + row_cells(seq![]));
                }
                row = 0;
                cur = 0;
            } else {
                match cell_for(c) {
                    Some(sp) => {
                        grid.push(sp);
                        row = row + 1;
                    },
                    None => {},
                }
                proof {
                    assert(prev.1.push(c).drop_last() =~= prev.1);
                    assert(grid@ =~= rows_of(prev.0, width as nat) + row_cells(prev.1.push(c)));
                }
                cur = cur + 1;
            }
            i = i + 1;
        }
        proof {
            assert(cs@.subrange(0, n as int) =~= cs@);
        }
        if cur > 0 {
            pad_row(&mut grid, row, width);
            proof {
                let (done, last) = scan(cs@);
                assert(done.push(last).drop_last() =~= done);
                assert(grid@ =~= rows_of(done.push(last), width as nat));
            }
        } else {
            proof {
                assert(grid@ =~= rows_of(scan(cs@).0, width as nat));
            }
        }
        proof {
            let ls = lines_of(cs@);
            lemma_longest(ls);
            lemma_rows_of(ls, width as nat);
            assert(width * height == height * width) by (nonlinear_arith);
        }
        Ok(Program { grid, width, height, running: true, output: Vec::new() })
    }
}

} // verus!
