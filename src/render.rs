//! A text picture of the grid: each cell shown by its value, or by its kind
//! when it holds none, one line per row.
use vstd::prelude::*;
use crate::program::Program;
use crate::space::{ConveyorType, OperatorType, ProcessorType, Space, SpaceType, ValueType};

verus! {

/// The character that shows a cell: a one-digit integer as its digit, a wider
/// one as `n`, a newline character as `\`, another character as itself, the
/// halt marker as `;`, and an empty or structural cell by its kind.
pub open spec fn glyph(s: Space) -> char {
    match s.value {
        ValueType::Integer(i) => if 0 <= i < 10 {
            crate::text::digit_char(i as nat)
        } else {
            'n'
        },
        ValueType::Character(c) => if c == '\n' {
            '\\'
        } else {
            c
        },
        ValueType::HaltProgram => ';',
        _ => kind_glyph(s.space_type),
    }
}

pub open spec fn kind_glyph(t: SpaceType) -> char {
    match t {
        SpaceType::Conveyor(d) => match d {
            ConveyorType::Up => '^',
            ConveyorType::Down => ' ',
            ConveyorType::Left => '<',
            ConveyorType::Right => '>',
            ConveyorType::DoubleUp => '"',
            ConveyorType::DoubleDown => '\'',
            ConveyorType::DoubleLeft => '[',
            ConveyorType::DoubleRight => ']',
        },
        SpaceType::LogicalConveyor => '?',
        SpaceType::Operator(op) => match op {
            OperatorType::Addition => '+',
            OperatorType::Subtraction => '-',
            OperatorType::Multiplication => '*',
            OperatorType::Division => '/',
            OperatorType::Modulus => '%',
            OperatorType::And => '&',
            OperatorType::Or => '|',
            OperatorType::Equals => '=',
            OperatorType::LessThan => '<',
            OperatorType::GreaterThan => '>',
            OperatorType::Invert => '!',
            OperatorType::Duplicate => ':',
        },
        SpaceType::Processor(k) => match k {
            ProcessorType::Print => '@',
            ProcessorType::Delete => '#',
        },
        SpaceType::Wall => '_',
    }
}

/// The line that shows row `y` of a grid `w` cells wide: one glyph per cell,
/// then a newline.
pub open spec fn row_picture(g: Seq<Space>, w: nat, y: nat) -> Seq<char> {
    Seq::new(w, |x: int| glyph(g[y * w + x])).push('\n')
}

/// The picture of the first `h` rows of a grid `w` cells wide, one line per row.
pub open spec fn picture(g: Seq<Space>, w: nat, h: nat) -> Seq<char>
    decreases h,
{
    if h == 0 {
        seq![]
    } else {
        picture(g, w, (h - 1) as nat) + row_picture(g, w, (h - 1) as nat)
    }
}

pub proof fn lemma_picture_len(g: Seq<Space>, w: nat, h: nat)
    ensures
        picture(g, w, h).len() == h * (w + 1),
    decreases h,
{
    if h > 0 {
        let hp = (h - 1) as nat;
        lemma_picture_len(g, w, hp);
        assert(picture(g, w, h) == picture(g, w, hp) + row_picture(g, w, hp));
        assert(row_picture(g, w, hp).len() == w + 1);
        assert(h * (w + 1) == hp * (w + 1) + (w + 1)) by (nonlinear_arith)
            requires
                h == hp + 1,
        ;
    } else {
        assert(h * (w + 1) == 0) by (nonlinear_arith)
            requires
                h == 0,
        ;
    }
}

fn kind_char(t: SpaceType) -> (c: char)
    ensures
        c == kind_glyph(t),
{
    match t {
        SpaceType::Conveyor(d) => match d {
            ConveyorType::Up => '^',
            ConveyorType::Down => ' ',
            ConveyorType::Left => '<',
            ConveyorType::Right => '>',
            ConveyorType::DoubleUp => '"',
            ConveyorType::DoubleDown => '\'',
            ConveyorType::DoubleLeft => '[',
            ConveyorType::DoubleRight => ']',
        },
        SpaceType::LogicalConveyor => '?',
        SpaceType::Operator(op) => match op {
            OperatorType::Addition => '+',
            OperatorType::Subtraction => '-',
            OperatorType::Multiplication => '*',
            OperatorType::Division => '/',
            OperatorType::Modulus => '%',
            OperatorType::And => '&',
            OperatorType::Or => '|',
            OperatorType::Equals => '=',
            OperatorType::LessThan => '<',
            OperatorType::GreaterThan => '>',
            OperatorType::Invert => '!',
            OperatorType::Duplicate => ':',
        },
        SpaceType::Processor(k) => match k {
            ProcessorType::Print => '@',
            ProcessorType::Delete => '#',
        },
        SpaceType::Wall => '_',
    }
}

fn glyph_of(s: Space) -> (c: char)
    ensures
        c == glyph(s),
{
    match s.value {
        ValueType::Integer(i) => if 0 <= i && i < 10 {
            crate::text::digit(i as u32)
        } else {
            'n'
        },
        ValueType::Character(c) => if c == '\n' {
            '\\'
        } else {
            c
        },
        ValueType::HaltProgram => ';',
        _ => kind_char(s.space_type),
    }
}

impl Program {
    /// The picture of the whole grid: one line per row, each ending in a
    /// newline, so an empty row still gives an empty line.
    pub fn print_board(&self) -> (r: Vec<char>)
        requires
            self.wf(),
        ensures
            r@ == picture(self.grid@, self.width as nat, self.height as nat),
            r@.len() == self.height * (self.width + 1),
    {
        let w = self.width;
        let h = self.height;
        let mut out: Vec<char> = Vec::new();
        let mut y: usize = 0;
        while y < h
            invariant
                y <= h,
                w == self.width,
                h == self.height,
                self.wf(),
                out@ == picture(self.grid@, w as nat, y as nat),
            decreases h - y,
        {
            let mut x: usize = 0;
            while x < w
                invariant
                    y < h,
                    x <= w,
                    w == self.width,
                    h == self.height,
                    self.wf(),
                    out@ == picture(self.grid@, w as nat, y as nat) + Seq::new(
                        x as nat,
                        |k: int| glyph(self.grid@[y * w + k]),
                    ),
                decreases w - x,
            {
                let i = self.cell_index(y, x);
                out.push(glyph_of(self.grid[i]));
                x = x + 1;
                assert(out@ =~= picture(self.grid@, w as nat, y as nat) + Seq::new(
                    x as nat,
                    |k: int| glyph(self.grid@[y * w + k]),
                ));
            }
            out.push('\n');
            y = y + 1;
            assert(out@ =~= picture(self.grid@, w as nat, y as nat));
        }
        proof {
            lemma_picture_len(self.grid@, w as nat, h as nat);
        }
        out
    }
}

} // verus!
