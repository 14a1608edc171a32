use gridflow::engine::TickState;
use gridflow::{
    find_longest_line_and_count_lines, ConveyorType, OperatorType, Program, ProcessorType, RunError,
    SpaceType, StructureError, ValueType,
};

fn build(text: &str) -> Program {
    match Program::new(text.to_string()) {
        Ok(p) => p,
        Err(e) => panic!("program text refused: {:?}", e),
    }
}

fn at(p: &Program, row: usize, col: usize) -> ValueType {
    p.grid[row * p.width + col].value
}

fn tick(p: &mut Program) -> usize {
    match p.update_board() {
        Ok(n) => n,
        Err(e) => panic!("run error: {:?}", e),
    }
}

fn output(p: &Program) -> String {
    p.output.iter().collect()
}

fn count(p: &Program) -> usize {
    p.grid
        .iter()
        .filter(|s| {
            matches!(
                s.value,
                ValueType::Integer(_) | ValueType::Character(_) | ValueType::HaltProgram
            )
        })
        .count()
}

/// Runs two ticks of `left op right` over a print processor and returns the output.
fn evaluate(text: &str) -> String {
    let mut p = build(text);
    tick(&mut p);
    tick(&mut p);
    output(&p)
}

#[test]
fn arithmetic_and_print() {
    let mut p = build("3+4\n @ ");
    assert_eq!((p.width, p.height), (3, 2));
    tick(&mut p);
    assert_eq!(at(&p, 1, 1), ValueType::Integer(7));
    assert_eq!(at(&p, 0, 0), ValueType::Empty);
    assert_eq!(at(&p, 0, 2), ValueType::Empty);
    assert_eq!(output(&p), "");
    tick(&mut p);
    assert_eq!(output(&p), "7");
    assert_eq!(at(&p, 1, 1), ValueType::Empty);
    assert!(p.running);
}

#[test]
fn value_falls_off_without_halting() {
    let mut p = build("5;");
    assert_eq!((p.width, p.height), (2, 1));
    assert_eq!(tick(&mut p), 2);
    assert_eq!(at(&p, 0, 0), ValueType::Empty);
    assert_eq!(at(&p, 0, 1), ValueType::Empty);
    for _ in 0..5 {
        assert_eq!(tick(&mut p), 0);
        assert!(p.running);
    }
    assert_eq!(output(&p), "");
}

#[test]
fn short_rows_are_padded() {
    let p = build("ab\nc");
    assert_eq!((p.width, p.height), (2, 2));
    assert_eq!(p.grid.len(), 4);
    assert_eq!(p.grid[2].value, ValueType::Character('c'));
    assert_eq!(p.grid[2].space_type, SpaceType::Conveyor(ConveyorType::Down));
    assert_eq!(p.grid[3].value, ValueType::Empty);
    assert_eq!(p.grid[3].space_type, SpaceType::Conveyor(ConveyorType::Down));
}

fn cascade(n: usize) {
    let symbols: Vec<char> = "0123456789abcdefghijklmnopqrstuvwxyzABCDEFGHIJKLMNOPQRSTUVWXYZ"
        .chars()
        .collect();
    let mut text = String::new();
    for c in symbols.iter().take(n) {
        text.push(*c);
        text.push('\n');
    }
    text.push(' ');
    let mut p = build(&text);
    assert_eq!((p.width, p.height), (1, n + 1));
    let before: Vec<ValueType> = p.grid.iter().map(|s| s.value).collect();
    assert_eq!(tick(&mut p), 0);
    assert_eq!(at(&p, 0, 0), ValueType::Empty);
    for row in 0..n {
        assert_eq!(at(&p, row + 1, 0), before[row]);
    }
    assert_eq!(count(&p), n);
}

#[test]
fn cascade_of_one() {
    cascade(1);
}

#[test]
fn cascade_of_five() {
    cascade(5);
}

#[test]
fn cascade_of_fifty() {
    cascade(50);
}

#[test]
fn conveyors_conserve_values() {
    let mut p = build("12_\n}  \n   ");
    let mut before = count(&p);
    assert_eq!(before, 2);
    for _ in 0..4 {
        let dropped = tick(&mut p);
        assert_eq!(count(&p) + dropped, before);
        before = count(&p);
    }
    assert_eq!(count(&p), 0);
}

#[test]
fn double_conveyor_moves_two_rows() {
    let mut p = build("1\n,\n \n ");
    tick(&mut p);
    assert_eq!(at(&p, 1, 0), ValueType::Integer(1));
    tick(&mut p);
    assert_eq!(at(&p, 1, 0), ValueType::Empty);
    assert_eq!(at(&p, 2, 0), ValueType::Empty);
    assert_eq!(at(&p, 3, 0), ValueType::Integer(1));
}

#[test]
fn blocked_operator_keeps_its_operands() {
    let mut p = build("3+4\n___");
    for _ in 0..3 {
        tick(&mut p);
        assert_eq!(at(&p, 0, 0), ValueType::Integer(3));
        assert_eq!(at(&p, 0, 2), ValueType::Integer(4));
    }
}

#[test]
fn operator_at_the_edge_does_nothing() {
    let mut p = build("+3\n__");
    tick(&mut p);
    assert_eq!(at(&p, 0, 1), ValueType::Integer(3));
}

#[test]
fn division_by_zero_is_fatal() {
    let mut p = build("5/0");
    assert_eq!(p.update_board(), Err(RunError::DivisionByZero { row: 0, col: 1 }));
    let mut q = build("5%0");
    assert_eq!(q.update_board(), Err(RunError::DivisionByZero { row: 0, col: 1 }));
}

#[test]
fn operator_results() {
    assert_eq!(evaluate("3-7\n @ "), "-4");
    assert_eq!(evaluate("9*9\n @ "), "81");
    assert_eq!(evaluate("9/2\n @ "), "4");
    assert_eq!(evaluate("9%4\n @ "), "1");
    assert_eq!(evaluate("6&3\n @ "), "2");
    assert_eq!(evaluate("6|3\n @ "), "7");
    assert_eq!(evaluate("3=3\n @ "), "1");
    assert_eq!(evaluate("3=4\n @ "), "0");
    assert_eq!(evaluate("3<7\n @ "), "1");
    assert_eq!(evaluate("3>7\n @ "), "0");
    assert_eq!(evaluate("a+0\n @ "), "97");
}

#[test]
fn invert_and_duplicate() {
    let mut p = build("0! \n___");
    tick(&mut p);
    assert_eq!(at(&p, 0, 0), ValueType::Empty);
    assert_eq!(at(&p, 0, 2), ValueType::Integer(1));
    let mut q = build("7! \n___");
    tick(&mut q);
    assert_eq!(at(&q, 0, 2), ValueType::Integer(0));
    let mut r = build("a: \n___");
    tick(&mut r);
    assert_eq!(at(&r, 0, 0), ValueType::Empty);
    assert_eq!(at(&r, 0, 2), ValueType::Character('a'));
}

#[test]
fn logical_conveyor_routes_by_value_below() {
    let mut p = build(" 5 \n ? \n 0 ");
    tick(&mut p);
    assert_eq!(at(&p, 0, 1), ValueType::Empty);
    assert_eq!(at(&p, 1, 2), ValueType::Integer(5));
    let mut q = build(" 5 \n ? \n 1 ");
    tick(&mut q);
    assert_eq!(at(&q, 1, 0), ValueType::Integer(5));
    let mut r = build(" 5 \n ? \n   ");
    tick(&mut r);
    assert_eq!(at(&r, 0, 1), ValueType::Integer(5));
}

#[test]
fn print_character_and_halt() {
    let mut p = build("a\n@");
    tick(&mut p);
    tick(&mut p);
    assert_eq!(output(&p), "a");
    let mut q = build(";\n@");
    tick(&mut q);
    assert!(q.running);
    tick(&mut q);
    assert!(!q.running);
    assert_eq!(output(&q), "");
}

#[test]
fn delete_processor_emits_nothing() {
    let mut p = build("7\n#");
    tick(&mut p);
    tick(&mut p);
    assert_eq!(output(&p), "");
    assert_eq!(at(&p, 1, 0), ValueType::Empty);
}

#[test]
fn take_output_hands_over_text() {
    let mut p = build("3+4\n @ ");
    tick(&mut p);
    tick(&mut p);
    let text: String = p.take_output().into_iter().collect();
    assert_eq!(text, "7");
    assert!(p.output.is_empty());
}

#[test]
fn builder_reads_the_character_table() {
    let p = build("\";\\_?#@!:'[]{}^,=<>");
    assert_eq!(p.grid[0].value, ValueType::Character(' '));
    assert_eq!(p.grid[1].value, ValueType::HaltProgram);
    assert_eq!(p.grid[2].value, ValueType::Character('\n'));
    assert_eq!(p.grid[3].space_type, SpaceType::Wall);
    assert_eq!(p.grid[3].value, ValueType::CannotHoldValue);
    assert_eq!(p.grid[4].space_type, SpaceType::LogicalConveyor);
    assert_eq!(p.grid[5].space_type, SpaceType::Processor(ProcessorType::Delete));
    assert_eq!(p.grid[6].space_type, SpaceType::Processor(ProcessorType::Print));
    assert_eq!(p.grid[6].value, ValueType::Empty);
    assert_eq!(p.grid[7].space_type, SpaceType::Operator(OperatorType::Invert));
    assert_eq!(p.grid[8].space_type, SpaceType::Operator(OperatorType::Duplicate));
    assert_eq!(p.grid[9].space_type, SpaceType::Conveyor(ConveyorType::DoubleUp));
    assert_eq!(p.grid[10].space_type, SpaceType::Conveyor(ConveyorType::DoubleLeft));
    assert_eq!(p.grid[11].space_type, SpaceType::Conveyor(ConveyorType::DoubleRight));
    assert_eq!(p.grid[12].space_type, SpaceType::Conveyor(ConveyorType::Left));
    assert_eq!(p.grid[13].space_type, SpaceType::Conveyor(ConveyorType::Right));
    assert_eq!(p.grid[14].space_type, SpaceType::Conveyor(ConveyorType::Up));
    assert_eq!(p.grid[15].space_type, SpaceType::Conveyor(ConveyorType::DoubleDown));
    assert_eq!(p.grid[16].space_type, SpaceType::Operator(OperatorType::Equals));
    assert_eq!(p.grid[17].space_type, SpaceType::Operator(OperatorType::LessThan));
    assert_eq!(p.grid[18].space_type, SpaceType::Operator(OperatorType::GreaterThan));
}

#[test]
fn ignored_characters_take_no_column() {
    let p = build("a~b\ncd");
    assert_eq!((p.width, p.height), (3, 2));
    assert_eq!(p.grid[0].value, ValueType::Character('a'));
    assert_eq!(p.grid[1].value, ValueType::Character('b'));
    assert_eq!(p.grid[2].value, ValueType::Empty);
    assert_eq!(p.grid[3].value, ValueType::Character('c'));
}

#[test]
fn empty_text_is_refused() {
    assert!(matches!(Program::new(String::new()), Err(StructureError::EmptyProgram)));
}

#[test]
fn line_dimensions() {
    assert_eq!(find_longest_line_and_count_lines("ab\nc"), (2, 2));
    assert_eq!(find_longest_line_and_count_lines("ab\r\nc\r\n"), (2, 2));
    assert_eq!(find_longest_line_and_count_lines("x\n\nabcd\n"), (4, 3));
    assert_eq!(find_longest_line_and_count_lines(""), (0, 0));
}

#[test]
fn board_picture() {
    let p = build("3+}\n@#_\n?,{");
    let text: String = p.print_board().into_iter().collect();
    assert_eq!(text, "3+>\n@#_\n?'<\n");
    let mut q = build("a\n@");
    tick(&mut q);
    let text: String = q.print_board().into_iter().collect();
    assert_eq!(text, " \na\n");
}

#[test]
fn facing_conveyors_stall_without_looping() {
    let mut p = build("12\n}{\n__");
    tick(&mut p);
    assert_eq!(at(&p, 1, 0), ValueType::Integer(1));
    assert_eq!(at(&p, 1, 1), ValueType::Integer(2));
    for _ in 0..3 {
        assert_eq!(tick(&mut p), 0);
        assert_eq!(at(&p, 1, 0), ValueType::Integer(1));
        assert_eq!(at(&p, 1, 1), ValueType::Integer(2));
    }
}

#[test]
fn empty_rows_picture_as_empty_lines() {
    let p = build("\n");
    assert_eq!((p.width, p.height), (0, 1));
    let text: String = p.print_board().into_iter().collect();
    assert_eq!(text, "\n");
    let q = build("\n\n");
    let text: String = q.print_board().into_iter().collect();
    assert_eq!(text, "\n\n");
}

fn fresh_tick(p: &Program, acting: usize) -> (TickState, Vec<ValueType>) {
    let mut acted = vec![false; p.grid.len()];
    acted[acting] = true;
    let snap: Vec<ValueType> = p.grid.iter().map(|s| s.value).collect();
    (TickState { acted, dropped: 0 }, snap)
}

#[test]
fn failed_operator_push_changes_nothing() {
    let mut p = build("3+4\n___");
    let before: Vec<ValueType> = p.grid.iter().map(|s| s.value).collect();
    let (mut t, snap) = fresh_tick(&p, 1);
    assert_eq!(p.update_operator(0, 1, OperatorType::Addition, &mut t, &snap), Ok(false));
    let after: Vec<ValueType> = p.grid.iter().map(|s| s.value).collect();
    assert_eq!(before, after);
    assert_eq!(t.dropped, 0);
}

#[test]
fn conveyor_moves_by_its_step() {
    let mut p = build("1\n,\n \n ");
    tick(&mut p);
    let (mut t, snap) = fresh_tick(&p, 1);
    p.update_conveyor(1, 0, ConveyorType::DoubleDown, &mut t, &snap);
    assert_eq!(at(&p, 1, 0), ValueType::Empty);
    assert_eq!(at(&p, 2, 0), ValueType::Empty);
    assert_eq!(at(&p, 3, 0), ValueType::Integer(1));
}
