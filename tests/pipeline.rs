use bf::analysis::{AbstractInterpreter, NoAnalysis, Slack};
use bf::ast;
use bf::bytecode;
use bf::common::{BfError, Command, Instruction};
use bf::interpreter;
use bf::jit;
use bf::peephole;
use bf::peephole::Statement;
use bf::rle;

const HELLO_WORLD_SRC: &[u8] = b"++++++++++[>+++++++>++++++++++>+++>++++++++>+++++++++<<<<<-]>++.>+.+++++++..+++.>++++++++++++++.------------.>>---.<<<.+++.------.--------.>+.";

/// Factors a number below 256 read as one line of decimal digits.
const FACTOR_SRC: &[u8] = b"\
    [-]>[-]++++++++++>>[-]+[>,>>[-]<[-]<[->+>+<<]>>[-<<+>>]<---------->>[-]+>>[-]<[-]<<<[->>>+>+<<<<\
    ]>>>>[-<<<<+>>>>]<[<[-]>[-]]<[<<<<[-]>>>>[-]]>>>>[-]<[-]<<<<<[->>>>>+>+<<<<<<]>>>>>>[-<<<<<<+>>>\
    >>>]<[<<<<<<.------------------------------------------------>>>>>>>>[-]<<<<<<<<<<<<[->>>>>>>>>>\
    >>+<<<<<<<<<<<<]>>>>>>>>>>>>[-<<<<<<<<<<<<++++++++++>>>>>>>>>>>>]<<<<<<<<[-<<<<+>>>>]>>>>>>[-]]<\
    <<<<[-]<[-]<]>>>>>>>>>>[-]++++++++++++++++++++++++++++++++++++++++++++++++++++++++++.[-]<<<<<<<<\
    <<<[-]++>>>>>>>>>>>>[-]>[-]<<<<<<<<<<[-]<<<<<[->>>>>+>>>>>>>>>>+<<<<<<<<<<<<<<<]>>>>>>>>>>>>>>>[\
    -<<<<<<<<<<<<<<<+>>>>>>>>>>>>>>>]<<<<<<<<<<->>>>>>>>>>>>[-]<[-]<<<<<<<<<<<[->>>>>>>>>>>+>+<<<<<<\
    <<<<<<]>>>>>>>>>>>>[-<<<<<<<<<<<<+>>>>>>>>>>>>]<[<<[-]+>>[-]]<<<<<<<<<<<[-]>>>>>>>>>[>>>>>>>[-]<\
    <<[-]<<<<<<<<<<<<<<<<<<[->>>>>>>>>>>>>>>>>>+>>>+<<<<<<<<<<<<<<<<<<<<<]>>>>>>>>>>>>>>>>>>>>>[-<<<\
    <<<<<<<<<<<<<<<<<<+>>>>>>>>>>>>>>>>>>>>>]<<[-]>[-]>>>[-]<[-]<<<<<<<<<<<<<<<<<<<<[->>>>>>>>>>>>>>\
    >>>>>>+>+<<<<<<<<<<<<<<<<<<<<<]>>>>>>>>>>>>>>>>>>>>>[-<<<<<<<<<<<<<<<<<<<<<+>>>>>>>>>>>>>>>>>>>>\
    >]<<<<<[->>>>-<<+>>>>[-]+>>[-]<[-]<<<[->>>+>+<<<<]>>>>[-<<<<+>>>>]<[<[-]>[-]]<[<<<<<+>[-]>>>>>>>\
    [-]<<<<<[-]<<<<<<<<<<<<<<<<<<<<[->>>>>>>>>>>>>>>>>>>>+>>>>>+<<<<<<<<<<<<<<<<<<<<<<<<<]>>>>>>>>>>\
    >>>>>>>>>>>>>>>[-<<<<<<<<<<<<<<<<<<<<<<<<<+>>>>>>>>>>>>>>>>>>>>>>>>>]<<<[-]]<<<<<<]>>>>>>>>>>[-]\
    +>>[-]<[-]<<<<<<<<<[->>>>>>>>>+>+<<<<<<<<<<]>>>>>>>>>>[-<<<<<<<<<<+>>>>>>>>>>]<[<[-]>[-]]<[>>>[-\
    ]++++++++++++++++++++++++++++++++.[-]>>[-]<[-]<<<<<<<<<<<<<<<<<<<<<<<<<<<<<<[->>>>>>>>>>>>>>>>>>\
    >>>>>>>>>>>>+>+<<<<<<<<<<<<<<<<<<<<<<<<<<<<<<<]>>>>>>>>>>>>>>>>>>>>>>>>>>>>>>>[-<<<<<<<<<<<<<<<<\
    <<<<<<<<<<<<<<<+>>>>>>>>>>>>>>>>>>>>>>>>>>>>>>>]>[-]>[-]>>[-]<[-]<<<<<<<<<<<<<<<<<<<<<<<<<<<<<<<\
    <<<<[->>>>>>>>>>>>>>>>>>>>>>>>>>>>>>>>>>>+>+<<<<<<<<<<<<<<<<<<<<<<<<<<<<<<<<<<<<]>>>>>>>>>>>>>>>\
    >>>>>>>>>>>>>>>>>>>>>[-<<<<<<<<<<<<<<<<<<<<<<<<<<<<<<<<<<<<+>>>>>>>>>>>>>>>>>>>>>>>>>>>>>>>>>>>>\
    ]<<<<<[->>>>-<+>>>[-]+>>[-]<[-]<<<[->>>+>+<<<<]>>>>[-<<<<+>>>>]<[<[-]>[-]]<[<<<<+>[-]>>>>>>[-]<<\
    <<<[-]<<<<<<<<<<<<<<<<<<<<<<<<<<<<<<<<<<<[->>>>>>>>>>>>>>>>>>>>>>>>>>>>>>>>>>>+>>>>>+<<<<<<<<<<<\
    <<<<<<<<<<<<<<<<<<<<<<<<<<<<<]>>>>>>>>>>>>>>>>>>>>>>>>>>>>>>>>>>>>>>>>[-<<<<<<<<<<<<<<<<<<<<<<<<\
    <<<<<<<<<<<<<<<<+>>>>>>>>>>>>>>>>>>>>>>>>>>>>>>>>>>>>>>>>]<<<[-]]<<<<<<]>>>>>>>>>>[-]>[-]>>[-]<[\
    -]<<<<<<<<<<<<<<<<<<<<<<<<<<<<<<<<<<<<<<<<<<<[->>>>>>>>>>>>>>>>>>>>>>>>>>>>>>>>>>>>>>>>>>>+>+<<<\
    <<<<<<<<<<<<<<<<<<<<<<<<<<<<<<<<<<<<<<<<<]>>>>>>>>>>>>>>>>>>>>>>>>>>>>>>>>>>>>>>>>>>>>[-<<<<<<<<\
    <<<<<<<<<<<<<<<<<<<<<<<<<<<<<<<<<<<<+>>>>>>>>>>>>>>>>>>>>>>>>>>>>>>>>>>>>>>>>>>>>]<<<<<<<<<<<[->\
    >>>>>>>>>-<+>>>[-]+>>[-]<[-]<<<[->>>+>+<<<<]>>>>[-<<<<+>>>>]<[<[-]>[-]]<[<<<<+>[-]>>>>>>[-]<<<<<\
    [-]<<<<<<<<<<<<<<<<<<<<<<<<<<<<<<<<<<<<<<<<<<<[->>>>>>>>>>>>>>>>>>>>>>>>>>>>>>>>>>>>>>>>>>>+>>>>\
    >+<<<<<<<<<<<<<<<<<<<<<<<<<<<<<<<<<<<<<<<<<<<<<<<<]>>>>>>>>>>>>>>>>>>>>>>>>>>>>>>>>>>>>>>>>>>>>>\
    >>>[-<<<<<<<<<<<<<<<<<<<<<<<<<<<<<<<<<<<<<<<<<<<<<<<<+>>>>>>>>>>>>>>>>>>>>>>>>>>>>>>>>>>>>>>>>>>\
    >>>>>>]<<<[-]]<<<<<<<<<<<<]>>>>>>>>>>>>>>>>[-]>>[-]<[-]<<<<<<<<<[->>>>>>>>>+>+<<<<<<<<<<]>>>>>>>\
    >>>[-<<<<<<<<<<+>>>>>>>>>>]<[<<<<<<<<<++++++++++++++++++++++++++++++++++++++++++++++++.---------\
    --------------------------------------->>>>>>>>[-]+>[-]]>>>[-]<[-]<<<<<<<<<<[->>>>>>>>>>+>+<<<<<\
    <<<<<<]>>>>>>>>>>>[-<<<<<<<<<<<+>>>>>>>>>>>]<[<<<[-]+>>>[-]]>>>[-]<[-]<<<<<[->>>>>+>+<<<<<<]>>>>\
    >>[-<<<<<<+>>>>>>]<[<<<<<<<<<<<<++++++++++++++++++++++++++++++++++++++++++++++++.---------------\
    --------------------------------->>>>>>>>>>>>[-]]<<<<<<<<<<<<<<<<<<<<+++++++++++++++++++++++++++\
    +++++++++++++++++++++.------------------------------------------------>>>>>>>[-]>[-]<<<<<<<<[-]>\
    >>>>>>>>>>>>>>[-]<<<<<<<<<<<<<<<<<<<<<<<<<<<<<<<<<<<<<<<<<<<<<<<<<<[-]>>>>>>>>>>>>>>>>>>>[-<<<<<\
    <<<<<<<<<<<<<<+>>>>>>>>>>>>>>>>>>>]>>>>>>>>>[-]]>>>>>>>>>>>>>>>>>>>>>>>>>>>>>>[-]<[-]<<<<<<<<<<<\
    <<<<<<<<<<<<<<<<<<<<<<<<<<[->>>>>>>>>>>>>>>>>>>>>>>>>>>>>>>>>>>>>+>+<<<<<<<<<<<<<<<<<<<<<<<<<<<<\
    <<<<<<<<<<]>>>>>>>>>>>>>>>>>>>>>>>>>>>>>>>>>>>>>>[-<<<<<<<<<<<<<<<<<<<<<<<<<<<<<<<<<<<<<<+>>>>>>\
    >>>>>>>>>>>>>>>>>>>>>>>>>>>>>>>>]<[<<<<<<<<<<<<<<<<<<<<<<<<<<<<<<<<<<<<<<<<<<<<<<<<<<<<<<<+>>>>>\
    >>>>>>>>>>>>>>>>>>>>>>>>>>>>>>>>>>>>>>>>>>>>>>>>>>[-]]<<<<<<<<<<<<<<<<<<<<<<<<<<<<<<<<<<<<<<[-]>\
    [-]<<<<<<[-]>>>>>>>>>>>>>>>>>>>>>>>>>>>>>>>>>>>>>>>>>>>>>[-]<<<<<<<<<<<<<<<<<<<<<<<<<<<<<<<<<<<<\
    <<<<<<<<<<<<<<<<<<[-]<<<<<[->>>>>+>>>>>>>>>>>>>>>>>>>>>>>>>>>>>>>>>>>>>>>>>>>>>>>>>>>>>>+<<<<<<<\
    <<<<<<<<<<<<<<<<<<<<<<<<<<<<<<<<<<<<<<<<<<<<<<<<<<<<]>>>>>>>>>>>>>>>>>>>>>>>>>>>>>>>>>>>>>>>>>>>\
    >>>>>>>>>>>>>>>>[-<<<<<<<<<<<<<<<<<<<<<<<<<<<<<<<<<<<<<<<<<<<<<<<<<<<<<<<<<<<+>>>>>>>>>>>>>>>>>>\
    >>>>>>>>>>>>>>>>>>>>>>>>>>>>>>>>>>>>>>>>>]<<<<<<<<<<<<<<<<<<<<<<<<<<<<<<<<<<<<<<<<<<<<<<<<<<<<<<\
    ->>>>>>>>>>>>>>>>>>>>>>>>>>>>>>>>>>>>>>>>>>>>>>>>>>>>>>>>[-]<[-]<<<<<<<<<<<<<<<<<<<<<<<<<<<<<<<<\
    <<<<<<<<<<<<<<<<<<<<<<<[->>>>>>>>>>>>>>>>>>>>>>>>>>>>>>>>>>>>>>>>>>>>>>>>>>>>>>>+>+<<<<<<<<<<<<<\
    <<<<<<<<<<<<<<<<<<<<<<<<<<<<<<<<<<<<<<<<<<<]>>>>>>>>>>>>>>>>>>>>>>>>>>>>>>>>>>>>>>>>>>>>>>>>>>>>\
    >>>>[-<<<<<<<<<<<<<<<<<<<<<<<<<<<<<<<<<<<<<<<<<<<<<<<<<<<<<<<<+>>>>>>>>>>>>>>>>>>>>>>>>>>>>>>>>>\
    >>>>>>>>>>>>>>>>>>>>>>>]<[<<<<<<<<<<<<<<<<<<<<<<<<<<<<<<<<<<<<<<<<<<<<<<[-]+>>>>>>>>>>>>>>>>>>>>\
    >>>>>>>>>>>>>>>>>>>>>>>>>>[-]]<<<<<<<<<<<<<<<<<<<<<<<<<<<<<<<<<<<<<<<<<<<<<<<<<<<<<<<[-]>>>>>>>>\
    >]>>>>>>>>>>>>>>>>>>>>>>>>>>>>>>>>>>>>>>>>>>>>>>>>[-]++++++++++.[-]";

const FUEL: u64 = u64::MAX;

/// Runs `src` through every interpreter and returns what each produced.
fn run_all(src: &[u8], input: &str, capacity: usize) -> Vec<(Result<u64, BfError>, Vec<u8>)> {
    let program = ast::parse_program(src).unwrap();
    let input = input.as_bytes().to_vec();
    let mut results = Vec::new();
    let (r, out) = ast::interpret(&program, capacity, input.clone(), FUEL);
    results.push((r, out));
    let encoded = rle::compile(&program);
    results.push(interpreter::interpret_memory(&encoded, capacity, input.clone(), FUEL));
    let optimized = peephole::compile(&encoded);
    results.push(interpreter::interpret_memory(&optimized, capacity, input.clone(), FUEL));
    let code = bytecode::compile(&optimized);
    results.push(bytecode::interpret_memory(&code, capacity, input, FUEL));
    results
}

fn assert_output(src: &[u8], input: &str, output: &[u8]) {
    for (r, out) in run_all(src, input, 30000) {
        assert!(r.is_ok());
        assert_eq!(out, output.to_vec());
    }
}

fn assert_error(src: &[u8], capacity: usize, error: BfError) {
    for (r, _) in run_all(src, "", capacity) {
        assert_eq!(r, Err(error));
    }
}

#[test]
fn interpreter_hello_world() {
    assert_output(HELLO_WORLD_SRC, "", b"Hello, World!");
}

#[test]
fn interpreter_factoring() {
    assert_output(FACTOR_SRC, "2\n", b"2: 2\n");
    assert_output(FACTOR_SRC, "3\n", b"3: 3\n");
    assert_output(FACTOR_SRC, "6\n", b"6: 2 3\n");
    assert_output(FACTOR_SRC, "100\n", b"100: 2 2 5 5\n");
}

#[test]
fn cat_copies_input() {
    assert_output(b",[.,]", "abc", b"abc");
}

#[test]
fn runaway_right_overflows() {
    assert_error(b"+[>+]", 4, BfError::PointerOverflow);
}

#[test]
fn tape_of_one_cell_overflows() {
    assert_error(b">", 1, BfError::PointerOverflow);
}

#[test]
fn tape_of_one_cell_underflows() {
    assert_error(b"<", 1, BfError::PointerUnderflow);
}

#[test]
fn end_of_input_stores_zero() {
    assert_output(b",.", "", &[0u8]);
}

#[test]
fn add_wraps() {
    assert_output(b"-.", "", &[0xffu8]);
}

#[test]
fn offset_add_moves_value() {
    // 3 in cell 0, moved into cell 2, then printed from there.
    assert_output(b"+++[->>+<<]>>.", "", &[3u8]);
    assert_output(b">>+++[-<<+>>]<<.", "", &[3u8]);
}

#[test]
fn find_zero_scans() {
    assert_output(b"+>+>+>>+<<<<[>]<.", "", &[1u8]);
    assert_output(b">>>+<+<+<[<]>.", "", &[1u8]);
}

#[test]
fn step_limit_stops_endless_loop() {
    let program = ast::parse_program(b"+[]").unwrap();
    let encoded = rle::compile(&program);
    let (r, _) = interpreter::interpret_memory(&encoded, 10, Vec::new(), 1000);
    assert_eq!(r, Err(BfError::StepLimit));
    let code = bytecode::compile(&peephole::compile(&encoded));
    let (r, _) = bytecode::interpret_memory(&code, 10, Vec::new(), 1000);
    assert_eq!(r, Err(BfError::StepLimit));
}

#[test]
fn parser_ignores_other_bytes() {
    let program = ast::parse_program(b"a+b[c-d]e").unwrap();
    assert_eq!(
        program,
        vec![
            ast::Instruction::Cmd(Command::Add(1)),
            ast::Instruction::Loop(vec![ast::Instruction::Cmd(Command::Add(255))]),
        ]
    );
    assert_eq!(ast::parse_program(b"hello").unwrap(), Vec::new());
}

#[test]
fn parser_maps_each_command() {
    let program = ast::parse_program(b"<>,.").unwrap();
    assert_eq!(
        program,
        vec![
            ast::Instruction::Cmd(Command::Left),
            ast::Instruction::Cmd(Command::Right),
            ast::Instruction::Cmd(Command::In),
            ast::Instruction::Cmd(Command::Out),
        ]
    );
}

#[test]
fn parser_reports_unmatched_brackets() {
    assert_eq!(ast::parse_program(b"[[]"), Err(BfError::UnmatchedBegin));
    assert_eq!(ast::parse_program(b"[]]"), Err(BfError::UnmatchedEnd));
    assert_eq!(ast::parse_program(b"][").unwrap_err(), BfError::UnmatchedEnd);
}

#[test]
fn rle_merges_runs() {
    let program = ast::parse_program(b">>>+++--<<,").unwrap();
    let encoded = rle::compile(&program);
    assert_eq!(
        encoded,
        vec![
            Statement::Instr(Instruction::Right(3)),
            Statement::Instr(Instruction::Add(1)),
            Statement::Instr(Instruction::Left(2)),
            Statement::Instr(Instruction::In),
        ]
    );
}

#[test]
fn rle_erases_cancelling_adds() {
    let program = ast::parse_program(b">+->.").unwrap();
    let encoded = rle::compile(&program);
    assert_eq!(
        encoded,
        vec![Statement::Instr(Instruction::Right(2)), Statement::Instr(Instruction::Out)]
    );
}

#[test]
fn rle_is_idempotent_on_an_example() {
    let program = ast::parse_program(b"++[->+<]>>--").unwrap();
    let once = rle::compile(&program);
    let again = rle::compile(&ast::parse_program(b"++[->+<]>>--").unwrap());
    assert_eq!(once, again);
    assert_eq!(
        once,
        vec![
            Statement::Instr(Instruction::Add(2)),
            Statement::Loop(vec![
                Statement::Instr(Instruction::Add(255)),
                Statement::Instr(Instruction::Right(1)),
                Statement::Instr(Instruction::Add(1)),
                Statement::Instr(Instruction::Left(1)),
            ]),
            Statement::Instr(Instruction::Right(2)),
            Statement::Instr(Instruction::Add(254)),
        ]
    );
}

fn optimize(src: &[u8]) -> Vec<Statement> {
    peephole::compile(&rle::compile(&ast::parse_program(src).unwrap()))
}

#[test]
fn peephole_replaces_idioms() {
    assert_eq!(optimize(b"[-]"), vec![Statement::Instr(Instruction::SetZero)]);
    assert_eq!(optimize(b"[+++]"), vec![Statement::Instr(Instruction::SetZero)]);
    assert_eq!(optimize(b"[>>]"), vec![Statement::Instr(Instruction::FindZeroRight(2))]);
    assert_eq!(optimize(b"[<]"), vec![Statement::Instr(Instruction::FindZeroLeft(1))]);
    assert_eq!(optimize(b"[->>>+<<<]"), vec![Statement::Instr(Instruction::OffsetAddRight(3))]);
    assert_eq!(optimize(b"[-<+>]"), vec![Statement::Instr(Instruction::OffsetAddLeft(1))]);
}

#[test]
fn peephole_keeps_other_loops() {
    assert_eq!(
        optimize(b"[++]"),
        vec![Statement::Loop(vec![Statement::Instr(Instruction::Add(2))])]
    );
    assert_eq!(
        optimize(b"[>[-]]"),
        vec![Statement::Loop(vec![
            Statement::Instr(Instruction::Right(1)),
            Statement::Instr(Instruction::SetZero),
        ])]
    );
}

#[test]
fn peephole_is_idempotent_on_an_example() {
    let once = optimize(b"+[>[-]<[->+<]]");
    let twice = peephole::compile(&once);
    assert_eq!(once, twice);
}

#[test]
fn bytecode_jumps_point_past_partner() {
    let code = bytecode::compile(&optimize(b"+[>[<]+]."));
    assert_eq!(
        code,
        vec![
            Instruction::Add(1),
            Instruction::JumpZero(6),
            Instruction::Right(1),
            Instruction::FindZeroLeft(1),
            Instruction::Add(1),
            Instruction::JumpNotZero(2),
            Instruction::Out,
        ]
    );
    for (i, instruction) in code.iter().enumerate() {
        if let Instruction::JumpZero(a) = instruction {
            assert_eq!(code[a - 1], Instruction::JumpNotZero(i + 1));
        }
        if let Instruction::JumpNotZero(b) = instruction {
            assert_eq!(code[b - 1], Instruction::JumpZero(i + 1));
        }
    }
}

#[test]
fn jit_plan_checks_only_unproved_moves() {
    let program = optimize(b">><<<");
    let checked = jit::compile(&program, true);
    assert_eq!(
        checked,
        vec![
            jit::Step { instruction: Instruction::Right(2), check: true },
            jit::Step { instruction: Instruction::Left(3), check: true },
        ]
    );
    let program = optimize(b">><");
    let checked = jit::compile(&program, true);
    assert_eq!(checked[1], jit::Step { instruction: Instruction::Left(1), check: false });
    let unchecked = jit::compile(&program, false);
    assert!(unchecked.iter().all(|s| !s.check));
}

#[test]
fn jit_plan_forgets_slack_across_loops() {
    let program = optimize(b">>>>[<]<");
    let plan = jit::compile(&program, true);
    assert_eq!(plan[1], jit::Step { instruction: Instruction::FindZeroLeft(1), check: true });
    assert_eq!(plan[2], jit::Step { instruction: Instruction::Left(1), check: true });
    let program = optimize(b">>>>[<+>-]<");
    let plan = jit::compile(&program, true);
    assert_eq!(plan.last().unwrap().instruction, Instruction::Left(1));
    assert!(plan.last().unwrap().check);
}

#[test]
fn analysis_tracks_slack() {
    let mut a = AbstractInterpreter::new();
    assert!(!a.move_right(3));
    assert_eq!(a.slack(), Slack { left: 3, right: 0 });
    assert!(a.move_left(2));
    assert_eq!(a.slack(), Slack { left: 1, right: 2 });
    assert!(a.check_right(2));
    assert!(!a.check_right(3));
    assert!(a.check_left(1));
    a.reset_left();
    assert!(!a.check_left(1));
    let mut n = NoAnalysis;
    assert!(!n.move_right(0));
    assert!(!n.move_left(0));
}

#[test]
fn error_messages_name_the_error() {
    assert_eq!(BfError::PointerOverflow.message(), "pointer overflow");
    assert_eq!(BfError::UnmatchedBegin.message(), "unmatched '['");
}
