use ewor_brainfuck::bf::{Action, BFError, Event, Mode, BF};
use ewor_brainfuck::bfl::{optimize, BFLCompiler, BFLNode};
use ewor_brainfuck::errors::CompileError;
use ewor_brainfuck::Syscall;

fn number(n: i32) -> Box<BFLNode> {
    Box::new(BFLNode::Number(n))
}

fn variable(name: &str) -> Box<BFLNode> {
    Box::new(BFLNode::Variable(name.to_string()))
}

fn assign(name: &str, expr: Box<BFLNode>) -> BFLNode {
    BFLNode::Assign(name.to_string(), expr)
}

/// The text that a new compiler emits for `program`.
fn compiled(program: &BFLNode) -> String {
    let mut compiler = BFLCompiler::new();
    compiler.compile(program).unwrap();
    compiler.get_output().to_string()
}

/// The error with which a new compiler refuses `program`.
fn refused(program: &BFLNode) -> CompileError {
    BFLCompiler::new().compile(program).unwrap_err()
}

/// Runs `code` in extended mode with a host that takes every write and
/// fails every other call; returns the machine and what was written.
fn executed(code: &str) -> (BF, Vec<u8>) {
    let mut bf = BF::new(code, Mode::BFA);
    let mut written = Vec::new();
    let mut event = Event::Resume;
    loop {
        event = match bf.run(event, 1 << 16).unwrap() {
            Action::Halt => return (bf, written),
            Action::Continue | Action::Output(_) => Event::Resume,
            Action::Input => Event::InputFailed("no input".to_string()),
            Action::Syscall(Syscall::Write { buf, .. }) => {
                written.extend_from_slice(&buf);
                Event::Returned(buf.len(), Vec::new())
            }
            Action::Syscall(_) => Event::Returned(usize::MAX - 37, Vec::new()),
        };
    }
}

/// The value of the variable `name` after `program` has run.
fn value_of(program: &BFLNode, name: &str) -> u32 {
    let mut compiler = BFLCompiler::new();
    compiler.compile(program).unwrap();
    let (bf, _) = executed(compiler.get_output());
    let addr = compiler.get_variable_address(name).unwrap();
    bf.dump_cells(addr + 1)[addr]
}

const TO_CELL_8: &str = ">>>>>>>>";

fn right(n: usize) -> String {
    ">".repeat(n)
}

fn left(n: usize) -> String {
    "<".repeat(n)
}

#[test]
fn number_is_cleared_and_counted_up() {
    assert_eq!(compiled(&assign("x", number(3))), format!("{}[-]+++", TO_CELL_8));
    assert_eq!(compiled(&assign("x", number(0))), format!("{}[-]", TO_CELL_8));
}

#[test]
fn negative_number_is_zero() {
    assert_eq!(compiled(&assign("x", number(-5))), format!("{}[-]", TO_CELL_8));
    assert_eq!(compiled(&assign("x", number(i32::MIN))), format!("{}[-]", TO_CELL_8));
    assert_eq!(value_of(&assign("x", number(-1)), "x"), 0);
}

#[test]
fn new_compiler_is_empty() {
    let compiler = BFLCompiler::new();
    assert_eq!(compiler.get_output(), "");
    assert_eq!(compiler.current_pointer(), 0);
    assert_eq!(compiler.get_variable_address("_syscall_result"), Some(0));
    assert_eq!(compiler.get_variable_address("x"), None);
    let compiler = BFLCompiler::default();
    assert_eq!(compiler.get_output(), "");
    assert_eq!(compiler.get_variable_address("_syscall_result"), Some(0));
}

#[test]
fn variables_take_cells_in_order_of_first_assignment() {
    let mut compiler = BFLCompiler::new();
    let program = BFLNode::Block(vec![
        assign("a", number(1)),
        assign("b", number(2)),
        assign("a", number(3)),
        assign("c", number(4)),
    ]);
    compiler.compile(&program).unwrap();
    assert_eq!(compiler.get_variable_address("a"), Some(8));
    assert_eq!(compiler.get_variable_address("b"), Some(9));
    assert_eq!(compiler.get_variable_address("c"), Some(10));
    assert_eq!(compiler.get_variable_address("_syscall_result"), Some(0));
    assert_eq!(compiler.get_variable_address("d"), None);
    // The second assignment moves back to the cell of the first.
    assert_eq!(compiler.get_output(), format!("{}[-]+>[-]++<[-]+++>>[-]++++", TO_CELL_8));
    assert_eq!(compiler.current_pointer(), 10);
}

#[test]
fn cells_stay_over_later_compilations() {
    let mut compiler = BFLCompiler::new();
    compiler.compile(&assign("a", number(1))).unwrap();
    compiler.compile(&assign("b", number(1))).unwrap();
    let a = compiler.get_variable_address("a");
    compiler
        .compile(&BFLNode::Block(vec![assign("c", number(1)), assign("a", variable("b"))]))
        .unwrap();
    assert_eq!(compiler.get_variable_address("a"), a);
    assert_eq!(compiler.get_variable_address("b"), Some(9));
    assert_eq!(compiler.get_variable_address("c"), Some(10));
}

#[test]
fn result_name_reads_and_writes_cell_zero() {
    let mut compiler = BFLCompiler::new();
    compiler.compile(&assign("_syscall_result", number(2))).unwrap();
    assert_eq!(compiler.get_output(), "[-]++");
    assert_eq!(compiler.get_variable_address("_syscall_result"), Some(0));
    compiler.compile(&assign("x", variable("_syscall_result"))).unwrap();
    assert_eq!(compiler.get_variable_address("x"), Some(8));
    let (bf, _) = executed(compiler.get_output());
    assert_eq!(bf.dump_cells(9), [2, 0, 0, 0, 0, 0, 0, 0, 2]);
}

#[test]
fn distinct_names_have_distinct_cells_from_eight_on() {
    let mut compiler = BFLCompiler::new();
    let names: Vec<String> = (0..120).map(|i| format!("v{}", i)).collect();
    let program =
        BFLNode::Block(names.iter().map(|n| assign(n, number(1))).collect::<Vec<_>>());
    compiler.compile(&program).unwrap();
    let mut cells: Vec<usize> =
        names.iter().map(|n| compiler.get_variable_address(n).unwrap()).collect();
    assert!(cells.iter().all(|&c| c >= 8));
    // No variable owns a scratch cell: the cells 100 to 102 are passed over.
    assert!(cells.iter().all(|&c| !(100..103).contains(&c)));
    assert_eq!(cells[91], 99);
    assert_eq!(cells[92], 103);
    cells.sort();
    cells.dedup();
    assert_eq!(cells.len(), names.len());
    assert_eq!(compiler.get_variable_address("_syscall_result"), Some(0));
}

#[test]
fn byte_literal_is_not_laid_over_scratch_cells() {
    let mut compiler = BFLCompiler::new();
    let program = BFLNode::Block(vec![
        assign("a", Box::new(BFLNode::Bytes(vec![1; 80]))),
        assign("b", Box::new(BFLNode::Bytes(vec![2; 20]))),
        assign("c", number(1)),
    ]);
    compiler.compile(&program).unwrap();
    // a is cell 8 and its bytes are 9 to 88; b is cell 89, and its bytes
    // would reach the scratch cells from cell 90, so they start behind them.
    assert_eq!(compiler.get_variable_address("a"), Some(8));
    assert_eq!(compiler.get_variable_address("b"), Some(89));
    assert_eq!(compiler.get_variable_address("c"), Some(123));
    let (bf, _) = executed(compiler.get_output());
    let cells = bf.dump_cells(124);
    assert_eq!(cells[8], 9);
    assert_eq!(cells[89], 103);
    assert_eq!(&cells[103..123], [2; 20]);
    assert_eq!(&cells[90..103], [0; 13]);
}

#[test]
fn copy_leaves_the_source() {
    let program = BFLNode::Block(vec![assign("x", number(2)), assign("y", variable("x"))]);
    let expected = format!(
        "{to8}[-]++>[-]{r91}[-]{l92}[>+{r91}+{l92}-]{r92}[{l92}+{r92}-]{l91}",
        to8 = TO_CELL_8,
        r91 = right(91),
        l92 = left(92),
        r92 = right(92),
        l91 = left(91),
    );
    assert_eq!(compiled(&program), expected);
    assert_eq!(value_of(&program, "x"), 2);
    assert_eq!(value_of(&program, "y"), 2);
}

#[test]
fn copy_onto_itself_only_moves() {
    let program = BFLNode::Block(vec![assign("x", number(2)), assign("x", variable("x"))]);
    assert_eq!(compiled(&program), format!("{}[-]++", TO_CELL_8));
}

#[test]
fn variable_as_right_operand_is_copied_with_another_spare() {
    let program = BFLNode::Block(vec![
        assign("x", number(5)),
        assign("y", Box::new(BFLNode::Add(number(3), variable("x")))),
        assign("z", Box::new(BFLNode::Sub(number(9), variable("x")))),
    ]);
    assert_eq!(value_of(&program, "y"), 8);
    assert_eq!(value_of(&program, "z"), 4);
    assert_eq!(value_of(&program, "x"), 5);
}

#[test]
fn add_drains_the_scratch_cell() {
    let program = assign("x", Box::new(BFLNode::Add(number(1), number(2))));
    let expected = format!(
        "{to8}[-]+{r92}[-]++[{l92}+{r92}-]{l92}",
        to8 = TO_CELL_8,
        r92 = right(92),
        l92 = left(92),
    );
    assert_eq!(compiled(&program), expected);
}

#[test]
fn sub_stops_at_zero() {
    let program = assign("x", Box::new(BFLNode::Sub(number(2), number(1))));
    let expected = format!(
        "{to8}[-]++{r92}[-]+>>[-]<<[{l92}[-{r94}+{l94}]{r94}[-[-{l94}+{r94}]]<<-]{l92}",
        to8 = TO_CELL_8,
        r92 = right(92),
        l92 = left(92),
        r94 = right(94),
        l94 = left(94),
    );
    assert_eq!(compiled(&program), expected);
    for (a, b) in [(0, 0), (0, 1), (1, 0), (1, 1), (3, 5), (5, 3), (255, 254), (20, 255)] {
        let program = assign("v", Box::new(BFLNode::Sub(number(a), number(b))));
        assert_eq!(value_of(&program, "v"), (a - b).max(0) as u32, "{} - {}", a, b);
    }
}

#[test]
fn sub_of_the_largest_bytes() {
    let program = assign("v", Box::new(BFLNode::Sub(number(255), number(255))));
    assert_eq!(value_of(&program, "v"), 0);
    let program = assign("v", Box::new(BFLNode::Sub(number(0), number(255))));
    assert_eq!(value_of(&program, "v"), 0);
    let program = assign("v", Box::new(BFLNode::Sub(number(255), number(0))));
    assert_eq!(value_of(&program, "v"), 255);
}

#[test]
fn literal_round_trip() {
    for n in [0, 1, 2, 41, 128, 255, 256, 1000] {
        assert_eq!(value_of(&assign("v", number(n)), "v"), n as u32);
    }
}

#[test]
fn bytes_are_stored_behind_the_variable() {
    let program = assign("msg", Box::new(BFLNode::Bytes(vec![3, 0, 1])));
    assert_eq!(
        compiled(&program),
        format!("{}[-]+++++++++>[-]+++>[-]>[-]+<<<", TO_CELL_8)
    );
    let (bf, _) = executed(&compiled(&program));
    assert_eq!(&bf.dump_cells(12)[8..], [9, 3, 0, 1]);
}

#[test]
fn string_is_its_utf8_bytes() {
    let text = assign("s", Box::new(BFLNode::String("hé".to_string())));
    let bytes = assign("s", Box::new(BFLNode::Bytes("hé".as_bytes().to_vec())));
    assert_eq!(compiled(&text), compiled(&bytes));
    let (bf, _) = executed(&compiled(&text));
    assert_eq!(&bf.dump_cells(12)[8..], [9, 0x68, 0xc3, 0xa9]);
}

#[test]
fn empty_literal_takes_no_cell() {
    let mut compiler = BFLCompiler::new();
    compiler
        .compile(&BFLNode::Block(vec![
            assign("e", Box::new(BFLNode::Bytes(Vec::new()))),
            assign("x", number(1)),
        ]))
        .unwrap();
    assert_eq!(compiler.get_variable_address("e"), Some(8));
    assert_eq!(compiler.get_variable_address("x"), Some(9));
}

#[test]
fn if_runs_its_body_once_or_not_at_all() {
    let gate = |flag: i32| {
        BFLNode::Block(vec![
            assign("y", number(7)),
            BFLNode::If(number(flag), vec![assign("y", Box::new(BFLNode::Add(variable("y"), number(1))))]),
        ])
    };
    assert_eq!(value_of(&gate(0), "y"), 7);
    assert_eq!(value_of(&gate(1), "y"), 8);
    assert_eq!(value_of(&gate(5), "y"), 8);
    let text = compiled(&BFLNode::If(number(1), vec![]));
    assert_eq!(text, format!("{}[-]+[[-]]", right(101)));
}

#[test]
fn if_gate_sets_the_variable() {
    let program = BFLNode::Block(vec![
        assign("x", number(1)),
        BFLNode::If(variable("x"), vec![assign("y", number(42))]),
    ]);
    assert_eq!(value_of(&program, "y"), 42);
    assert_eq!(value_of(&program, "x"), 1);
}

/// Counts `i` down from `start`, counting `x` up once in each round.
fn countdown(start: i32) -> BFLNode {
    BFLNode::Block(vec![
        assign("x", number(0)),
        assign("i", number(start)),
        BFLNode::While(
            variable("i"),
            vec![
                assign("x", Box::new(BFLNode::Add(variable("x"), number(1)))),
                assign("i", Box::new(BFLNode::Sub(variable("i"), number(1)))),
            ],
        ),
    ])
}

#[test]
fn counter_counts_five_rounds() {
    assert_eq!(value_of(&countdown(5), "x"), 5);
    assert_eq!(value_of(&countdown(5), "i"), 0);
}

#[test]
fn loop_runs_as_many_rounds_as_its_start() {
    for start in [1, 2, 3, 10, 40] {
        assert_eq!(value_of(&countdown(start), "x"), start as u32);
        assert_eq!(value_of(&countdown(start), "i"), 0);
    }
    // From zero the body never runs.
    assert_eq!(value_of(&countdown(0), "x"), 0);
}

#[test]
fn while_tests_its_condition_again_after_the_body() {
    let text = compiled(&BFLNode::While(number(0), vec![]));
    assert_eq!(text, format!("{}[-][[-]]", right(101)));
}

#[test]
fn nested_control_flow() {
    // y = 3 * 2, by two rounds of adding 3 in an inner loop.
    let program = BFLNode::Block(vec![
        assign("y", number(0)),
        assign("i", number(2)),
        BFLNode::While(
            variable("i"),
            vec![
                assign("j", number(3)),
                BFLNode::While(
                    variable("j"),
                    vec![
                        assign("y", Box::new(BFLNode::Add(variable("y"), number(1)))),
                        assign("j", Box::new(BFLNode::Sub(variable("j"), number(1)))),
                    ],
                ),
                assign("i", Box::new(BFLNode::Sub(variable("i"), number(1)))),
            ],
        ),
    ]);
    assert_eq!(value_of(&program, "y"), 6);
}

#[test]
fn syscall_fills_the_area_and_traps() {
    let program = BFLNode::Syscall(number(2), vec![BFLNode::Number(1), BFLNode::Number(0)]);
    assert_eq!(compiled(&program), ">>>>>>>[-]++<<<<<<[-]+>[-].");
    let program = BFLNode::Syscall(number(0), vec![]);
    assert_eq!(compiled(&program), ">>>>>>>[-].");
}

#[test]
fn write_syscall_writes_the_literal() {
    let mut compiler = BFLCompiler::new();
    let program = BFLNode::Block(vec![
        assign("msg", Box::new(BFLNode::Bytes(b"hi\n".to_vec()))),
        BFLNode::Syscall(
            number(1),
            vec![BFLNode::Number(1), BFLNode::Variable("msg".to_string()), BFLNode::Number(3)],
        ),
    ]);
    compiler.compile(&program).unwrap();
    let (bf, written) = executed(compiler.get_output());
    assert_eq!(written, b"hi\n");
    assert_eq!(bf.dump_cells(1)[0], 3);
}

#[test]
fn socket_is_denied_in_test_mode() {
    let mut compiler = BFLCompiler::new();
    let program = BFLNode::Syscall(
        number(41),
        vec![BFLNode::Number(2), BFLNode::Number(1), BFLNode::Number(0)],
    );
    compiler.compile(&program).unwrap();
    let mut bf = BF::new(compiler.get_output(), Mode::BFA);
    bf.set_test_mode(true);
    let mut asked = 0;
    let mut event = Event::Resume;
    let result = loop {
        event = match bf.run(event, 1 << 16) {
            Err(e) => break e,
            Ok(Action::Halt) => panic!("the program ended"),
            Ok(Action::Syscall(_)) => {
                asked += 1;
                Event::Returned(3, Vec::new())
            }
            Ok(_) => Event::Resume,
        };
    };
    assert!(matches!(result, BFError::InvalidSyscall(_)));
    // The host was never asked for anything.
    assert_eq!(asked, 0);
    assert_eq!(bf.dump_cells(1), [0]);
}

#[test]
fn six_arguments_are_the_most() {
    let args = |n: usize| (0..n).map(|i| BFLNode::Number(i as i32)).collect::<Vec<_>>();
    let mut compiler = BFLCompiler::new();
    compiler.compile(&BFLNode::Syscall(number(1), args(6))).unwrap();
    let (bf, _) = executed(compiler.get_output());
    // The write of two cells returned 2 into cell 0.
    assert_eq!(bf.dump_cells(8), [2, 0, 1, 2, 3, 4, 5, 1]);
    let mut compiler = BFLCompiler::new();
    let e = compiler.compile(&BFLNode::Syscall(number(1), args(7))).unwrap_err();
    assert!(matches!(e, CompileError::TooManySyscallArgs));
    // Nothing was emitted.
    assert_eq!(compiler.get_output(), "");
}

#[test]
fn unassigned_variable_is_not_found() {
    let e = refused(&assign("x", variable("y")));
    match e {
        CompileError::VariableNotFound(name) => assert_eq!(name, "y"),
        other => panic!("expected VariableNotFound, got {:?}", other),
    }
    let e = refused(&BFLNode::While(variable("i"), vec![]));
    assert!(matches!(e, CompileError::VariableNotFound(_)));
    // A variable is known from its own assignment on.
    assert!(BFLCompiler::new().compile(&assign("x", variable("x"))).is_ok());
}

#[test]
fn value_is_no_statement() {
    for node in [
        BFLNode::Number(1),
        BFLNode::Variable("x".to_string()),
        BFLNode::String("s".to_string()),
        BFLNode::Bytes(vec![1]),
        BFLNode::Add(number(1), number(2)),
        BFLNode::Sub(number(1), number(2)),
    ] {
        let mut compiler = BFLCompiler::new();
        assert!(matches!(compiler.compile(&node), Err(CompileError::TypeMismatch)));
        assert_eq!(compiler.get_output(), "");
    }
    let e = refused(&BFLNode::Block(vec![assign("x", number(1)), BFLNode::Number(2)]));
    assert!(matches!(e, CompileError::TypeMismatch));
}

#[test]
fn statement_is_no_value() {
    for node in [
        BFLNode::Block(vec![]),
        assign("y", number(1)),
        BFLNode::If(number(1), vec![]),
        BFLNode::While(number(0), vec![]),
        BFLNode::Syscall(number(1), vec![]),
    ] {
        let e = refused(&assign("x", Box::new(node)));
        assert!(matches!(e, CompileError::InvalidExpression));
    }
    let e = refused(&BFLNode::Syscall(number(1), vec![BFLNode::Block(vec![])]));
    assert!(matches!(e, CompileError::InvalidExpression));
}

#[test]
fn error_keeps_what_was_emitted_before() {
    let mut compiler = BFLCompiler::new();
    let program = BFLNode::Block(vec![assign("x", number(1)), assign("y", variable("z"))]);
    assert!(compiler.compile(&program).is_err());
    assert_eq!(compiler.get_output(), format!("{}[-]+", TO_CELL_8));
    // The variable of the failed assignment has its cell.
    assert_eq!(compiler.get_variable_address("y"), Some(9));
}

#[test]
fn compilation_is_deterministic() {
    let program = BFLNode::Block(vec![
        countdown(3),
        assign("msg", Box::new(BFLNode::String("abc".to_string()))),
        BFLNode::If(variable("x"), vec![BFLNode::Syscall(number(1), vec![BFLNode::Number(1)])]),
    ]);
    let first = compiled(&program);
    let second = compiled(&program);
    assert_eq!(first, second);
    assert_eq!(compiled(&program.clone()), first);
}

#[test]
fn shadow_pointer_is_the_pointer_of_the_run() {
    let programs = [
        assign("x", number(3)),
        countdown(4),
        assign("m", Box::new(BFLNode::Bytes(vec![1, 2, 3]))),
        BFLNode::Block(vec![
            assign("x", number(1)),
            BFLNode::If(variable("x"), vec![assign("y", Box::new(BFLNode::Sub(number(4), variable("x"))))]),
            BFLNode::Syscall(number(1), vec![BFLNode::Number(1), BFLNode::Variable("y".to_string())]),
        ]),
    ];
    for program in &programs {
        let mut compiler = BFLCompiler::new();
        compiler.compile(program).unwrap();
        let (bf, _) = executed(compiler.get_output());
        assert_eq!(bf.ptr(), compiler.current_pointer());
    }
    // Statement by statement: the pointer of a run of the text so far is
    // the shadow pointer of the compiler that emitted it.
    let mut compiler = BFLCompiler::new();
    for statement in [assign("a", number(2)), assign("b", variable("a")), countdown(2)] {
        compiler.compile(&statement).unwrap();
        let (bf, _) = executed(compiler.get_output());
        assert_eq!(bf.ptr(), compiler.current_pointer());
    }
}

#[test]
fn emitted_brackets_match() {
    let text = compiled(&BFLNode::Block(vec![countdown(2), BFLNode::If(number(1), vec![countdown(1)])]));
    let mut depth = 0i64;
    for c in text.chars() {
        match c {
            '[' => depth += 1,
            ']' => {
                depth -= 1;
                assert!(depth >= 0);
            }
            _ => {}
        }
    }
    assert_eq!(depth, 0);
}

#[test]
fn peephole_drops_pairs_that_cancel() {
    assert_eq!(optimize(""), "");
    assert_eq!(optimize("><"), "");
    assert_eq!(optimize("<>"), "");
    assert_eq!(optimize("+-"), "");
    assert_eq!(optimize("-+"), "");
    assert_eq!(optimize("[][]"), "");
    assert_eq!(optimize("a><b+-c[][]d"), "abcd");
    // What does not cancel stays.
    assert_eq!(optimize(">>"), ">>");
    assert_eq!(optimize("+>-<"), "+>-<");
    assert_eq!(optimize("[]"), "[]");
    assert_eq!(optimize("[-]"), "[-]");
    assert_eq!(optimize("[][-]"), "[][-]");
    assert_eq!(optimize("héllo"), "héllo");
}

#[test]
fn peephole_is_one_pass_from_the_left() {
    // The first pair goes, the character behind it is looked at afresh.
    assert_eq!(optimize("+-+"), "+");
    assert_eq!(optimize("-+-"), "-");
    assert_eq!(optimize("><>"), ">");
    // A pair that only meets once another pair is gone stays for the next pass.
    assert_eq!(optimize(">+-<"), "><");
    assert_eq!(optimize(&optimize(">+-<")), "");
    assert_eq!(optimize("[+-][]"), "[][]");
    // Three empty loops: the first two go.
    assert_eq!(optimize("[][][]"), "[]");
    assert_eq!(optimize("[][][][]"), "");
}

#[test]
fn optimized_output_replaces_the_output_and_the_copy_does_not() {
    let mut compiler = BFLCompiler::new();
    compiler.compile(&countdown(2)).unwrap();
    let plain = compiler.get_output().to_string();
    // Where the way back to a cell meets the way on from it, a pair cancels.
    assert!(plain.contains("<>"));
    let copy = compiler.get_optimized_output_copy();
    assert_eq!(copy, optimize(&plain));
    assert!(copy.len() < plain.len());
    assert_eq!(compiler.get_output(), plain);
    let optimized = compiler.get_optimized_output().to_string();
    assert_eq!(optimized, copy);
    assert_eq!(compiler.get_output(), optimized);
    // It still runs to the same end.
    let (bf, _) = executed(&optimized);
    let x = compiler.get_variable_address("x").unwrap();
    assert_eq!(bf.dump_cells(x + 1)[x], 2);
}

#[test]
fn clone_stands_for_the_same_tree() {
    let program = BFLNode::Block(vec![
        countdown(2),
        assign("s", Box::new(BFLNode::String("x".to_string()))),
        BFLNode::If(number(1), vec![BFLNode::Syscall(number(1), vec![BFLNode::Bytes(vec![7])])]),
    ]);
    let copy = program.clone();
    assert_eq!(format!("{:?}", copy), format!("{:?}", program));
    assert_eq!(compiled(&copy), compiled(&program));
}

#[test]
fn table_keeps_its_entries_over_compiles_that_fail() {
    let mut compiler = BFLCompiler::new();
    compiler.compile(&assign("a", number(1))).unwrap();
    let text = compiler.get_output().to_string();
    // A tree that fails after it has given `b` its cell.
    let failing = BFLNode::Block(vec![assign("b", number(2)), assign("c", variable("nowhere"))]);
    assert!(matches!(compiler.compile(&failing), Err(CompileError::VariableNotFound(_))));
    // What was emitted before is the start of what is there now.
    assert!(compiler.get_output().starts_with(&text));
    assert_eq!(compiler.get_variable_address("_syscall_result"), Some(0));
    assert_eq!(compiler.get_variable_address("a"), Some(8));
    assert_eq!(compiler.get_variable_address("b"), Some(9));
    // `c` was given its cell before its value failed; a name that no tree
    // assigns to has none.
    assert_eq!(compiler.get_variable_address("c"), Some(10));
    assert_eq!(compiler.get_variable_address("nowhere"), None);
    assert_eq!(compiler.get_variable_address("d"), None);
    compiler.compile(&assign("a", number(3))).unwrap();
    assert_eq!(compiler.get_variable_address("a"), Some(8));
}

#[test]
fn error_from_elsewhere_is_carried_through() {
    let e = CompileError::Other(anyhow::Error::msg("from elsewhere"));
    assert!(format!("{:?}", e).contains("from elsewhere"));
    match e {
        CompileError::Other(inner) => assert_eq!(inner.to_string(), "from elsewhere"),
        other => panic!("expected the outside error, got {:?}", other),
    }
}
