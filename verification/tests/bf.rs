use ewor_brainfuck::bf::{Action, BFError, Event, Mode, BF};

/// Runs `bf` to its end with a host that keeps what is emitted and has no
/// input; a trap ends the run with the error number of "not implemented".
fn run(bf: &mut BF) -> Result<(), BFError> {
    let mut event = Event::Resume;
    loop {
        event = match bf.run(event, 4096)? {
            Action::Halt => return Ok(()),
            Action::Continue | Action::Output(_) => Event::Resume,
            Action::Input => Event::InputFailed("failed to fill whole buffer".to_string()),
            Action::Syscall(_) => Event::Returned(usize::MAX - 37, Vec::new()),
        };
    }
}

#[test]
fn test_hello_world() {
    let mut bf = BF::new(
        "++++++++[>++++[>++>+++>+++>+<<<<-]>+>+>->>+[<]<-]>>.>---.+++++++..+++.>>.<-.<.+++.------.--------.>>+.>++.",
        Mode::BF,
    );
    run(&mut bf).unwrap();
    assert_eq!(String::from_utf8(bf.output().to_vec()).unwrap(), "Hello World!\n");
}

#[test]
fn test_bfa_write() {
    // This test verifies the syscall interface works correctly
    // We'll test with a socket syscall instead of write to avoid stdout issues
    let code = ">>++++++++++[<++++++++++>-]<+++++++.>++++++++++[<++++++++++>-]<++++++++++.>[-]>[-]>[-]>++++.>[-]>[-<+>]<.";
    let mut bf = BF::new(code, Mode::BFA);
    bf.set_test_mode(true);

    // Setup memory manually for the test
    // Syscall socket (41) in cell 7 (Linux syscall number)
    assert!(bf.set_cell(7, 41));
    // Arg 1: AF_INET = 2 in cell 1
    assert!(bf.set_cell(1, 2));
    // Arg 2: SOCK_STREAM = 1 in cell 2
    assert!(bf.set_cell(2, 1));
    // Arg 3: protocol = 0 in cell 3
    assert!(bf.set_cell(3, 0));

    // In test mode, socket operations should be rejected, which is expected
    let result = run(&mut bf);
    assert!(result.is_err(), "Socket operations should be rejected in test mode");

    // Verify the error is about socket operations
    if let Err(BFError::InvalidSyscall(_)) = result {
        // Expected behavior
    } else {
        panic!("Expected InvalidSyscall error, got: {:?}", result);
    }
}

use ewor_brainfuck::bf::ErrorKind;
use ewor_brainfuck::syscall_consts::Platform;
use ewor_brainfuck::Syscall;

/// A machine in extended mode that stands at a trap with this number and
/// these first three arguments.
fn at_trap(number: u32, args: [u32; 3]) -> BF {
    let mut bf = BF::new(".", Mode::BFA);
    assert!(bf.set_cell(7, number));
    assert!(bf.set_cell(1, args[0]));
    assert!(bf.set_cell(2, args[1]));
    assert!(bf.set_cell(3, args[2]));
    bf
}

/// The error of a turn that is expected to fail.
fn failure(result: Result<Action, BFError>) -> BFError {
    match result {
        Err(e) => e,
        Ok(action) => panic!("expected an error, got {:?}", action),
    }
}

/// The message of an error, without the heading of its kind.
fn detail(e: &BFError) -> &str {
    match e {
        BFError::InvalidSyscall(m)
        | BFError::BoundedAccess(m)
        | BFError::SyscallFailed(m)
        | BFError::BracketMismatch(m)
        | BFError::IoError(m) => m,
    }
}

#[test]
fn unclosed_bracket_is_rejected_before_any_write() {
    let mut bf = BF::new("+++[", Mode::BF);
    let e = failure(bf.run(Event::Resume, 100));
    assert_eq!(e.kind(), ErrorKind::BracketMismatch);
    assert_eq!(detail(&e), "Unmatched [");
    assert_eq!(e.message(), "Bracket mismatch: Unmatched [");
    assert_eq!(bf.dump_cells(4), [0, 0, 0, 0]);
    assert!(bf.output().is_empty());
    assert_eq!(bf.pc(), 0);
}

#[test]
fn stray_bracket_is_rejected_before_any_write() {
    for code in ["]", "+.]+", "[]]["] {
        let mut bf = BF::new(code, Mode::BF);
        let e = failure(bf.run(Event::Resume, 100));
        assert!(matches!(e, BFError::BracketMismatch(_)));
        assert_eq!(detail(&e), "Unmatched ]");
        assert_eq!(bf.dump_cells(2), [0, 0]);
        assert!(bf.output().is_empty());
    }
    let mut bf = BF::new("[", Mode::BF);
    assert!(matches!(failure(bf.run(Event::Resume, 1)), BFError::BracketMismatch(_)));
}

#[test]
fn rejected_program_takes_no_event() {
    let mut bf = BF::new(",]", Mode::BF);
    let e = failure(bf.run(Event::Byte(9), 100));
    assert!(matches!(e, BFError::BracketMismatch(_)));
    assert_eq!(bf.dump_cells(1), [0]);
}

#[test]
fn pointer_saturates_at_zero() {
    let mut bf = BF::new("<<+>+<<<+", Mode::BF);
    run(&mut bf).unwrap();
    assert_eq!(bf.dump_cells(2), [2, 1]);
    assert_eq!(bf.ptr(), 0);
}

#[test]
fn cells_wrap_at_their_width() {
    let mut bf = BF::new("->+", Mode::BF);
    assert!(bf.set_cell(1, u32::MAX));
    run(&mut bf).unwrap();
    assert_eq!(bf.dump_cells(2), [u32::MAX, 0]);
}

#[test]
fn other_characters_are_comments() {
    let mut bf = BF::new("add one: + (done)\n", Mode::BF);
    run(&mut bf).unwrap();
    assert_eq!(bf.dump_cells(1), [1]);
}

#[test]
fn nested_loops_jump_to_their_partners() {
    // 2 * 3 * 2, with a loop that is skipped at once in between.
    let code = "++[>+++[>++<-]>>[+]<<<-]";
    let mut bf = BF::new(code, Mode::BF);
    run(&mut bf).unwrap();
    assert_eq!(bf.dump_cells(4), [0, 0, 12, 0]);
    assert_eq!(bf.pc(), code.len());
}

#[test]
fn memory_limit_bounds_the_tape() {
    let mut bf = BF::with_memory_limit(">>>+>", Mode::BF, 4);
    let e = failure(bf.run(Event::Resume, 100));
    assert_eq!(e.kind(), ErrorKind::BoundedAccess);
    assert_eq!(detail(&e), "Memory limit exceeded");
    assert_eq!(e.message(), "Invalid memory access: Memory limit exceeded");
    // The failing move left the machine where it was.
    assert_eq!(bf.ptr(), 3);
    assert_eq!(bf.pc(), 4);
    assert_eq!(bf.dump_cells(10), [0, 0, 0, 1]);
}

#[test]
fn empty_tape_has_no_cell() {
    let mut bf = BF::with_memory_limit("+", Mode::BF, 0);
    let e = failure(bf.run(Event::Resume, 100));
    assert_eq!(e.kind(), ErrorKind::BoundedAccess);
    assert_eq!(detail(&e), "Tape index out of range");
    assert!(!bf.set_cell(0, 1));
}

#[test]
fn tape_grows_to_the_right() {
    let code = format!("{}+", ">".repeat(65536));
    let mut bf = BF::new(&code, Mode::BF);
    assert_eq!(bf.dump_cells(usize::MAX).len(), 65536);
    run(&mut bf).unwrap();
    assert_eq!(bf.ptr(), 65536);
    let cells = bf.dump_cells(usize::MAX);
    assert_eq!(cells.len(), 65536 + 1024);
    assert_eq!(cells[65536], 1);
}

#[test]
fn dump_cells_is_cut_to_the_tape() {
    let bf = BF::with_memory_limit("", Mode::BF, 3);
    assert_eq!(bf.dump_cells(0).len(), 0);
    assert_eq!(bf.dump_cells(2), [0, 0]);
    assert_eq!(bf.dump_cells(7), [0, 0, 0]);
}

#[test]
fn output_is_the_low_byte() {
    let mut bf = BF::new(".", Mode::BF);
    assert!(bf.set_cell(0, 0x141));
    let action = bf.run(Event::Resume, 10).unwrap();
    assert!(matches!(action, Action::Output(0x41)));
    assert_eq!(bf.output(), [0x41]);
    assert!(matches!(bf.run(Event::Resume, 10).unwrap(), Action::Halt));
}

#[test]
fn input_is_asked_for_and_stored() {
    let mut bf = BF::new("+>,+", Mode::BF);
    assert!(matches!(bf.run(Event::Resume, 10).unwrap(), Action::Input));
    // Asking again changes nothing.
    assert!(matches!(bf.run(Event::Resume, 10).unwrap(), Action::Input));
    assert!(matches!(bf.run(Event::Byte(200), 10).unwrap(), Action::Halt));
    assert_eq!(bf.dump_cells(2), [1, 201]);
}

#[test]
fn input_works_in_extended_mode() {
    let mut bf = BF::new(",", Mode::BFA);
    assert!(matches!(bf.run(Event::Resume, 10).unwrap(), Action::Input));
    assert!(matches!(bf.run(Event::Byte(5), 10).unwrap(), Action::Halt));
    assert_eq!(bf.dump_cells(1), [5]);
}

#[test]
fn failed_input_is_an_io_error() {
    let mut bf = BF::new(",", Mode::BF);
    assert!(matches!(bf.run(Event::Resume, 10).unwrap(), Action::Input));
    let e = failure(bf.run(Event::InputFailed("end of file".to_string()), 10));
    assert!(matches!(e, BFError::IoError(_)));
    assert_eq!(detail(&e), "Input failed: end of file");
    assert_eq!(e.message(), "IO error: Input failed: end of file");
}

#[test]
fn unasked_answers_are_refused() {
    let mut bf = BF::new("+", Mode::BF);
    let e = failure(bf.run(Event::Byte(1), 10));
    assert_eq!(e.kind(), ErrorKind::IoError);
    assert_eq!(detail(&e), "No input was requested");
    let e = failure(bf.run(Event::Returned(0, Vec::new()), 10));
    assert_eq!(e.kind(), ErrorKind::InvalidSyscall);
    assert_eq!(detail(&e), "No system call is pending");
    // Neither changed the machine.
    assert_eq!(bf.dump_cells(1), [0]);
    assert!(matches!(bf.run(Event::Resume, 10).unwrap(), Action::Halt));
    assert_eq!(bf.dump_cells(1), [1]);
}

#[test]
fn budget_bounds_a_turn() {
    let mut bf = BF::new("+[]", Mode::BF);
    assert!(matches!(bf.run(Event::Resume, 0).unwrap(), Action::Continue));
    assert_eq!(bf.pc(), 0);
    // The loop never ends; each turn does.
    for _ in 0..3 {
        assert!(matches!(bf.run(Event::Resume, 1000).unwrap(), Action::Continue));
    }
    let mut bf = BF::new("+++", Mode::BF);
    assert!(matches!(bf.run(Event::Resume, 2).unwrap(), Action::Continue));
    assert_eq!(bf.dump_cells(1), [2]);
    assert!(matches!(bf.run(Event::Resume, 2).unwrap(), Action::Halt));
    assert_eq!(bf.dump_cells(1), [3]);
}

#[test]
fn unknown_number_is_invalid() {
    let mut bf = at_trap(999, [0, 0, 0]);
    let e = failure(bf.run(Event::Resume, 10));
    assert!(matches!(e, BFError::InvalidSyscall(_)));
    assert_eq!(detail(&e), "Unsupported syscall number: 999");
    assert_eq!(e.message(), "Invalid syscall: Unsupported syscall number: 999");
}

#[test]
fn short_tape_has_no_syscall_area() {
    let mut bf = BF::with_memory_limit(".", Mode::BFA, 7);
    let e = failure(bf.run(Event::Resume, 10));
    assert_eq!(e.kind(), ErrorKind::BoundedAccess);
    assert_eq!(detail(&e), "Syscall area out of range");
}

#[test]
fn test_mode_refuses_socket_calls() {
    // socket, accept, bind, listen, close in the Linux numbering
    for number in [41, 43, 49, 50, 3] {
        let mut bf = at_trap(number, [0, 0, 0]);
        bf.set_test_mode(true);
        let e = failure(bf.run(Event::Resume, 10));
        assert!(matches!(e, BFError::InvalidSyscall(_)), "call {}", number);
        assert_eq!(
            detail(&e),
            "Permission denied: socket operations not allowed in test mode"
        );
        // The same call passes the gateway when test mode is off.
        bf.set_test_mode(false);
        assert!(matches!(bf.run(Event::Resume, 10).unwrap(), Action::Syscall(_)));
    }
}

#[test]
fn test_mode_permits_read_and_write() {
    let mut bf = at_trap(0, [0, 8, 4]);
    bf.set_test_mode(true);
    match bf.run(Event::Resume, 10).unwrap() {
        Action::Syscall(Syscall::Read { fd, buf }) => {
            assert_eq!(fd, 0);
            assert_eq!(buf, [0, 0, 0, 0]);
        }
        other => panic!("expected a read, got {:?}", other),
    }
    let mut bf = at_trap(1, [1, 8, 0]);
    bf.set_test_mode(true);
    assert!(matches!(
        bf.run(Event::Resume, 10).unwrap(),
        Action::Syscall(Syscall::Write { fd: 1, .. })
    ));
}

#[test]
fn buffers_must_lie_on_the_tape() {
    let cases = [
        (1, [1, 2, 3]),
        (0, [0, 4, 1]),
        (1, [1, 0, 5]),
        (0, [0, u32::MAX, u32::MAX]),
    ];
    for (number, args) in cases {
        let mut bf = BF::with_memory_limit(".", Mode::BFA, 4 + 4);
        bf.set_cell(7, number);
        bf.set_cell(1, args[0]);
        bf.set_cell(2, args[1]);
        bf.set_cell(3, args[2]);
        let fits = args[1] as u64 + args[2] as u64 <= 8;
        let result = bf.run(Event::Resume, 10);
        if fits {
            assert!(matches!(result.unwrap(), Action::Syscall(_)));
        } else {
            let e = failure(result);
            assert_eq!(e.kind(), ErrorKind::BoundedAccess);
            assert_eq!(
                detail(&e),
                format!("Buffer access out of bounds for syscall {}", number)
            );
        }
    }
    // The whole tape is a buffer that fits; one cell more is not.
    let mut bf = BF::with_memory_limit(".", Mode::BFA, 8);
    bf.set_cell(7, 1);
    bf.set_cell(3, 8);
    assert!(matches!(bf.run(Event::Resume, 10).unwrap(), Action::Syscall(_)));
    bf.set_cell(3, 9);
    assert!(matches!(failure(bf.run(Event::Resume, 10)), BFError::BoundedAccess(_)));
}

#[test]
fn bind_address_must_lie_on_the_tape() {
    let mut bf = BF::with_memory_limit(".", Mode::BFA, 16);
    bf.set_cell(7, 49);
    bf.set_cell(1, 3);
    bf.set_cell(2, 8);
    bf.set_cell(3, 9);
    let e = failure(bf.run(Event::Resume, 10));
    assert_eq!(e.kind(), ErrorKind::BoundedAccess);
    assert_eq!(detail(&e), "sockaddr access out of bounds for bind");
    bf.set_cell(3, 8);
    bf.set_cell(8, 0x102);
    bf.set_cell(9, 0x1ff);
    match bf.run(Event::Resume, 10).unwrap() {
        Action::Syscall(Syscall::Bind { fd, addr }) => {
            assert_eq!(fd, 3);
            assert_eq!(addr, [2, 255, 0, 0, 0, 0, 0, 0]);
        }
        other => panic!("expected a bind, got {:?}", other),
    }
}

#[test]
fn accept_hands_out_a_buffer_and_takes_the_address_back() {
    let mut bf = BF::with_memory_limit(".", Mode::BFA, 32);
    bf.set_cell(7, 43);
    bf.set_cell(1, 5);
    bf.set_cell(2, 10);
    bf.set_cell(3, 20);
    bf.set_cell(20, 4);
    bf.set_cell(14, 77);
    match bf.run(Event::Resume, 10).unwrap() {
        Action::Syscall(Syscall::Accept { fd, peer }) => {
            assert_eq!(fd, 5);
            assert_eq!(peer, Some(vec![0u8; 4]));
        }
        other => panic!("expected an accept, got {:?}", other),
    }
    // The address has six bytes; four fit the buffer, six is its length.
    let action = bf.run(Event::Returned(9, vec![1, 2, 3, 4, 5, 6]), 10).unwrap();
    assert!(matches!(action, Action::Halt));
    let cells = bf.dump_cells(32);
    assert_eq!(cells[0], 9);
    assert_eq!(cells[10..15], [1, 2, 3, 4, 77]);
    assert_eq!(cells[20], 6);
    assert_eq!(cells[1..8], [5, 10, 20, 0, 0, 0, 43]);
    assert_eq!(bf.pc(), 1);
}

#[test]
fn accept_buffer_ends_with_the_tape() {
    let mut bf = BF::with_memory_limit(".", Mode::BFA, 32);
    bf.set_cell(7, 43);
    bf.set_cell(1, 5);
    bf.set_cell(2, 30);
    bf.set_cell(3, 20);
    bf.set_cell(20, 16);
    match bf.run(Event::Resume, 10).unwrap() {
        Action::Syscall(Syscall::Accept { peer, .. }) => assert_eq!(peer, Some(vec![0u8; 2])),
        other => panic!("expected an accept, got {:?}", other),
    }
    // A shorter address is stored whole.
    bf.run(Event::Returned(4, vec![8]), 10).unwrap();
    let cells = bf.dump_cells(32);
    assert_eq!(cells[30..], [8, 0]);
    assert_eq!(cells[20], 1);
    assert_eq!(cells[0], 4);
}

#[test]
fn accept_without_an_address_stores_the_descriptor_alone() {
    let mut bf = BF::with_memory_limit(".", Mode::BFA, 32);
    bf.set_cell(7, 43);
    bf.set_cell(1, 5);
    bf.set_cell(3, 20);
    bf.set_cell(20, 4);
    assert!(matches!(
        bf.run(Event::Resume, 10).unwrap(),
        Action::Syscall(Syscall::Accept { fd: 5, peer: None })
    ));
    bf.run(Event::Returned(6, vec![1, 2, 3]), 10).unwrap();
    let mut expected = vec![0u32; 32];
    expected[0] = 6;
    expected[1] = 5;
    expected[3] = 20;
    expected[7] = 43;
    expected[20] = 4;
    assert_eq!(bf.dump_cells(32), expected);
}

#[test]
fn accept_without_a_length_cell_has_an_empty_buffer() {
    let mut bf = BF::with_memory_limit(".", Mode::BFA, 32);
    bf.set_cell(7, 43);
    bf.set_cell(1, 5);
    bf.set_cell(2, 10);
    match bf.run(Event::Resume, 10).unwrap() {
        Action::Syscall(Syscall::Accept { peer, .. }) => assert_eq!(peer, Some(Vec::new())),
        other => panic!("expected an accept, got {:?}", other),
    }
    bf.run(Event::Returned(6, vec![1, 2, 3]), 10).unwrap();
    let cells = bf.dump_cells(32);
    assert_eq!(cells[0], 6);
    assert_eq!(cells[10..13], [0, 0, 0]);
}

#[test]
fn accept_arguments_must_lie_on_the_tape_unless_null() {
    let mut bf = BF::with_memory_limit(".", Mode::BFA, 16);
    bf.set_cell(7, 43);
    bf.set_cell(1, 5);
    assert!(matches!(
        bf.run(Event::Resume, 10).unwrap(),
        Action::Syscall(Syscall::Accept { fd: 5, peer: None })
    ));
    bf.set_cell(2, 16);
    let e = failure(bf.run(Event::Resume, 10));
    assert_eq!(e.kind(), ErrorKind::BoundedAccess);
    assert_eq!(detail(&e), "Pointer argument out of bounds for accept");
    bf.set_cell(2, 15);
    bf.set_cell(3, 15);
    assert!(matches!(bf.run(Event::Resume, 10).unwrap(), Action::Syscall(_)));
    bf.set_cell(3, 16);
    assert!(matches!(failure(bf.run(Event::Resume, 10)), BFError::BoundedAccess(_)));
}

#[test]
fn validate_syscall_checks_ranges() {
    let bf = BF::with_memory_limit("", Mode::BFA, 10);
    assert!(bf.validate_syscall(1, &[1, 4, 6, 0, 0, 0]).is_ok());
    assert!(matches!(
        bf.validate_syscall(1, &[1, 4, 7, 0, 0, 0]),
        Err(BFError::BoundedAccess(_))
    ));
    assert!(matches!(
        bf.validate_syscall(0, &[1, usize::MAX, 2, 0, 0, 0]),
        Err(BFError::BoundedAccess(_))
    ));
    assert!(matches!(
        bf.validate_syscall(49, &[1, 10, 1, 0, 0, 0]),
        Err(BFError::BoundedAccess(_))
    ));
    assert!(bf.validate_syscall(49, &[1, 10, 0, 0, 0, 0]).is_ok());
    assert!(matches!(
        bf.validate_syscall(43, &[1, 10, 0, 0, 0, 0]),
        Err(BFError::BoundedAccess(_))
    ));
    assert!(bf.validate_syscall(43, &[1, 0, 9, 0, 0, 0]).is_ok());
    // Calls without buffers, and numbers that name no call, pass.
    assert!(bf.validate_syscall(41, &[usize::MAX; 6]).is_ok());
    assert!(bf.validate_syscall(50, &[usize::MAX; 6]).is_ok());
    assert!(bf.validate_syscall(3, &[usize::MAX; 6]).is_ok());
    assert!(bf.validate_syscall(77, &[usize::MAX; 6]).is_ok());
}

#[test]
fn calls_carry_their_arguments() {
    let mut bf = at_trap(41, [2, 1, 6]);
    assert!(matches!(
        bf.run(Event::Resume, 10).unwrap(),
        Action::Syscall(Syscall::Socket { domain: 2, service: 1, protocol: 6 })
    ));
    let mut bf = at_trap(50, [4, 128, 0]);
    assert!(matches!(
        bf.run(Event::Resume, 10).unwrap(),
        Action::Syscall(Syscall::Listen { fd: 4, backlog: 128 })
    ));
    let mut bf = at_trap(3, [9, 0, 0]);
    assert!(matches!(
        bf.run(Event::Resume, 10).unwrap(),
        Action::Syscall(Syscall::Close { fd: 9 })
    ));
}

#[test]
fn write_sends_low_bytes_and_stores_the_count() {
    let mut bf = at_trap(1, [1, 8, 3]);
    bf.set_cell(8, 'h' as u32);
    bf.set_cell(9, 0x100 + 'i' as u32);
    bf.set_cell(10, '\n' as u32);
    match bf.run(Event::Resume, 10).unwrap() {
        Action::Syscall(Syscall::Write { fd, buf }) => {
            assert_eq!(fd, 1);
            assert_eq!(buf, b"hi\n");
        }
        other => panic!("expected a write, got {:?}", other),
    }
    // The machine waits at the trap.
    assert_eq!(bf.pc(), 0);
    assert!(matches!(bf.run(Event::Returned(3, Vec::new()), 10).unwrap(), Action::Halt));
    assert_eq!(bf.dump_cells(1), [3]);
    assert_eq!(bf.pc(), 1);
}

#[test]
fn read_stores_one_byte_to_a_cell() {
    let mut bf = at_trap(0, [0, 9, 4]);
    bf.set_cell(12, 77);
    assert!(matches!(bf.run(Event::Resume, 10).unwrap(), Action::Syscall(_)));
    let action = bf.run(Event::Returned(2, vec![200, 201, 202, 203]), 10).unwrap();
    assert!(matches!(action, Action::Halt));
    // Two bytes were read: the cells behind them keep their values.
    assert_eq!(&bf.dump_cells(13)[8..], [0, 200, 201, 0, 77]);
    assert_eq!(bf.dump_cells(1), [2]);
}

#[test]
fn read_takes_no_more_than_asked_or_handed_over() {
    // The host claims more bytes than the guest asked for.
    let mut bf = at_trap(0, [0, 9, 2]);
    bf.run(Event::Resume, 10).unwrap();
    bf.run(Event::Returned(4, vec![1, 2, 3, 4]), 10).unwrap();
    assert_eq!(&bf.dump_cells(13)[9..], [1, 2, 0, 0]);
    assert_eq!(bf.dump_cells(1), [4]);
    // The host claims more bytes than it hands over.
    let mut bf = at_trap(0, [0, 9, 4]);
    bf.run(Event::Resume, 10).unwrap();
    bf.run(Event::Returned(3, vec![5]), 10).unwrap();
    assert_eq!(&bf.dump_cells(13)[9..], [5, 0, 0, 0]);
    // A read into the syscall area: the return value is stored last.
    let mut bf = at_trap(0, [0, 0, 2]);
    bf.run(Event::Resume, 10).unwrap();
    bf.run(Event::Returned(2, vec![9, 8]), 10).unwrap();
    assert_eq!(bf.dump_cells(2), [2, 8]);
}

#[test]
fn return_value_is_cut_to_the_cell() {
    let mut bf = at_trap(1, [1, 8, 0]);
    bf.run(Event::Resume, 10).unwrap();
    bf.run(Event::Returned(0x1_0000_0007, Vec::new()), 10).unwrap();
    assert_eq!(bf.dump_cells(1), [7]);
}

#[test]
fn failed_call_reports_the_host_error() {
    let mut bf = at_trap(1, [1, 8, 3]);
    bf.run(Event::Resume, 10).unwrap();
    // -2 as the kernel returns it
    let e = failure(bf.run(Event::Returned(usize::MAX - 1, Vec::new()), 10));
    assert!(matches!(e, BFError::SyscallFailed(_)));
    assert_eq!(
        detail(&e),
        "Syscall 1 failed: -2 ENOENT (No such file or directory) \
         (args: [1, 8, 3, 0, 0, 0], first 8 cells: [0, 1, 8, 3, 0, 0, 0, 1])"
    );
    assert!(e.message().starts_with("Syscall failed: Syscall 1 failed: -2 ENOENT"));
    // The machine is where it was.
    assert_eq!(bf.pc(), 0);
    assert_eq!(bf.dump_cells(1), [0]);
}

#[test]
fn error_values_are_the_top_of_the_word() {
    // The largest value that is a result.
    let mut bf = at_trap(1, [1, 8, 0]);
    bf.run(Event::Resume, 10).unwrap();
    bf.run(Event::Returned(usize::MAX - 4095, Vec::new()), 10).unwrap();
    assert_eq!(bf.dump_cells(1), [((usize::MAX - 4095) as u64 % (1 << 32)) as u32]);
    // The smallest value that is an error: number 4095, which has no name.
    let mut bf = at_trap(1, [1, 8, 0]);
    bf.run(Event::Resume, 10).unwrap();
    let e = failure(bf.run(Event::Returned(usize::MAX - 4094, Vec::new()), 10));
    assert!(detail(&e).starts_with("Syscall 1 failed: -4095 (args: "), "{}", detail(&e));
    // The largest: number 1.
    let mut bf = at_trap(1, [1, 8, 0]);
    bf.run(Event::Resume, 10).unwrap();
    let e = failure(bf.run(Event::Returned(usize::MAX, Vec::new()), 10));
    assert!(detail(&e).starts_with("Syscall 1 failed: -1 EPERM (Operation not permitted)"));
}

#[test]
fn platform_selects_the_numbering() {
    let mut bf = at_trap(4, [1, 8, 0]);
    assert!(matches!(failure(bf.run(Event::Resume, 10)), BFError::InvalidSyscall(_)));
    bf.set_platform(Platform::MacOs);
    assert!(matches!(
        bf.run(Event::Resume, 10).unwrap(),
        Action::Syscall(Syscall::Write { .. })
    ));
    // 1 is write on Linux and nothing on macOS.
    let mut bf = at_trap(1, [1, 8, 0]);
    bf.set_platform(Platform::MacOs);
    assert!(matches!(failure(bf.run(Event::Resume, 10)), BFError::InvalidSyscall(_)));
}

#[test]
fn base_mode_never_traps() {
    let mut bf = BF::new(".", Mode::BF);
    bf.set_cell(7, 41);
    assert!(matches!(bf.run(Event::Resume, 10).unwrap(), Action::Output(0)));
}

#[test]
fn error_kinds_and_headings() {
    let cases = [
        (ErrorKind::InvalidSyscall, "Invalid syscall: x"),
        (ErrorKind::BoundedAccess, "Invalid memory access: x"),
        (ErrorKind::SyscallFailed, "Syscall failed: x"),
        (ErrorKind::BracketMismatch, "Bracket mismatch: x"),
        (ErrorKind::IoError, "IO error: x"),
    ];
    for (kind, text) in cases {
        let e = BFError::new(kind, "x".to_string());
        assert_eq!(e.kind(), kind);
        assert_eq!(e.message(), text);
    }
}

#[test]
fn failure_message_names_call_reason_and_state() {
    let message = ewor_brainfuck::bf::failure_message(
        49,
        "address in use",
        &[3, 8, 16, 0, 0, 7],
        &vec![0, 3, 8, 16, 0, 0, 7, 49],
    );
    assert_eq!(
        message,
        "Syscall 49 failed: address in use \
         (args: [3, 8, 16, 0, 0, 7], first 8 cells: [0, 3, 8, 16, 0, 0, 7, 49])"
    );
    let message = ewor_brainfuck::bf::failure_message(0, "", &[0; 6], &Vec::new());
    assert_eq!(message, "Syscall 0 failed:  (args: [0, 0, 0, 0, 0, 0], first 8 cells: [])");
}
