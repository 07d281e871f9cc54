use ewor_brainfuck::bfvm::{
    choose_backlog, listen_backlog, order_of_probe, socket_family, socket_kind, BFMode, HostCall,
    VMAction, VMEvent, BFVM,
};
use ewor_brainfuck::bytevm::{ByteOrder, Family, SocketKind};
use ewor_brainfuck::errors::VMError;

/// Stores four bytes at the pointer and the three cells behind it, and
/// leaves the pointer behind them.
fn word_le(value: u32) -> String {
    let mut text = String::new();
    for byte in value.to_le_bytes() {
        text.push_str(&"+".repeat(byte as usize));
        text.push('>');
    }
    text
}

/// A program that fills the syscall area (number, two arguments) and traps.
fn trap_program(number: u32, first: u32, second: u32) -> String {
    let mut text = String::from(">>>>");
    text.push_str(&word_le(number));
    text.push_str(&word_le(first));
    text.push_str(&word_le(second));
    text.push('.');
    text
}

#[test]
fn vm_normal_mode_collects_output() {
    let mut vm = BFVM::new(16);
    let code = format!("{}.>{}.", "+".repeat(72), "+".repeat(105));
    let action = vm.run(&code, VMEvent::Resume).unwrap();
    assert!(matches!(action, VMAction::Halt));
    assert_eq!(vm.output(), "Hi");
    assert_eq!(vm.dump_memory(2), [72, 105]);
}

#[test]
fn vm_brackets_are_comments() {
    let mut vm = BFVM::new(4);
    let action = vm.run("+[-]+]", VMEvent::Resume).unwrap();
    assert!(matches!(action, VMAction::Halt));
    // + then - then +: the brackets do nothing.
    assert_eq!(vm.dump_memory(1), [1]);
}

#[test]
fn vm_values_wrap_at_byte_width() {
    let mut vm = BFVM::new(2);
    vm.run("->+", VMEvent::Resume).unwrap();
    assert_eq!(vm.dump_memory(2), [255, 1]);
    let mut vm = BFVM::new(1);
    let code = "+".repeat(256);
    vm.run(&code, VMEvent::Resume).unwrap();
    assert_eq!(vm.dump_memory(1), [0]);
}

#[test]
fn vm_left_of_zero_is_out_of_bounds() {
    let mut vm = BFVM::new(8);
    let result = vm.run("+<+", VMEvent::Resume);
    assert!(matches!(result, Err(VMError::MemoryOutOfBounds)));
    // The failing move changed nothing.
    assert_eq!(vm.dump_memory(1), [1]);
}

#[test]
fn vm_right_of_memory_is_out_of_bounds() {
    let mut vm = BFVM::new(2);
    let result = vm.run(">>", VMEvent::Resume);
    assert!(matches!(result, Err(VMError::MemoryOutOfBounds)));
    let mut vm = BFVM::new(0);
    assert!(matches!(vm.run("+", VMEvent::Resume), Err(VMError::MemoryOutOfBounds)));
}

#[test]
fn vm_input_is_asked_for_and_stored() {
    let mut vm = BFVM::new(4);
    let action = vm.run(">,+", VMEvent::Resume).unwrap();
    assert!(matches!(action, VMAction::Input));
    let action = vm.run(">,+", VMEvent::Byte(41)).unwrap();
    assert!(matches!(action, VMAction::Halt));
    assert_eq!(vm.dump_memory(2), [0, 42]);
}

#[test]
fn vm_failed_input_is_an_io_error() {
    let mut vm = BFVM::new(4);
    assert!(matches!(vm.run(",", VMEvent::Resume).unwrap(), VMAction::Input));
    let error = std::io::Error::new(std::io::ErrorKind::UnexpectedEof, "end of input");
    let result = vm.run(",", VMEvent::InputFailed(error));
    match result {
        Err(VMError::IoError(e)) => assert_eq!(e.kind(), std::io::ErrorKind::UnexpectedEof),
        other => panic!("expected an IO error, got {:?}", other),
    }
}

#[test]
fn vm_unasked_byte_is_dropped() {
    let mut vm = BFVM::new(4);
    let action = vm.run("+", VMEvent::Byte(9)).unwrap();
    assert!(matches!(action, VMAction::Halt));
    assert_eq!(vm.dump_memory(1), [1]);
}

#[test]
fn vm_step_budget_ends_the_run() {
    let mut vm = BFVM::new(1);
    let code = "+".repeat(1_000_010);
    let action = vm.run(&code, VMEvent::Resume).unwrap();
    assert!(matches!(action, VMAction::Halt));
    // One million increments, cut to a byte.
    assert_eq!(vm.dump_memory(1), [(1_000_000u32 % 256) as u8]);
    // The budget stays used up.
    let action = vm.run(&code, VMEvent::Resume).unwrap();
    assert!(matches!(action, VMAction::Halt));
    assert_eq!(vm.dump_memory(1), [(1_000_000u32 % 256) as u8]);
}

#[test]
fn vm_unknown_number_is_invalid() {
    let mut vm = BFVM::with_order(64, BFMode::Syscall, ByteOrder::Little);
    let code = trap_program(7, 0, 0);
    assert!(matches!(vm.run(&code, VMEvent::Resume), Err(VMError::InvalidSyscall)));
}

#[test]
fn vm_short_memory_has_no_syscall_area() {
    let mut vm = BFVM::with_order(8, BFMode::Syscall, ByteOrder::Little);
    assert!(matches!(vm.run(".", VMEvent::Resume), Err(VMError::MemoryOutOfBounds)));
}

#[test]
fn vm_number_is_looked_at_before_the_arguments() {
    // Eight bytes hold the number and no argument: a number that names no
    // call is refused for what it is.
    let mut vm = BFVM::with_order(8, BFMode::Syscall, ByteOrder::Little);
    assert!(matches!(vm.run(">>>>+++++++.", VMEvent::Resume), Err(VMError::InvalidSyscall)));
    assert_eq!(vm.dump_memory(8), [0, 0, 0, 0, 7, 0, 0, 0]);
    // A number that names a call needs its first argument.
    let mut vm = BFVM::with_order(8, BFMode::Syscall, ByteOrder::Little);
    assert!(matches!(vm.run(">>>>+++++.", VMEvent::Resume), Err(VMError::MemoryOutOfBounds)));
    // Less than the number word is no syscall area at all.
    let mut vm = BFVM::with_order(7, BFMode::Syscall, ByteOrder::Little);
    assert!(matches!(vm.run(">>>>+++++++.", VMEvent::Resume), Err(VMError::MemoryOutOfBounds)));
}

#[test]
fn vm_accept_and_close_read_one_argument() {
    // Twelve bytes hold the number and the slot. No slot is open, so the
    // call is over at once and the result word says that it failed.
    for number in [5usize, 6] {
        let mut vm = BFVM::with_order(12, BFMode::Syscall, ByteOrder::Little);
        let code = format!(">>>>{}.", "+".repeat(number));
        let action = vm.run(&code, VMEvent::Resume).unwrap();
        assert!(matches!(action, VMAction::Halt));
        assert_eq!(vm.get_syscall_result().unwrap(), u32::MAX);
        assert_eq!(vm.dump_memory(12)[4..], [number as u8, 0, 0, 0, 0, 0, 0, 0]);
    }
    // Every other call reads a second argument, which twelve bytes lack.
    for number in [0usize, 1, 2, 3, 4] {
        let mut vm = BFVM::with_order(12, BFMode::Syscall, ByteOrder::Little);
        let code = format!(">>>>{}.", "+".repeat(number));
        assert!(matches!(vm.run(&code, VMEvent::Resume), Err(VMError::MemoryOutOfBounds)));
    }
    // With sixteen bytes they have it.
    for number in [0usize, 1, 3, 4] {
        let mut vm = BFVM::with_order(16, BFMode::Syscall, ByteOrder::Little);
        let code = format!(">>>>{}.", "+".repeat(number));
        assert!(matches!(vm.run(&code, VMEvent::Resume).unwrap(), VMAction::Halt));
        assert_eq!(vm.get_syscall_result().unwrap(), u32::MAX);
    }
}

#[test]
fn vm_socket_takes_the_next_slot() {
    let mut vm = BFVM::with_order(64, BFMode::Syscall, ByteOrder::Little);
    let code = trap_program(2, 2, 1);
    match vm.run(&code, VMEvent::Resume).unwrap() {
        VMAction::Call(HostCall::Socket { family, kind }) => {
            assert_eq!(family, Family::Inet);
            assert_eq!(kind, SocketKind::Stream);
        }
        other => panic!("expected a socket call, got {:?}", other),
    }
    let action = vm.run(&code, VMEvent::Returned(Some(0), Vec::new())).unwrap();
    assert!(matches!(action, VMAction::Halt));
    assert_eq!(vm.get_syscall_result().unwrap(), 0);
}

#[test]
fn vm_missing_slot_fails_without_the_host() {
    let mut vm = BFVM::with_order(64, BFMode::Syscall, ByteOrder::Little);
    // Write on slot 0 while no descriptor is open.
    let code = trap_program(1, 0, 4);
    let action = vm.run(&code, VMEvent::Resume).unwrap();
    assert!(matches!(action, VMAction::Halt));
    assert_eq!(vm.get_syscall_result().unwrap(), u32::MAX);
    assert_eq!(vm.dump_memory(4), [255, 255, 255, 255]);
}

/// A machine in syscall mode that holds one open socket in slot 0 and has
/// run `program` up to its trap.
fn with_socket(program: &str) -> (BFVM, String, VMAction) {
    let mut vm = BFVM::with_order(64, BFMode::Syscall, ByteOrder::Little);
    let open = trap_program(2, 2, 1);
    vm.run(&open, VMEvent::Resume).unwrap();
    // Undo the syscall area, which has no loop to clear it with, and go
    // back to the start of the memory.
    let mut code = open.clone();
    code.push_str("<<<<-<<<<--<<<<--<<<<");
    code.push_str(program);
    let action = vm.run(&code, VMEvent::Returned(Some(0), Vec::new())).unwrap();
    (vm, code, action)
}

#[test]
fn vm_write_sends_the_bytes_behind_the_number() {
    let (mut vm, code, action) = with_socket(&trap_program(1, 0, 8));
    match action {
        VMAction::Call(HostCall::Write { slot, buf }) => {
            assert_eq!(slot, 0);
            // The first argument word (slot 0) and the second (8).
            assert_eq!(buf, [0, 0, 0, 0, 8, 0, 0, 0]);
        }
        other => panic!("expected a write, got {:?}", other),
    }
    vm.run(&code, VMEvent::Returned(Some(8), Vec::new())).unwrap();
    assert_eq!(vm.get_syscall_result().unwrap(), 8);
}

#[test]
fn vm_write_past_memory_is_out_of_bounds() {
    let (_, _, action) = with_socket("");
    assert!(matches!(action, VMAction::Halt));
    let mut vm = BFVM::with_order(64, BFMode::Syscall, ByteOrder::Little);
    let open = trap_program(2, 2, 1);
    vm.run(&open, VMEvent::Resume).unwrap();
    let mut code = open.clone();
    code.push_str("<<<<-<<<<--<<<<--<<<<");
    code.push_str(&trap_program(1, 0, 57));
    let result = vm.run(&code, VMEvent::Returned(Some(0), Vec::new()));
    assert!(matches!(result, Err(VMError::MemoryOutOfBounds)));
}

#[test]
fn vm_read_stores_what_came_back() {
    let (mut vm, code, action) = with_socket(&trap_program(0, 0, 5));
    match action {
        VMAction::Call(HostCall::Read { slot, buf }) => {
            assert_eq!(slot, 0);
            assert_eq!(buf, [0, 0, 0, 0, 0]);
        }
        other => panic!("expected a read, got {:?}", other),
    }
    vm.run(&code, VMEvent::Returned(Some(3), vec![7, 8, 9, 10, 11])).unwrap();
    assert_eq!(vm.get_syscall_result().unwrap(), 3);
    assert_eq!(&vm.dump_memory(21)[16..], [7, 8, 9, 0, 0]);
}

#[test]
fn vm_failed_call_stores_the_failure_word() {
    let (mut vm, code, action) = with_socket(&trap_program(5, 0, 0));
    assert!(matches!(action, VMAction::Call(HostCall::Accept { slot: 0 })));
    vm.run(&code, VMEvent::Returned(None, Vec::new())).unwrap();
    assert_eq!(vm.get_syscall_result().unwrap(), u32::MAX);
}

#[test]
fn vm_accept_takes_the_next_slot() {
    let (mut vm, code, action) = with_socket(&trap_program(5, 0, 0));
    assert!(matches!(action, VMAction::Call(HostCall::Accept { slot: 0 })));
    vm.run(&code, VMEvent::Returned(Some(0), Vec::new())).unwrap();
    assert_eq!(vm.get_syscall_result().unwrap(), 1);
}

#[test]
fn vm_bind_listen_close_carry_their_arguments() {
    let (_, _, action) = with_socket(&trap_program(3, 0, 8080));
    assert!(matches!(action, VMAction::Call(HostCall::Bind { slot: 0, port: 8080 })));
    let (_, _, action) = with_socket(&trap_program(3, 0, 65536 + 80));
    assert!(matches!(action, VMAction::Call(HostCall::Bind { slot: 0, port: 80 })));
    let (_, _, action) = with_socket(&trap_program(4, 0, 5));
    assert!(matches!(action, VMAction::Call(HostCall::Listen { slot: 0, backlog: 5 })));
    let (mut vm, code, action) = with_socket(&trap_program(6, 0, 0));
    assert!(matches!(action, VMAction::Call(HostCall::Close { slot: 0 })));
    vm.run(&code, VMEvent::Returned(Some(0), Vec::new())).unwrap();
    assert_eq!(vm.get_syscall_result().unwrap(), 0);
}

#[test]
fn vm_big_endian_words_read_the_other_way() {
    let mut vm = BFVM::with_order(64, BFMode::Syscall, ByteOrder::Big);
    // Number word 00 00 00 02 is socket in big-endian order.
    let code = ">>>>>>>++>>>>>>>>>.";
    let action = vm.run(code, VMEvent::Resume).unwrap();
    assert!(matches!(action, VMAction::Call(HostCall::Socket { .. })));
    vm.run(code, VMEvent::Returned(Some(0), Vec::new())).unwrap();
    vm.run(code, VMEvent::Resume).unwrap();
    assert_eq!(vm.get_syscall_result().unwrap(), 0);
}

#[test]
fn vm_socket_arguments_select_family_and_kind() {
    assert_eq!(socket_family(2), Family::Inet);
    assert_eq!(socket_family(1), Family::Unix);
    assert_eq!(socket_family(0), Family::Unix);
    assert_eq!(socket_kind(1), SocketKind::Stream);
    assert_eq!(socket_kind(2), SocketKind::Datagram);
    assert_eq!(socket_kind(3), SocketKind::Raw);
}

#[test]
fn vm_backlog_is_the_request_or_the_longest_queue() {
    assert_eq!(choose_backlog(Some(5), 4096), 5);
    assert_eq!(choose_backlog(None, 4096), 4096);
    // A small request is accepted as it is; one below -1 never is.
    assert_eq!(listen_backlog(5), 5);
    assert_ne!(listen_backlog(-7), -7);
    assert!(listen_backlog(-7) >= 1);
    assert!(listen_backlog(i32::MIN) >= 1);
    assert!(listen_backlog(-1) >= -1);
    assert!(listen_backlog(i32::MAX) < i32::MAX);
}

#[test]
fn vm_native_order_is_the_order_of_the_host() {
    let expected = if 1u32.to_ne_bytes()[0] == 1 { ByteOrder::Little } else { ByteOrder::Big };
    assert_eq!(ewor_brainfuck::bfvm::native_order(), expected);
}

#[test]
fn vm_with_mode_reads_words_in_the_order_of_the_host() {
    // The number word of a socket call, byte by byte as the host stores it.
    let mut code = String::from(">>>>");
    for byte in 2u32.to_ne_bytes() {
        code.push_str(&"+".repeat(byte as usize));
        code.push('>');
    }
    code.push('.');
    let mut vm = BFVM::with_mode(32, BFMode::Syscall);
    let action = vm.run(&code, VMEvent::Resume).unwrap();
    assert!(matches!(action, VMAction::Call(HostCall::Socket { .. })));
    vm.run(&code, VMEvent::Returned(Some(0), Vec::new())).unwrap();
    assert_eq!(vm.get_syscall_result().unwrap(), 0);
    // A second socket takes slot 1, stored as the host stores a word.
    let mut vm = BFVM::with_mode(32, BFMode::Syscall);
    vm.run(&code, VMEvent::Resume).unwrap();
    vm.run(&code, VMEvent::Returned(Some(0), Vec::new())).unwrap();
    let again = format!("{}<<<<<<<<.", code);
    let action = vm.run(&again, VMEvent::Resume).unwrap();
    assert!(matches!(action, VMAction::Call(HostCall::Socket { .. })));
    vm.run(&again, VMEvent::Returned(Some(0), Vec::new())).unwrap();
    assert_eq!(vm.get_syscall_result().unwrap(), 1);
    assert_eq!(vm.dump_memory(4), 1u32.to_ne_bytes());
}

#[test]
fn vm_normal_mode_never_traps() {
    let mut vm = BFVM::new(32);
    let action = vm.run(">>>>++<<<<.", VMEvent::Resume).unwrap();
    assert!(matches!(action, VMAction::Halt));
    assert_eq!(vm.output(), "\0");
}

#[test]
fn vm_unasked_answer_is_dropped() {
    let mut vm = BFVM::new(8);
    let action = vm.run("+", VMEvent::Returned(Some(3), vec![1, 2, 3])).unwrap();
    assert!(matches!(action, VMAction::Halt));
    assert_eq!(vm.dump_memory(8), [1, 0, 0, 0, 0, 0, 0, 0]);
}

#[test]
fn vm_output_is_the_character_with_the_code_of_the_byte() {
    let mut vm = BFVM::new(2);
    let code = format!("{}.", "-".repeat(23));
    vm.run(&code, VMEvent::Resume).unwrap();
    // 256 - 23 = 233, the code of é.
    assert_eq!(vm.output(), "é");
}

#[test]
fn vm_probe_tells_the_byte_order() {
    assert_eq!(order_of_probe(1), ByteOrder::Little);
    assert_eq!(order_of_probe(0x0100_0000), ByteOrder::Big);
    assert_eq!(order_of_probe(u32::from_le_bytes([1, 0, 0, 0])), ByteOrder::Little);
    assert_eq!(order_of_probe(u32::from_be_bytes([1, 0, 0, 0])), ByteOrder::Big);
}
