use ewor_brainfuck::bf::{Action, BFError, Event, Mode, BF};
use ewor_brainfuck::brackets::{build_jump_table, BracketCheck};
use ewor_brainfuck::syscall_consts::{linux, macos, Platform, AF_INET, SOCK_STREAM};
use ewor_brainfuck::text::{characters, push_decimal, push_list, push_repeated};
use ewor_brainfuck::{Syscall, SyscallNum};

const CALLS: [SyscallNum; 7] = [
    SyscallNum::Read,
    SyscallNum::Write,
    SyscallNum::Socket,
    SyscallNum::Bind,
    SyscallNum::Listen,
    SyscallNum::Accept,
    SyscallNum::Close,
];

#[test]
fn syscall_numbers_decode() {
    assert_eq!(SyscallNum::try_from(0u32).unwrap(), SyscallNum::Read);
    assert_eq!(SyscallNum::try_from(1u32).unwrap(), SyscallNum::Write);
    assert_eq!(SyscallNum::try_from(2u32).unwrap(), SyscallNum::Socket);
    assert_eq!(SyscallNum::try_from(3u32).unwrap(), SyscallNum::Bind);
    assert_eq!(SyscallNum::try_from(4u32).unwrap(), SyscallNum::Listen);
    assert_eq!(SyscallNum::try_from(5u32).unwrap(), SyscallNum::Accept);
    assert_eq!(SyscallNum::try_from(6u32).unwrap(), SyscallNum::Close);
    assert!(SyscallNum::try_from(7u32).is_err());
    assert!(SyscallNum::try_from(u32::MAX).is_err());
    for (i, call) in CALLS.iter().enumerate() {
        assert_eq!(u32::from(*call), i as u32);
        assert_eq!(SyscallNum::try_from(u32::from(*call)).unwrap(), *call);
    }
}

#[test]
fn socket_class_is_all_but_read_and_write() {
    for call in CALLS {
        let expected = !matches!(call, SyscallNum::Read | SyscallNum::Write);
        assert_eq!(call.socket_class(), expected);
    }
}

#[test]
fn platform_tables() {
    let linux_numbers = [0, 1, 41, 49, 50, 43, 3];
    let macos_numbers = [3, 4, 97, 104, 106, 30, 6];
    for (i, call) in CALLS.iter().enumerate() {
        assert_eq!(Platform::Linux.number(*call), linux_numbers[i]);
        assert_eq!(Platform::MacOs.number(*call), macos_numbers[i]);
        assert_eq!(Platform::Linux.classify(linux_numbers[i]), Some(*call));
        assert_eq!(Platform::MacOs.classify(macos_numbers[i]), Some(*call));
    }
    assert_eq!(Platform::Linux.classify(2), None);
    assert_eq!(Platform::Linux.classify(97), None);
    assert_eq!(Platform::MacOs.classify(0), None);
    assert_eq!(Platform::MacOs.classify(41), None);
    assert_eq!(linux::SYS_WRITE, 1);
    assert_eq!(linux::SYS_SOCKET, 41);
    assert_eq!(macos::SYS_WRITE, 4);
    assert_eq!(macos::SYS_ACCEPT, 30);
    assert_eq!(AF_INET, 2);
    assert_eq!(SOCK_STREAM, 1);
}

#[test]
fn syscall_knows_its_number() {
    assert_eq!(Syscall::Read { fd: 1, buf: vec![] }.number(), SyscallNum::Read);
    assert_eq!(Syscall::Write { fd: 1, buf: vec![] }.number(), SyscallNum::Write);
    assert_eq!(
        Syscall::Socket { domain: 2, service: 1, protocol: 0 }.number(),
        SyscallNum::Socket
    );
    assert_eq!(Syscall::Bind { fd: 1, addr: vec![] }.number(), SyscallNum::Bind);
    assert_eq!(Syscall::Listen { fd: 1, backlog: 1 }.number(), SyscallNum::Listen);
    assert_eq!(Syscall::Accept { fd: 1, peer: None }.number(), SyscallNum::Accept);
    assert_eq!(Syscall::Close { fd: 1 }.number(), SyscallNum::Close);
    let call = Syscall::Write { fd: 1, buf: vec![1, 2] };
    assert_eq!(format!("{:?}", call.clone()), format!("{:?}", call));
    let call = Syscall::Accept { fd: 3, peer: Some(vec![0, 0]) };
    assert_eq!(format!("{:?}", call.clone()), format!("{:?}", call));
}

#[test]
fn decimal_numerals() {
    let cases = [
        (0usize, "0"),
        (7, "7"),
        (9, "9"),
        (10, "10"),
        (42, "42"),
        (100, "100"),
        (4095, "4095"),
        (1_000_000, "1000000"),
    ];
    for (n, text) in cases {
        let mut out = String::from("n=");
        push_decimal(&mut out, n);
        assert_eq!(out, format!("n={}", text));
    }
    let mut out = String::new();
    push_decimal(&mut out, usize::MAX);
    assert_eq!(out, usize::MAX.to_string());
}

#[test]
fn lists_of_numerals() {
    let mut out = String::new();
    push_list(&mut out, &vec![]);
    assert_eq!(out, "[]");
    let mut out = String::from("x");
    push_list(&mut out, &vec![5]);
    assert_eq!(out, "x[5]");
    let mut out = String::new();
    push_list(&mut out, &vec![1, 20, 0, 300]);
    assert_eq!(out, "[1, 20, 0, 300]");
}

#[test]
fn runs_of_a_character() {
    let mut out = String::from("a");
    push_repeated(&mut out, '>', 3);
    push_repeated(&mut out, '<', 0);
    push_repeated(&mut out, 'é', 2);
    assert_eq!(out, "a>>>éé");
}

#[test]
fn characters_of_a_text() {
    assert_eq!(characters(""), Vec::<char>::new());
    assert_eq!(characters("+[é]"), vec!['+', '[', 'é', ']']);
}

#[test]
fn jump_table_pairs_the_brackets() {
    let code: Vec<char> = "+[>[-]<[[]]]-".chars().collect();
    let (jumps, check) = build_jump_table(&code);
    assert_eq!(check, BracketCheck::Balanced);
    assert_eq!(jumps.len(), code.len());
    let pairs = [(1, 11), (3, 5), (7, 10), (8, 9)];
    for (open, close) in pairs {
        assert_eq!(jumps[open], close);
        assert_eq!(jumps[close], open);
    }
}

#[test]
fn jump_table_checks_the_brackets() {
    let verdict = |text: &str| {
        let code: Vec<char> = text.chars().collect();
        let (jumps, check) = build_jump_table(&code);
        assert_eq!(jumps.len(), code.len());
        check
    };
    assert_eq!(verdict(""), BracketCheck::Balanced);
    assert_eq!(verdict("no brackets"), BracketCheck::Balanced);
    assert_eq!(verdict("[[][]]"), BracketCheck::Balanced);
    assert_eq!(verdict("["), BracketCheck::Unclosed);
    assert_eq!(verdict("[[]"), BracketCheck::Unclosed);
    assert_eq!(verdict("]"), BracketCheck::StrayClose);
    assert_eq!(verdict("[]]"), BracketCheck::StrayClose);
    // A `]` that comes too early decides, whatever follows.
    assert_eq!(verdict("][["), BracketCheck::StrayClose);
    assert_eq!(verdict("]["), BracketCheck::StrayClose);
}

#[test]
fn machine_agrees_with_a_run_in_one_turn() {
    // The same program in turns of one instruction and in one turn.
    let code = "+++[>++[>+<-]<-]>>.";
    let mut whole = BF::new(code, Mode::BF);
    let mut action = whole.run(Event::Resume, usize::MAX).unwrap();
    assert!(matches!(action, Action::Output(6)));
    action = whole.run(Event::Resume, usize::MAX).unwrap();
    assert!(matches!(action, Action::Halt));
    let mut stepped = BF::new(code, Mode::BF);
    let mut turns = 0;
    let result: Result<(), BFError> = loop {
        turns += 1;
        match stepped.run(Event::Resume, 1) {
            Ok(Action::Halt) => break Ok(()),
            Ok(_) => {}
            Err(e) => break Err(e),
        }
    };
    result.unwrap();
    assert!(turns > code.len());
    assert_eq!(stepped.dump_cells(3), whole.dump_cells(3));
    assert_eq!(stepped.output(), whole.output());
    assert_eq!(stepped.pc(), whole.pc());
    assert_eq!(stepped.ptr(), whole.ptr());
}
