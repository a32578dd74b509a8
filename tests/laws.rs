use bft::{BfProgram, Operation, Status, VirtualMachine, VirtualMachineError};

/// Runs `vm` to the end, feeding it `input` byte by byte; returns what it wrote.
fn run(vm: &mut VirtualMachine<u8>, input: &[u8]) -> Result<Vec<u8>, VirtualMachineError> {
    let mut output = Vec::new();
    let mut pending = None;
    let mut next_input = 0;
    loop {
        match vm.step(&mut pending, &mut output)? {
            Status::Halted => return Ok(output),
            Status::AwaitingInput => {
                pending = Some(input[next_input]);
                next_input += 1;
            }
            Status::Running => {}
        }
    }
}

#[test]
fn only_the_eight_characters_become_instructions() {
    let program = BfProgram::new(String::from("a+b-c>d<e.f,g[h]i\n é ü+"), "x.bf").unwrap();
    assert_eq!(program.instructions().len(), 9);
    let empty = BfProgram::new(String::from("no operations here"), "x.bf").unwrap();
    assert_eq!(empty.instructions().len(), 0);
}

#[test]
fn positions_follow_the_source() {
    let program = BfProgram::new(String::from("+-\n[]"), "x.bf").unwrap();
    let instructions = program.instructions();
    assert_eq!(instructions[2].operation(), Operation::StartLoop);
    assert_eq!(instructions[2].line(), 2);
    assert_eq!(instructions[2].column(), 1);
    assert_eq!(instructions[3].operation(), Operation::EndLoop);
    assert_eq!(instructions[3].line(), 2);
    assert_eq!(instructions[3].column(), 2);
}

#[test]
fn columns_count_characters_not_bytes() {
    let program = BfProgram::new(String::from("é+\nx-"), "x.bf").unwrap();
    let instructions = program.instructions();
    assert_eq!(instructions[0].line(), 1);
    assert_eq!(instructions[0].column(), 2);
    assert_eq!(instructions[1].line(), 2);
    assert_eq!(instructions[1].column(), 2);

    let bracket = BfProgram::new(String::from("ü€😀]"), "x.bf");
    assert!(matches!(
        bracket,
        Err(VirtualMachineError::UnmatchedBracket { bracket: ']', line: 1, column: 4 })
    ));
}

#[test]
fn too_few_closes_names_the_open_bracket() {
    match BfProgram::new(String::from("[[]"), "test.bf") {
        Err(VirtualMachineError::UnmatchedBracket { bracket, line, column }) => {
            assert_eq!(bracket, '[');
            assert_eq!(line, 1);
            assert_eq!(column, 1);
        }
        other => panic!("unexpected: {:?}", other),
    }
}

#[test]
fn extra_close_names_the_close_bracket() {
    match BfProgram::new(String::from("[[][]]\n ]"), "test.bf") {
        Err(VirtualMachineError::UnmatchedBracket { bracket, line, column }) => {
            assert_eq!(bracket, ']');
            assert_eq!(line, 2);
            assert_eq!(column, 2);
        }
        other => panic!("unexpected: {:?}", other),
    }
    assert!(matches!(
        BfProgram::new(String::from("[[][]]]"), "test.bf"),
        Err(VirtualMachineError::UnmatchedBracket { bracket: ']', .. })
    ));
}

#[test]
fn balanced_brackets_are_paired() {
    let program = BfProgram::new(String::from("[]"), "test.bf").unwrap();
    assert_eq!(program.bracket_matching_positions().get(&0), Some(&1));
    assert_eq!(program.bracket_matching_positions().len(), 1);
    let map = program.bracket_check().unwrap();
    assert_eq!(map.get(&0), Some(&1));
    assert_eq!(program.closing_positions().get(&1), Some(&0));

    let nested = BfProgram::new(String::from("[[]+[]]"), "test.bf").unwrap();
    let pairs = nested.bracket_matching_positions();
    assert_eq!(pairs.get(&0), Some(&6));
    assert_eq!(pairs.get(&1), Some(&2));
    assert_eq!(pairs.get(&4), Some(&5));
}

#[test]
fn filename_is_kept() {
    let program = BfProgram::new(String::from("+"), "hello.bf").unwrap();
    assert_eq!(program.filename(), "hello.bf");
}

#[test]
fn default_tape_length() {
    let program = BfProgram::new(String::from("+"), "x.bf").unwrap();
    let vm = VirtualMachine::<u8>::new(&program, 0, false);
    assert_eq!(vm.tape.len(), 30000);
    assert!(vm.tape.iter().all(|c| *c == 0));
    let vm = VirtualMachine::<u8>::new(&program, 5, true);
    assert_eq!(vm.tape.len(), 5);
    assert!(vm.growable);
}

#[test]
fn wrapping_cells() {
    let program = BfProgram::new(String::from("+-"), "x.bf").unwrap();
    let mut vm = VirtualMachine::<u8>::new(&program, 1, false);
    vm.tape[0] = 255;
    assert_eq!(vm.increment_cell_at_head().unwrap(), 1);
    assert_eq!(vm.tape[0], 0);
    vm.program_position = 1;
    assert_eq!(vm.decrement_cell_at_head().unwrap(), 2);
    assert_eq!(vm.tape[0], 255);
}

#[test]
fn fixed_tape_of_one_cell_refuses_a_move_right() {
    let program = BfProgram::new(String::from(">"), "fixed.bf").unwrap();
    let mut vm = VirtualMachine::<u8>::new(&program, 1, false);
    match vm.move_right() {
        Err(VirtualMachineError::InvalidHeadPosition {
            line,
            column,
            operation,
            filename,
            position,
            tape_length,
        }) => {
            assert_eq!(line, 1);
            assert_eq!(column, 1);
            assert_eq!(operation, Operation::IncrementPointer);
            assert_eq!(filename, "fixed.bf");
            assert_eq!(position, 1);
            assert_eq!(tape_length, 1);
        }
        other => panic!("unexpected: {:?}", other),
    }
    assert_eq!(vm.tape.len(), 1);
}

#[test]
fn fixed_tape_of_two_cells_allows_one_move_right() {
    let program = BfProgram::new(String::from(">>"), "x.bf").unwrap();
    let mut vm = VirtualMachine::<u8>::new(&program, 2, false);
    assert_eq!(vm.move_right().unwrap(), 1);
    assert!(matches!(
        vm.move_right(),
        Err(VirtualMachineError::InvalidHeadPosition { position: 2, tape_length: 2, .. })
    ));
}

#[test]
fn growable_tape_grows_by_one_zero_cell() {
    let program = BfProgram::new(String::from(">"), "x.bf").unwrap();
    let mut vm = VirtualMachine::<u8>::new(&program, 1, true);
    assert_eq!(vm.move_right().unwrap(), 1);
    assert_eq!(vm.tape.len(), 2);
    assert_eq!(vm.tape[1], 0);
    assert_eq!(vm.tape_head, 1);
}

#[test]
fn move_left_from_the_first_cell_fails() {
    let program = BfProgram::new(String::from("<"), "x.bf").unwrap();
    let mut vm = VirtualMachine::<u8>::new(&program, 3, false);
    assert!(matches!(
        vm.move_left(),
        Err(VirtualMachineError::InvalidHeadPosition { position: 0, tape_length: 3, .. })
    ));
    assert_eq!(vm.tape_head, 0);
}

#[test]
fn loop_jumps() {
    let program = BfProgram::new(String::from("[some,.],.program"), "test.bf").unwrap();
    let mut vm = VirtualMachine::<u8>::new(&program, 10, false);
    assert_eq!(vm.start_loop().unwrap(), 3);
    vm.program_position = 3;
    vm.tape[0] = 1;
    assert_eq!(vm.end_loop().unwrap(), 1);
    vm.tape[0] = 0;
    assert_eq!(vm.end_loop().unwrap(), 4);
}

#[test]
fn start_loop_without_a_partner_fails() {
    let program = BfProgram::new(String::from("[]+"), "test.bf").unwrap();
    let mut vm = VirtualMachine::<u8>::new(&program, 1, false);
    vm.program_position = 2;
    assert!(matches!(vm.start_loop(), Err(VirtualMachineError::BracketFailure)));
}

#[test]
fn input_and_output_bytes() {
    let program = BfProgram::new(String::from(",."), "io.bf").unwrap();
    let mut vm = VirtualMachine::<u8>::new(&program, 1, false);
    assert_eq!(vm.read_into_cell(1).unwrap(), 1);
    assert_eq!(vm.tape[0], 1);

    let mut fresh = VirtualMachine::<u8>::new(&program, 1, false);
    fresh.program_position = 1;
    let mut output = Vec::new();
    assert_eq!(fresh.write_out_of_cell(&mut output).unwrap(), 2);
    assert_eq!(output, vec![0u8]);
}

#[test]
fn step_waits_for_input() {
    let program = BfProgram::new(String::from(",."), "io.bf").unwrap();
    let mut vm = VirtualMachine::<u8>::new(&program, 1, false);
    let mut pending = None;
    let mut output = Vec::new();
    assert_eq!(vm.step(&mut pending, &mut output).unwrap(), Status::AwaitingInput);
    assert_eq!(vm.program_position, 0);
    pending = Some(65);
    assert_eq!(vm.step(&mut pending, &mut output).unwrap(), Status::Running);
    assert_eq!(pending, None);
    assert_eq!(vm.step(&mut pending, &mut output).unwrap(), Status::Running);
    assert_eq!(output, vec![65u8]);
    assert_eq!(vm.step(&mut pending, &mut output).unwrap(), Status::Halted);
}

#[test]
fn runs_a_whole_program() {
    // Prints "Hi": 8 * 9 = 72 is 'H', 72 + 33 = 105 is 'i'.
    let source = "++++++++[>+++++++++<-]>.+++++++++++++++++++++++++++++++++.";
    let program = BfProgram::new(String::from(source), "hi.bf").unwrap();
    let mut vm = VirtualMachine::<u8>::new(&program, 0, false);
    assert_eq!(run(&mut vm, &[]).unwrap(), b"Hi".to_vec());
}

#[test]
fn runs_an_echo_loop() {
    // Copies input to output until a zero byte.
    let program = BfProgram::new(String::from(",[.,]"), "cat.bf").unwrap();
    let mut vm = VirtualMachine::<u8>::new(&program, 0, false);
    assert_eq!(run(&mut vm, &[7, 8, 9, 0]).unwrap(), vec![7u8, 8, 9]);
}

#[test]
fn empty_program_halts_at_once() {
    let program = BfProgram::new(String::from("nothing"), "x.bf").unwrap();
    let mut vm = VirtualMachine::<u8>::new(&program, 0, false);
    assert_eq!(run(&mut vm, &[]).unwrap(), Vec::<u8>::new());
}

#[test]
fn run_stops_at_the_first_error() {
    let program = BfProgram::new(String::from("+.<."), "x.bf").unwrap();
    let mut vm = VirtualMachine::<u8>::new(&program, 4, false);
    let mut output = Vec::new();
    let mut pending = None;
    assert_eq!(vm.step(&mut pending, &mut output).unwrap(), Status::Running);
    assert_eq!(vm.step(&mut pending, &mut output).unwrap(), Status::Running);
    assert!(matches!(
        vm.step(&mut pending, &mut output),
        Err(VirtualMachineError::InvalidHeadPosition { line: 1, column: 3, .. })
    ));
    assert_eq!(output, vec![1u8]);
    assert_eq!(vm.program_position, 2);
}
