use exa_vm::exa::{Exa, ExaState, ExecutionResponse, ExecutionResponseError};
use exa_vm::file::File;
use exa_vm::host::Host;
use exa_vm::host::link::Link;
use exa_vm::instruction::Instruction;
use exa_vm::program::Program;
use exa_vm::register::{AccessMode, HardwareRegister};
use exa_vm::value::Value;
use exa_vm::world::World;

fn strings(lines: &[&str]) -> Vec<String> {
    lines.iter().map(|s| s.to_string()).collect()
}

fn program(lines: &[&str]) -> Program {
    Program::new(&strings(lines)).unwrap()
}

fn simple_program_lines() -> Vec<String> {
    strings(&[
        "LINK 800",
        "",
        "COPY 4 X",
        "",
        "# Loop a few times",
        "MARK THIS_LABEL",
        "SUBI X 1 X",
        "TEST X = 0",
        "FJMP THIS_LABEL",
        "",
        "HALT",
    ])
}

fn one_host() -> (World, usize) {
    let mut world = World::new();
    let h = world.add_host(Host::new("host", 9));
    (world, h)
}

fn sample_file(id: &str) -> File {
    File::new_with_contents(
        id,
        &[
            String::from("keyword1"),
            String::from("666"),
            String::from("keyword2"),
            String::from("333"),
            String::from("keyword3"),
        ],
    )
}

#[test]
fn test_peak_current_instruction() {
    let (_world, h) = one_host();
    let mut exa = Exa::new("XA", Program::new(&simple_program_lines()).unwrap(), h);

    let expected = vec![
        (0, Instruction::Link(Value::Number(800))),
        (
            2,
            Instruction::Copy(Value::Number(4), Value::RegisterId(String::from("X"))),
        ),
        (
            6,
            Instruction::Subtract(
                Value::RegisterId(String::from("X")),
                Value::Number(1),
                Value::RegisterId(String::from("X")),
            ),
        ),
        (
            7,
            Instruction::TestEqual(Value::RegisterId(String::from("X")), Value::Number(0)),
        ),
        (
            8,
            Instruction::JumpIfFalse(Value::LabelId(String::from("THIS_LABEL"))),
        ),
        (10, Instruction::Halt),
    ];

    let mut results = Vec::new();
    while let Some(step) = exa.peak_current_instruction() {
        results.push(step);
        exa.advance_program();
    }

    assert!(exa.peak_current_instruction().is_none());
    assert_eq!(results, expected);
}

#[test]
fn test_execute_current_instruction_failure_out_of_instructions() {
    let (mut world, h) = one_host();
    let mut exa = Exa::new("XA", program(&[]), h);

    let result = exa.execute_current_instruction(&mut world);

    assert_eq!(
        result,
        Err(ExecutionResponseError::OutOfInstructions(String::from(
            "XA"
        )))
    );
}

#[test]
fn test_execute_current_instruction_copy() {
    let (mut world, h) = one_host();
    let mut exa = Exa::new("XA", program(&["COPY 666 X"]), h);

    let result = exa.execute_current_instruction(&mut world);

    assert!(result.is_ok());
    assert_eq!(exa.read_x(), Some(Value::Number(666)));
}

#[test]
fn test_execute_current_instruction_copy_to_hardware_register_writeonly() {
    let (mut world, h) = one_host();
    world.insert_hardware_register(h, HardwareRegister::new("#NERV", AccessMode::WriteOnly));
    let mut exa = Exa::new("XA", program(&["COPY 666 #NERV"]), h);

    let expected_register = HardwareRegister::new_with_values(
        "#NERV",
        AccessMode::WriteOnly,
        &[Value::Number(666)],
    )
    .unwrap();

    let result = exa.execute_current_instruction(&mut world);

    assert!(result.is_ok());
    assert_eq!(
        world.host(h).hardware_register("#NERV"),
        Some(expected_register)
    );
}

#[test]
fn test_execute_current_instruction_copy_from_hardware_register_readonly() {
    let (mut world, h) = one_host();
    let hardware_register =
        HardwareRegister::new_with_values("#NERV", AccessMode::ReadOnly, &[Value::Number(666)])
            .unwrap();
    world.insert_hardware_register(h, hardware_register);
    let mut exa = Exa::new("XA", program(&["COPY #NERV T"]), h);

    let result = exa.execute_current_instruction(&mut world);

    assert!(result.is_ok());
    assert_eq!(exa.read_t(), Some(Value::Number(666)));
    let after = world.host(h).hardware_register("#NERV").unwrap();
    assert_eq!(after.read(), Ok(None));
}

#[test]
fn test_execute_current_instruction_copy_noop_to_hardware_register_readonly() {
    let (mut world, h) = one_host();
    world.insert_hardware_register(h, HardwareRegister::new("#NERV", AccessMode::ReadOnly));
    let mut exa = Exa::new("XA", program(&["COPY 666 #NERV"]), h);

    let result = exa.execute_current_instruction(&mut world);

    assert!(result.is_ok());
    let after = world.host(h).hardware_register("#NERV").unwrap();
    assert_eq!(after.read(), Ok(None));
}

#[test]
fn test_execute_current_instruction_copy_failure_from_hardware_register_writeonly() {
    let (mut world, h) = one_host();
    world.insert_hardware_register(h, HardwareRegister::new("#NERV", AccessMode::WriteOnly));
    let mut exa = Exa::new("XA", program(&["COPY #NERV X"]), h);

    let result = exa.execute_current_instruction(&mut world);

    assert_eq!(
        result,
        Err(ExecutionResponseError::InvalidHardwareRegisterAccess(
            String::from("#NERV")
        ))
    );
}

#[test]
fn test_execute_current_instruction_copy_failure_to_file() {
    let (mut world, h) = one_host();
    let mut exa = Exa::new("XA", program(&["COPY X F"]), h);

    let result = exa.execute_current_instruction(&mut world);

    assert_eq!(result, Err(ExecutionResponseError::InvalidFRegisterAccess));
}

#[test]
fn test_execute_current_instruction_add() {
    let (mut world, h) = one_host();
    let mut exa = Exa::new("XA", program(&["COPY 222 X", "ADDI 333 X X"]), h);

    assert!(exa.execute_current_instruction(&mut world).is_ok());
    let result = exa.execute_current_instruction(&mut world);

    assert!(result.is_ok());
    assert_eq!(exa.read_x(), Some(Value::Number(555)));
}

#[test]
fn test_execute_current_instruction_add_failure_math_with_keywords() {
    let mut world = World::new();
    let h = world.add_host(Host::new("host", 9));
    // the keyword reaches X through a file, since programs cannot carry one
    world.insert_file(h, File::new_with_contents("200", &[String::from("keyword")]));
    let mut exa = Exa::new("XA", program(&["GRAB 200", "COPY F X", "ADDI 333 X X"]), h);

    assert!(exa.execute_current_instruction(&mut world).is_ok());
    assert!(exa.execute_current_instruction(&mut world).is_ok());
    let result = exa.execute_current_instruction(&mut world);

    assert_eq!(
        result,
        Err(ExecutionResponseError::MathWithKeywords(
            Value::Number(333),
            Value::Keyword(String::from("keyword"))
        ))
    );
}

#[test]
fn test_execute_current_instruction_test() {
    let (mut world, h) = one_host();
    let mut exa = Exa::new(
        "XA",
        program(&[
            "ADDI 333 X X",
            "TEST X = 333",
            "TEST X > 555",
            "TEST X < 555",
        ]),
        h,
    );

    // ADDI 333 X X
    assert!(exa.execute_current_instruction(&mut world).is_ok());
    assert_eq!(exa.read_x(), Some(Value::Number(333)));

    // TEST X = 333
    assert!(exa.execute_current_instruction(&mut world).is_ok());
    assert_eq!(exa.read_t(), Some(Value::Number(1)));

    // TEST X > 555
    assert!(exa.execute_current_instruction(&mut world).is_ok());
    assert_eq!(exa.read_t(), Some(Value::Number(0)));

    // TEST X < 555
    assert!(exa.execute_current_instruction(&mut world).is_ok());
    assert_eq!(exa.read_t(), Some(Value::Number(1)));
}

#[test]
fn test_execute_current_instruction_halt() {
    let (mut world, h) = one_host();
    world.insert_exa_id(h, "XA");
    let mut exa = Exa::new("XA", program(&["HALT"]), h);

    assert!(world.host(h).has_occupying_exa_id("XA"));
    assert_eq!(
        exa.execute_current_instruction(&mut world),
        Err(ExecutionResponseError::Halt(String::from("XA")))
    );
    assert!(!world.host(h).has_occupying_exa_id("XA"));
}

#[test]
fn test_execute_current_instruction_link_success() {
    let mut world = World::new();
    let h1 = world.add_host(Host::new("host_1", 9));
    let h2 = world.add_host(Host::new("host_2", 9));
    let link = world.add_link(Link::new("800", h2, "-1", h1));
    world.connect(h1, "800", link);
    world.connect(h2, "-1", link);
    world.insert_exa_id(h1, "XA");

    let mut exa = Exa::new("XA", program(&["LINK 800"]), h1);

    assert!(world.host(h1).has_occupying_exa_id("XA"));
    let result = exa.execute_current_instruction(&mut world);

    assert_eq!(result, Ok(ExecutionResponse::Link));
    assert!(world.link(link).is_occupied());
    assert!(!world.host(h1).has_occupying_exa_id("XA"));
    assert!(world.host(h2).has_occupying_exa_id("XA"));
    assert_eq!(exa.host_index(), h2);
}

#[test]
fn test_execute_current_instruction_link_failure_no_link_exists() {
    let (mut world, h) = one_host();
    let mut exa = Exa::new("XA", program(&["LINK 800"]), h);

    let result = exa.execute_current_instruction(&mut world);

    assert_eq!(
        result,
        Err(ExecutionResponseError::InvalidLinkTraversal(String::from(
            "800"
        )))
    );
}

#[test]
fn test_execute_current_instruction_link_failure_waiting_for_link_availability() {
    let mut world = World::new();
    let h1 = world.add_host(Host::new("host_1", 9));
    let h2 = world.add_host(Host::new("host_2", 9));
    let mut taken = Link::new("800", h2, "-1", h1);
    taken.occupy();
    let link = world.add_link(taken);
    world.connect(h1, "800", link);
    world.connect(h2, "-1", link);
    world.insert_exa_id(h1, "XA");

    let mut exa = Exa::new("XA", program(&["LINK 800"]), h1);

    let result = exa.execute_current_instruction(&mut world);

    assert_eq!(result, Ok(ExecutionResponse::Link));
    assert!(world.link(link).is_occupied());
    assert!(world.host(h1).has_occupying_exa_id("XA"));
    assert!(!world.host(h2).has_occupying_exa_id("XA"));
    assert_eq!(exa.state(), ExaState::WaitingForLinkToOpen);
}

#[test]
fn test_execute_current_instruction_link_failure_waiting_for_host_availability() {
    let mut world = World::new();
    let h1 = world.add_host(Host::new("host_1", 9));
    let h2 = world.add_host(Host::new("host_2", 0));
    let link = world.add_link(Link::new("800", h2, "-1", h1));
    world.connect(h1, "800", link);
    world.connect(h2, "-1", link);
    world.insert_exa_id(h1, "XA");

    let mut exa = Exa::new("XA", program(&["LINK 800"]), h1);

    let result = exa.execute_current_instruction(&mut world);

    assert_eq!(result, Ok(ExecutionResponse::Link));
    assert!(!world.link(link).is_occupied());
    assert!(world.host(h1).has_occupying_exa_id("XA"));
    assert!(!world.host(h2).has_occupying_exa_id("XA"));
    assert_eq!(exa.state(), ExaState::WaitingForLinkToOpen);
}

#[test]
fn test_execute_current_instruction_host() {
    let (mut world, h) = one_host();
    let mut exa = Exa::new("XA", program(&["HOST X"]), h);

    let result = exa.execute_current_instruction(&mut world);

    assert!(result.is_ok());
    assert_eq!(exa.read_x(), Some(Value::Keyword(String::from("host"))));
}

#[test]
fn test_execute_current_instruction_grab_success() {
    let (mut world, h) = one_host();
    let file = sample_file("200");
    world.insert_file(h, file.clone());

    let mut exa = Exa::new("XA", program(&["GRAB 200"]), h);

    assert!(world.host(h).has_file("200"));
    assert!(exa.execute_current_instruction(&mut world).is_ok());
    assert!(!world.host(h).has_file("200"));
    assert_eq!(exa.held_file(), Some(file));
}

#[test]
fn test_execute_current_instruction_grab_failure_no_file() {
    let (mut world, h) = one_host();
    let mut exa = Exa::new("XA", program(&["GRAB 200"]), h);

    let result = exa.execute_current_instruction(&mut world);

    assert_eq!(
        result,
        Err(ExecutionResponseError::InvalidFileAccess(String::from(
            "200"
        )))
    );
}

#[test]
fn test_execute_current_instruction_grab_failure_waiting() {
    let mut world = World::new();
    let h = world.add_host(Host::new("host", 9));
    let file = sample_file("200");
    {
        // a pending file: dropped this cycle, grabbable only next cycle
        let mut owner = Exa::new("XO", program(&["GRAB 200", "DROP"]), h);
        world.insert_file(h, file.clone());
        assert!(owner.execute_current_instruction(&mut world).is_ok());
        assert!(owner.execute_current_instruction(&mut world).is_ok());
    }

    let mut exa = Exa::new("XA", program(&["GRAB 200"]), h);

    let result = exa.execute_current_instruction(&mut world);

    assert!(result.is_ok());
    assert!(world.host(h).has_file("200"));
    assert!(exa.held_file().is_none());
    assert_eq!(exa.state(), ExaState::WaitingForFile);
}

#[test]
fn test_execute_current_instruction_void_f() {
    let (mut world, h) = one_host();
    let file = sample_file("200");
    world.insert_file(h, file.clone());

    let mut exa = Exa::new("XA", program(&["GRAB 200", "VOID F"]), h);

    let expected_file_after_void = File::new_with_contents(
        "200",
        &[
            String::from("666"),
            String::from("keyword2"),
            String::from("333"),
            String::from("keyword3"),
        ],
    );

    // GRAB 200
    assert!(exa.execute_current_instruction(&mut world).is_ok());
    assert_eq!(exa.held_file(), Some(file));

    // VOID F
    assert!(exa.execute_current_instruction(&mut world).is_ok());
    assert_eq!(exa.held_file(), Some(expected_file_after_void));
}

#[test]
fn test_execute_current_instruction_seek() {
    let (mut world, h) = one_host();
    let file = sample_file("200");
    world.insert_file(h, file.clone());

    let mut exa = Exa::new("XA", program(&["GRAB 200", "SEEK 2", "COPY F X"]), h);

    // GRAB 200
    assert!(exa.execute_current_instruction(&mut world).is_ok());
    assert_eq!(exa.held_file(), Some(file));

    // SEEK 2
    assert!(exa.execute_current_instruction(&mut world).is_ok());

    // COPY F X
    assert!(exa.execute_current_instruction(&mut world).is_ok());
    assert_eq!(exa.read_x(), Some(Value::Keyword(String::from("keyword2"))));
}

#[test]
fn test_execute_current_instruction_testeof() {
    let (mut world, h) = one_host();
    let file = sample_file("200");
    world.insert_file(h, file.clone());

    let mut exa = Exa::new(
        "XA",
        program(&["GRAB 200", "TEST EOF", "SEEK 9999", "TEST EOF"]),
        h,
    );

    // GRAB 200
    assert!(exa.execute_current_instruction(&mut world).is_ok());
    assert_eq!(exa.held_file(), Some(file));

    // TEST EOF
    assert!(exa.execute_current_instruction(&mut world).is_ok());
    assert_eq!(exa.read_t(), Some(Value::Number(0)));

    // SEEK 9999
    assert!(exa.execute_current_instruction(&mut world).is_ok());

    // TEST EOF
    assert!(exa.execute_current_instruction(&mut world).is_ok());
    assert_eq!(exa.read_t(), Some(Value::Number(1)));
}

#[test]
fn test_execute_current_instruction_make() {
    let (mut world, h) = one_host();
    let mut exa_1 = Exa::new("XA", program(&["MAKE"]), h);
    let mut exa_2 = Exa::new("XB", program(&["MAKE"]), h);

    let expected_file_1 = File::new("400");
    let expected_file_2 = File::new("401");

    assert!(exa_1.held_file().is_none());
    assert!(exa_2.held_file().is_none());

    assert!(exa_1.execute_current_instruction(&mut world).is_ok());
    assert!(exa_2.execute_current_instruction(&mut world).is_ok());

    assert_eq!(exa_1.held_file(), Some(expected_file_1));
    assert_eq!(exa_2.held_file(), Some(expected_file_2));
}

#[test]
fn test_execute_current_instruction_file() {
    let (mut world, h) = one_host();
    let mut exa = Exa::new("XA", program(&["MAKE", "FILE X"]), h);

    // MAKE
    assert!(exa.execute_current_instruction(&mut world).is_ok());

    // FILE X
    assert!(exa.execute_current_instruction(&mut world).is_ok());
    assert_eq!(exa.read_x(), Some(Value::Keyword(String::from("400"))));
}

#[test]
fn test_execute_current_instruction_drop_success() {
    let (mut world, h) = one_host();
    let mut exa = Exa::new("XA", program(&["MAKE", "DROP"]), h);

    // MAKE
    assert!(exa.execute_current_instruction(&mut world).is_ok());

    // DROP
    assert!(!world.host(h).has_file("400"));
    assert!(exa.held_file().is_some());
    assert!(exa.execute_current_instruction(&mut world).is_ok());
    assert!(world.host(h).has_file("400"));
    assert!(exa.held_file().is_none());
}

#[test]
fn test_execute_current_instruction_drop_waiting() {
    let mut world = World::new();
    let h = world.add_host(Host::new("host", 1));
    world.insert_exa_id(h, "XA");

    let mut exa = Exa::new("XA", program(&["MAKE", "DROP"]), h);

    // MAKE
    assert!(exa.execute_current_instruction(&mut world).is_ok());

    // DROP
    assert!(!world.host(h).has_file("400"));
    assert!(exa.held_file().is_some());
    assert!(exa.execute_current_instruction(&mut world).is_ok());
    assert!(!world.host(h).has_file("400"));
    assert!(exa.held_file().is_some());
    assert_eq!(exa.state(), ExaState::WaitingForHostAvailabilityToDropFile);
}

#[test]
fn test_execute_current_instruction_jump() {
    let (mut world, h) = one_host();
    let mut exa = Exa::new(
        "XA",
        program(&[
            "ADDI 300 X X",
            "JUMP LABEL",
            "HALT",
            "MARK LABEL",
            "MULI 2 X X",
        ]),
        h,
    );

    // ADDI 300 X X
    assert!(exa.execute_current_instruction(&mut world).is_ok());
    assert_eq!(exa.read_x(), Some(Value::Number(300)));

    // JUMP LABEL
    assert!(exa.execute_current_instruction(&mut world).is_ok());

    // MULI 2 X X
    assert!(exa.execute_current_instruction(&mut world).is_ok());
    assert_eq!(exa.read_x(), Some(Value::Number(600)));
}

#[test]
fn test_execute_current_instruction_jump_if_true() {
    let (mut world, h) = one_host();
    let mut exa = Exa::new(
        "XA",
        program(&[
            "ADDI 300 X X",
            "TEST X = 300",
            "TJMP LABEL",
            "HALT",
            "MARK LABEL",
            "MULI 2 X X",
        ]),
        h,
    );

    // ADDI 300 X X
    assert!(exa.execute_current_instruction(&mut world).is_ok());
    assert_eq!(exa.read_x(), Some(Value::Number(300)));

    // TEST X = 300
    assert!(exa.execute_current_instruction(&mut world).is_ok());
    assert_eq!(exa.read_t(), Some(Value::Number(1)));

    // TJMP LABEL
    assert!(exa.execute_current_instruction(&mut world).is_ok());

    // MULI 2 X X
    assert!(exa.execute_current_instruction(&mut world).is_ok());
    assert_eq!(exa.read_x(), Some(Value::Number(600)));
}

#[test]
fn test_execute_current_instruction_jump_if_false() {
    let (mut world, h) = one_host();
    let mut exa = Exa::new(
        "XA",
        program(&[
            "ADDI 300 X X",
            "TEST X = 300",
            "FJMP LABEL",
            "HALT",
            "MARK LABEL",
            "MULI 2 X X",
        ]),
        h,
    );

    // ADDI 300 X X
    assert!(exa.execute_current_instruction(&mut world).is_ok());
    assert_eq!(exa.read_x(), Some(Value::Number(300)));

    // TEST X = 300
    assert!(exa.execute_current_instruction(&mut world).is_ok());
    assert_eq!(exa.read_t(), Some(Value::Number(1)));

    // FJMP LABEL
    assert!(exa.execute_current_instruction(&mut world).is_ok());

    // HALT
    assert_eq!(
        exa.execute_current_instruction(&mut world),
        Err(ExecutionResponseError::Halt(String::from("XA")))
    );
}

#[test]
fn test_execute_current_instruction_replicate() {
    let (mut world, h) = one_host();
    world.insert_exa_id(h, "XA");

    let mut exa = Exa::new(
        "XA",
        program(&[
            "COPY 333 X",
            "MAKE",
            "REPL LABEL",
            "HALT",
            "MARK LABEL",
            "MULI 2 X X",
        ]),
        h,
    );

    // XA - COPY 333 X
    assert!(exa.execute_current_instruction(&mut world).is_ok());
    assert_eq!(exa.read_x(), Some(Value::Number(333)));

    // XA - MAKE
    assert!(exa.held_file().is_none());
    assert!(exa.execute_current_instruction(&mut world).is_ok());
    assert!(exa.held_file().is_some());

    // XA - REPL LABEL
    assert!(world.host(h).has_occupying_exa_id("XA"));
    assert!(!world.host(h).has_occupying_exa_id("XA:0"));

    let mut replicated_exa: Option<Exa> = None;
    if let Ok(ExecutionResponse::Replicate(result)) = exa.execute_current_instruction(&mut world)
    {
        replicated_exa = Some(result);
    }

    assert!(replicated_exa.is_some());
    assert!(world.host(h).has_occupying_exa_id("XA"));
    assert!(world.host(h).has_occupying_exa_id("XA:0"));
    let mut child = replicated_exa.unwrap();
    assert_eq!(child.id, "XA:0");
    assert_eq!(child.read_x(), Some(Value::Number(0)));
    assert!(child.held_file().is_none());

    // XA - HALT
    assert!(world.host(h).has_occupying_exa_id("XA"));
    assert_eq!(
        exa.execute_current_instruction(&mut world),
        Err(ExecutionResponseError::Halt(String::from("XA")))
    );
    assert!(!world.host(h).has_occupying_exa_id("XA"));

    // XA:0 - MULI 2 X X
    assert!(child.execute_current_instruction(&mut world).is_ok());
    assert_eq!(child.read_x(), Some(Value::Number(0)));
}

#[test]
fn test_execute_current_instruction_replicate_waiting() {
    let mut world = World::new();
    let h = world.add_host(Host::new("host", 1));
    world.insert_exa_id(h, "XA");

    let mut exa = Exa::new(
        "XA",
        program(&["REPL LABEL", "HALT", "MARK LABEL", "MULI 2 X X"]),
        h,
    );

    // XA - REPL LABEL
    assert!(world.host(h).has_occupying_exa_id("XA"));
    assert!(!world.host(h).has_occupying_exa_id("XA:0"));
    assert_eq!(
        exa.execute_current_instruction(&mut world),
        Ok(ExecutionResponse::Success)
    );
    assert!(world.host(h).has_occupying_exa_id("XA"));
    assert!(!world.host(h).has_occupying_exa_id("XA:0"));
    assert_eq!(exa.state(), ExaState::WaitingForHostAvailabilityToReplicate);
}

#[test]
fn test_execute_current_instruction_kill() {
    let (mut world, h) = one_host();
    world.insert_exa_id(h, "XA");
    world.insert_exa_id(h, "XB");

    let mut exa = Exa::new("XA", program(&["KILL"]), h);

    let result = exa.execute_current_instruction(&mut world);

    assert_eq!(
        result,
        Err(ExecutionResponseError::Kill(String::from("XB")))
    );
    assert!(world.host(h).has_occupying_exa_id("XA"));
    assert!(!world.host(h).has_occupying_exa_id("XB"));
}

#[test]
fn test_execute_current_instruction_kill_nobody() {
    let (mut world, h) = one_host();
    world.insert_exa_id(h, "XA");

    let mut exa = Exa::new("XA", program(&["KILL"]), h);

    let result = exa.execute_current_instruction(&mut world);

    assert_eq!(result, Ok(ExecutionResponse::Success));
    assert!(world.host(h).has_occupying_exa_id("XA"));
}

#[test]
fn test_execute_current_instruction_mode() {
    let (mut world, h) = one_host();
    let mut exa = Exa::new("XA", program(&["COPY 7 M", "MODE", "TEST MRD"]), h);

    // COPY 7 M: deposits a global message
    assert!(exa.execute_current_instruction(&mut world).is_ok());
    assert_eq!(world.global_m_read(), Some(Value::Number(7)));

    // MODE: switch to local
    assert!(exa.execute_current_instruction(&mut world).is_ok());

    // TEST MRD: the global message is invisible in local mode
    assert!(exa.execute_current_instruction(&mut world).is_ok());
    assert_eq!(exa.read_t(), Some(Value::Number(0)));
}

#[test]
fn test_execute_current_instruction_void_m() {
    let (mut world, h) = one_host();
    let mut exa = Exa::new("XA", program(&["COPY 7 M", "VOID M", "VOID M"]), h);

    // COPY 7 M
    assert!(exa.execute_current_instruction(&mut world).is_ok());
    assert_eq!(world.global_m_read(), Some(Value::Number(7)));

    // VOID M consumes the pending message
    assert!(exa.execute_current_instruction(&mut world).is_ok());
    assert_eq!(world.global_m_read(), None);

    // VOID M with nothing pending waits
    assert!(exa.execute_current_instruction(&mut world).is_ok());
    assert_eq!(exa.state(), ExaState::WaitingForMRead);
}

#[test]
fn test_execute_current_instruction_test_mrd() {
    let (mut world, h) = one_host();
    let mut exa = Exa::new("XA", program(&["TEST MRD", "COPY 9 M", "TEST MRD"]), h);

    // TEST MRD with nothing pending
    assert!(exa.execute_current_instruction(&mut world).is_ok());
    assert_eq!(exa.read_t(), Some(Value::Number(0)));

    // COPY 9 M
    assert!(exa.execute_current_instruction(&mut world).is_ok());

    // TEST MRD with a pending message
    assert!(exa.execute_current_instruction(&mut world).is_ok());
    assert_eq!(exa.read_t(), Some(Value::Number(1)));
}

#[test]
fn test_execute_current_instruction_rand() {
    let (mut world, h) = one_host();
    let mut exa = Exa::new("XA", program(&["RAND 1 6 X"]), h);

    assert!(exa.execute_current_instruction(&mut world).is_ok());
    match exa.read_x() {
        Some(Value::Number(n)) => assert!(1 <= n && n <= 6),
        other => panic!("RAND left {other:?} in X"),
    }
}

#[test]
fn test_next_replicated_exa_id() {
    let (_world, h) = one_host();
    let mut exa = Exa::new("XA:0", Program::new(&simple_program_lines()).unwrap(), h);

    let expected_1 = String::from("XA:0:0");
    let expected_2 = String::from("XA:0:1");

    let result_1 = exa.next_replicated_exa_id();
    let result_2 = exa.next_replicated_exa_id();

    assert_eq!(result_1, expected_1);
    assert_eq!(result_2, expected_2);
}
