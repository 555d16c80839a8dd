use block_byte::face::Face;
use block_byte::machine::{machine_default_script, MachineInstrution};
use block_byte::registry::{KeyGroup, LoadRegistry, RecipeData};
use block_byte::scripts::{
    expect_argument_count, CallbackResult, CompiledScript, JumpCondition, Operation,
    RegisterOrImmediate, RunResult, ScriptByteCode, ScriptParseContext, ScriptParseError,
    ScriptState,
};

fn recipes() -> LoadRegistry<RecipeData> {
    let mut recipes = LoadRegistry::default();
    recipes.register("axe".to_string(), "axe.ron".to_string());
    recipes.register("tools".to_string(), "tools.ron".to_string());
    recipes
}

fn parse(text: &str) -> CompiledScript<MachineInstrution> {
    assert!(CompiledScript::<MachineInstrution>::can_read(&recipes(), text));
    CompiledScript::parse(&recipes(), text).ok().unwrap()
}

fn run(text: &str, steps: usize) -> (Vec<u16>, usize) {
    let script = parse(text);
    let mut state = ScriptState::new(&script);
    state.run(
        &script,
        |state, _: &MachineInstrution| (state, CallbackResult::Suspend),
        steps,
    );
    (state.registers, state.pc)
}

#[test]
fn scripts_read_lines_labels_and_comments() {
    let script = parse("start: # a label\n  move a 5  # five\n\njmp start");
    assert_eq!(script.named_registers, vec!["a".to_string()]);
    assert_eq!(script.instructions.len(), 2);
    assert!(matches!(
        script.instructions[0],
        ScriptByteCode::Move { from: RegisterOrImmediate::Immediate(5), to: 0 }
    ));
    assert!(matches!(script.instructions[1], ScriptByteCode::Jump { label: 0 }));
}

#[test]
fn scripts_hold_an_instruction_for_each_line_that_has_one() {
    let text = "# nothing\n start:\nmove a b # a b\n\nje end a 3\nadd a a b\njmp start\nend: # behind";
    let script = parse(text);
    assert_eq!(script.instructions.len(), 4);
    assert_eq!(script.named_registers, vec!["b".to_string(), "a".to_string()]);
    let count = script.named_registers.len();
    let mut labels = Vec::new();
    for code in &script.instructions {
        match code {
            ScriptByteCode::Jump { label } => labels.push(*label),
            ScriptByteCode::JumpConditional { label, a, .. } => {
                labels.push(*label);
                assert!(*a < count);
            }
            ScriptByteCode::Move { to, .. } => assert!(*to < count),
            ScriptByteCode::Operation { a, target, .. } => assert!(*a < count && *target < count),
            ScriptByteCode::External(_) => {}
        }
    }
    assert_eq!(labels, vec![4, 0]);
}

#[test]
fn scripts_name_registers_as_they_meet_them() {
    let script = parse("add a b c\njle end a 7\nend:");
    assert_eq!(script.named_registers, vec!["c".to_string(), "b".to_string(), "a".to_string()]);
    assert!(matches!(
        script.instructions[0],
        ScriptByteCode::Operation {
            a: 1,
            b: RegisterOrImmediate::Register(0),
            target: 2,
            operation: Operation::Add
        }
    ));
    assert!(matches!(
        script.instructions[1],
        ScriptByteCode::JumpConditional {
            label: 2,
            a: 2,
            b: RegisterOrImmediate::Immediate(7),
            condition: JumpCondition::LessEqual
        }
    ));
}

#[test]
fn scripts_report_errors() {
    let error = CompiledScript::<MachineInstrution>::parse(&recipes(), "move a").err().unwrap();
    assert!(matches!(
        error,
        ScriptParseError::IllegalArguments { line: 0, expected_count: 2, actual_count: 1 }
    ));
    let error = CompiledScript::<MachineInstrution>::parse(&recipes(), "\njmp nowhere").err().unwrap();
    assert!(matches!(error, ScriptParseError::UnknownLabel { line: 1, label: "nowhere" }));
    let error = CompiledScript::<MachineInstrution>::parse(&recipes(), "a:\na:").err().unwrap();
    assert!(matches!(error, ScriptParseError::DuplicateLabel { line: 1 }));
    let error = CompiledScript::<MachineInstrution>::parse(&recipes(), "fly away").err().unwrap();
    assert!(matches!(error, ScriptParseError::UnknownOpCode { line: 0, opcode: "fly" }));
    assert!(expect_argument_count(3, &["x"], 1).is_ok());
}

#[test]
fn scripts_compute() {
    let text = "move a 17\nmod b a 5\ndiv c a 5\nsub d b a\nbsl e b 3\nnot f f\nxor g a 3";
    let (registers, pc) = run(text, 7);
    assert_eq!(pc, 7);
    let script = parse(text);
    let value = |name: &str| {
        registers[script.named_registers.iter().position(|n| n == name).unwrap()]
    };
    assert_eq!(value("a"), 17);
    assert_eq!(value("b"), 2);
    assert_eq!(value("c"), 3);
    assert_eq!(value("d"), 65521);
    assert_eq!(value("e"), 16);
    assert_eq!(value("f"), 65535);
    assert_eq!(value("g"), 18);
}

#[test]
fn scripts_loop_and_time_out() {
    let script = parse("loop:\nadd a a 1\njl loop a 3\nyield");
    let mut state = ScriptState::new(&script);
    let result = state.run(
        &script,
        |state, _: &MachineInstrution| (state, CallbackResult::Suspend),
        100,
    );
    assert!(matches!(result, RunResult::Suspended));
    assert_eq!(state.registers, vec![3]);
    assert_eq!(state.pc, 3);
    let mut state = ScriptState::new(&script);
    let result = state.run(
        &script,
        |state, _: &MachineInstrution| (state, CallbackResult::Suspend),
        3,
    );
    assert!(matches!(result, RunResult::TimedOut));
    assert_eq!(state.registers, vec![2]);
}

#[test]
fn running_in_parts_is_running_on() {
    let text = "add a a 3\nmul b a 7";
    let script = parse(text);
    let mut whole = ScriptState::new(&script);
    let mut parts = ScriptState::new(&script);
    whole.run(&script, |s, _: &MachineInstrution| (s, CallbackResult::Continue), 5);
    parts.run(&script, |s, _: &MachineInstrution| (s, CallbackResult::Continue), 2);
    parts.run(&script, |s, _: &MachineInstrution| (s, CallbackResult::Continue), 3);
    assert_eq!(whole.registers, parts.registers);
    assert_eq!(whole.pc, parts.pc);
}

#[test]
fn waiting_scripts_stay_where_they_are() {
    let script = parse("move a 1\nblock");
    let mut state = ScriptState::new(&script);
    let result = state.run(
        &script,
        |state, _: &MachineInstrution| (state, CallbackResult::Wait),
        10,
    );
    assert!(matches!(result, RunResult::Suspended));
    assert_eq!(state.pc, 1);
    let empty = parse("# nothing");
    let mut state = ScriptState::new(&empty);
    let result = state.run(
        &empty,
        |state, _: &MachineInstrution| (state, CallbackResult::Continue),
        10,
    );
    assert!(matches!(result, RunResult::Suspended));
}

#[test]
fn contexts_remember_registers() {
    let mut context = ScriptParseContext::default();
    assert_eq!(context.parse_register("a"), 0);
    assert_eq!(context.parse_register("b"), 1);
    assert_eq!(context.parse_register("a"), 0);
    assert_eq!(context.parse_value("65535"), RegisterOrImmediate::Immediate(65535));
    assert_eq!(context.parse_value("65536"), RegisterOrImmediate::Register(2));
    assert_eq!(context.parse_value("+7"), RegisterOrImmediate::Immediate(7));
    assert!(context.parse_label("x").is_err());
}

#[test]
fn machine_instructions_are_read() {
    let script = parse("write_signal front x\nplay_animation spin\nend:\ncraft tools 0 1 2.5 end");
    assert!(matches!(
        script.instructions[0],
        ScriptByteCode::External(MachineInstrution::WriteSignal {
            face: Face::Front,
            value: RegisterOrImmediate::Register(0)
        })
    ));
    match &script.instructions[1] {
        ScriptByteCode::External(MachineInstrution::PlayAnimation { animation }) => {
            assert_eq!(animation, "spin");
        }
        _ => panic!("no animation"),
    }
    match &script.instructions[2] {
        ScriptByteCode::External(MachineInstrution::Craft {
            recipes,
            input_view,
            output_view,
            speed,
            success,
        }) => {
            assert!(matches!(recipes, KeyGroup::Single(key) if key.numeric_id() == 1));
            assert_eq!((*input_view, *output_view, *success), (0, 1, 2));
            assert_eq!(speed, "2.5");
        }
        _ => panic!("nothing is crafted"),
    }
    let error = CompiledScript::<MachineInstrution>::parse(&recipes(), "write_logic aside x").err().unwrap();
    match error {
        ScriptParseError::ExternalError { line, error } => {
            assert_eq!(line, 0);
            assert_eq!(error, "expected face, got aside");
        }
        _ => panic!("the face was read"),
    }
}

#[test]
fn machines_know_their_recipes() {
    let script = parse("end:\ncraft axe 0 1 1 end");
    assert!(matches!(
        script.instructions[0],
        ScriptByteCode::External(MachineInstrution::Craft { recipes: KeyGroup::Single(key), .. })
            if key.numeric_id() == 0
    ));
    // The mark of a group begins a comment.
    let error = CompiledScript::<MachineInstrution>::parse(&recipes(), "craft #sharp 0 1 1 end");
    assert!(matches!(
        error,
        Err(ScriptParseError::IllegalArguments { line: 0, expected_count: 5, actual_count: 0 })
    ));
    let can_read = |text: &str| CompiledScript::<MachineInstrution>::can_read(&recipes(), text);
    assert!(!can_read("end:\ncraft spoons 0 1 1 end"));
    assert!(!can_read("end:\ncraft tools 0 one 1 end"));
    assert!(!can_read("craft tools 0 1 1 end"));
    assert!(!can_read("transfer_pull 0 1 2 3 up"));
    assert!(can_read("transfer_pull 0 1 2 3 aside"));
    assert!(!can_read("sleep soon 1"));
    assert!(can_read("sleep 0.5 1"));
    assert!(!can_read("read_logic up a here"));
    assert!(can_read("read_logic aside a here"));
    assert!(!can_read("move_item 0 1 nowhere"));
    // A line behind an error is not read.
    assert!(can_read("fly\ncraft spoons 0 1 1 end"));
    assert!(can_read("a:\na:\ncraft spoons 0 1 1 end"));
}

#[test]
fn machines_without_a_script_block() {
    let script = machine_default_script();
    assert_eq!(script.instructions.len(), 1);
    assert!(matches!(
        script.instructions[0],
        ScriptByteCode::External(MachineInstrution::Block)
    ));
}
