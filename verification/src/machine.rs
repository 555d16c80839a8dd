//! The instructions that machines add to scripts.

use crate::coord::BlockPos;
use crate::face::Face;
use crate::registry::{KeyGroup, LoadRegistry, RecipeData};
use crate::scripts::{
    argument_count, expect_argument_count, grows, host_grows, law_met_grows, result_view,
    CompiledScript, ExternalScriptByteCode,
    ParseState, RegisterId, RegisterOrImmediate, ScriptByteCode, ScriptErrorView, ScriptLabel,
    ScriptParseContext, ScriptParseError,
};
use crate::text::{self, is_real_text, parse_signed_spec, parse_unsigned_spec, views};
use vstd::hash_map::StringHashMap;
use vstd::prelude::*;

verus! {

/// An instruction of a machine. Times and speeds stand as they are written.
pub enum MachineInstrution {
    Yield,
    Sleep { time: String },
    Block,
    TranferItem {
        self_view: usize,
        other: BlockPos,
        other_face: Face,
        pull: bool,
        success: ScriptLabel,
    },
    AddWakeupObserver { other: BlockPos },
    ReadSignal { face: Face, register: RegisterId, success: ScriptLabel },
    ReadLogic { face: Face, register: RegisterId, success: ScriptLabel },
    WriteSignal { face: Face, value: RegisterOrImmediate },
    WriteLogic { face: Face, value: RegisterOrImmediate },
    GetSlotItemCount { slot: RegisterOrImmediate, register: RegisterId },
    MoveItem { from_view: usize, to_view: usize, success: ScriptLabel },
    /// Crafts one of a group of recipes.
    Craft {
        recipes: KeyGroup<RecipeData>,
        input_view: usize,
        output_view: usize,
        speed: String,
        success: ScriptLabel,
    },
    PlayAnimation { animation: String },
}

/// What a `MachineInstrution` says.
pub enum MachineInstructionView {
    Yield,
    Sleep { time: Seq<char> },
    Block,
    TranferItem {
        self_view: usize,
        other: BlockPos,
        other_face: Face,
        pull: bool,
        success: ScriptLabel,
    },
    AddWakeupObserver { other: BlockPos },
    ReadSignal { face: Face, register: RegisterId, success: ScriptLabel },
    ReadLogic { face: Face, register: RegisterId, success: ScriptLabel },
    WriteSignal { face: Face, value: RegisterOrImmediate },
    WriteLogic { face: Face, value: RegisterOrImmediate },
    GetSlotItemCount { slot: RegisterOrImmediate, register: RegisterId },
    MoveItem { from_view: usize, to_view: usize, success: ScriptLabel },
    Craft {
        recipes: KeyGroup<RecipeData>,
        input_view: usize,
        output_view: usize,
        speed: Seq<char>,
        success: ScriptLabel,
    },
    PlayAnimation { animation: Seq<char> },
}

impl View for MachineInstrution {
    type V = MachineInstructionView;

    open spec fn view(&self) -> MachineInstructionView {
        match self {
            MachineInstrution::Yield => MachineInstructionView::Yield,
            MachineInstrution::Sleep { time } => MachineInstructionView::Sleep { time: time@ },
            MachineInstrution::Block => MachineInstructionView::Block,
            MachineInstrution::TranferItem { self_view, other, other_face, pull, success } => {
                MachineInstructionView::TranferItem {
                    self_view: *self_view,
                    other: *other,
                    other_face: *other_face,
                    pull: *pull,
                    success: *success,
                }
            },
            MachineInstrution::AddWakeupObserver { other } => {
                MachineInstructionView::AddWakeupObserver { other: *other }
            },
            MachineInstrution::ReadSignal { face, register, success } => {
                MachineInstructionView::ReadSignal {
                    face: *face,
                    register: *register,
                    success: *success,
                }
            },
            MachineInstrution::ReadLogic { face, register, success } => {
                MachineInstructionView::ReadLogic {
                    face: *face,
                    register: *register,
                    success: *success,
                }
            },
            MachineInstrution::WriteSignal { face, value } => MachineInstructionView::WriteSignal {
                face: *face,
                value: *value,
            },
            MachineInstrution::WriteLogic { face, value } => MachineInstructionView::WriteLogic {
                face: *face,
                value: *value,
            },
            MachineInstrution::GetSlotItemCount { slot, register } => {
                MachineInstructionView::GetSlotItemCount { slot: *slot, register: *register }
            },
            MachineInstrution::MoveItem { from_view, to_view, success } => {
                MachineInstructionView::MoveItem {
                    from_view: *from_view,
                    to_view: *to_view,
                    success: *success,
                }
            },
            MachineInstrution::Craft { recipes, input_view, output_view, speed, success } => {
                MachineInstructionView::Craft {
                    recipes: *recipes,
                    input_view: *input_view,
                    output_view: *output_view,
                    speed: speed@,
                    success: *success,
                }
            },
            MachineInstrution::PlayAnimation { animation } => {
                MachineInstructionView::PlayAnimation { animation: animation@ }
            },
        }
    }
}

/// The face that a word names.
pub open spec fn face_of(input: Seq<char>) -> Option<Face> {
    if input == "front"@ {
        Some(Face::Front)
    } else if input == "back"@ {
        Some(Face::Back)
    } else if input == "left"@ {
        Some(Face::Left)
    } else if input == "right"@ {
        Some(Face::Right)
    } else if input == "up"@ {
        Some(Face::Up)
    } else if input == "down"@ {
        Some(Face::Down)
    } else {
        None
    }
}

/// The face that a word names, or the error that it names none.
pub open spec fn face_result(input: Seq<char>, line: usize) -> Result<Face, ScriptErrorView> {
    match face_of(input) {
        Some(face) => Ok(face),
        None => Err(
            ScriptErrorView::ExternalError { line, error: "expected face, got "@ + input },
        ),
    }
}

fn parse_face(input: &str, line: usize) -> (r: Result<Face, ScriptParseError<'static>>)
    ensures
        result_view(r) == face_result(input@, line),
{
    if text::equals(input, "front") {
        Ok(Face::Front)
    } else if text::equals(input, "back") {
        Ok(Face::Back)
    } else if text::equals(input, "left") {
        Ok(Face::Left)
    } else if text::equals(input, "right") {
        Ok(Face::Right)
    } else if text::equals(input, "up") {
        Ok(Face::Up)
    } else if text::equals(input, "down") {
        Ok(Face::Down)
    } else {
        Err(
            ScriptParseError::ExternalError {
                line,
                error: text::joined("expected face, got ", input),
            },
        )
    }
}

/// Whether a word writes down a number of machine size.
pub open spec fn is_index(s: Seq<char>) -> bool {
    parse_unsigned_spec(s, usize::MAX as int) is Some
}

/// The number of machine size that a word writes down.
pub open spec fn index_of(s: Seq<char>) -> usize {
    parse_unsigned_spec(s, usize::MAX as int)->0 as usize
}

fn parse_index(s: &str) -> (r: usize)
    requires
        is_index(s@),
    ensures
        r == index_of(s@),
{
    text::parse_usize(s).unwrap()
}

/// Whether a word writes down a coordinate.
pub open spec fn is_coordinate(s: Seq<char>) -> bool {
    parse_signed_spec(s, i32::MIN as int, i32::MAX as int) is Some
}

impl ExternalScriptByteCode for MachineInstrution {
    type Host = LoadRegistry<RecipeData>;

    open spec fn host_wf(recipes: LoadRegistry<RecipeData>) -> bool {
        recipes.wf()
    }

    /// The words that follow an instruction are numbers and labels where it needs them. The
    /// instructions that transfer items take five words but need six, so none can be read to its
    /// end: only those with a wrong word for the face are answered. A group of recipes is known.
    open spec fn can_parse(
        recipes: LoadRegistry<RecipeData>,
        opcode: Seq<char>,
        args: Seq<Seq<char>>,
        labels: Map<Seq<char>, usize>,
    ) -> bool {
        if opcode == "yield"@ {
            true
        } else if opcode == "sleep"@ {
            args.len() == 2 ==> is_real_text(args[0])
        } else if opcode == "block"@ {
            true
        } else if opcode == "read_logic"@ || opcode == "read_signal"@ {
            args.len() == 3 && face_of(args[0]) is Some ==> is_index(args[1])
        } else if opcode == "transfer_pull"@ || opcode == "transfer_push"@ {
            args.len() == 5 ==> is_index(args[0]) && is_coordinate(args[1]) && is_coordinate(
                args[2],
            ) && is_coordinate(args[3]) && face_of(args[4]) is None
        } else if opcode == "move_item"@ {
            args.len() == 3 ==> is_index(args[0]) && is_index(args[1]) && labels.contains_key(
                args[2],
            )
        } else if opcode == "craft"@ {
            args.len() == 5 ==> KeyGroup::named(recipes, args[0]) is Some && is_index(args[1])
                && is_index(args[2]) && is_real_text(args[3]) && labels.contains_key(args[4])
        } else {
            true
        }
    }

    open spec fn parsed(
        recipes: LoadRegistry<RecipeData>,
        opcode: Seq<char>,
        args: Seq<Seq<char>>,
        s: ParseState,
    ) -> (Result<MachineInstructionView, ScriptErrorView>, ParseState) {
        if opcode == "yield"@ {
            (Ok(MachineInstructionView::Yield), s)
        } else if opcode == "sleep"@ {
            match argument_count(s.line, args.len(), 2) {
                Err(e) => (Err(e), s),
                Ok(_) => (Ok(MachineInstructionView::Sleep { time: args[0] }), s),
            }
        } else if opcode == "block"@ {
            (Ok(MachineInstructionView::Block), s)
        } else if opcode == "read_logic"@ || opcode == "read_signal"@ {
            match argument_count(s.line, args.len(), 3) {
                Err(e) => (Err(e), s),
                Ok(_) => match face_result(args[0], s.line) {
                    Err(e) => (Err(e), s),
                    Ok(face) => match s.label(args[2]) {
                        Err(e) => (Err(e), s),
                        Ok(success) => {
                            let register = index_of(args[1]);
                            if opcode == "read_logic"@ {
                                (
                                    Ok(
                                        MachineInstructionView::ReadLogic {
                                            face,
                                            register,
                                            success,
                                        },
                                    ),
                                    s,
                                )
                            } else {
                                (
                                    Ok(
                                        MachineInstructionView::ReadSignal {
                                            face,
                                            register,
                                            success,
                                        },
                                    ),
                                    s,
                                )
                            }
                        },
                    },
                },
            }
        } else if opcode == "write_logic"@ || opcode == "write_signal"@ {
            match argument_count(s.line, args.len(), 2) {
                Err(e) => (Err(e), s),
                Ok(_) => match face_result(args[0], s.line) {
                    Err(e) => (Err(e), s),
                    Ok(face) => {
                        let value = s.value(args[1]);
                        if opcode == "write_logic"@ {
                            (
                                Ok(MachineInstructionView::WriteLogic { face, value }),
                                s.met_value(args[1]),
                            )
                        } else {
                            (
                                Ok(MachineInstructionView::WriteSignal { face, value }),
                                s.met_value(args[1]),
                            )
                        }
                    },
                },
            }
        } else if opcode == "transfer_pull"@ || opcode == "transfer_push"@ {
            match argument_count(s.line, args.len(), 5) {
                Err(e) => (Err(e), s),
                Ok(_) => match face_result(args[4], s.line) {
                    Err(e) => (Err(e), s),
                    // Such a line cannot be parsed.
                    Ok(_) => (arbitrary(), s),
                },
            }
        } else if opcode == "get_slot_item_count"@ {
            match argument_count(s.line, args.len(), 2) {
                Err(e) => (Err(e), s),
                Ok(_) => {
                    let s1 = s.met_value(args[1]);
                    (
                        Ok(
                            MachineInstructionView::GetSlotItemCount {
                                slot: s.value(args[1]),
                                register: s1.register(args[0]),
                            },
                        ),
                        s1.met(args[0]),
                    )
                },
            }
        } else if opcode == "move_item"@ {
            match argument_count(s.line, args.len(), 3) {
                Err(e) => (Err(e), s),
                Ok(_) => (
                    Ok(
                        MachineInstructionView::MoveItem {
                            from_view: index_of(args[0]),
                            to_view: index_of(args[1]),
                            success: s.labels[args[2]],
                        },
                    ),
                    s,
                ),
            }
        } else if opcode == "craft"@ {
            match argument_count(s.line, args.len(), 5) {
                Err(e) => (Err(e), s),
                Ok(_) => (
                    Ok(
                        MachineInstructionView::Craft {
                            recipes: KeyGroup::named(recipes, args[0])->0,
                            input_view: index_of(args[1]),
                            output_view: index_of(args[2]),
                            speed: args[3],
                            success: s.labels[args[4]],
                        },
                    ),
                    s,
                ),
            }
        } else if opcode == "play_animation"@ {
            match argument_count(s.line, args.len(), 1) {
                Err(e) => (Err(e), s),
                Ok(_) => (Ok(MachineInstructionView::PlayAnimation { animation: args[0] }), s),
            }
        } else {
            (Err(ScriptErrorView::UnknownOpCode { line: s.line, opcode }), s)
        }
    }

    fn is_readable(
        recipes: &LoadRegistry<RecipeData>,
        opcode: &str,
        arguments: &[&str],
        labels: &StringHashMap<ScriptLabel>,
    ) -> (r: bool) {
        let ghost args = views(arguments@);
        assert(arguments@.len() == args.len());
        assert(forall|i: int| 0 <= i < args.len() ==> (#[trigger] arguments@[i])@ == args[i]);
        let count: usize = arguments.len();
        if text::equals(opcode, "yield") {
            true
        } else if text::equals(opcode, "sleep") {
            count != 2 || text::is_real(arguments[0])
        } else if text::equals(opcode, "block") {
            true
        } else if text::equals(opcode, "read_logic") || text::equals(opcode, "read_signal") {
            count != 3 || parse_face(arguments[0], 0).is_err() || text::parse_usize(
                arguments[1],
            ).is_some()
        } else if text::equals(opcode, "transfer_pull") || text::equals(opcode, "transfer_push") {
            count != 5 || (text::parse_usize(arguments[0]).is_some() && text::parse_i32(
                arguments[1],
            ).is_some() && text::parse_i32(arguments[2]).is_some() && text::parse_i32(
                arguments[3],
            ).is_some() && parse_face(arguments[4], 0).is_err())
        } else if text::equals(opcode, "move_item") {
            count != 3 || (text::parse_usize(arguments[0]).is_some() && text::parse_usize(
                arguments[1],
            ).is_some() && labels.contains_key(arguments[2]))
        } else if text::equals(opcode, "craft") {
            count != 5 || (KeyGroup::parse(recipes, arguments[0]).is_some() && text::parse_usize(
                arguments[1],
            ).is_some() && text::parse_usize(arguments[2]).is_some() && text::is_real(arguments[3])
                && labels.contains_key(arguments[4]))
        } else {
            true
        }
    }

    fn parse<'a>(
        recipes: &LoadRegistry<RecipeData>,
        opcode: &'a str,
        arguments: &[&'a str],
        parse_context: &mut ScriptParseContext,
    ) -> (r: Result<MachineInstrution, ScriptParseError<'a>>) {
        let line: usize = parse_context.current_line_num;
        let ghost args = views(arguments@);
        let ghost start = parse_context@;
        assert(arguments@.len() == args.len());
        assert(forall|i: int| 0 <= i < args.len() ==> (#[trigger] arguments@[i])@ == args[i]);
        if text::equals(opcode, "yield") {
            Ok(MachineInstrution::Yield)
        } else if text::equals(opcode, "sleep") {
            if let Err(e) = expect_argument_count(line, arguments, 2) {
                return Err(e);
            }
            Ok(MachineInstrution::Sleep { time: arguments[0].to_owned() })
        } else if text::equals(opcode, "block") {
            Ok(MachineInstrution::Block)
        } else if text::equals(opcode, "read_logic") || text::equals(opcode, "read_signal") {
            if let Err(e) = expect_argument_count(line, arguments, 3) {
                return Err(e);
            }
            let face = match parse_face(arguments[0], line) {
                Ok(face) => face,
                Err(e) => {
                    return Err(e);
                },
            };
            let register: usize = parse_index(arguments[1]);
            let success: usize = match parse_context.parse_label(arguments[2]) {
                Ok(label) => label,
                Err(e) => {
                    return Err(e);
                },
            };
            if text::equals(opcode, "read_logic") {
                Ok(MachineInstrution::ReadLogic { face, register, success })
            } else {
                Ok(MachineInstrution::ReadSignal { face, register, success })
            }
        } else if text::equals(opcode, "write_logic") || text::equals(opcode, "write_signal") {
            if let Err(e) = expect_argument_count(line, arguments, 2) {
                return Err(e);
            }
            let face = match parse_face(arguments[0], line) {
                Ok(face) => face,
                Err(e) => {
                    return Err(e);
                },
            };
            let value = parse_context.parse_value(arguments[1]);
            if text::equals(opcode, "write_logic") {
                Ok(MachineInstrution::WriteLogic { face, value })
            } else {
                Ok(MachineInstrution::WriteSignal { face, value })
            }
        } else if text::equals(opcode, "transfer_pull") || text::equals(opcode, "transfer_push") {
            if let Err(e) = expect_argument_count(line, arguments, 5) {
                return Err(e);
            }
            match parse_face(arguments[4], line) {
                Ok(_) => {
                    assert(false);
                    Ok(MachineInstrution::Yield)
                },
                Err(e) => Err(e),
            }
        } else if text::equals(opcode, "get_slot_item_count") {
            if let Err(e) = expect_argument_count(line, arguments, 2) {
                return Err(e);
            }
            let slot = parse_context.parse_value(arguments[1]);
            let register: usize = parse_context.parse_register(arguments[0]);
            Ok(MachineInstrution::GetSlotItemCount { slot, register })
        } else if text::equals(opcode, "move_item") {
            if let Err(e) = expect_argument_count(line, arguments, 3) {
                return Err(e);
            }
            let from_view: usize = parse_index(arguments[0]);
            let to_view: usize = parse_index(arguments[1]);
            match parse_context.parse_label(arguments[2]) {
                Ok(success) => Ok(MachineInstrution::MoveItem { from_view, to_view, success }),
                Err(e) => Err(e),
            }
        } else if text::equals(opcode, "craft") {
            if let Err(e) = expect_argument_count(line, arguments, 5) {
                return Err(e);
            }
            let recipes = KeyGroup::parse(recipes, arguments[0]).unwrap();
            let input_view: usize = parse_index(arguments[1]);
            let output_view: usize = parse_index(arguments[2]);
            match parse_context.parse_label(arguments[4]) {
                Ok(success) => Ok(
                    MachineInstrution::Craft {
                        recipes,
                        input_view,
                        output_view,
                        speed: arguments[3].to_owned(),
                        success,
                    },
                ),
                Err(e) => Err(e),
            }
        } else if text::equals(opcode, "play_animation") {
            if let Err(e) = expect_argument_count(line, arguments, 1) {
                return Err(e);
            }
            Ok(MachineInstrution::PlayAnimation { animation: arguments[0].to_owned() })
        } else {
            Err(ScriptParseError::UnknownOpCode { line, opcode })
        }
    }
}

/// The script of a machine that has none: it blocks.
pub fn machine_default_script() -> (r: CompiledScript<MachineInstrution>)
    ensures
        r.instructions@ == seq![ScriptByteCode::External(MachineInstrution::Block)],
        r.named_registers@ == Seq::<String>::empty(),
{
    let mut instructions: Vec<ScriptByteCode<MachineInstrution>> = Vec::new();
    instructions.push(ScriptByteCode::External(MachineInstrution::Block));
    assert(instructions@ =~= seq![ScriptByteCode::External(MachineInstrution::Block)]);
    CompiledScript { instructions, named_registers: Vec::new() }
}

/// The instructions of machines only add registers to a script.
pub proof fn law_machine_grows(recipes: LoadRegistry<RecipeData>)
    ensures
        host_grows::<MachineInstrution>(recipes),
{
    assert forall|opcode: Seq<char>, args: Seq<Seq<char>>, s: ParseState| grows(
        s,
        #[trigger] MachineInstrution::parsed(recipes, opcode, args, s).1,
    ) by {
        law_met_grows(s, args[1]);
        law_met_grows(s.met_value(args[1]), args[0]);
    }
}

/// The length of a name and the letters at its ends.
spec fn ends_of(name: Seq<char>) -> (nat, char, char) {
    (name.len(), name[0], name.last())
}

proof fn lemma_instruction_names()
    ensures
        ends_of("yield"@) == (5nat, 'y', 'd'),
        ends_of("sleep"@) == (5nat, 's', 'p'),
        ends_of("block"@) == (5nat, 'b', 'k'),
        ends_of("read_logic"@) == (10nat, 'r', 'c'),
        ends_of("read_signal"@) == (11nat, 'r', 'l'),
        ends_of("write_logic"@) == (11nat, 'w', 'c'),
        ends_of("write_signal"@) == (12nat, 'w', 'l'),
        ends_of("transfer_pull"@) == (13nat, 't', 'l'),
        ends_of("transfer_push"@) == (13nat, 't', 'h'),
        ends_of("get_slot_item_count"@) == (19nat, 'g', 't'),
        ends_of("move_item"@) == (9nat, 'm', 'm'),
        ends_of("craft"@) == (5nat, 'c', 't'),
        ends_of("play_animation"@) == (14nat, 'p', 'n'),
{
    reveal_strlit("yield");
    reveal_strlit("sleep");
    reveal_strlit("block");
    reveal_strlit("read_logic");
    reveal_strlit("read_signal");
    reveal_strlit("write_logic");
    reveal_strlit("write_signal");
    reveal_strlit("transfer_pull");
    reveal_strlit("transfer_push");
    reveal_strlit("get_slot_item_count");
    reveal_strlit("move_item");
    reveal_strlit("craft");
    reveal_strlit("play_animation");
}

/// Every face has its own name, and another word names none.
pub proof fn law_face_names(input: Seq<char>)
    ensures
        face_of("front"@) == Some(Face::Front),
        face_of("back"@) == Some(Face::Back),
        face_of("left"@) == Some(Face::Left),
        face_of("right"@) == Some(Face::Right),
        face_of("up"@) == Some(Face::Up),
        face_of("down"@) == Some(Face::Down),
        face_of(input) is Some <==> seq![
            "front"@,
            "back"@,
            "left"@,
            "right"@,
            "up"@,
            "down"@,
        ].contains(input),
{
    reveal_strlit("front");
    reveal_strlit("back");
    reveal_strlit("left");
    reveal_strlit("right");
    reveal_strlit("up");
    reveal_strlit("down");
    assert("front"@[0] == 'f' && "back"@[0] == 'b' && "left"@[0] == 'l' && "right"@[0] == 'r'
        && "up"@[0] == 'u' && "down"@[0] == 'd');
    let all = seq!["front"@, "back"@, "left"@, "right"@, "up"@, "down"@];
    assert(all[0] == "front"@ && all[1] == "back"@ && all[2] == "left"@ && all[3] == "right"@
        && all[4] == "up"@ && all[5] == "down"@);
}

/// Reading from a face names the face, the register and the label to go on at, in this order.
pub proof fn law_reading(
    recipes: LoadRegistry<RecipeData>,
    args: Seq<Seq<char>>,
    s: ParseState,
    face: Face,
    register: RegisterId,
)
    requires
        args.len() == 3,
        face_of(args[0]) == Some(face),
        parse_unsigned_spec(args[1], usize::MAX as int) == Some(register as int),
        s.labels.contains_key(args[2]),
    ensures
        MachineInstrution::parsed(recipes, "read_logic"@, args, s).0 == Ok::<_, ScriptErrorView>(
            MachineInstructionView::ReadLogic { face, register, success: s.labels[args[2]] },
        ),
        MachineInstrution::parsed(recipes, "read_signal"@, args, s).0 == Ok::<_, ScriptErrorView>(
            MachineInstructionView::ReadSignal { face, register, success: s.labels[args[2]] },
        ),
{
    lemma_instruction_names();
}

/// Writing to a face names the face and the value, in this order.
pub proof fn law_writing(
    recipes: LoadRegistry<RecipeData>,
    args: Seq<Seq<char>>,
    s: ParseState,
    face: Face,
)
    requires
        args.len() == 2,
        face_of(args[0]) == Some(face),
    ensures
        MachineInstrution::parsed(recipes, "write_logic"@, args, s).0 == Ok::<_, ScriptErrorView>(
            MachineInstructionView::WriteLogic { face, value: s.value(args[1]) },
        ),
        MachineInstrution::parsed(recipes, "write_signal"@, args, s).0 == Ok::<_, ScriptErrorView>(
            MachineInstructionView::WriteSignal { face, value: s.value(args[1]) },
        ),
{
    lemma_instruction_names();
}

/// Waiting takes a time, which stands before another word; the instructions to yield and to block
/// take no notice of words.
pub proof fn law_waiting(recipes: LoadRegistry<RecipeData>, args: Seq<Seq<char>>, s: ParseState)
    ensures
        MachineInstrution::parsed(recipes, "yield"@, args, s) == (
            Ok::<_, ScriptErrorView>(MachineInstructionView::Yield),
            s,
        ),
        MachineInstrution::parsed(recipes, "block"@, args, s) == (
            Ok::<_, ScriptErrorView>(MachineInstructionView::Block),
            s,
        ),
        args.len() == 2 ==> MachineInstrution::parsed(recipes, "sleep"@, args, s) == (
            Ok::<_, ScriptErrorView>(MachineInstructionView::Sleep { time: args[0] }),
            s,
        ),
        args.len() == 1 ==> MachineInstrution::parsed(recipes, "play_animation"@, args, s) == (
            Ok::<_, ScriptErrorView>(MachineInstructionView::PlayAnimation { animation: args[0] }),
            s,
        ),
{
    lemma_instruction_names();
}

/// Counting items names the register and then the slot; moving items names the views that they come
/// from and go to; crafting names the recipes, the views of what goes in and of what comes out, and
/// the speed. The label stands last.
pub proof fn law_items_of_machines(
    recipes: LoadRegistry<RecipeData>,
    args: Seq<Seq<char>>,
    s: ParseState,
    first: usize,
    second: usize,
)
    ensures
        args.len() == 2 && s.registers.contains(args[0]) && s.registers.contains(args[1])
            ==> MachineInstrution::parsed(recipes, "get_slot_item_count"@, args, s).0 == Ok::<
            _,
            ScriptErrorView,
        >(
            MachineInstructionView::GetSlotItemCount {
                slot: s.value(args[1]),
                register: s.register(args[0]),
            },
        ),
        args.len() == 3 && parse_unsigned_spec(args[0], usize::MAX as int) == Some(first as int)
            && parse_unsigned_spec(args[1], usize::MAX as int) == Some(second as int)
            ==> MachineInstrution::parsed(recipes, "move_item"@, args, s).0 == Ok::<
            _,
            ScriptErrorView,
        >(
            MachineInstructionView::MoveItem {
                from_view: first,
                to_view: second,
                success: s.labels[args[2]],
            },
        ),
        args.len() == 5 && parse_unsigned_spec(args[1], usize::MAX as int) == Some(first as int)
            && parse_unsigned_spec(args[2], usize::MAX as int) == Some(second as int)
            ==> MachineInstrution::parsed(recipes, "craft"@, args, s).0 == Ok::<_, ScriptErrorView>(
            MachineInstructionView::Craft {
                recipes: KeyGroup::named(recipes, args[0])->0,
                input_view: first,
                output_view: second,
                speed: args[3],
                success: s.labels[args[4]],
            },
        ),
{
    lemma_instruction_names();
}

/// How many words an instruction takes.
pub open spec fn word_count(opcode: Seq<char>) -> Option<int> {
    if opcode == "play_animation"@ {
        Some(1)
    } else if opcode == "sleep"@ || opcode == "write_logic"@ || opcode == "write_signal"@ || opcode
        == "get_slot_item_count"@ {
        Some(2)
    } else if opcode == "read_logic"@ || opcode == "read_signal"@ || opcode == "move_item"@ {
        Some(3)
    } else if opcode == "craft"@ || opcode == "transfer_pull"@ || opcode == "transfer_push"@ {
        Some(5)
    } else {
        None
    }
}

/// An instruction with too few or too many words is refused, and so is one that is not known.
pub proof fn law_words_are_counted(
    recipes: LoadRegistry<RecipeData>,
    opcode: Seq<char>,
    args: Seq<Seq<char>>,
    s: ParseState,
)
    ensures
        word_count(opcode) matches Some(n) ==> args.len() != n ==> MachineInstrution::parsed(
            recipes,
            opcode,
            args,
            s,
        ) == (
            Err::<MachineInstructionView, _>(
                ScriptErrorView::IllegalArguments {
                    line: s.line,
                    expected_count: n as usize,
                    actual_count: args.len() as usize,
                },
            ),
            s,
        ),
        word_count(opcode) is None && opcode != "yield"@ && opcode != "block"@
            ==> MachineInstrution::parsed(recipes, opcode, args, s) == (
            Err::<MachineInstructionView, _>(ScriptErrorView::UnknownOpCode { line: s.line, opcode }),
            s,
        ),
{
    lemma_instruction_names();
}

} // verus!
