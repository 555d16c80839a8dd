//! Register scripts: their text form and the machine that runs them.

use crate::text::{
    self, before_spec, lines_spec, parse_unsigned_spec, trim_spec, views, words_spec,
};
use num_integer::Integer;
use vstd::hash_map::StringHashMap;
use vstd::prelude::*;

verus! {

pub type RegisterId = usize;

pub type ScriptLabel = usize;

pub type ScriptValue = u16;

#[derive(Copy, Clone, PartialEq, Eq, Structural, Debug)]
pub enum JumpCondition {
    Less,
    LessEqual,
    Greater,
    GreaterEqual,
    Equal,
    NotEqual,
}

#[derive(Copy, Clone, PartialEq, Eq, Structural, Debug)]
pub enum RegisterOrImmediate {
    Register(RegisterId),
    Immediate(ScriptValue),
}

#[derive(Copy, Clone, PartialEq, Eq, Structural, Debug)]
pub enum Operation {
    Add,
    Sub,
    Mul,
    Div,
    Mod,
    Or,
    Xor,
    And,
    Not,
    Bsl,
    Bsr,
}

/// One instruction. `E` are the instructions that the script's host adds.
#[derive(Debug)]
pub enum ScriptByteCode<E> {
    Move { from: RegisterOrImmediate, to: RegisterId },
    Jump { label: ScriptLabel },
    JumpConditional {
        label: ScriptLabel,
        a: RegisterId,
        b: RegisterOrImmediate,
        condition: JumpCondition,
    },
    Operation {
        a: RegisterId,
        b: RegisterOrImmediate,
        target: RegisterId,
        operation: Operation,
    },
    External(E),
}

impl<E: View> View for ScriptByteCode<E> {
    type V = ScriptByteCode<E::V>;

    open spec fn view(&self) -> ScriptByteCode<E::V> {
        match self {
            ScriptByteCode::Move { from, to } => ScriptByteCode::Move { from: *from, to: *to },
            ScriptByteCode::Jump { label } => ScriptByteCode::Jump { label: *label },
            ScriptByteCode::JumpConditional { label, a, b, condition } => {
                ScriptByteCode::JumpConditional {
                    label: *label,
                    a: *a,
                    b: *b,
                    condition: *condition,
                }
            },
            ScriptByteCode::Operation { a, b, target, operation } => ScriptByteCode::Operation {
                a: *a,
                b: *b,
                target: *target,
                operation: *operation,
            },
            ScriptByteCode::External(action) => ScriptByteCode::External(action@),
        }
    }
}

#[derive(Debug)]
pub struct CompiledScript<E> {
    pub instructions: Vec<ScriptByteCode<E>>,
    pub named_registers: Vec<String>,
}

/// The views of a list of names.
pub open spec fn names(v: Seq<String>) -> Seq<Seq<char>> {
    v.map_values(|s: String| s@)
}

/// The views of a list of instructions.
pub open spec fn codes<E: View>(v: Seq<ScriptByteCode<E>>) -> Seq<ScriptByteCode<E::V>> {
    v.map_values(|code: ScriptByteCode<E>| code@)
}

/// Why a text is no script. Lines are counted from zero.
#[derive(Debug)]
pub enum ScriptParseError<'a> {
    UnknownOpCode { line: usize, opcode: &'a str },
    UnknownLabel { line: usize, label: &'a str },
    IllegalArguments { line: usize, expected_count: usize, actual_count: usize },
    ExternalError { line: usize, error: String },
    DuplicateLabel { line: usize },
}

/// What a `ScriptParseError` says.
pub enum ScriptErrorView {
    UnknownOpCode { line: usize, opcode: Seq<char> },
    UnknownLabel { line: usize, label: Seq<char> },
    IllegalArguments { line: usize, expected_count: usize, actual_count: usize },
    ExternalError { line: usize, error: Seq<char> },
    DuplicateLabel { line: usize },
}

impl<'a> View for ScriptParseError<'a> {
    type V = ScriptErrorView;

    open spec fn view(&self) -> ScriptErrorView {
        match self {
            ScriptParseError::UnknownOpCode { line, opcode } => ScriptErrorView::UnknownOpCode {
                line: *line,
                opcode: opcode@,
            },
            ScriptParseError::UnknownLabel { line, label } => ScriptErrorView::UnknownLabel {
                line: *line,
                label: label@,
            },
            ScriptParseError::IllegalArguments { line, expected_count, actual_count } => {
                ScriptErrorView::IllegalArguments {
                    line: *line,
                    expected_count: *expected_count,
                    actual_count: *actual_count,
                }
            },
            ScriptParseError::ExternalError { line, error } => ScriptErrorView::ExternalError {
                line: *line,
                error: error@,
            },
            ScriptParseError::DuplicateLabel { line } => ScriptErrorView::DuplicateLabel {
                line: *line,
            },
        }
    }
}

/// What an instruction's text is read against: the names of the registers met so far, the labels,
/// and the line.
pub struct ParseState {
    pub registers: Seq<Seq<char>>,
    pub labels: Map<Seq<char>, usize>,
    pub line: usize,
}

impl ParseState {
    /// The number of the register `name`: a new one, where it was not met before.
    pub open spec fn register(self, name: Seq<char>) -> usize {
        if self.registers.contains(name) {
            self.registers.index_of(name) as usize
        } else {
            self.registers.len() as usize
        }
    }

    /// The state after the register `name` was met.
    pub open spec fn met(self, name: Seq<char>) -> ParseState {
        if self.registers.contains(name) {
            self
        } else {
            ParseState { registers: self.registers.push(name), ..self }
        }
    }

    /// The value that `input` stands for: a number, or what a register holds.
    pub open spec fn value(self, input: Seq<char>) -> RegisterOrImmediate {
        match parse_unsigned_spec(input, u16::MAX as int) {
            Some(v) => RegisterOrImmediate::Immediate(v as u16),
            None => RegisterOrImmediate::Register(self.register(input)),
        }
    }

    /// The state after `input` was read as a value.
    pub open spec fn met_value(self, input: Seq<char>) -> ParseState {
        match parse_unsigned_spec(input, u16::MAX as int) {
            Some(_) => self,
            None => self.met(input),
        }
    }

    /// The place that the label `input` marks.
    pub open spec fn label(self, input: Seq<char>) -> Result<usize, ScriptErrorView> {
        if self.labels.contains_key(input) {
            Ok(self.labels[input])
        } else {
            Err(ScriptErrorView::UnknownLabel { line: self.line, label: input })
        }
    }
}

pub struct ScriptParseContext {
    pub register_map: StringHashMap<RegisterId>,
    pub registers: Vec<String>,
    pub labels: StringHashMap<ScriptLabel>,
    pub current_line_num: usize,
}

impl View for ScriptParseContext {
    type V = ParseState;

    open spec fn view(&self) -> ParseState {
        ParseState {
            registers: names(self.registers@),
            labels: self.labels@,
            line: self.current_line_num,
        }
    }
}

impl Default for ScriptParseContext {
    fn default() -> (r: ScriptParseContext)
        ensures
            r.wf(),
            r@.registers == Seq::<Seq<char>>::empty(),
            r@.labels == Map::<Seq<char>, usize>::empty(),
            r@.line == 0,
    {
        let r = ScriptParseContext {
            register_map: StringHashMap::new(),
            registers: Vec::new(),
            labels: StringHashMap::new(),
            current_line_num: 0,
        };
        assert(names(r.registers@) =~= Seq::<Seq<char>>::empty());
        r
    }
}

impl ScriptParseContext {
    /// Whether the map of register numbers agrees with the list of register names.
    pub open spec fn wf(self) -> bool {
        let list = names(self.registers@);
        &&& list.no_duplicates()
        &&& forall|name: Seq<char>| #[trigger]
            self.register_map@.contains_key(name) <==> list.contains(name)
        &&& forall|i: int|
            0 <= i < list.len() ==> self.register_map@.contains_key(#[trigger] list[i])
                && self.register_map@[list[i]] == i
    }

    /// The number of the register `name`. A name that is met for the first time gets the next one.
    pub fn parse_register(&mut self, name: &str) -> (r: RegisterId)
        requires
            old(self).wf(),
        ensures
            final(self).wf(),
            r == old(self)@.register(name@),
            final(self)@ == old(self)@.met(name@),
    {
        let ghost list = names(self.registers@);
        if let Some(register) = self.register_map.get(name) {
            proof {
                let i = list.index_of(name@);
                assert(list[i] == name@);
            }
            return *register;
        }
        let id: usize = self.registers.len();
        self.registers.push(name.to_owned());
        self.register_map.insert(name.to_owned(), id);
        proof {
            let grown = names(self.registers@);
            assert(grown =~= list.push(name@));
            assert forall|n: Seq<char>| #[trigger]
                self.register_map@.contains_key(n) <==> grown.contains(n) by {
                if n == name@ {
                    assert(grown[list.len() as int] == n);
                } else if list.contains(n) {
                    let i = list.index_of(n);
                    assert(grown[i] == n);
                } else if grown.contains(n) {
                    let i = choose|i: int| 0 <= i < grown.len() && grown[i] == n;
                    assert(list[i] == n);
                }
            }
        }
        id
    }

    /// The value that `input` stands for: a number, or else what a register holds.
    pub fn parse_value(&mut self, input: &str) -> (r: RegisterOrImmediate)
        requires
            old(self).wf(),
        ensures
            final(self).wf(),
            r == old(self)@.value(input@),
            final(self)@ == old(self)@.met_value(input@),
    {
        match text::parse_u16(input) {
            Some(immediate) => RegisterOrImmediate::Immediate(immediate),
            None => RegisterOrImmediate::Register(self.parse_register(input)),
        }
    }

    /// The place that the label `input` marks.
    pub fn parse_label<'a>(&self, input: &'a str) -> (r: Result<ScriptLabel, ScriptParseError<'a>>)
        ensures
            result_view(r) == self@.label(input@),
    {
        match self.labels.get(input) {
            Some(label) => Ok(*label),
            None => Err(
                ScriptParseError::UnknownLabel { line: self.current_line_num, label: input },
            ),
        }
    }
}

/// A result with what its error says in place of the error.
pub open spec fn result_view<T>(r: Result<T, ScriptParseError<'_>>) -> Result<T, ScriptErrorView> {
    match r {
        Ok(v) => Ok(v),
        Err(e) => Err(e@),
    }
}

/// The error for a wrong number of arguments, if it is wrong.
pub open spec fn argument_count(line: usize, actual: nat, expect: usize) -> Result<
    (),
    ScriptErrorView,
> {
    if actual != expect {
        Err(
            ScriptErrorView::IllegalArguments {
                line,
                expected_count: expect,
                actual_count: actual as usize,
            },
        )
    } else {
        Ok(())
    }
}

/// Checks the number of an instruction's arguments.
pub fn expect_argument_count(line_num: usize, arguments: &[&str], expect: usize) -> (r: Result<
    (),
    ScriptParseError<'static>,
>)
    ensures
        result_view(r) == argument_count(line_num, arguments@.len(), expect),
{
    let arg_count: usize = arguments.len();
    if arg_count != expect {
        Err(
            ScriptParseError::IllegalArguments {
                line: line_num,
                expected_count: expect,
                actual_count: arg_count,
            },
        )
    } else {
        Ok(())
    }
}

/// The instructions that a host adds to scripts.
pub trait ExternalScriptByteCode: Sized + View {
    /// What the names in an instruction are looked up in.
    type Host;

    /// Whether the host is sound.
    spec fn host_wf(host: Self::Host) -> bool;

    /// Whether the words of a line can be read at all, in a script with these labels.
    spec fn can_parse(
        host: Self::Host,
        opcode: Seq<char>,
        arguments: Seq<Seq<char>>,
        labels: Map<Seq<char>, usize>,
    ) -> bool;

    /// What the words of a line mean, and the state after they were read.
    spec fn parsed(
        host: Self::Host,
        opcode: Seq<char>,
        arguments: Seq<Seq<char>>,
        state: ParseState,
    ) -> (Result<Self::V, ScriptErrorView>, ParseState);

    /// Whether the words of a line can be read at all.
    fn is_readable(
        host: &Self::Host,
        opcode: &str,
        arguments: &[&str],
        labels: &StringHashMap<ScriptLabel>,
    ) -> (r: bool)
        requires
            Self::host_wf(*host),
        ensures
            r == Self::can_parse(*host, opcode@, views(arguments@), labels@),
    ;

    fn parse<'a>(
        host: &Self::Host,
        opcode: &'a str,
        arguments: &[&'a str],
        parse_context: &mut ScriptParseContext,
    ) -> (r: Result<Self, ScriptParseError<'a>>)
        requires
            Self::host_wf(*host),
            old(parse_context).wf(),
            Self::can_parse(*host, opcode@, views(arguments@), old(parse_context)@.labels),
        ensures
            final(parse_context).wf(),
            final(parse_context)@.labels == old(parse_context)@.labels,
            Self::parsed(*host, opcode@, views(arguments@), old(parse_context)@) == (
                match r {
                    Ok(code) => Ok::<Self::V, ScriptErrorView>(code@),
                    Err(e) => Err(e@),
                },
                final(parse_context)@,
            ),
    ;
}

/// The condition that a jump's name stands for.
pub open spec fn condition_of(opcode: Seq<char>) -> Option<JumpCondition> {
    if opcode == "jl"@ {
        Some(JumpCondition::Less)
    } else if opcode == "jle"@ {
        Some(JumpCondition::LessEqual)
    } else if opcode == "jg"@ {
        Some(JumpCondition::Greater)
    } else if opcode == "jge"@ {
        Some(JumpCondition::GreaterEqual)
    } else if opcode == "je"@ {
        Some(JumpCondition::Equal)
    } else if opcode == "jne"@ {
        Some(JumpCondition::NotEqual)
    } else {
        None
    }
}

fn parse_condition(opcode: &str) -> (r: Option<JumpCondition>)
    ensures
        r == condition_of(opcode@),
{
    if text::equals(opcode, "jl") {
        Some(JumpCondition::Less)
    } else if text::equals(opcode, "jle") {
        Some(JumpCondition::LessEqual)
    } else if text::equals(opcode, "jg") {
        Some(JumpCondition::Greater)
    } else if text::equals(opcode, "jge") {
        Some(JumpCondition::GreaterEqual)
    } else if text::equals(opcode, "je") {
        Some(JumpCondition::Equal)
    } else if text::equals(opcode, "jne") {
        Some(JumpCondition::NotEqual)
    } else {
        None
    }
}

/// The operation with two operands that a name stands for.
pub open spec fn operation_of(opcode: Seq<char>) -> Option<Operation> {
    if opcode == "add"@ {
        Some(Operation::Add)
    } else if opcode == "sub"@ {
        Some(Operation::Sub)
    } else if opcode == "mul"@ {
        Some(Operation::Mul)
    } else if opcode == "div"@ {
        Some(Operation::Div)
    } else if opcode == "mod"@ {
        Some(Operation::Mod)
    } else if opcode == "or"@ {
        Some(Operation::Or)
    } else if opcode == "xor"@ {
        Some(Operation::Xor)
    } else if opcode == "and"@ {
        Some(Operation::And)
    } else if opcode == "bsl"@ {
        Some(Operation::Bsl)
    } else if opcode == "bsr"@ {
        Some(Operation::Bsr)
    } else {
        None
    }
}

fn parse_operation(opcode: &str) -> (r: Option<Operation>)
    ensures
        r == operation_of(opcode@),
{
    if text::equals(opcode, "add") {
        Some(Operation::Add)
    } else if text::equals(opcode, "sub") {
        Some(Operation::Sub)
    } else if text::equals(opcode, "mul") {
        Some(Operation::Mul)
    } else if text::equals(opcode, "div") {
        Some(Operation::Div)
    } else if text::equals(opcode, "mod") {
        Some(Operation::Mod)
    } else if text::equals(opcode, "or") {
        Some(Operation::Or)
    } else if text::equals(opcode, "xor") {
        Some(Operation::Xor)
    } else if text::equals(opcode, "and") {
        Some(Operation::And)
    } else if text::equals(opcode, "bsl") {
        Some(Operation::Bsl)
    } else if text::equals(opcode, "bsr") {
        Some(Operation::Bsr)
    } else {
        None
    }
}

/// Whether an instruction of this name belongs to every script, not to a host.
pub open spec fn is_builtin(opcode: Seq<char>) -> bool {
    ||| opcode == "move"@
    ||| opcode == "jmp"@
    ||| condition_of(opcode) is Some
    ||| operation_of(opcode) is Some
    ||| opcode == "not"@
}

/// What the words of a line mean, and the state after they were read. The operands are read from
/// the last to the first, so that is how new registers are numbered.
pub open spec fn compiled<E: ExternalScriptByteCode>(
    host: E::Host,
    words: Seq<Seq<char>>,
    s: ParseState,
) -> (Result<ScriptByteCode<E::V>, ScriptErrorView>, ParseState) {
    let op = words[0];
    let args = words.subrange(1, words.len() as int);
    if op == "move"@ {
        match argument_count(s.line, args.len(), 2) {
            Err(e) => (Err(e), s),
            Ok(_) => {
                let s1 = s.met_value(args[1]);
                (
                    Ok(ScriptByteCode::Move { from: s.value(args[1]), to: s1.register(args[0]) }),
                    s1.met(args[0]),
                )
            },
        }
    } else if op == "jmp"@ {
        match argument_count(s.line, args.len(), 1) {
            Err(e) => (Err(e), s),
            Ok(_) => match s.label(args[0]) {
                Err(e) => (Err(e), s),
                Ok(label) => (Ok(ScriptByteCode::Jump { label }), s),
            },
        }
    } else if let Some(condition) = condition_of(op) {
        match argument_count(s.line, args.len(), 3) {
            Err(e) => (Err(e), s),
            Ok(_) => match s.label(args[0]) {
                Err(e) => (Err(e), s),
                Ok(label) => {
                    let s1 = s.met_value(args[2]);
                    (
                        Ok(
                            ScriptByteCode::JumpConditional {
                                label,
                                a: s1.register(args[1]),
                                b: s.value(args[2]),
                                condition,
                            },
                        ),
                        s1.met(args[1]),
                    )
                },
            },
        }
    } else if let Some(operation) = operation_of(op) {
        match argument_count(s.line, args.len(), 3) {
            Err(e) => (Err(e), s),
            Ok(_) => {
                let s1 = s.met_value(args[2]);
                let s2 = s1.met(args[1]);
                (
                    Ok(
                        ScriptByteCode::Operation {
                            a: s1.register(args[1]),
                            b: s.value(args[2]),
                            target: s2.register(args[0]),
                            operation,
                        },
                    ),
                    s2.met(args[0]),
                )
            },
        }
    } else if op == "not"@ {
        match argument_count(s.line, args.len(), 2) {
            Err(e) => (Err(e), s),
            Ok(_) => {
                let s1 = s.met(args[1]);
                (
                    Ok(
                        ScriptByteCode::Operation {
                            a: s.register(args[1]),
                            b: RegisterOrImmediate::Immediate(0),
                            target: s1.register(args[0]),
                            operation: Operation::Not,
                        },
                    ),
                    s1.met(args[0]),
                )
            },
        }
    } else {
        let (r, s1) = E::parsed(host, op, args, s);
        (
            match r {
                Ok(code) => Ok(ScriptByteCode::External(code)),
                Err(e) => Err(e),
            },
            s1,
        )
    }
}

/// The instructions that the lines from `i` on stand for, and the state at the end; or the first
/// error. A line is its number and its text.
pub open spec fn compiled_from<E: ExternalScriptByteCode>(
    host: E::Host,
    lines: Seq<(usize, Seq<char>)>,
    i: int,
    done: Seq<ScriptByteCode<E::V>>,
    s: ParseState,
) -> Result<(Seq<ScriptByteCode<E::V>>, ParseState), ScriptErrorView>
    decreases lines.len() - i,
{
    if i >= lines.len() {
        Ok((done, s))
    } else {
        let (code, s1) = compiled::<E>(
            host,
            words_spec(lines[i].1),
            ParseState { line: lines[i].0, ..s },
        );
        match code {
            Err(e) => Err(e),
            Ok(code) => compiled_from::<E>(host, lines, i + 1, done.push(code), s1),
        }
    }
}

/// The part of a line that counts: what stands before a comment, without white space round it.
pub open spec fn content(line: Seq<char>) -> Seq<char> {
    trim_spec(before_spec(line, '#'))
}

/// Whether a line holds an instruction: something that is no label.
pub open spec fn is_instruction(line: Seq<char>) -> bool {
    content(line).len() > 0 && content(line).last() != ':'
}

/// The number of lines that hold an instruction.
pub open spec fn instruction_count(lines: Seq<Seq<char>>) -> nat {
    lines.filter(|line: Seq<char>| is_instruction(line)).len()
}

/// Sorts the lines of a script from `i` on into labels and instructions. A label marks the next
/// instruction.
pub open spec fn scanned(
    lines: Seq<Seq<char>>,
    i: int,
    found: Seq<(usize, Seq<char>)>,
    labels: Map<Seq<char>, usize>,
) -> Result<(Seq<(usize, Seq<char>)>, Map<Seq<char>, usize>), ScriptErrorView>
    decreases lines.len() - i,
{
    if i >= lines.len() {
        Ok((found, labels))
    } else {
        let line = content(lines[i]);
        if line.len() == 0 {
            scanned(lines, i + 1, found, labels)
        } else if line.last() == ':' {
            if labels.contains_key(line.drop_last()) {
                Err(ScriptErrorView::DuplicateLabel { line: i as usize })
            } else {
                scanned(
                    lines,
                    i + 1,
                    found,
                    labels.insert(line.drop_last(), found.len() as usize),
                )
            }
        } else {
            scanned(lines, i + 1, found.push((i as usize, line)), labels)
        }
    }
}

/// The script that a text stands for: its instructions and the names of its registers.
pub open spec fn script_of<E: ExternalScriptByteCode>(host: E::Host, input: Seq<char>) -> Result<
    (Seq<ScriptByteCode<E::V>>, Seq<Seq<char>>),
    ScriptErrorView,
> {
    match scanned(lines_spec(input), 0, Seq::empty(), Map::empty()) {
        Err(e) => Err(e),
        Ok((lines, labels)) => match compiled_from::<E>(
            host,
            lines,
            0,
            Seq::empty(),
            ParseState { registers: Seq::empty(), labels, line: 0 },
        ) {
            Err(e) => Err(e),
            Ok((code, s)) => Ok((code, s.registers)),
        },
    }
}

/// Whether the host can read every line of a text that is left to it, up to the first error.
pub open spec fn host_can_parse<E: ExternalScriptByteCode>(host: E::Host, input: Seq<char>) -> bool {
    match scanned(lines_spec(input), 0, Seq::empty(), Map::empty()) {
        Err(_) => true,
        Ok((lines, labels)) => readable_from::<E>(
            host,
            lines,
            0,
            ParseState { registers: Seq::empty(), labels, line: 0 },
        ),
    }
}

/// Whether the host can read the lines from `i` on that are left to it, up to the first error.
pub open spec fn readable_from<E: ExternalScriptByteCode>(
    host: E::Host,
    lines: Seq<(usize, Seq<char>)>,
    i: int,
    s: ParseState,
) -> bool
    decreases lines.len() - i,
{
    if i >= lines.len() {
        true
    } else {
        let (code, s1) = compiled::<E>(
            host,
            words_spec(lines[i].1),
            ParseState { line: lines[i].0, ..s },
        );
        &&& line_is_readable::<E>(host, words_spec(lines[i].1), s.labels)
        &&& code is Ok ==> readable_from::<E>(host, lines, i + 1, s1)
    }
}

/// Whether the host can read a line, if it is left to it.
pub open spec fn line_is_readable<E: ExternalScriptByteCode>(
    host: E::Host,
    words: Seq<Seq<char>>,
    labels: Map<Seq<char>, usize>,
) -> bool {
    words.len() > 0 && !is_builtin(words[0]) ==> E::can_parse(
        host,
        words[0],
        words.subrange(1, words.len() as int),
        labels,
    )
}

/// The lines that instructions were found on.
spec fn found_view(v: Seq<(usize, &str)>) -> Seq<(usize, Seq<char>)> {
    v.map_values(|line: (usize, &str)| (line.0, line.1@))
}

impl<E: ExternalScriptByteCode> CompiledScript<E> {
    /// Reads one instruction.
    fn parse_instruction<'a>(
        host: &E::Host,
        line: &'a str,
        parse_context: &mut ScriptParseContext,
    ) -> (r: Result<ScriptByteCode<E>, ScriptParseError<'a>>)
        requires
            E::host_wf(*host),
            old(parse_context).wf(),
            words_spec(line@).len() > 0,
            line_is_readable::<E>(*host, words_spec(line@), old(parse_context)@.labels),
        ensures
            final(parse_context).wf(),
            final(parse_context)@.labels == old(parse_context)@.labels,
            compiled::<E>(*host, words_spec(line@), old(parse_context)@).0 == (match r {
                Ok(code) => Ok::<ScriptByteCode<E::V>, ScriptErrorView>(code@),
                Err(e) => Err(e@),
            }),
            r is Ok ==> compiled::<E>(*host, words_spec(line@), old(parse_context)@).1
                == final(parse_context)@,
    {
        let parts = text::words(line);
        let arguments = vstd::slice::slice_subrange(parts.as_slice(), 1, parts.len());
        let opcode = parts[0];
        let line_num: usize = parse_context.current_line_num;
        let ghost words = words_spec(line@);
        let ghost args = words.subrange(1, words.len() as int);
        proof {
            assert(views(arguments@) =~= args);
            assert(opcode@ == words[0]);
            assert(arguments@.len() == args.len());
            assert(forall|i: int| 0 <= i < args.len() ==> (#[trigger] arguments@[i])@ == args[i]);
        }
        if text::equals(opcode, "move") {
            if let Err(e) = expect_argument_count(line_num, arguments, 2) {
                return Err(e);
            }
            let from = parse_context.parse_value(arguments[1]);
            let to: usize = parse_context.parse_register(arguments[0]);
            Ok(ScriptByteCode::Move { from, to })
        } else if text::equals(opcode, "jmp") {
            if let Err(e) = expect_argument_count(line_num, arguments, 1) {
                return Err(e);
            }
            match parse_context.parse_label(arguments[0]) {
                Ok(label) => Ok(ScriptByteCode::Jump { label }),
                Err(e) => Err(e),
            }
        } else if let Some(condition) = parse_condition(opcode) {
            if let Err(e) = expect_argument_count(line_num, arguments, 3) {
                return Err(e);
            }
            let label: usize = match parse_context.parse_label(arguments[0]) {
                Ok(label) => label,
                Err(e) => {
                    return Err(e);
                },
            };
            let b = parse_context.parse_value(arguments[2]);
            let a: usize = parse_context.parse_register(arguments[1]);
            Ok(ScriptByteCode::JumpConditional { label, a, b, condition })
        } else if let Some(operation) = parse_operation(opcode) {
            if let Err(e) = expect_argument_count(line_num, arguments, 3) {
                return Err(e);
            }
            let b = parse_context.parse_value(arguments[2]);
            let a: usize = parse_context.parse_register(arguments[1]);
            let target: usize = parse_context.parse_register(arguments[0]);
            Ok(ScriptByteCode::Operation { a, b, target, operation })
        } else if text::equals(opcode, "not") {
            if let Err(e) = expect_argument_count(line_num, arguments, 2) {
                return Err(e);
            }
            let a: usize = parse_context.parse_register(arguments[1]);
            let target: usize = parse_context.parse_register(arguments[0]);
            Ok(
                ScriptByteCode::Operation {
                    a,
                    b: RegisterOrImmediate::Immediate(0),
                    target,
                    operation: Operation::Not,
                },
            )
        } else {
            match E::parse(host, opcode, arguments, parse_context) {
                Ok(code) => Ok(ScriptByteCode::External(code)),
                Err(e) => Err(e),
            }
        }
    }

    /// Sorts the lines of a script into labels and instructions.
    fn scan<'a>(input: &'a str) -> (r: Result<
        (Vec<(usize, &'a str)>, ScriptParseContext),
        ScriptParseError<'a>,
    >)
        ensures
            match r {
                Ok((found, context)) => {
                    &&& scanned(lines_spec(input@), 0, Seq::empty(), Map::empty()) == Ok::<
                        _,
                        ScriptErrorView,
                    >((found_view(found@), context@.labels))
                    &&& context.wf()
                    &&& context@.registers == Seq::<Seq<char>>::empty()
                    &&& context@.line == 0
                    &&& found@.len() == instruction_count(lines_spec(input@))
                    &&& labels_within(context@.labels, found@.len() as int)
                    &&& forall|j: int|
                        0 <= j < found@.len() ==> words_spec((#[trigger] found@[j]).1@).len() > 0
                },
                Err(e) => scanned(lines_spec(input@), 0, Seq::empty(), Map::empty()) == Err::<
                    (Seq<(usize, Seq<char>)>, Map<Seq<char>, usize>),
                    _,
                >(e@),
            },
    {
        let lines = text::lines(input);
        let ghost all = lines_spec(input@);
        let mut found: Vec<(usize, &'a str)> = Vec::new();
        let mut parse_context = ScriptParseContext::default();
        let mut line_num: usize = 0;
        assert(found_view(found@) =~= Seq::empty());
        proof {
            assert(all.take(0) =~= Seq::empty());
            reveal(Seq::filter);
        }
        while line_num < lines.len()
            invariant
                line_num <= lines@.len(),
                all == lines_spec(input@),
                views(lines@) == all,
                parse_context.wf(),
                parse_context@.registers == Seq::<Seq<char>>::empty(),
                parse_context@.line == 0,
                found@.len() <= line_num,
                found@.len() == instruction_count(all.take(line_num as int)),
                labels_within(parse_context@.labels, found@.len() as int),
                scanned(all, 0, Seq::empty(), Map::empty()) == scanned(
                    all,
                    line_num as int,
                    found_view(found@),
                    parse_context@.labels,
                ),
                forall|j: int|
                    0 <= j < found@.len() ==> words_spec((#[trigger] found@[j]).1@).len() > 0,
            decreases lines@.len() - line_num,
        {
            let raw = lines[line_num];
            assert(all[line_num as int] == raw@);
            proof {
                lemma_instruction_count(all, line_num as int);
            }
            let line = text::trim(text::before(raw, '#'));
            if line.is_empty() {
                line_num += 1;
                continue;
            }
            if text::ends_with(line, ':') {
                let label = line.substring_char(0, line.unicode_len() - 1);
                assert(label@ =~= line@.drop_last());
                if parse_context.labels.contains_key(label) {
                    return Err(ScriptParseError::DuplicateLabel { line: line_num });
                }
                parse_context.labels.insert(label.to_owned(), found.len());
                assert(found_view(found@).len() == found@.len());
            } else {
                proof {
                    text::law_trimmed(before_spec(raw@, '#'));
                    text::lemma_has_words(line@);
                }
                let ghost before = found@;
                found.push((line_num, line));
                assert(found_view(found@) =~= found_view(before).push((line_num, line@)));
            }
            line_num += 1;
        }
        assert(all.take(all.len() as int) =~= all);
        Ok((found, parse_context))
    }

    /// Whether the host can read every line of a text that is left to it, up to the first error.
    pub fn can_read(host: &E::Host, input: &str) -> (r: bool)
        requires
            E::host_wf(*host),
        ensures
            r == host_can_parse::<E>(*host, input@),
    {
        let (found, mut parse_context) = match CompiledScript::<E>::scan(input) {
            Ok(scanned) => scanned,
            Err(_) => {
                return true;
            },
        };
        let ghost todo = found_view(found@);
        assert(parse_context@ == (ParseState {
            registers: Seq::empty(),
            labels: parse_context@.labels,
            line: 0,
        }));
        let mut i: usize = 0;
        while i < found.len()
            invariant
                i <= found@.len(),
                E::host_wf(*host),
                todo == found_view(found@),
                parse_context.wf(),
                forall|j: int|
                    0 <= j < found@.len() ==> words_spec((#[trigger] found@[j]).1@).len() > 0,
                host_can_parse::<E>(*host, input@) == readable_from::<E>(
                    *host,
                    todo,
                    i as int,
                    parse_context@,
                ),
            decreases found@.len() - i,
        {
            let (number, line) = found[i];
            assert(todo[i as int] == (number, line@));
            if !CompiledScript::<E>::is_line_readable(host, line, &parse_context) {
                return false;
            }
            parse_context.current_line_num = number;
            if CompiledScript::<E>::parse_instruction(host, line, &mut parse_context).is_err() {
                return true;
            }
            i += 1;
        }
        true
    }

    /// Whether the host can read a line, if it is left to it.
    fn is_line_readable(host: &E::Host, line: &str, parse_context: &ScriptParseContext) -> (r: bool)
        requires
            E::host_wf(*host),
            words_spec(line@).len() > 0,
        ensures
            r == line_is_readable::<E>(*host, words_spec(line@), parse_context@.labels),
    {
        let parts = text::words(line);
        let arguments = vstd::slice::slice_subrange(parts.as_slice(), 1, parts.len());
        let opcode = parts[0];
        let ghost words = words_spec(line@);
        assert(views(arguments@) =~= words.subrange(1, words.len() as int));
        assert(opcode@ == words[0]);
        if text::equals(opcode, "move") || text::equals(opcode, "jmp") || parse_condition(
            opcode,
        ).is_some() || parse_operation(opcode).is_some() || text::equals(opcode, "not") {
            return true;
        }
        E::is_readable(host, opcode, arguments, &parse_context.labels)
    }

    /// Reads a script, whose names are looked up in `host`.
    ///
    /// A script that was read without an error has as many instructions as its text has lines
    /// that hold one, its registers have different names, and every jump stays inside the script
    /// or goes to its end. With a host whose instructions only add registers, every register that
    /// an instruction uses has a name.
    pub fn parse<'a>(host: &E::Host, input: &'a str) -> (r: Result<
        CompiledScript<E>,
        ScriptParseError<'a>,
    >)
        requires
            E::host_wf(*host),
            host_can_parse::<E>(*host, input@),
        ensures
            script_of::<E>(*host, input@) == (match r {
                Ok(script) => Ok::<(Seq<ScriptByteCode<E::V>>, Seq<Seq<char>>), ScriptErrorView>(
                    (codes(script.instructions@), names(script.named_registers@)),
                ),
                Err(e) => Err(e@),
            }),
            r matches Ok(script) ==> {
                &&& script.instructions@.len() == instruction_count(lines_spec(input@))
                &&& names(script.named_registers@).no_duplicates()
                &&& jumps_within(codes(script.instructions@), script.instructions@.len() as int)
                &&& host_grows::<E>(*host) ==> registers_within(
                    codes(script.instructions@),
                    script.named_registers@.len() as int,
                )
            },
    {
        let (found, mut parse_context) = match CompiledScript::<E>::scan(input) {
            Ok(scanned) => scanned,
            Err(e) => {
                return Err(e);
            },
        };
        let ghost all = lines_spec(input@);
        let ghost labels = parse_context@.labels;
        let ghost start = ParseState { registers: Seq::empty(), labels, line: 0 };
        let ghost todo = found_view(found@);
        assert(parse_context@ == start);
        let mut instructions: Vec<ScriptByteCode<E>> = Vec::new();
        let mut i: usize = 0;
        assert(codes(instructions@) =~= Seq::empty());
        while i < found.len()
            invariant
                i <= found@.len(),
                E::host_wf(*host),
                readable_from::<E>(*host, todo, i as int, parse_context@),
                todo == found_view(found@),
                parse_context.wf(),
                parse_context@.labels == labels,
                labels_within(labels, found@.len() as int),
                instructions@.len() == i,
                found@.len() == instruction_count(all),
                jumps_within(codes(instructions@), found@.len() as int),
                host_grows::<E>(*host) ==> registers_within(
                    codes(instructions@),
                    parse_context@.registers.len() as int,
                ),
                forall|j: int|
                    0 <= j < found@.len() ==> words_spec((#[trigger] found@[j]).1@).len() > 0,
                script_of::<E>(*host, input@) == (match compiled_from::<E>(
                    *host,
                    todo,
                    i as int,
                    codes(instructions@),
                    parse_context@,
                ) {
                    Err(e) => Err(e),
                    Ok((code, s)) => Ok((code, s.registers)),
                }),
            decreases found@.len() - i,
        {
            let (number, line) = found[i];
            assert(todo[i as int] == (number, line@));
            parse_context.current_line_num = number;
            let ghost before = instructions@;
            let ghost state = parse_context@;
            match CompiledScript::<E>::parse_instruction(host, line, &mut parse_context) {
                Ok(code) => {
                    instructions.push(code);
                    assert(codes(instructions@) =~= codes(before).push(code@));
                    proof {
                        let count = parse_context.registers.len();
                        lemma_compiled_jumps::<E>(
                            *host,
                            words_spec(line@),
                            state,
                            found@.len() as int,
                        );
                        if host_grows::<E>(*host) {
                            lemma_compiled::<E>(*host, words_spec(line@), state);
                            lemma_registers_pushed(
                                codes(before),
                                code@,
                                state.registers.len() as int,
                                count as int,
                            );
                        }
                    }
                },
                Err(e) => {
                    return Err(e);
                },
            }
            i += 1;
        }
        Ok(CompiledScript { instructions, named_registers: parse_context.registers })
    }
}

/// Whether the instruction names no register beyond the first `count` ones.
pub open spec fn registers_below<E>(code: ScriptByteCode<E>, count: int) -> bool {
    match code {
        ScriptByteCode::Move { from, to } => value_below(from, count) && to < count,
        ScriptByteCode::Jump { .. } => true,
        ScriptByteCode::JumpConditional { a, b, .. } => a < count && value_below(b, count),
        ScriptByteCode::Operation { a, b, target, .. } => a < count && value_below(b, count)
            && target < count,
        ScriptByteCode::External(_) => true,
    }
}

/// Whether no instruction names a register beyond the first `count` ones.
pub open spec fn registers_within<E>(code: Seq<ScriptByteCode<E>>, count: int) -> bool {
    forall|j: int| 0 <= j < code.len() ==> registers_below(#[trigger] code[j], count)
}

/// Whether the instruction, where it jumps, goes to one of the first `count` instructions or
/// behind the last of them.
pub open spec fn jump_within<E>(code: ScriptByteCode<E>, count: int) -> bool {
    match code {
        ScriptByteCode::Jump { label } => label <= count,
        ScriptByteCode::JumpConditional { label, .. } => label <= count,
        _ => true,
    }
}

/// Whether every jump goes to one of the first `count` instructions or behind the last of them.
pub open spec fn jumps_within<E>(code: Seq<ScriptByteCode<E>>, count: int) -> bool {
    forall|j: int| 0 <= j < code.len() ==> jump_within(#[trigger] code[j], count)
}

/// Whether every label marks one of the first `count` instructions or the place behind them.
pub open spec fn labels_within(labels: Map<Seq<char>, usize>, count: int) -> bool {
    forall|name: Seq<char>| #[trigger] labels.contains_key(name) ==> labels[name] <= count
}

/// Whether the value is no register beyond the first `count` ones.
pub open spec fn value_below(value: RegisterOrImmediate, count: int) -> bool {
    value matches RegisterOrImmediate::Register(register) ==> register < count
}

/// The registers of a script and where it stands.
pub struct Machine {
    pub pc: int,
    pub registers: Seq<u16>,
}

pub struct ScriptState {
    pub pc: usize,
    pub registers: Vec<ScriptValue>,
}

impl View for ScriptState {
    type V = Machine;

    open spec fn view(&self) -> Machine {
        Machine { pc: self.pc as int, registers: self.registers@ }
    }
}

pub enum CallbackResult {
    Continue,
    Suspend,
    Wait,
}

pub enum RunResult {
    Suspended,
    TimedOut,
}

impl Machine {
    pub open spec fn value(self, value: RegisterOrImmediate) -> u16 {
        match value {
            RegisterOrImmediate::Register(register) => self.registers[register as int],
            RegisterOrImmediate::Immediate(value) => value,
        }
    }

    pub open spec fn written(self, register: usize, value: u16) -> Machine {
        Machine { registers: self.registers.update(register as int, value), ..self }
    }
}

/// Whether a conditional jump is taken.
pub open spec fn passes(condition: JumpCondition, a: u16, b: u16) -> bool {
    match condition {
        JumpCondition::Less => a < b,
        JumpCondition::LessEqual => a <= b,
        JumpCondition::Greater => a > b,
        JumpCondition::GreaterEqual => a >= b,
        JumpCondition::Equal => a == b,
        JumpCondition::NotEqual => a != b,
    }
}

/// Whether the operation has a result: no division by zero, no shift by the whole width.
pub open spec fn has_result(operation: Operation, b: u16) -> bool {
    match operation {
        Operation::Div | Operation::Mod => b != 0,
        Operation::Bsl | Operation::Bsr => b < 16,
        _ => true,
    }
}

/// The result of an operation, in arithmetic modulo 2 to the 16.
pub open spec fn outcome(operation: Operation, a: u16, b: u16) -> u16 {
    match operation {
        Operation::Add => ((a + b) % 65536) as u16,
        Operation::Sub => ((a - b) % 65536) as u16,
        Operation::Mul => ((a * b) % 65536) as u16,
        Operation::Div => a / b,
        Operation::Mod => a % b,
        Operation::Or => a | b,
        Operation::Xor => a ^ b,
        Operation::And => a & b,
        Operation::Not => !a,
        Operation::Bsl => a << b,
        Operation::Bsr => a >> b,
    }
}

/// Whether the machine can carry out an instruction that is not the host's.
pub open spec fn can_step<E>(code: ScriptByteCode<E>, m: Machine) -> bool {
    &&& registers_below(code, m.registers.len() as int)
    &&& code matches ScriptByteCode::Operation { b, operation, .. } ==> has_result(
        operation,
        m.value(b),
    )
}

/// The machine after an instruction that is not the host's; `m` stands behind it.
pub open spec fn stepped<E>(code: ScriptByteCode<E>, m: Machine) -> Machine {
    match code {
        ScriptByteCode::Move { from, to } => m.written(to, m.value(from)),
        ScriptByteCode::Jump { label } => Machine { pc: label as int, ..m },
        ScriptByteCode::JumpConditional { label, a, b, condition } => if passes(
            condition,
            m.registers[a as int],
            m.value(b),
        ) {
            Machine { pc: label as int, ..m }
        } else {
            m
        },
        ScriptByteCode::Operation { a, b, target, operation } => m.written(
            target,
            outcome(operation, m.registers[a as int], m.value(b)),
        ),
        ScriptByteCode::External(_) => m,
    }
}

/// The place of the next instruction: a script goes on from its start behind its end.
pub open spec fn next_place(count: int, m: Machine) -> int {
    m.pc % count
}

/// The machine as it stands behind the next instruction.
pub open spec fn fetched(count: int, m: Machine) -> Machine {
    Machine { pc: next_place(count, m) + 1, ..m }
}

/// Whether the host, called by `action` in state `before`, can leave the machine at `after` with
/// `result`.
pub open spec fn host_answers<E, F: FnMut(ScriptState, &E) -> (ScriptState, CallbackResult)>(
    callback: F,
    action: E,
    before: Machine,
    after: Machine,
    result: CallbackResult,
) -> bool {
    exists|s: ScriptState, t: ScriptState|
        s@ == before && t@ == after && #[trigger] call_ensures(
            callback,
            (s, &action),
            (t, result),
        )
}

/// Whether `steps` instructions can be carried out from `m` on, whatever the host answers.
pub open spec fn can_run<E, F: FnMut(ScriptState, &E) -> (ScriptState, CallbackResult)>(
    code: Seq<ScriptByteCode<E>>,
    callback: F,
    m: Machine,
    steps: nat,
) -> bool
    decreases steps,
{
    if steps == 0 {
        true
    } else {
        match code[next_place(code.len() as int, m)] {
            ScriptByteCode::External(action) => {
                &&& forall|s: ScriptState|
                    s@ == fetched(code.len() as int, m) ==> #[trigger] call_requires(
                        callback,
                        (s, &action),
                    )
                &&& forall|after: Machine| #[trigger]
                    host_answers(
                        callback,
                        action,
                        fetched(code.len() as int, m),
                        after,
                        CallbackResult::Continue,
                    ) ==> can_run(code, callback, after, (steps - 1) as nat)
            },
            other => {
                &&& can_step(other, m)
                &&& can_run(
                    code,
                    callback,
                    stepped(other, fetched(code.len() as int, m)),
                    (steps - 1) as nat,
                )
            },
        }
    }
}

/// Whether `steps` instructions from `m` on can end in `end` with `result`.
pub open spec fn runs_to<E, F: FnMut(ScriptState, &E) -> (ScriptState, CallbackResult)>(
    code: Seq<ScriptByteCode<E>>,
    callback: F,
    m: Machine,
    steps: nat,
    end: Machine,
    result: RunResult,
) -> bool
    decreases steps,
{
    if steps == 0 {
        result is TimedOut && end == m
    } else {
        let place = next_place(code.len() as int, m);
        let at = fetched(code.len() as int, m);
        match code[place] {
            ScriptByteCode::External(action) => {
                ||| exists|after: Machine| #[trigger]
                    host_answers(callback, action, at, after, CallbackResult::Continue) && runs_to(
                        code,
                        callback,
                        after,
                        (steps - 1) as nat,
                        end,
                        result,
                    )
                ||| host_answers(callback, action, at, end, CallbackResult::Suspend)
                    && result is Suspended
                ||| exists|after: Machine| #[trigger]
                    host_answers(callback, action, at, after, CallbackResult::Wait) && end == (
                    Machine { pc: place, ..after }) && result is Suspended
            },
            other => runs_to(code, callback, stepped(other, at), (steps - 1) as nat, end, result),
        }
    }
}

/// The remainder of a division.
///
/// `Integer::mod_floor` of `num_integer`: on unsigned numbers the result of `%`.
#[verifier::external_body]
fn mod_floor(a: u16, b: u16) -> (m: u16)
    requires
        b != 0,
    ensures
        m == a % b,
{
    a.mod_floor(&b)
}

fn operate(operation: Operation, a: u16, b: u16) -> (r: u16)
    requires
        has_result(operation, b),
    ensures
        r == outcome(operation, a, b),
{
    match operation {
        Operation::Add => a.wrapping_add(b),
        Operation::Sub => a.wrapping_sub(b),
        Operation::Mul => a.wrapping_mul(b),
        Operation::Div => a / b,
        Operation::Mod => mod_floor(a, b),
        Operation::Or => a | b,
        Operation::Xor => a ^ b,
        Operation::And => a & b,
        Operation::Not => !a,
        Operation::Bsl => a << b,
        Operation::Bsr => a >> b,
    }
}

impl ScriptState {
    /// The start of a script, with every register at zero.
    pub fn new<E>(script: &CompiledScript<E>) -> (r: ScriptState)
        ensures
            r@.pc == 0,
            r@.registers == Seq::new(script.named_registers@.len(), |i: int| 0u16),
    {
        let mut registers: Vec<u16> = Vec::new();
        let mut i: usize = 0;
        while i < script.named_registers.len()
            invariant
                i <= script.named_registers@.len(),
                registers@ == Seq::new(i as nat, |i: int| 0u16),
            decreases script.named_registers@.len() - i,
        {
            registers.push(0);
            assert(registers@ =~= Seq::new((i + 1) as nat, |i: int| 0u16));
            i += 1;
        }
        ScriptState { pc: 0, registers }
    }

    /// Runs up to `max_steps` instructions. A host's instruction goes to `callback`, which gives
    /// back the state to go on from: it may let the script go on, suspend it, or have the same
    /// instruction wait for the next run. An empty script is suspended at once.
    pub fn run<E, F: FnMut(ScriptState, &E) -> (ScriptState, CallbackResult)>(
        &mut self,
        script: &CompiledScript<E>,
        callback: F,
        max_steps: usize,
    ) -> (r: RunResult)
        requires
            old(self).registers@.len() == script.named_registers@.len(),
            script.instructions@.len() > 0 ==> can_run(
                script.instructions@,
                callback,
                old(self)@,
                max_steps as nat,
            ),
        ensures
            script.instructions@.len() == 0 ==> r is Suspended && *final(self) == *old(self),
            script.instructions@.len() > 0 ==> runs_to(
                script.instructions@,
                callback,
                old(self)@,
                max_steps as nat,
                final(self)@,
                r,
            ),
    {
        if script.instructions.is_empty() {
            return RunResult::Suspended;
        }
        let ghost code = script.instructions@;
        let ghost start = self@;
        let mut host = callback;
        let mut step: usize = 0;
        while step < max_steps
            invariant
                step <= max_steps,
                start == old(self)@,
                host == callback,
                code == script.instructions@,
                code.len() > 0,
                can_run(code, callback, self@, (max_steps - step) as nat),
                forall|end: Machine, result: RunResult|
                    runs_to(
                        code,
                        callback,
                        self@,
                        (max_steps - step) as nat,
                        end,
                        result,
                    ) ==> #[trigger] runs_to(
                        code,
                        callback,
                        start,
                        max_steps as nat,
                        end,
                        result,
                    ),
            decreases max_steps - step,
        {
            let ghost left = (max_steps - step - 1) as nat;
            let ghost m = self@;
            let place: usize = self.pc % script.instructions.len();
            self.pc = place + 1;
            let ghost at = self@;
            assert(at == fetched(code.len() as int, m));
            match &script.instructions[place] {
                ScriptByteCode::Move { from, to } => {
                    let value: u16 = self.resolve_value(from);
                    self.registers.set(*to, value);
                },
                ScriptByteCode::External(action) => {
                    let mut current = ScriptState { pc: 0, registers: Vec::new() };
                    std::mem::swap(&mut current, self);
                    let (next, result) = host(current, action);
                    *self = next;
                    assert(host_answers(callback, *action, at, next@, result));
                    match result {
                        CallbackResult::Continue => {},
                        CallbackResult::Suspend => {
                            return RunResult::Suspended;
                        },
                        CallbackResult::Wait => {
                            self.pc = place;
                            return RunResult::Suspended;
                        },
                    }
                },
                ScriptByteCode::Jump { label } => {
                    self.pc = *label;
                },
                ScriptByteCode::JumpConditional { label, a, b, condition } => {
                    let a: u16 = self.registers[*a];
                    let b: u16 = self.resolve_value(b);
                    let passed = match condition {
                        JumpCondition::Less => a < b,
                        JumpCondition::LessEqual => a <= b,
                        JumpCondition::Greater => a > b,
                        JumpCondition::GreaterEqual => a >= b,
                        JumpCondition::Equal => a == b,
                        JumpCondition::NotEqual => a != b,
                    };
                    if passed {
                        self.pc = *label;
                    }
                },
                ScriptByteCode::Operation { a, b, target, operation } => {
                    let a: u16 = self.registers[*a];
                    let b: u16 = self.resolve_value(b);
                    let output: u16 = operate(*operation, a, b);
                    self.registers.set(*target, output);
                },
            }
            step += 1;
        }
        RunResult::TimedOut
    }

    /// What `value` stands for: a number, or what a register holds.
    pub fn resolve_value(&self, value: &RegisterOrImmediate) -> (r: ScriptValue)
        requires
            value_below(*value, self.registers@.len() as int),
        ensures
            r == self@.value(*value),
    {
        match value {
            RegisterOrImmediate::Register(register) => self.registers[*register],
            RegisterOrImmediate::Immediate(value) => *value,
        }
    }
}

/// Whether reading a line can only add registers, and never one that is there already.
pub open spec fn grows(before: ParseState, after: ParseState) -> bool {
    &&& before.registers.len() <= after.registers.len()
    &&& before.registers.no_duplicates() ==> after.registers.no_duplicates()
}

/// Whether the host's instructions only add registers.
pub open spec fn host_grows<E: ExternalScriptByteCode>(host: E::Host) -> bool {
    forall|opcode: Seq<char>, arguments: Seq<Seq<char>>, s: ParseState|
        grows(s, #[trigger] E::parsed(host, opcode, arguments, s).1)
}

/// Meeting a register adds at most its name, and never twice.
pub proof fn law_met_grows(s: ParseState, name: Seq<char>)
    ensures
        grows(s, s.met(name)),
        grows(s, s.met_value(name)),
{
    if !s.registers.contains(name) && s.registers.no_duplicates() {
        let after = s.met(name).registers;
        assert forall|i: int, j: int|
            0 <= i < after.len() && 0 <= j < after.len() && i != j implies after[i]
            != after[j] by {
            if i < s.registers.len() {
                assert(s.registers.contains(s.registers[i]));
            }
            if j < s.registers.len() {
                assert(s.registers.contains(s.registers[j]));
            }
        }
    }
}

proof fn lemma_instruction_count(lines: Seq<Seq<char>>, i: int)
    requires
        0 <= i < lines.len(),
    ensures
        instruction_count(lines.take(i + 1)) == instruction_count(lines.take(i)) + (
        if is_instruction(lines[i]) {
            1int
        } else {
            0
        }),
{
    reveal(Seq::filter);
    assert(lines.take(i + 1).drop_last() =~= lines.take(i));
}

proof fn lemma_met(s: ParseState, name: Seq<char>)
    requires
        s.met(name).registers.len() <= usize::MAX,
    ensures
        grows(s, s.met(name)),
        s.register(name) < s.met(name).registers.len(),
{
    law_met_grows(s, name);
    if s.registers.contains(name) {
        let i = s.registers.index_of(name);
        assert(s.registers[i] == name);
    }
}

proof fn lemma_met_value(s: ParseState, input: Seq<char>)
    requires
        s.met_value(input).registers.len() <= usize::MAX,
    ensures
        grows(s, s.met_value(input)),
        value_below(s.value(input), s.met_value(input).registers.len() as int),
{
    law_met_grows(s, input);
    if parse_unsigned_spec(input, u16::MAX as int) is None {
        lemma_met(s, input);
    }
}

proof fn lemma_compiled<E: ExternalScriptByteCode>(
    host: E::Host,
    words: Seq<Seq<char>>,
    s: ParseState,
)
    requires
        host_grows::<E>(host),
        compiled::<E>(host, words, s).1.registers.len() <= usize::MAX,
    ensures
        compiled::<E>(host, words, s).0 is Ok ==> {
            &&& grows(s, compiled::<E>(host, words, s).1)
            &&& registers_below(
                compiled::<E>(host, words, s).0->Ok_0,
                compiled::<E>(host, words, s).1.registers.len() as int,
            )
        },
{
    let op = words[0];
    let args = words.subrange(1, words.len() as int);
    if compiled::<E>(host, words, s).0 is Ok {
        if op == "move"@ {
            let s1 = s.met_value(args[1]);
            law_met_grows(s1, args[0]);
            lemma_met_value(s, args[1]);
            lemma_met(s1, args[0]);
        } else if op == "jmp"@ {
        } else if condition_of(op) is Some {
            let s1 = s.met_value(args[2]);
            law_met_grows(s1, args[1]);
            lemma_met_value(s, args[2]);
            lemma_met(s1, args[1]);
        } else if operation_of(op) is Some {
            let s1 = s.met_value(args[2]);
            let s2 = s1.met(args[1]);
            law_met_grows(s2, args[0]);
            law_met_grows(s1, args[1]);
            lemma_met_value(s, args[2]);
            lemma_met(s1, args[1]);
            lemma_met(s2, args[0]);
        } else if op == "not"@ {
            let s1 = s.met(args[1]);
            law_met_grows(s1, args[0]);
            lemma_met(s, args[1]);
            lemma_met(s1, args[0]);
        }
    }
}

proof fn lemma_compiled_jumps<E: ExternalScriptByteCode>(
    host: E::Host,
    words: Seq<Seq<char>>,
    s: ParseState,
    count: int,
)
    requires
        labels_within(s.labels, count),
    ensures
        compiled::<E>(host, words, s).0 is Ok ==> jump_within(
            compiled::<E>(host, words, s).0->Ok_0,
            count,
        ),
{
}

proof fn lemma_registers_pushed<E>(
    done: Seq<ScriptByteCode<E>>,
    code: ScriptByteCode<E>,
    before: int,
    after: int,
)
    requires
        registers_within(done, before),
        before <= after,
        registers_below(code, after),
    ensures
        registers_within(done.push(code), after),
{
    let grown = done.push(code);
    assert forall|j: int| 0 <= j < grown.len() implies registers_below(
        #[trigger] grown[j],
        after,
    ) by {
        if j < done.len() {
            assert(grown[j] == done[j]);
        }
    }
}

/// Whether the instruction never faults on `count` registers: it divides and shifts by numbers
/// that allow it.
pub open spec fn never_faults<E>(code: ScriptByteCode<E>, count: int) -> bool {
    &&& registers_below(code, count)
    &&& code matches ScriptByteCode::Operation { b, operation, .. } ==> match b {
        RegisterOrImmediate::Immediate(value) => has_result(operation, value),
        RegisterOrImmediate::Register(_) => forall|value: u16| has_result(operation, value),
    }
}

/// A script whose instructions never fault runs for any number of steps, with a host that accepts
/// every call and keeps the number of registers.
pub proof fn law_safe_script_runs<E, F: FnMut(ScriptState, &E) -> (ScriptState, CallbackResult)>(
    code: Seq<ScriptByteCode<E>>,
    callback: F,
    m: Machine,
    steps: nat,
)
    requires
        code.len() > 0,
        forall|i: int|
            0 <= i < code.len() ==> never_faults(#[trigger] code[i], m.registers.len() as int),
        forall|s: ScriptState, action: E| #[trigger] call_requires(callback, (s, &action)),
        forall|s: ScriptState, action: E, t: ScriptState, r: CallbackResult| #[trigger]
            call_ensures(callback, (s, &action), (t, r)) ==> t.registers@.len()
                == s.registers@.len(),
    ensures
        can_run(code, callback, m, steps),
    decreases steps,
{
    if steps > 0 {
        let at = fetched(code.len() as int, m);
        let next = code[next_place(code.len() as int, m)];
        match next {
            ScriptByteCode::External(action) => {
                assert forall|after: Machine| #[trigger]
                    host_answers(
                        callback,
                        action,
                        at,
                        after,
                        CallbackResult::Continue,
                    ) implies can_run(code, callback, after, (steps - 1) as nat) by {
                    law_safe_script_runs(code, callback, after, (steps - 1) as nat);
                }
            },
            other => {
                assert(never_faults(next, m.registers.len() as int));
                law_safe_script_runs(code, callback, stepped(other, at), (steps - 1) as nat);
            },
        }
    }
}

/// Instructions that are not the host's never change the number of registers.
pub proof fn law_step_keeps_registers<E>(code: ScriptByteCode<E>, m: Machine)
    requires
        registers_below(code, m.registers.len() as int),
    ensures
        stepped(code, m).registers.len() == m.registers.len(),
{
}

/// A run of `a + b` steps is a run of `a` steps that times out and a run of `b` steps from where
/// it stopped.
pub proof fn law_runs_compose<E, F: FnMut(ScriptState, &E) -> (ScriptState, CallbackResult)>(
    code: Seq<ScriptByteCode<E>>,
    callback: F,
    m: Machine,
    a: nat,
    mid: Machine,
    b: nat,
    end: Machine,
    result: RunResult,
)
    requires
        runs_to(code, callback, m, a, mid, RunResult::TimedOut),
        runs_to(code, callback, mid, b, end, result),
    ensures
        runs_to(code, callback, m, a + b, end, result),
    decreases a,
{
    if a > 0 {
        let at = fetched(code.len() as int, m);
        match code[next_place(code.len() as int, m)] {
            ScriptByteCode::External(action) => {
                let after = choose|after: Machine| #[trigger]
                    host_answers(callback, action, at, after, CallbackResult::Continue) && runs_to(
                        code,
                        callback,
                        after,
                        (a - 1) as nat,
                        mid,
                        RunResult::TimedOut,
                    );
                law_runs_compose(code, callback, after, (a - 1) as nat, mid, b, end, result);
            },
            other => {
                law_runs_compose(
                    code,
                    callback,
                    stepped(other, at),
                    (a - 1) as nat,
                    mid,
                    b,
                    end,
                    result,
                );
            },
        }
        assert((a + b - 1) as nat == (a - 1) as nat + b);
    }
}

/// Multiplying is adding again and again: by zero it gives zero, by one the number itself, and by
/// one more it gives the number more, modulo 2 to the 16. A product that fits is undone by a division
/// without remainder.
pub proof fn law_multiply(m: Machine, a: usize, n: u16, target: usize)
    requires
        a < m.registers.len(),
        target < m.registers.len(),
    ensures
        ({
            let product = |n: u16|
                stepped(
                    ScriptByteCode::<()>::Operation {
                        a,
                        b: RegisterOrImmediate::Immediate(n),
                        target,
                        operation: Operation::Mul,
                    },
                    m,
                ).registers[target as int];
            let x = m.registers[a as int];
            &&& product(0) == 0
            &&& product(1) == x
            &&& n < 65535 ==> product((n + 1) as u16) == (product(n) + x) % 65536
            &&& x * n < 65536 && n != 0 ==> product(n) / n == x && product(n) % n == 0
        }),
{
    let x = m.registers[a as int] as int;
    assert(x * 0 == 0 && x * 1 == x && x * (n + 1) == x * n + x) by (nonlinear_arith);
    vstd::arithmetic::div_mod::lemma_add_mod_noop(x * n, x, 65536);
    vstd::arithmetic::div_mod::lemma_small_mod(x as nat, 65536);
    if x * n < 65536 && n != 0 {
        assert(x * n >= 0) by (nonlinear_arith)
            requires
                x >= 0,
                n >= 0,
        ;
        vstd::arithmetic::div_mod::lemma_div_multiples_vanish(x, n as int);
        assert(x * n == n * x) by (nonlinear_arith);
        vstd::arithmetic::div_mod::lemma_mod_multiples_basic(x, n as int);
    }
}

/// Adding zero gives the number, adding one more gives one more, modulo 2 to the 16; and subtracting
/// undoes adding.
pub proof fn law_add_and_subtract(m: Machine, a: usize, n: u16, target: usize)
    requires
        a < m.registers.len(),
        target < m.registers.len(),
    ensures
        ({
            let step = |m: Machine, from: usize, n: u16, operation: Operation|
                stepped(
                    ScriptByteCode::<()>::Operation {
                        a: from,
                        b: RegisterOrImmediate::Immediate(n),
                        target,
                        operation,
                    },
                    m,
                );
            let x = m.registers[a as int];
            let sum = |n: u16| step(m, a, n, Operation::Add).registers[target as int];
            let difference = |n: u16| step(m, a, n, Operation::Sub).registers[target as int];
            &&& sum(0) == x
            &&& n < 65535 ==> sum((n + 1) as u16) == (sum(n) + 1) % 65536
            &&& difference(0) == x
            &&& n < 65535 ==> difference(n) == (difference((n + 1) as u16) + 1) % 65536
            &&& step(step(m, a, n, Operation::Add), target, n, Operation::Sub).registers[target as int] == x
            &&& x >= n ==> difference(n) + n == x
        }),
{
    let x = m.registers[a as int] as int;
    let y = n as int;
    lemma_sums(x, y);
    let after = stepped(
        ScriptByteCode::<()>::Operation {
            a,
            b: RegisterOrImmediate::Immediate(n),
            target,
            operation: Operation::Add,
        },
        m,
    );
    assert(after.registers[target as int] == (x + y) % 65536);
}

proof fn lemma_sums(x: int, y: int)
    requires
        0 <= x < 65536,
        0 <= y < 65536,
    ensures
        (x + y + 1) % 65536 == ((x + y) % 65536 + 1) % 65536,
        (x - y) % 65536 == ((x - (y + 1)) % 65536 + 1) % 65536,
        ((x + y) % 65536 - y) % 65536 == x,
{
}

/// Quotient and remainder belong together: the quotient times the divisor, and the remainder, which
/// is below the divisor, make up the number.
pub proof fn law_divide(m: Machine, a: usize, n: u16, target: usize)
    requires
        a < m.registers.len(),
        target < m.registers.len(),
        n != 0,
    ensures
        ({
            let of = |operation: Operation|
                stepped(
                    ScriptByteCode::<()>::Operation {
                        a,
                        b: RegisterOrImmediate::Immediate(n),
                        target,
                        operation,
                    },
                    m,
                ).registers[target as int];
            &&& of(Operation::Div) * n + of(Operation::Mod) == m.registers[a as int]
            &&& of(Operation::Mod) < n
        }),
{
    let x = m.registers[a as int];
    vstd::arithmetic::div_mod::lemma_fundamental_div_mod(x as int, n as int);
    assert(n * (x as int / n as int) == (x as int / n as int) * n) by (nonlinear_arith);
}

/// Shifting by nothing gives the number, and shifting by one more doubles it, modulo 2 to the 16, or
/// halves it.
pub proof fn law_shift(m: Machine, a: usize, n: u16, target: usize)
    requires
        a < m.registers.len(),
        target < m.registers.len(),
        n < 15,
    ensures
        ({
            let of = |n: u16, operation: Operation|
                stepped(
                    ScriptByteCode::<()>::Operation {
                        a,
                        b: RegisterOrImmediate::Immediate(n),
                        target,
                        operation,
                    },
                    m,
                ).registers[target as int];
            &&& of(0, Operation::Bsl) == m.registers[a as int]
            &&& of(0, Operation::Bsr) == m.registers[a as int]
            &&& of((n + 1) as u16, Operation::Bsl) == (2 * of(n, Operation::Bsl)) % 65536
            &&& of((n + 1) as u16, Operation::Bsr) == of(n, Operation::Bsr) / 2
        }),
{
    let x = m.registers[a as int];
    let k = (n + 1) as u16;
    assert(x << 0u16 == x && x >> 0u16 == x && (x << k) == (2 * (x << n)) % 65536 && (x >> k) == (x
        >> n) / 2) by (bit_vector)
        requires
            n < 15,
            k == n + 1,
    ;
}

/// Each bit of a result depends on the bits at the same place: `and` sets those that both numbers
/// have, `or` those that one of them has, `xor` those that only one has. A number and its `not` have
/// each bit once.
pub proof fn law_bits(m: Machine, a: usize, n: u16, target: usize, place: u16)
    requires
        a < m.registers.len(),
        target < m.registers.len(),
        place < 16,
    ensures
        ({
            let of = |operation: Operation|
                stepped(
                    ScriptByteCode::<()>::Operation {
                        a,
                        b: RegisterOrImmediate::Immediate(n),
                        target,
                        operation,
                    },
                    m,
                ).registers[target as int];
            let has = |x: u16| (x >> place) % 2 == 1;
            let x = m.registers[a as int];
            &&& has(of(Operation::And)) <==> has(x) && has(n)
            &&& has(of(Operation::Or)) <==> has(x) || has(n)
            &&& has(of(Operation::Xor)) <==> has(x) != has(n)
            &&& of(Operation::Not) + x == 65535
        }),
{
    let x = m.registers[a as int];
    assert(!x + x == 65535) by (bit_vector);
    assert((((x & n) >> place) % 2 == 1) == ((x >> place) % 2 == 1 && (n >> place) % 2 == 1))
        by (bit_vector);
    assert((((x | n) >> place) % 2 == 1) == ((x >> place) % 2 == 1 || (n >> place) % 2 == 1))
        by (bit_vector);
    assert((((x ^ n) >> place) % 2 == 1) == (((x >> place) % 2 == 1) != ((n >> place) % 2 == 1)))
        by (bit_vector);
}

/// An operation takes its second operand from a register as it takes a number, writes to its target
/// and leaves every other register and the place of the machine as they are.
pub proof fn law_operation_writes_target(
    m: Machine,
    a: usize,
    b: usize,
    target: usize,
    other: int,
    operation: Operation,
)
    requires
        a < m.registers.len(),
        b < m.registers.len(),
        target < m.registers.len(),
        0 <= other < m.registers.len(),
        other != target,
    ensures
        ({
            let with = |b: RegisterOrImmediate|
                stepped(ScriptByteCode::<()>::Operation { a, b, target, operation }, m);
            let after = with(RegisterOrImmediate::Register(b));
            &&& after == with(RegisterOrImmediate::Immediate(m.registers[b as int]))
            &&& after.pc == m.pc
            &&& after.registers.len() == m.registers.len()
            &&& after.registers[other] == m.registers[other]
        }),
{
}

/// A move copies a register or a number to its target and changes nothing else.
pub proof fn law_move_copies(m: Machine, from: usize, number: u16, to: usize, other: int)
    requires
        from < m.registers.len(),
        to < m.registers.len(),
        0 <= other < m.registers.len(),
        other != to,
    ensures
        ({
            let with = |from: RegisterOrImmediate| stepped(ScriptByteCode::<()>::Move { from, to }, m);
            let copied = with(RegisterOrImmediate::Register(from));
            let set_to = with(RegisterOrImmediate::Immediate(number));
            &&& copied.registers[to as int] == m.registers[from as int]
            &&& set_to.registers[to as int] == number
            &&& copied.registers[other] == m.registers[other]
            &&& set_to.registers[other] == m.registers[other]
            &&& copied.registers.len() == m.registers.len()
            &&& set_to.registers.len() == m.registers.len()
            &&& copied.pc == m.pc
            &&& set_to.pc == m.pc
        }),
{
}

/// A jump goes to its label and changes no register. A jump on a condition goes there or goes on: of
/// less, greater and equal exactly one goes there, and the three others go there where their opposite
/// does not. Less is transitive by way of the numbers' order.
pub proof fn law_jumps(m: Machine, a: usize, n: u16, label: usize)
    requires
        a < m.registers.len(),
        m.pc != label,
    ensures
        ({
            let after = |condition: JumpCondition|
                stepped(
                    ScriptByteCode::<()>::JumpConditional {
                        label,
                        a,
                        b: RegisterOrImmediate::Immediate(n),
                        condition,
                    },
                    m,
                );
            let jumps = |condition: JumpCondition| after(condition).pc == label;
            let x = m.registers[a as int];
            &&& stepped(ScriptByteCode::<()>::Jump { label }, m).pc == label
            &&& stepped(ScriptByteCode::<()>::Jump { label }, m).registers == m.registers
            &&& forall|condition: JumpCondition| #[trigger] after(condition).registers == m.registers
            &&& forall|condition: JumpCondition|
                (#[trigger] after(condition)).pc == label || after(condition).pc == m.pc
            &&& jumps(JumpCondition::Equal) <==> x - n == 0
            &&& jumps(JumpCondition::NotEqual) <==> !jumps(JumpCondition::Equal)
            &&& jumps(JumpCondition::Less) <==> n - x > 0
            &&& jumps(JumpCondition::Greater) <==> x - n > 0
            &&& jumps(JumpCondition::LessEqual) <==> !jumps(JumpCondition::Greater)
            &&& jumps(JumpCondition::GreaterEqual) <==> !jumps(JumpCondition::Less)
        }),
{
}

/// A run carries out the instruction that the machine stands at, and is then a run with one step
/// less from there: the next instruction in turn, or the label of a jump. A run without steps ends
/// where it began, and behind its end a script begins again.
pub proof fn law_run_takes_turns<E, F: FnMut(ScriptState, &E) -> (ScriptState, CallbackResult)>(
    code: Seq<ScriptByteCode<E>>,
    callback: F,
    m: Machine,
    steps: nat,
    end: Machine,
    result: RunResult,
)
    requires
        code.len() > 0,
        0 <= m.pc <= code.len(),
        runs_to(code, callback, m, steps, end, result),
    ensures
        steps == 0 ==> end == m && result is TimedOut,
        steps > 0 ==> ({
            let place = if m.pc == code.len() {
                0
            } else {
                m.pc
            };
            match code[place] {
                ScriptByteCode::Move {
                    from: RegisterOrImmediate::Immediate(v),
                    to,
                } => runs_to(
                    code,
                    callback,
                    Machine { pc: place + 1, registers: m.registers.update(to as int, v) },
                    (steps - 1) as nat,
                    end,
                    result,
                ),
                ScriptByteCode::Move {
                    from: RegisterOrImmediate::Register(r),
                    to,
                } => runs_to(
                    code,
                    callback,
                    Machine {
                        pc: place + 1,
                        registers: m.registers.update(to as int, m.registers[r as int]),
                    },
                    (steps - 1) as nat,
                    end,
                    result,
                ),
                ScriptByteCode::Jump { label } => runs_to(
                    code,
                    callback,
                    Machine { pc: label as int, registers: m.registers },
                    (steps - 1) as nat,
                    end,
                    result,
                ),
                ScriptByteCode::External(action) => true,
                other => {
                    let after = stepped(other, Machine { pc: place + 1, registers: m.registers });
                    runs_to(code, callback, after, (steps - 1) as nat, end, result)
                },
            }
        }),
{
    if m.pc < code.len() {
        vstd::arithmetic::div_mod::lemma_small_mod(m.pc as nat, code.len());
    } else {
        vstd::arithmetic::div_mod::lemma_mod_self_0(code.len() as int);
    }
}

/// The host sees the machine behind its instruction. Where it lets the script go on, the run goes on
/// from what it left; where it suspends the script, the run ends there; where it has the instruction
/// wait, the run ends at that instruction, so that the next run meets it again.
pub proof fn law_host_decides<E, F: FnMut(ScriptState, &E) -> (ScriptState, CallbackResult)>(
    code: Seq<ScriptByteCode<E>>,
    callback: F,
    m: Machine,
    steps: nat,
    end: Machine,
    result: RunResult,
)
    requires
        0 <= m.pc < code.len(),
        code[m.pc] is External,
        steps > 0,
        runs_to(code, callback, m, steps, end, result),
    ensures
        exists|s: ScriptState, t: ScriptState, answer: CallbackResult| #[trigger]
            call_ensures(callback, (s, &code[m.pc]->External_0), (t, answer)) && s.pc == m.pc + 1
                && s.registers@ == m.registers && (match answer {
                CallbackResult::Continue => runs_to(
                    code,
                    callback,
                    t@,
                    (steps - 1) as nat,
                    end,
                    result,
                ),
                CallbackResult::Suspend => result is Suspended && end.pc == t.pc && end.registers
                    == t.registers@,
                CallbackResult::Wait => result is Suspended && end.pc == m.pc && end.registers
                    == t.registers@,
            }),
{
    vstd::arithmetic::div_mod::lemma_small_mod(m.pc as nat, code.len());
    let at = fetched(code.len() as int, m);
    let action = code[m.pc]->External_0;
    assert(code[next_place(code.len() as int, m)] == ScriptByteCode::External(action));
    if exists|after: Machine| #[trigger]
        host_answers(callback, action, at, after, CallbackResult::Continue) && runs_to(
            code,
            callback,
            after,
            (steps - 1) as nat,
            end,
            result,
        ) {
        let after = choose|after: Machine| #[trigger]
            host_answers(callback, action, at, after, CallbackResult::Continue) && runs_to(
                code,
                callback,
                after,
                (steps - 1) as nat,
                end,
                result,
            );
        let (s, t) = choose|s: ScriptState, t: ScriptState|
            s@ == at && t@ == after && #[trigger] call_ensures(
                callback,
                (s, &action),
                (t, CallbackResult::Continue),
            );
        assert(call_ensures(callback, (s, &action), (t, CallbackResult::Continue)));
    } else if host_answers(callback, action, at, end, CallbackResult::Suspend)
        && result is Suspended {
        let (s, t) = choose|s: ScriptState, t: ScriptState|
            s@ == at && t@ == end && #[trigger] call_ensures(
                callback,
                (s, &action),
                (t, CallbackResult::Suspend),
            );
        assert(call_ensures(callback, (s, &action), (t, CallbackResult::Suspend)));
    } else {
        let after = choose|after: Machine| #[trigger]
            host_answers(callback, action, at, after, CallbackResult::Wait) && end == (Machine {
                pc: m.pc,
                ..after
            }) && result is Suspended;
        let (s, t) = choose|s: ScriptState, t: ScriptState|
            s@ == at && t@ == after && #[trigger] call_ensures(
                callback,
                (s, &action),
                (t, CallbackResult::Wait),
            );
        assert(call_ensures(callback, (s, &action), (t, CallbackResult::Wait)));
    }
}

/// Whether an operand stands for a word: it is the number that the word writes down, or the register
/// that has the word as its name.
pub open spec fn stands_for(
    operand: RegisterOrImmediate,
    word: Seq<char>,
    registers: Seq<Seq<char>>,
) -> bool {
    match operand {
        RegisterOrImmediate::Immediate(number) => parse_unsigned_spec(word, 65535) == Some(
            number as int,
        ),
        RegisterOrImmediate::Register(register) => {
            &&& parse_unsigned_spec(word, 65535) is None
            &&& register < registers.len()
            &&& registers[register as int] == word
        },
    }
}

/// Whether a register has a word as its name.
pub open spec fn is_named(register: usize, word: Seq<char>, registers: Seq<Seq<char>>) -> bool {
    register < registers.len() && registers[register as int] == word
}

proof fn lemma_register_named(s: ParseState, name: Seq<char>)
    requires
        s.registers.len() < usize::MAX,
    ensures
        is_named(s.register(name), name, s.met(name).registers),
        forall|register: usize, word: Seq<char>| #[trigger]
            is_named(register, word, s.registers) ==> is_named(
                register,
                word,
                s.met(name).registers,
            ),
{
    if s.registers.contains(name) {
        let i = s.registers.index_of(name);
        assert(s.registers[i] == name);
    }
}

/// A line `move t x` copies `x` to `t`, `not t x` writes the opposite of `x` to `t`, and the line of
/// any other operation, such as `sub t x y`, takes the operation that it names of `x` and `y`, in
/// this order, and writes it to `t`.
pub proof fn law_operands_in_order<E: ExternalScriptByteCode>(
    host: E::Host,
    words: Seq<Seq<char>>,
    s: ParseState,
)
    requires
        words.len() > 0,
        s.registers.len() + 3 <= usize::MAX,
    ensures
        ({
            let (code, after) = compiled::<E>(host, words, s);
            let names = after.registers;
            let is_operation = |operation: Operation|
                words.len() == 4 && (code matches Ok(ScriptByteCode::Operation {
                    a,
                    b,
                    target,
                    operation: o,
                }) && o == operation && is_named(target, words[1], names) && is_named(
                    a,
                    words[2],
                    names,
                ) && stands_for(b, words[3], names));
            &&& words[0] == "add"@ && words.len() == 4 ==> is_operation(Operation::Add)
            &&& words[0] == "sub"@ && words.len() == 4 ==> is_operation(Operation::Sub)
            &&& words[0] == "mul"@ && words.len() == 4 ==> is_operation(Operation::Mul)
            &&& words[0] == "div"@ && words.len() == 4 ==> is_operation(Operation::Div)
            &&& words[0] == "mod"@ && words.len() == 4 ==> is_operation(Operation::Mod)
            &&& words[0] == "or"@ && words.len() == 4 ==> is_operation(Operation::Or)
            &&& words[0] == "xor"@ && words.len() == 4 ==> is_operation(Operation::Xor)
            &&& words[0] == "and"@ && words.len() == 4 ==> is_operation(Operation::And)
            &&& words[0] == "bsl"@ && words.len() == 4 ==> is_operation(Operation::Bsl)
            &&& words[0] == "bsr"@ && words.len() == 4 ==> is_operation(Operation::Bsr)
            &&& words[0] == "not"@ && words.len() == 3 ==> (code matches Ok(
                ScriptByteCode::Operation { a, b, target, operation },
            ) && operation == Operation::Not && is_named(target, words[1], names) && is_named(
                a,
                words[2],
                names,
            ))
            &&& words[0] == "move"@ && words.len() == 3 ==> (code matches Ok(
                ScriptByteCode::Move { from, to },
            ) && is_named(to, words[1], names) && stands_for(from, words[2], names))
        }),
{
    lemma_opcodes_differ();
    let args = words.subrange(1, words.len() as int);
    if words.len() == 4 {
        assert(args.len() == 3 && args[0] == words[1] && args[1] == words[2] && args[2]
            == words[3]);
        let s1 = s.met_value(args[2]);
        lemma_register_named(s, args[2]);
        lemma_register_named(s1, args[1]);
        lemma_register_named(s1.met(args[1]), args[0]);
        if parse_unsigned_spec(args[2], 65535) is None {
            assert(is_named(s.register(args[2]), args[2], s1.registers));
            assert(is_named(s.register(args[2]), args[2], s1.met(args[1]).registers));
        }
        let s2 = s1.met(args[1]);
        let s3 = s2.met(args[0]);
        text::law_unsigned_numbers(args[2], '0', 65535);
        assert(is_named(s1.register(args[1]), args[1], s2.registers));
        assert(is_named(s1.register(args[1]), args[1], s3.registers));
        assert(is_named(s2.register(args[0]), args[0], s3.registers));
        assert(stands_for(s.value(args[2]), args[2], s3.registers));
        if operation_of(words[0]) is Some {
            assert(compiled::<E>(host, words, s) == (
                Ok::<ScriptByteCode<E::V>, ScriptErrorView>(
                    ScriptByteCode::Operation {
                        a: s1.register(args[1]),
                        b: s.value(args[2]),
                        target: s2.register(args[0]),
                        operation: operation_of(words[0])->0,
                    },
                ),
                s3,
            ));
        }
    } else if words.len() == 3 {
        assert(args.len() == 2 && args[0] == words[1] && args[1] == words[2]);
        let s1 = s.met_value(args[1]);
        lemma_register_named(s, args[1]);
        lemma_register_named(s1, args[0]);
        lemma_register_named(s.met(args[1]), args[0]);
        text::law_unsigned_numbers(args[1], '0', 65535);
        assert(is_named(s.register(args[1]), args[1], s.met(args[1]).registers));
        if parse_unsigned_spec(args[1], 65535) is None {
            assert(is_named(s.register(args[1]), args[1], s1.met(args[0]).registers));
        }
    }
}

/// A line `jmp l` jumps to the label `l`, and a line such as `jl l x y` jumps there if `x` is less than
/// `y`.
pub proof fn law_jumps_name_their_label<E: ExternalScriptByteCode>(
    host: E::Host,
    words: Seq<Seq<char>>,
    s: ParseState,
)
    requires
        words.len() > 1,
        s.registers.len() + 3 <= usize::MAX,
        s.labels.contains_key(words[1]),
    ensures
        ({
            let (code, after) = compiled::<E>(host, words, s);
            let names = after.registers;
            let is_jump = |condition: JumpCondition|
                words.len() == 4 && (code matches Ok(ScriptByteCode::JumpConditional {
                    label,
                    a,
                    b,
                    condition: c,
                }) && c == condition && label == s.labels[words[1]] && is_named(
                    a,
                    words[2],
                    names,
                ) && stands_for(b, words[3], names));
            &&& words[0] == "jmp"@ && words.len() == 2 ==> (code matches Ok(
                ScriptByteCode::Jump { label },
            ) && label == s.labels[words[1]])
            &&& words[0] == "jl"@ && words.len() == 4 ==> is_jump(JumpCondition::Less)
            &&& words[0] == "jle"@ && words.len() == 4 ==> is_jump(JumpCondition::LessEqual)
            &&& words[0] == "jg"@ && words.len() == 4 ==> is_jump(JumpCondition::Greater)
            &&& words[0] == "jge"@ && words.len() == 4 ==> is_jump(JumpCondition::GreaterEqual)
            &&& words[0] == "je"@ && words.len() == 4 ==> is_jump(JumpCondition::Equal)
            &&& words[0] == "jne"@ && words.len() == 4 ==> is_jump(JumpCondition::NotEqual)
        }),
{
    lemma_opcodes_differ();
    let args = words.subrange(1, words.len() as int);
    assert(args[0] == words[1]);
    if words.len() == 4 {
        assert(args[1] == words[2] && args[2] == words[3]);
        let s1 = s.met_value(args[2]);
        lemma_register_named(s, args[2]);
        lemma_register_named(s1, args[1]);
        if parse_unsigned_spec(args[2], 65535) is None {
            assert(is_named(s.register(args[2]), args[2], s1.registers));
        }
        let s2 = s1.met(args[1]);
        text::law_unsigned_numbers(args[2], '0', 65535);
        assert(is_named(s1.register(args[1]), args[1], s2.registers));
        assert(stands_for(s.value(args[2]), args[2], s2.registers));
        if condition_of(words[0]) is Some {
            assert(compiled::<E>(host, words, s) == (
                Ok::<ScriptByteCode<E::V>, ScriptErrorView>(
                    ScriptByteCode::JumpConditional {
                        label: s.labels[words[1]],
                        a: s1.register(args[1]),
                        b: s.value(args[2]),
                        condition: condition_of(words[0])->0,
                    },
                ),
                s2,
            ));
        }
    }
}

/// The names of the instructions differ.
proof fn lemma_opcodes_differ()
    ensures
        condition_of("move"@) is None,
        operation_of("not"@) is None,
        condition_of("not"@) is None,
        condition_of("jl"@) == Some(JumpCondition::Less),
        condition_of("jle"@) == Some(JumpCondition::LessEqual),
        condition_of("jg"@) == Some(JumpCondition::Greater),
        condition_of("jge"@) == Some(JumpCondition::GreaterEqual),
        condition_of("je"@) == Some(JumpCondition::Equal),
        condition_of("jne"@) == Some(JumpCondition::NotEqual),
        operation_of("add"@) == Some(Operation::Add),
        operation_of("sub"@) == Some(Operation::Sub),
        operation_of("mul"@) == Some(Operation::Mul),
        operation_of("div"@) == Some(Operation::Div),
        operation_of("mod"@) == Some(Operation::Mod),
        operation_of("or"@) == Some(Operation::Or),
        operation_of("xor"@) == Some(Operation::Xor),
        operation_of("and"@) == Some(Operation::And),
        operation_of("bsl"@) == Some(Operation::Bsl),
        operation_of("bsr"@) == Some(Operation::Bsr),
        forall|op: Seq<char>| #[trigger]
            operation_of(op) is Some ==> condition_of(op) is None && op != "move"@ && op != "jmp"@
                && op != "not"@,
        forall|op: Seq<char>| #[trigger]
            condition_of(op) is Some ==> op != "move"@ && op != "jmp"@,
        "move"@ != "jmp"@,
        "not"@ != "move"@,
        "not"@ != "jmp"@,
{
    reveal_strlit("move");
    reveal_strlit("jmp");
    reveal_strlit("not");
    reveal_strlit("jl");
    reveal_strlit("jle");
    reveal_strlit("jg");
    reveal_strlit("jge");
    reveal_strlit("je");
    reveal_strlit("jne");
    reveal_strlit("add");
    reveal_strlit("sub");
    reveal_strlit("mul");
    reveal_strlit("div");
    reveal_strlit("mod");
    reveal_strlit("or");
    reveal_strlit("xor");
    reveal_strlit("and");
    reveal_strlit("bsl");
    reveal_strlit("bsr");
    let first = |s: Seq<char>| (s.len(), s[0], s[1], s[2]);
    assert(first("move"@) == (4nat, 'm', 'o', 'v'));
    assert(first("jmp"@) == (3nat, 'j', 'm', 'p'));
    assert(first("not"@) == (3nat, 'n', 'o', 't'));
    assert(first("jle"@) == (3nat, 'j', 'l', 'e'));
    assert(first("jge"@) == (3nat, 'j', 'g', 'e'));
    assert(first("jne"@) == (3nat, 'j', 'n', 'e'));
    assert("jl"@.len() == 2 && "jl"@[1] == 'l');
    assert("jg"@.len() == 2 && "jg"@[1] == 'g');
    assert("je"@.len() == 2 && "je"@[1] == 'e');
    assert("or"@.len() == 2 && "or"@[1] == 'r');
    assert(first("add"@) == (3nat, 'a', 'd', 'd'));
    assert(first("sub"@) == (3nat, 's', 'u', 'b'));
    assert(first("mul"@) == (3nat, 'm', 'u', 'l'));
    assert(first("div"@) == (3nat, 'd', 'i', 'v'));
    assert(first("mod"@) == (3nat, 'm', 'o', 'd'));
    assert(first("xor"@) == (3nat, 'x', 'o', 'r'));
    assert(first("and"@) == (3nat, 'a', 'n', 'd'));
    assert(first("bsl"@) == (3nat, 'b', 's', 'l'));
    assert(first("bsr"@) == (3nat, 'b', 's', 'r'));
}

proof fn lemma_count_first(lines: Seq<Seq<char>>, i: int, j: int)
    requires
        0 <= i < j <= lines.len(),
    ensures
        instruction_count(lines.subrange(i, j)) == instruction_count(lines.subrange(i + 1, j)) + if is_instruction(
            lines[i],
        ) {
            1int
        } else {
            0
        },
{
    let first = seq![lines[i]];
    let rest = lines.subrange(i + 1, j);
    let picks = |line: Seq<char>| is_instruction(line);
    assert(lines.subrange(i, j) =~= first + rest);
    Seq::filter_distributes_over_add(first, rest, picks);
    reveal(Seq::filter);
    assert(first.drop_last() =~= Seq::<Seq<char>>::empty());
    assert(first.drop_last().filter(picks) =~= Seq::<Seq<char>>::empty());
    assert(first.filter(picks).len() == if is_instruction(lines[i]) {
        1int
    } else {
        0
    });
}

proof fn lemma_labels_stay(
    lines: Seq<Seq<char>>,
    i: int,
    found: Seq<(usize, Seq<char>)>,
    labels: Map<Seq<char>, usize>,
    name: Seq<char>,
)
    requires
        labels.contains_key(name),
        scanned(lines, i, found, labels) is Ok,
    ensures
        scanned(lines, i, found, labels)->Ok_0.1.contains_key(name),
        scanned(lines, i, found, labels)->Ok_0.1[name] == labels[name],
    decreases lines.len() - i,
{
    if i < lines.len() {
        let line = content(lines[i]);
        if line.len() == 0 {
            lemma_labels_stay(lines, i + 1, found, labels, name);
        } else if line.last() == ':' {
            lemma_labels_stay(
                lines,
                i + 1,
                found,
                labels.insert(line.drop_last(), found.len() as usize),
                name,
            );
        } else {
            lemma_labels_stay(lines, i + 1, found.push((i as usize, line)), labels, name);
        }
    }
}

/// A label marks the instruction that follows it: its number is that of the instructions before it.
pub proof fn law_labels_mark_instructions(
    lines: Seq<Seq<char>>,
    i: int,
    j: int,
    found: Seq<(usize, Seq<char>)>,
    labels: Map<Seq<char>, usize>,
)
    requires
        0 <= i <= j < lines.len(),
        content(lines[j]).len() > 0,
        content(lines[j]).last() == ':',
        scanned(lines, i, found, labels) is Ok,
    ensures
        ({
            let (_, marks) = scanned(lines, i, found, labels)->Ok_0;
            let name = content(lines[j]).drop_last();
            &&& marks.contains_key(name)
            &&& marks[name] == (found.len() + instruction_count(lines.subrange(i, j))) as usize
        }),
{
    lemma_scan_step(lines, i, j, found, labels);
}

proof fn lemma_scan_step(
    lines: Seq<Seq<char>>,
    i: int,
    j: int,
    found: Seq<(usize, Seq<char>)>,
    labels: Map<Seq<char>, usize>,
)
    requires
        0 <= i <= j < lines.len(),
        content(lines[j]).len() > 0,
        content(lines[j]).last() == ':',
        scanned(lines, i, found, labels) is Ok,
    ensures
        ({
            let (_, marks) = scanned(lines, i, found, labels)->Ok_0;
            let name = content(lines[j]).drop_last();
            &&& marks.contains_key(name)
            &&& marks[name] == (found.len() + instruction_count(lines.subrange(i, j))) as usize
        }),
    decreases lines.len() - i,
{
    let line = content(lines[i]);
    if i == j {
        lemma_labels_stay(
            lines,
            i + 1,
            found,
            labels.insert(line.drop_last(), found.len() as usize),
            line.drop_last(),
        );
        assert(lines.subrange(i, j) =~= Seq::<Seq<char>>::empty());
        reveal(Seq::filter);
        assert(instruction_count(lines.subrange(i, j)) == 0);
    } else {
        lemma_count_first(lines, i, j);
        if line.len() == 0 {
            lemma_scan_step(lines, i + 1, j, found, labels);
        } else if line.last() == ':' {
            lemma_scan_step(
                lines,
                i + 1,
                j,
                found,
                labels.insert(line.drop_last(), found.len() as usize),
            );
        } else {
            lemma_scan_step(lines, i + 1, j, found.push((i as usize, line)), labels);
        }
    }
}

/// Whether an instruction that was found is that of its line.
pub open spec fn is_line_of(lines: Seq<Seq<char>>, from: int, found: (usize, Seq<char>)) -> bool {
    &&& from <= found.0 < lines.len()
    &&& is_instruction(lines[found.0 as int])
    &&& found.1 == content(lines[found.0 as int])
}

/// The instructions of a script are the lines that hold one, each with its number, in order.
pub proof fn law_instructions_are_found(
    lines: Seq<Seq<char>>,
    i: int,
    found: Seq<(usize, Seq<char>)>,
    labels: Map<Seq<char>, usize>,
)
    requires
        0 <= i <= lines.len() <= usize::MAX,
        scanned(lines, i, found, labels) is Ok,
    ensures
        ({
            let (all, _) = scanned(lines, i, found, labels)->Ok_0;
            &&& all.len() == found.len() + instruction_count(lines.subrange(i, lines.len() as int))
            &&& forall|k: int| 0 <= k < found.len() ==> #[trigger] all[k] == found[k]
            &&& forall|k: int| found.len() <= k < all.len() ==> is_line_of(lines, i, #[trigger] all[k])
            &&& forall|k: int, l: int|
                found.len() <= k < l < all.len() ==> (#[trigger] all[k]).0 < (#[trigger] all[l]).0
        }),
    decreases lines.len() - i,
{
    if i < lines.len() {
        let line = content(lines[i]);
        lemma_count_first(lines, i, lines.len() as int);
        if line.len() == 0 {
            law_instructions_are_found(lines, i + 1, found, labels);
        } else if line.last() == ':' {
            law_instructions_are_found(
                lines,
                i + 1,
                found,
                labels.insert(line.drop_last(), found.len() as usize),
            );
        } else {
            let more = found.push((i as usize, line));
            law_instructions_are_found(lines, i + 1, more, labels);
            let (all, _) = scanned(lines, i, found, labels)->Ok_0;
            assert(all[found.len() as int] == more[found.len() as int]);
            assert forall|k: int| 0 <= k < found.len() implies #[trigger] all[k] == found[k] by {
                assert(all[k] == more[k]);
            }
        }
    } else {
        assert(lines.subrange(i, lines.len() as int) =~= Seq::<Seq<char>>::empty());
        reveal(Seq::filter);
    }
}

} // verus!
