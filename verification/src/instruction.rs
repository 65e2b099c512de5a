//! Instructions: the opcode set and the line parser that reads one
//! instruction from one line of source text.
//!
//! A line is words separated by single spaces. The first word is the
//! opcode, four uppercase letters; the rest are operands whose kinds the
//! opcode fixes: a number or register id (`rn`), a register id (`r`), or
//! a label (`l`).

use vstd::prelude::*;
use vstd::string::StrSliceExecFns;

use crate::text::{number_val, parsable_number, split_spaces, split_tokens, str_eq};
use crate::value::{is_register_id_text, Value, ValueView};

verus! {

/// One command for an agent to execute.
#[derive(Debug, PartialEq)]
pub enum Instruction {
    Copy(Value, Value),
    Add(Value, Value, Value),
    Subtract(Value, Value, Value),
    Multiply(Value, Value, Value),
    Divide(Value, Value, Value),
    Modulo(Value, Value, Value),
    Swiz(Value, Value, Value),
    Mark(Value),
    Jump(Value),
    JumpIfTrue(Value),
    JumpIfFalse(Value),
    TestEqual(Value, Value),
    TestGreaterThan(Value, Value),
    TestLessThan(Value, Value),
    Replicate(Value),
    Halt,
    Kill,
    Link(Value),
    Host(Value),
    Mode,
    VoidM,
    TestMRD,
    Make,
    Grab(Value),
    File(Value),
    Seek(Value),
    VoidF,
    Drop,
    Wipe,
    TestEndOfFile,
    Note,
    NoOp,
    Random(Value, Value, Value),
}

/// The model of an instruction: the same variants over value models.
pub enum InstructionView {
    Copy(ValueView, ValueView),
    Add(ValueView, ValueView, ValueView),
    Subtract(ValueView, ValueView, ValueView),
    Multiply(ValueView, ValueView, ValueView),
    Divide(ValueView, ValueView, ValueView),
    Modulo(ValueView, ValueView, ValueView),
    Swiz(ValueView, ValueView, ValueView),
    Mark(ValueView),
    Jump(ValueView),
    JumpIfTrue(ValueView),
    JumpIfFalse(ValueView),
    TestEqual(ValueView, ValueView),
    TestGreaterThan(ValueView, ValueView),
    TestLessThan(ValueView, ValueView),
    Replicate(ValueView),
    Halt,
    Kill,
    Link(ValueView),
    Host(ValueView),
    Mode,
    VoidM,
    TestMRD,
    Make,
    Grab(ValueView),
    File(ValueView),
    Seek(ValueView),
    VoidF,
    Drop,
    Wipe,
    TestEndOfFile,
    Note,
    NoOp,
    Random(ValueView, ValueView, ValueView),
}

impl View for Instruction {
    type V = InstructionView;

    open spec fn view(&self) -> InstructionView {
        match self {
            Instruction::Copy(a, b) => InstructionView::Copy(a@, b@),
            Instruction::Add(a, b, c) => InstructionView::Add(a@, b@, c@),
            Instruction::Subtract(a, b, c) => InstructionView::Subtract(a@, b@, c@),
            Instruction::Multiply(a, b, c) => InstructionView::Multiply(a@, b@, c@),
            Instruction::Divide(a, b, c) => InstructionView::Divide(a@, b@, c@),
            Instruction::Modulo(a, b, c) => InstructionView::Modulo(a@, b@, c@),
            Instruction::Swiz(a, b, c) => InstructionView::Swiz(a@, b@, c@),
            Instruction::Mark(a) => InstructionView::Mark(a@),
            Instruction::Jump(a) => InstructionView::Jump(a@),
            Instruction::JumpIfTrue(a) => InstructionView::JumpIfTrue(a@),
            Instruction::JumpIfFalse(a) => InstructionView::JumpIfFalse(a@),
            Instruction::TestEqual(a, b) => InstructionView::TestEqual(a@, b@),
            Instruction::TestGreaterThan(a, b) => InstructionView::TestGreaterThan(a@, b@),
            Instruction::TestLessThan(a, b) => InstructionView::TestLessThan(a@, b@),
            Instruction::Replicate(a) => InstructionView::Replicate(a@),
            Instruction::Halt => InstructionView::Halt,
            Instruction::Kill => InstructionView::Kill,
            Instruction::Link(a) => InstructionView::Link(a@),
            Instruction::Host(a) => InstructionView::Host(a@),
            Instruction::Mode => InstructionView::Mode,
            Instruction::VoidM => InstructionView::VoidM,
            Instruction::TestMRD => InstructionView::TestMRD,
            Instruction::Make => InstructionView::Make,
            Instruction::Grab(a) => InstructionView::Grab(a@),
            Instruction::File(a) => InstructionView::File(a@),
            Instruction::Seek(a) => InstructionView::Seek(a@),
            Instruction::VoidF => InstructionView::VoidF,
            Instruction::Drop => InstructionView::Drop,
            Instruction::Wipe => InstructionView::Wipe,
            Instruction::TestEndOfFile => InstructionView::TestEndOfFile,
            Instruction::Note => InstructionView::Note,
            Instruction::NoOp => InstructionView::NoOp,
            Instruction::Random(a, b, c) => InstructionView::Random(a@, b@, c@),
        }
    }
}

impl Clone for Instruction {
    fn clone(&self) -> (r: Self)
        ensures
            r == *self,
    {
        match self {
            Instruction::Copy(a, b) => Instruction::Copy(a.clone(), b.clone()),
            Instruction::Add(a, b, c) => Instruction::Add(a.clone(), b.clone(), c.clone()),
            Instruction::Subtract(a, b, c) => Instruction::Subtract(
                a.clone(),
                b.clone(),
                c.clone(),
            ),
            Instruction::Multiply(a, b, c) => Instruction::Multiply(
                a.clone(),
                b.clone(),
                c.clone(),
            ),
            Instruction::Divide(a, b, c) => Instruction::Divide(a.clone(), b.clone(), c.clone()),
            Instruction::Modulo(a, b, c) => Instruction::Modulo(a.clone(), b.clone(), c.clone()),
            Instruction::Swiz(a, b, c) => Instruction::Swiz(a.clone(), b.clone(), c.clone()),
            Instruction::Mark(a) => Instruction::Mark(a.clone()),
            Instruction::Jump(a) => Instruction::Jump(a.clone()),
            Instruction::JumpIfTrue(a) => Instruction::JumpIfTrue(a.clone()),
            Instruction::JumpIfFalse(a) => Instruction::JumpIfFalse(a.clone()),
            Instruction::TestEqual(a, b) => Instruction::TestEqual(a.clone(), b.clone()),
            Instruction::TestGreaterThan(a, b) => Instruction::TestGreaterThan(
                a.clone(),
                b.clone(),
            ),
            Instruction::TestLessThan(a, b) => Instruction::TestLessThan(a.clone(), b.clone()),
            Instruction::Replicate(a) => Instruction::Replicate(a.clone()),
            Instruction::Halt => Instruction::Halt,
            Instruction::Kill => Instruction::Kill,
            Instruction::Link(a) => Instruction::Link(a.clone()),
            Instruction::Host(a) => Instruction::Host(a.clone()),
            Instruction::Mode => Instruction::Mode,
            Instruction::VoidM => Instruction::VoidM,
            Instruction::TestMRD => Instruction::TestMRD,
            Instruction::Make => Instruction::Make,
            Instruction::Grab(a) => Instruction::Grab(a.clone()),
            Instruction::File(a) => Instruction::File(a.clone()),
            Instruction::Seek(a) => Instruction::Seek(a.clone()),
            Instruction::VoidF => Instruction::VoidF,
            Instruction::Drop => Instruction::Drop,
            Instruction::Wipe => Instruction::Wipe,
            Instruction::TestEndOfFile => Instruction::TestEndOfFile,
            Instruction::Note => Instruction::Note,
            Instruction::NoOp => Instruction::NoOp,
            Instruction::Random(a, b, c) => Instruction::Random(a.clone(), b.clone(), c.clone()),
        }
    }
}

/// Why a line failed to parse as an instruction.
#[derive(Debug, Eq, PartialEq, Clone, Copy, Structural)]
pub enum ParseError {
    InvalidInstruction,
    InvalidLineLength,
    InvalidValues,
    InvalidTestOperation,
    MissingTestOperation,
}

/// A token an `rn` operand accepts: a number literal or a register id.
pub open spec fn rn_ok(t: Seq<char>) -> bool {
    parsable_number(t) || is_register_id_text(t)
}

/// The value an `rn` operand token stands for.
pub open spec fn rn_view(t: Seq<char>) -> ValueView {
    if parsable_number(t) {
        ValueView::Number(number_val(t))
    } else {
        ValueView::RegisterId(t)
    }
}

/// The result one line of source text parses to.
///
/// The line is split at single spaces; the first word picks the opcode
/// and fixes how many operands follow and of what kinds.
pub open spec fn parse_line_spec(s: Seq<char>) -> Result<InstructionView, ParseError> {
    let ts = split_spaces(s);
    let op = ts[0];
    if op == "COPY"@ {
        parse_rn_r_spec(ts, |a: ValueView, b: ValueView| InstructionView::Copy(a, b))
    } else if op == "ADDI"@ {
        parse_rn_rn_r_spec(
            ts,
            |a: ValueView, b: ValueView, c: ValueView| InstructionView::Add(a, b, c),
        )
    } else if op == "SUBI"@ {
        parse_rn_rn_r_spec(
            ts,
            |a: ValueView, b: ValueView, c: ValueView| InstructionView::Subtract(a, b, c),
        )
    } else if op == "MULI"@ {
        parse_rn_rn_r_spec(
            ts,
            |a: ValueView, b: ValueView, c: ValueView| InstructionView::Multiply(a, b, c),
        )
    } else if op == "DIVI"@ {
        parse_rn_rn_r_spec(
            ts,
            |a: ValueView, b: ValueView, c: ValueView| InstructionView::Divide(a, b, c),
        )
    } else if op == "MODI"@ {
        parse_rn_rn_r_spec(
            ts,
            |a: ValueView, b: ValueView, c: ValueView| InstructionView::Modulo(a, b, c),
        )
    } else if op == "SWIZ"@ {
        parse_rn_rn_r_spec(
            ts,
            |a: ValueView, b: ValueView, c: ValueView| InstructionView::Swiz(a, b, c),
        )
    } else if op == "MARK"@ {
        parse_l_spec(ts, |a: ValueView| InstructionView::Mark(a))
    } else if op == "JUMP"@ {
        parse_l_spec(ts, |a: ValueView| InstructionView::Jump(a))
    } else if op == "TJMP"@ {
        parse_l_spec(ts, |a: ValueView| InstructionView::JumpIfTrue(a))
    } else if op == "FJMP"@ {
        parse_l_spec(ts, |a: ValueView| InstructionView::JumpIfFalse(a))
    } else if s == "TEST MRD"@ {
        Ok(InstructionView::TestMRD)
    } else if s == "TEST EOF"@ {
        Ok(InstructionView::TestEndOfFile)
    } else if op == "TEST"@ {
        parse_test_spec(ts)
    } else if op == "REPL"@ {
        parse_l_spec(ts, |a: ValueView| InstructionView::Replicate(a))
    } else if op == "HALT"@ {
        parse_single_spec(s, InstructionView::Halt)
    } else if op == "KILL"@ {
        parse_single_spec(s, InstructionView::Kill)
    } else if op == "LINK"@ {
        parse_rn_spec(ts, |a: ValueView| InstructionView::Link(a))
    } else if op == "HOST"@ {
        parse_r_spec(ts, |a: ValueView| InstructionView::Host(a))
    } else if op == "MODE"@ {
        parse_single_spec(s, InstructionView::Mode)
    } else if s == "VOID M"@ {
        Ok(InstructionView::VoidM)
    } else if s == "VOID F"@ {
        Ok(InstructionView::VoidF)
    } else if op == "MAKE"@ {
        parse_single_spec(s, InstructionView::Make)
    } else if op == "GRAB"@ {
        parse_rn_spec(ts, |a: ValueView| InstructionView::Grab(a))
    } else if op == "FILE"@ {
        parse_r_spec(ts, |a: ValueView| InstructionView::File(a))
    } else if op == "SEEK"@ {
        parse_rn_spec(ts, |a: ValueView| InstructionView::Seek(a))
    } else if op == "DROP"@ {
        parse_single_spec(s, InstructionView::Drop)
    } else if op == "WIPE"@ {
        parse_single_spec(s, InstructionView::Wipe)
    } else if op == "NOTE"@ {
        Ok(InstructionView::Note)
    } else if op == "NOOP"@ {
        parse_single_spec(s, InstructionView::NoOp)
    } else if op == "RAND"@ {
        parse_rn_rn_r_spec(
            ts,
            |a: ValueView, b: ValueView, c: ValueView| InstructionView::Random(a, b, c),
        )
    } else {
        Err(ParseError::InvalidInstruction)
    }
}

/// Shape `op rn`: one source operand.
pub open spec fn parse_rn_spec(
    ts: Seq<Seq<char>>,
    ctor: spec_fn(ValueView) -> InstructionView,
) -> Result<InstructionView, ParseError> {
    if ts.len() != 2 {
        Err(ParseError::InvalidLineLength)
    } else if rn_ok(ts[1]) {
        Ok(ctor(rn_view(ts[1])))
    } else {
        Err(ParseError::InvalidValues)
    }
}

/// Shape `op rn r`: a source and a destination register.
pub open spec fn parse_rn_r_spec(
    ts: Seq<Seq<char>>,
    ctor: spec_fn(ValueView, ValueView) -> InstructionView,
) -> Result<InstructionView, ParseError> {
    if ts.len() != 3 {
        Err(ParseError::InvalidLineLength)
    } else if rn_ok(ts[1]) && is_register_id_text(ts[2]) {
        Ok(ctor(rn_view(ts[1]), ValueView::RegisterId(ts[2])))
    } else {
        Err(ParseError::InvalidValues)
    }
}

/// Shape `op rn rn r`: two sources and a destination register.
pub open spec fn parse_rn_rn_r_spec(
    ts: Seq<Seq<char>>,
    ctor: spec_fn(ValueView, ValueView, ValueView) -> InstructionView,
) -> Result<InstructionView, ParseError> {
    if ts.len() != 4 {
        Err(ParseError::InvalidLineLength)
    } else if rn_ok(ts[1]) && rn_ok(ts[2]) && is_register_id_text(ts[3]) {
        Ok(ctor(rn_view(ts[1]), rn_view(ts[2]), ValueView::RegisterId(ts[3])))
    } else {
        Err(ParseError::InvalidValues)
    }
}

/// Shape `op r`: one destination register.
pub open spec fn parse_r_spec(
    ts: Seq<Seq<char>>,
    ctor: spec_fn(ValueView) -> InstructionView,
) -> Result<InstructionView, ParseError> {
    if ts.len() != 2 {
        Err(ParseError::InvalidLineLength)
    } else if is_register_id_text(ts[1]) {
        Ok(ctor(ValueView::RegisterId(ts[1])))
    } else {
        Err(ParseError::InvalidValues)
    }
}

/// Shape `op l`: one label, any non-empty token.
pub open spec fn parse_l_spec(
    ts: Seq<Seq<char>>,
    ctor: spec_fn(ValueView) -> InstructionView,
) -> Result<InstructionView, ParseError> {
    if ts.len() != 2 {
        Err(ParseError::InvalidLineLength)
    } else if ts[1].len() > 0 {
        Ok(ctor(ValueView::LabelId(ts[1])))
    } else {
        Err(ParseError::InvalidValues)
    }
}

/// Shape `TEST a op b` with `op` one of `=`, `<`, `>`.
pub open spec fn parse_test_spec(ts: Seq<Seq<char>>) -> Result<InstructionView, ParseError> {
    if ts.len() != 4 {
        Err(ParseError::InvalidLineLength)
    } else if !(ts[2] == "="@ || ts[2] == ">"@ || ts[2] == "<"@) {
        Err(ParseError::InvalidTestOperation)
    } else if rn_ok(ts[1]) && rn_ok(ts[3]) {
        if ts[2] == "="@ {
            Ok(InstructionView::TestEqual(rn_view(ts[1]), rn_view(ts[3])))
        } else if ts[2] == ">"@ {
            Ok(InstructionView::TestGreaterThan(rn_view(ts[1]), rn_view(ts[3])))
        } else {
            Ok(InstructionView::TestLessThan(rn_view(ts[1]), rn_view(ts[3])))
        }
    } else {
        Err(ParseError::InvalidValues)
    }
}

/// A bare opcode: the whole line is exactly the four-letter word.
pub open spec fn parse_single_spec(s: Seq<char>, i: InstructionView) -> Result<
    InstructionView,
    ParseError,
> {
    if s.len() == 4 {
        Ok(i)
    } else {
        Err(ParseError::InvalidLineLength)
    }
}

/// The model of a parse result.
pub open spec fn parse_result_view(r: Result<Instruction, ParseError>) -> Result<
    InstructionView,
    ParseError,
> {
    match r {
        Ok(i) => Ok(i@),
        Err(e) => Err(e),
    }
}

impl Instruction {
    /// Reads one line of source text as an instruction, exactly as
    /// [`parse_line_spec`] describes.
    #[verifier::rlimit(50)]
    pub fn parse_line(line: &str) -> (r: Result<Self, ParseError>)
        ensures
            parse_result_view(r) == parse_line_spec(line@),
    {
        let tokens = split_tokens(line);
        proof {
            crate::text::lemma_split_nonempty(line@, 0);
        }
        let op: &str = tokens[0].as_str();
        if str_eq(op, "COPY") {
            match Self::parse_rn_r(&tokens) {
                Ok((a, b)) => Ok(Instruction::Copy(a, b)),
                Err(e) => Err(e),
            }
        } else if str_eq(op, "ADDI") {
            match Self::parse_rn_rn_r(&tokens) {
                Ok((a, b, c)) => Ok(Instruction::Add(a, b, c)),
                Err(e) => Err(e),
            }
        } else if str_eq(op, "SUBI") {
            match Self::parse_rn_rn_r(&tokens) {
                Ok((a, b, c)) => Ok(Instruction::Subtract(a, b, c)),
                Err(e) => Err(e),
            }
        } else if str_eq(op, "MULI") {
            match Self::parse_rn_rn_r(&tokens) {
                Ok((a, b, c)) => Ok(Instruction::Multiply(a, b, c)),
                Err(e) => Err(e),
            }
        } else if str_eq(op, "DIVI") {
            match Self::parse_rn_rn_r(&tokens) {
                Ok((a, b, c)) => Ok(Instruction::Divide(a, b, c)),
                Err(e) => Err(e),
            }
        } else if str_eq(op, "MODI") {
            match Self::parse_rn_rn_r(&tokens) {
                Ok((a, b, c)) => Ok(Instruction::Modulo(a, b, c)),
                Err(e) => Err(e),
            }
        } else if str_eq(op, "SWIZ") {
            match Self::parse_rn_rn_r(&tokens) {
                Ok((a, b, c)) => Ok(Instruction::Swiz(a, b, c)),
                Err(e) => Err(e),
            }
        } else if str_eq(op, "MARK") {
            match Self::parse_l(&tokens) {
                Ok(a) => Ok(Instruction::Mark(a)),
                Err(e) => Err(e),
            }
        } else if str_eq(op, "JUMP") {
            match Self::parse_l(&tokens) {
                Ok(a) => Ok(Instruction::Jump(a)),
                Err(e) => Err(e),
            }
        } else if str_eq(op, "TJMP") {
            match Self::parse_l(&tokens) {
                Ok(a) => Ok(Instruction::JumpIfTrue(a)),
                Err(e) => Err(e),
            }
        } else if str_eq(op, "FJMP") {
            match Self::parse_l(&tokens) {
                Ok(a) => Ok(Instruction::JumpIfFalse(a)),
                Err(e) => Err(e),
            }
        } else if str_eq(line, "TEST MRD") {
            Ok(Instruction::TestMRD)
        } else if str_eq(line, "TEST EOF") {
            Ok(Instruction::TestEndOfFile)
        } else if str_eq(op, "TEST") {
            Self::parse_test(&tokens)
        } else if str_eq(op, "REPL") {
            match Self::parse_l(&tokens) {
                Ok(a) => Ok(Instruction::Replicate(a)),
                Err(e) => Err(e),
            }
        } else if str_eq(op, "HALT") {
            Self::parse_single_instruction(line, Instruction::Halt)
        } else if str_eq(op, "KILL") {
            Self::parse_single_instruction(line, Instruction::Kill)
        } else if str_eq(op, "LINK") {
            match Self::parse_rn(&tokens) {
                Ok(a) => Ok(Instruction::Link(a)),
                Err(e) => Err(e),
            }
        } else if str_eq(op, "HOST") {
            match Self::parse_r(&tokens) {
                Ok(a) => Ok(Instruction::Host(a)),
                Err(e) => Err(e),
            }
        } else if str_eq(op, "MODE") {
            Self::parse_single_instruction(line, Instruction::Mode)
        } else if str_eq(line, "VOID M") {
            Ok(Instruction::VoidM)
        } else if str_eq(line, "VOID F") {
            Ok(Instruction::VoidF)
        } else if str_eq(op, "MAKE") {
            Self::parse_single_instruction(line, Instruction::Make)
        } else if str_eq(op, "GRAB") {
            match Self::parse_rn(&tokens) {
                Ok(a) => Ok(Instruction::Grab(a)),
                Err(e) => Err(e),
            }
        } else if str_eq(op, "FILE") {
            match Self::parse_r(&tokens) {
                Ok(a) => Ok(Instruction::File(a)),
                Err(e) => Err(e),
            }
        } else if str_eq(op, "SEEK") {
            match Self::parse_rn(&tokens) {
                Ok(a) => Ok(Instruction::Seek(a)),
                Err(e) => Err(e),
            }
        } else if str_eq(op, "DROP") {
            Self::parse_single_instruction(line, Instruction::Drop)
        } else if str_eq(op, "WIPE") {
            Self::parse_single_instruction(line, Instruction::Wipe)
        } else if str_eq(op, "NOTE") {
            Ok(Instruction::Note)
        } else if str_eq(op, "NOOP") {
            Self::parse_single_instruction(line, Instruction::NoOp)
        } else if str_eq(op, "RAND") {
            match Self::parse_rn_rn_r(&tokens) {
                Ok((a, b, c)) => Ok(Instruction::Random(a, b, c)),
                Err(e) => Err(e),
            }
        } else {
            Err(ParseError::InvalidInstruction)
        }
    }

    /// Reads the `op rn` shape: the one operand as a number or register
    /// id.
    fn parse_rn(tokens: &Vec<String>) -> (r: Result<Value, ParseError>)
        ensures
            ({
                let ts = tokens@.map_values(|t: String| t@);
                match r {
                    Ok(v) => ts.len() == 2 && rn_ok(ts[1]) && v@ == rn_view(ts[1]),
                    Err(e) => if ts.len() != 2 {
                        e == ParseError::InvalidLineLength
                    } else {
                        !rn_ok(ts[1]) && e == ParseError::InvalidValues
                    },
                }
            }),
    {
        if tokens.len() != 2 {
            return Err(ParseError::InvalidLineLength);
        }
        match Value::new_number_or_register_id(tokens[1].as_str()) {
            Ok(v) => Ok(v),
            Err(_) => Err(ParseError::InvalidValues),
        }
    }

    /// Reads the `op rn r` shape: the source and the destination.
    fn parse_rn_r(tokens: &Vec<String>) -> (r: Result<(Value, Value), ParseError>)
        ensures
            ({
                let ts = tokens@.map_values(|t: String| t@);
                match r {
                    Ok(p) => ts.len() == 3 && rn_ok(ts[1]) && is_register_id_text(ts[2])
                        && p.0@ == rn_view(ts[1]) && p.1@ == ValueView::RegisterId(ts[2]),
                    Err(e) => if ts.len() != 3 {
                        e == ParseError::InvalidLineLength
                    } else {
                        !(rn_ok(ts[1]) && is_register_id_text(ts[2])) && e
                            == ParseError::InvalidValues
                    },
                }
            }),
    {
        if tokens.len() != 3 {
            return Err(ParseError::InvalidLineLength);
        }
        let source = Value::new_number_or_register_id(tokens[1].as_str());
        let destination = Value::new_register_id(tokens[2].as_str());
        match (source, destination) {
            (Ok(s), Ok(d)) => Ok((s, d)),
            _ => Err(ParseError::InvalidValues),
        }
    }

    /// Reads the `op rn rn r` shape: both sources and the destination.
    fn parse_rn_rn_r(tokens: &Vec<String>) -> (r: Result<(Value, Value, Value), ParseError>)
        ensures
            ({
                let ts = tokens@.map_values(|t: String| t@);
                match r {
                    Ok(p) => ts.len() == 4 && rn_ok(ts[1]) && rn_ok(ts[2])
                        && is_register_id_text(ts[3]) && p.0@ == rn_view(ts[1]) && p.1@
                        == rn_view(ts[2]) && p.2@ == ValueView::RegisterId(ts[3]),
                    Err(e) => if ts.len() != 4 {
                        e == ParseError::InvalidLineLength
                    } else {
                        !(rn_ok(ts[1]) && rn_ok(ts[2]) && is_register_id_text(ts[3])) && e
                            == ParseError::InvalidValues
                    },
                }
            }),
    {
        if tokens.len() != 4 {
            return Err(ParseError::InvalidLineLength);
        }
        let first = Value::new_number_or_register_id(tokens[1].as_str());
        let second = Value::new_number_or_register_id(tokens[2].as_str());
        let destination = Value::new_register_id(tokens[3].as_str());
        match (first, second, destination) {
            (Ok(a), Ok(b), Ok(d)) => Ok((a, b, d)),
            _ => Err(ParseError::InvalidValues),
        }
    }

    /// Reads the `op r` shape: the one operand as a register id.
    fn parse_r(tokens: &Vec<String>) -> (r: Result<Value, ParseError>)
        ensures
            ({
                let ts = tokens@.map_values(|t: String| t@);
                match r {
                    Ok(v) => ts.len() == 2 && is_register_id_text(ts[1]) && v@
                        == ValueView::RegisterId(ts[1]),
                    Err(e) => if ts.len() != 2 {
                        e == ParseError::InvalidLineLength
                    } else {
                        !is_register_id_text(ts[1]) && e == ParseError::InvalidValues
                    },
                }
            }),
    {
        if tokens.len() != 2 {
            return Err(ParseError::InvalidLineLength);
        }
        match Value::new_register_id(tokens[1].as_str()) {
            Ok(v) => Ok(v),
            Err(_) => Err(ParseError::InvalidValues),
        }
    }

    /// Reads the `op l` shape: the one operand as a label.
    fn parse_l(tokens: &Vec<String>) -> (r: Result<Value, ParseError>)
        ensures
            ({
                let ts = tokens@.map_values(|t: String| t@);
                match r {
                    Ok(v) => ts.len() == 2 && ts[1].len() > 0 && v@ == ValueView::LabelId(
                        ts[1],
                    ),
                    Err(e) => if ts.len() != 2 {
                        e == ParseError::InvalidLineLength
                    } else {
                        ts[1].len() == 0 && e == ParseError::InvalidValues
                    },
                }
            }),
    {
        if tokens.len() != 2 {
            return Err(ParseError::InvalidLineLength);
        }
        match Value::new_label_id(tokens[1].as_str()) {
            Ok(v) => Ok(v),
            Err(_) => Err(ParseError::InvalidValues),
        }
    }

    /// Reads a `TEST a op b` comparison line.
    fn parse_test(tokens: &Vec<String>) -> (r: Result<Instruction, ParseError>)
        ensures
            parse_result_view(r) == parse_test_spec(tokens@.map_values(|t: String| t@)),
    {
        if tokens.len() != 4 {
            return Err(ParseError::InvalidLineLength);
        }
        let op = tokens[2].as_str();
        let is_eq = str_eq(op, "=");
        let is_gt = str_eq(op, ">");
        let is_lt = str_eq(op, "<");
        if !(is_eq || is_gt || is_lt) {
            return Err(ParseError::InvalidTestOperation);
        }
        let first = Value::new_number_or_register_id(tokens[1].as_str());
        let second = Value::new_number_or_register_id(tokens[3].as_str());
        match (first, second) {
            (Ok(a), Ok(b)) => if is_eq {
                Ok(Instruction::TestEqual(a, b))
            } else if is_gt {
                Ok(Instruction::TestGreaterThan(a, b))
            } else {
                Ok(Instruction::TestLessThan(a, b))
            },
            _ => Err(ParseError::InvalidValues),
        }
    }

    /// Reads a bare opcode: the whole line must be the four-letter word.
    fn parse_single_instruction(line: &str, instruction: Instruction) -> (r: Result<
        Instruction,
        ParseError,
    >)
        ensures
            parse_result_view(r) == parse_single_spec(line@, instruction@),
    {
        if line.unicode_len() == 4 {
            Ok(instruction)
        } else {
            Err(ParseError::InvalidLineLength)
        }
    }
}

impl core::str::FromStr for Instruction {
    type Err = ParseError;

    fn from_str(line: &str) -> Result<Self, ParseError> {
        Instruction::parse_line(line)
    }
}

} // verus!
