//! The step semantics: what one instruction does to an agent and to the
//! world. Every step advances, blocks, replicates, or dies, and the
//! relation [`step_post`] pins each outcome down over the models.

use vstd::prelude::*;

use crate::exa::{
    child_id_text, CommunicationMode, Exa, ExaState, ExaView, ExecutionResponse,
    ExecutionResponseError,
};
use crate::file::FileView;
use crate::host::{find_file, find_hw, find_id, host_used, HostView};
use crate::instruction::InstructionView;
use crate::program::ProgramView;
use crate::register::{writable, RegisterView};
use crate::text::str_eq;
use crate::value::{value_text, Value, ValueView};
use crate::world::{World, WorldView};
use crate::host::Host;

verus! {

/// The model of a step error.
pub enum StepErrorView {
    Halt(Seq<char>),
    OutOfInstructions(Seq<char>),
    Kill(Seq<char>),
    DivideByZero(ValueView, ValueView),
    MathWithKeywords(ValueView, ValueView),
    InvalidFRegisterAccess,
    InvalidHardwareRegisterAccess(Seq<char>),
    InvalidFileAccess(Seq<char>),
    InvalidLinkTraversal(Seq<char>),
    NumberValueTooSmall(ValueView),
    NumberValueTooLarge(ValueView),
}

/// The model of a successful step's outcome.
pub enum ResponseView {
    Success,
    Link,
    Replicate(ExaView),
}

/// The model of an execution error.
pub open spec fn error_view(e: ExecutionResponseError) -> StepErrorView {
    match e {
        ExecutionResponseError::Halt(s) => StepErrorView::Halt(s@),
        ExecutionResponseError::OutOfInstructions(s) => StepErrorView::OutOfInstructions(s@),
        ExecutionResponseError::Kill(s) => StepErrorView::Kill(s@),
        ExecutionResponseError::DivideByZero(a, b) => StepErrorView::DivideByZero(a@, b@),
        ExecutionResponseError::MathWithKeywords(a, b) => StepErrorView::MathWithKeywords(
            a@,
            b@,
        ),
        ExecutionResponseError::InvalidFRegisterAccess => StepErrorView::InvalidFRegisterAccess,
        ExecutionResponseError::InvalidHardwareRegisterAccess(s) =>
            StepErrorView::InvalidHardwareRegisterAccess(s@),
        ExecutionResponseError::InvalidFileAccess(s) => StepErrorView::InvalidFileAccess(s@),
        ExecutionResponseError::InvalidLinkTraversal(s) => StepErrorView::InvalidLinkTraversal(
            s@,
        ),
        ExecutionResponseError::NumberValueTooSmall(v) => StepErrorView::NumberValueTooSmall(
            v@,
        ),
        ExecutionResponseError::NumberValueTooLarge(v) => StepErrorView::NumberValueTooLarge(
            v@,
        ),
    }
}

/// The model of a step's result.
pub open spec fn step_result_view(r: Result<ExecutionResponse, ExecutionResponseError>)
    -> Result<ResponseView, StepErrorView> {
    match r {
        Ok(ExecutionResponse::Success) => Ok(ResponseView::Success),
        Ok(ExecutionResponse::Link) => Ok(ResponseView::Link),
        Ok(ExecutionResponse::Replicate(e)) => Ok(ResponseView::Replicate(e@)),
        Err(e) => Err(error_view(e)),
    }
}

/// What a scalar register reads as; an empty cell reads as zero.
pub open spec fn reg_read(r: RegisterView) -> ValueView {
    match r.value {
        Some(v) => v,
        None => ValueView::Number(0),
    }
}

/// The message cell the agent's mode selects: the world's global cell or
/// its host's local cell.
pub open spec fn m_value(e: ExaView, w: WorldView) -> Option<ValueView> {
    match e.mode {
        CommunicationMode::Global => w.global_m.value,
        CommunicationMode::Local => w.hosts[e.host].local_m.value,
    }
}

/// What evaluating a source operand yields before any effect is applied.
pub enum SourceOutcome {
    Val(ValueView),
    Wait(ExaState),
    Fail(StepErrorView),
}

/// Evaluates a source operand without effects: a literal is itself; `X`
/// and `T` read the agent's cells; `F` reads under the file cursor and
/// fails without a file or at its end; `M` reads the pending message or
/// waits; anything else is looked up among the host's hardware
/// registers, where a write-only register refuses and an empty queue
/// reads as zero.
pub open spec fn peek_source(e: ExaView, w: WorldView, v: ValueView) -> SourceOutcome {
    match v {
        ValueView::RegisterId(id) => if id == "X"@ {
            SourceOutcome::Val(reg_read(e.x))
        } else if id == "T"@ {
            SourceOutcome::Val(reg_read(e.t))
        } else if id == "F"@ {
            match e.file {
                None => SourceOutcome::Fail(StepErrorView::InvalidFRegisterAccess),
                Some(f) => if f.index < f.contents.len() {
                    SourceOutcome::Val(f.contents[f.index])
                } else {
                    SourceOutcome::Fail(StepErrorView::InvalidFRegisterAccess)
                },
            }
        } else if id == "M"@ {
            match m_value(e, w) {
                Some(mv) => SourceOutcome::Val(mv),
                None => SourceOutcome::Wait(ExaState::WaitingForMRead),
            }
        } else {
            let hws = w.hosts[e.host].hardware_registers;
            match find_hw(hws, id) {
                None => SourceOutcome::Fail(StepErrorView::InvalidHardwareRegisterAccess(id)),
                Some(k) => if hws[k].mode is WriteOnly {
                    SourceOutcome::Fail(StepErrorView::InvalidHardwareRegisterAccess(id))
                } else if hws[k].values.len() > 0 {
                    SourceOutcome::Val(hws[k].values[0])
                } else {
                    SourceOutcome::Val(ValueView::Number(0))
                },
            }
        },
        _ => SourceOutcome::Val(v),
    }
}

/// The world with one host exchanged.
pub open spec fn with_host(w: WorldView, i: int, h: HostView) -> WorldView {
    WorldView { hosts: w.hosts.update(i, h), ..w }
}

/// The world with the mode-selected message cell set to `val`.
pub open spec fn with_m(e: ExaView, w: WorldView, val: Option<ValueView>) -> WorldView {
    match e.mode {
        CommunicationMode::Global => WorldView {
            global_m: RegisterView { value: val, ..w.global_m },
            ..w
        },
        CommunicationMode::Local => with_host(
            w,
            e.host,
            HostView {
                local_m: RegisterView { value: val, ..w.hosts[e.host].local_m },
                ..w.hosts[e.host]
            },
        ),
    }
}

/// The effect reading a source operand leaves behind: `F` moves the file
/// cursor on, `M` consumes the pending message, a hardware register pops
/// its front; everything else changes nothing.
pub open spec fn commit_source(e: ExaView, w: WorldView, v: ValueView) -> (ExaView, WorldView) {
    match v {
        ValueView::RegisterId(id) => if id == "F"@ {
            match e.file {
                Some(f) => (
                    ExaView {
                        file: Some(
                            FileView {
                                index: if f.index < f.contents.len() {
                                    f.index + 1
                                } else {
                                    f.index
                                },
                                ..f
                            },
                        ),
                        ..e
                    },
                    w,
                ),
                None => (e, w),
            }
        } else if id == "M"@ {
            (e, with_m(e, w, None))
        } else if id == "X"@ || id == "T"@ {
            (e, w)
        } else {
            let h = w.hosts[e.host];
            match find_hw(h.hardware_registers, id) {
                Some(k) => if h.hardware_registers[k].mode
                    == crate::register::AccessMode::ReadOnly && h.hardware_registers[k].values.len()
                    > 0 {
                    (
                        e,
                        with_host(
                            w,
                            e.host,
                            HostView {
                                hardware_registers: h.hardware_registers.update(
                                    k,
                                    (crate::register::HardwareRegisterView {
                                        values: h.hardware_registers[k].values.skip(1),
                                        ..h.hardware_registers[k]
                                    }),
                                ),
                                ..h
                            },
                        ),
                    )
                } else {
                    (e, w)
                },
                None => (e, w),
            }
        },
        _ => (e, w),
    }
}

/// The effects of reading several source operands, left to right.
pub open spec fn commit_sources(e: ExaView, w: WorldView, vs: Seq<ValueView>) -> (
    ExaView,
    WorldView,
)
    decreases vs.len(),
{
    if vs.len() == 0 {
        (e, w)
    } else {
        let (e1, w1) = commit_source(e, w, vs[0]);
        commit_sources(e1, w1, vs.drop_first())
    }
}

/// An integer clamped to the machine's signed 64-bit range.
pub open spec fn sat64(n: int) -> int {
    if n < i64::MIN as int {
        i64::MIN as int
    } else if n > i64::MAX as int {
        i64::MAX as int
    } else {
        n
    }
}

/// The error an out-of-range number earns at a plain register.
pub open spec fn range_fail(v: ValueView) -> StepErrorView {
    match v {
        ValueView::Number(n) => if n < -9999 {
            StepErrorView::NumberValueTooSmall(ValueView::Number(sat64(n)))
        } else {
            StepErrorView::NumberValueTooLarge(ValueView::Number(sat64(n)))
        },
        _ => StepErrorView::InvalidFRegisterAccess,
    }
}

/// The register name a destination operand stands for.
pub open spec fn dst_id(v: ValueView) -> Seq<char> {
    match v {
        ValueView::RegisterId(s) => s,
        _ => value_text(v),
    }
}

/// A file with `val` written at the cursor: in the middle the slot is
/// replaced, at the end the value is appended; the cursor moves on
/// either way.
pub open spec fn file_write(f: FileView, val: ValueView) -> FileView {
    if f.index < f.contents.len() {
        FileView { contents: f.contents.update(f.index, val), index: f.index + 1, ..f }
    } else {
        FileView { contents: f.contents.push(val), index: f.index + 1, ..f }
    }
}

/// What writing a destination yields.
pub enum WriteOutcome {
    Done(ExaView, WorldView),
    Wait(ExaState),
    Fail(StepErrorView),
}

/// Writes a value to the named register: `X` and `T` store it, `F`
/// writes through the file window, `M` deposits a message or waits while
/// one is pending, and any other name is looked up among the host's
/// hardware registers, where a read-only register silently drops the
/// value. Every path checks the value as a register write does; at a
/// hardware register an out-of-range number is surfaced as an invalid
/// hardware access.
pub open spec fn write_dest(e: ExaView, w: WorldView, id: Seq<char>, val: ValueView)
    -> WriteOutcome {
    if id == "X"@ {
        if writable(val) {
            WriteOutcome::Done(
                ExaView { x: RegisterView { value: Some(val), ..e.x }, ..e },
                w,
            )
        } else {
            WriteOutcome::Fail(range_fail(val))
        }
    } else if id == "T"@ {
        if writable(val) {
            WriteOutcome::Done(
                ExaView { t: RegisterView { value: Some(val), ..e.t }, ..e },
                w,
            )
        } else {
            WriteOutcome::Fail(range_fail(val))
        }
    } else if id == "F"@ {
        match e.file {
            None => WriteOutcome::Fail(StepErrorView::InvalidFRegisterAccess),
            Some(f) => if writable(val) {
                WriteOutcome::Done(ExaView { file: Some(file_write(f, val)), ..e }, w)
            } else {
                WriteOutcome::Fail(range_fail(val))
            },
        }
    } else if id == "M"@ {
        if m_value(e, w) is Some {
            WriteOutcome::Wait(ExaState::WaitingForMWrite)
        } else if writable(val) {
            WriteOutcome::Done(e, with_m(e, w, Some(val)))
        } else {
            WriteOutcome::Fail(range_fail(val))
        }
    } else {
        let h = w.hosts[e.host];
        match find_hw(h.hardware_registers, id) {
            None => WriteOutcome::Fail(StepErrorView::InvalidHardwareRegisterAccess(id)),
            Some(k) => if !writable(val) {
                WriteOutcome::Fail(StepErrorView::InvalidHardwareRegisterAccess(id))
            } else if h.hardware_registers[k].mode is WriteOnly {
                WriteOutcome::Done(
                    e,
                    with_host(
                        w,
                        e.host,
                        HostView {
                            hardware_registers: h.hardware_registers.update(
                                k,
                                (crate::register::HardwareRegisterView {
                                    values: h.hardware_registers[k].values.push(val),
                                    ..h.hardware_registers[k]
                                }),
                            ),
                            ..h
                        },
                    ),
                )
            } else {
                WriteOutcome::Done(e, w)
            },
        }
    }
}

/// The agent one step further on, running again.
pub open spec fn advanced(e: ExaView) -> ExaView {
    ExaView {
        program: ProgramView { cursor: e.program.cursor + 1, ..e.program },
        state: ExaState::Running,
        ..e
    }
}

/// A blocked step: the cursor stays, only the state records the wait.
pub open spec fn blocked(
    e0: ExaView,
    w0: WorldView,
    e1: ExaView,
    w1: WorldView,
    r: Result<ResponseView, StepErrorView>,
    st: ExaState,
    resp: ResponseView,
) -> bool {
    e1 == (ExaView { state: st, ..e0 }) && w1 == w0 && r == Result::<ResponseView, StepErrorView>::Ok(resp)
}

/// A fatal step: nothing is mutated, the error names the fault.
pub open spec fn dead(
    e0: ExaView,
    w0: WorldView,
    e1: ExaView,
    w1: WorldView,
    r: Result<ResponseView, StepErrorView>,
    er: StepErrorView,
) -> bool {
    e1 == e0 && w1 == w0 && r == Result::<ResponseView, StepErrorView>::Err(er)
}

/// Storing `val` at destination `d` after the sources in `commits` take
/// their effects: a refused destination blocks or kills without any
/// mutation, and otherwise the commits happen, the write lands, and the
/// agent advances.
pub open spec fn store_post(
    e0: ExaView,
    w0: WorldView,
    e1: ExaView,
    w1: WorldView,
    r: Result<ResponseView, StepErrorView>,
    commits: Seq<ValueView>,
    d: Seq<char>,
    val: ValueView,
) -> bool {
    match write_dest(e0, w0, d, val) {
        WriteOutcome::Wait(st) => blocked(e0, w0, e1, w1, r, st, ResponseView::Success),
        WriteOutcome::Fail(er) => dead(e0, w0, e1, w1, r, er),
        WriteOutcome::Done(_, _) => {
            let (ec, wc) = commit_sources(e0, w0, commits);
            match write_dest(ec, wc, d, val) {
                WriteOutcome::Done(ed, wd) => e1 == advanced(ed) && w1 == wd && r == Result::<ResponseView, StepErrorView>::Ok(
                    ResponseView::Success,
                ),
                _ => false,
            }
        },
    }
}

/// `COPY src dst`.
pub open spec fn copy_post(
    e0: ExaView,
    w0: WorldView,
    e1: ExaView,
    w1: WorldView,
    r: Result<ResponseView, StepErrorView>,
    src: ValueView,
    dst: ValueView,
) -> bool {
    match peek_source(e0, w0, src) {
        SourceOutcome::Wait(st) => blocked(e0, w0, e1, w1, r, st, ResponseView::Success),
        SourceOutcome::Fail(er) => dead(e0, w0, e1, w1, r, er),
        SourceOutcome::Val(v) => store_post(e0, w0, e1, w1, r, seq![src], dst_id(dst), v),
    }
}

/// The five arithmetic opcodes and the digit permutation.
pub enum ArithKind {
    Add,
    Subtract,
    Multiply,
    Divide,
    Modulo,
    Swiz,
}

/// Truncated division, as machine division rounds: toward zero.
pub open spec fn trunc_div(a: int, b: int) -> int {
    if (a < 0) == (b < 0) {
        abs_int(a) / abs_int(b)
    } else {
        -(abs_int(a) / abs_int(b))
    }
}

/// The remainder truncated division leaves; it takes the dividend's
/// sign.
pub open spec fn trunc_mod(a: int, b: int) -> int {
    if a < 0 {
        -(abs_int(a) % abs_int(b))
    } else {
        abs_int(a) % abs_int(b)
    }
}

/// An integer's magnitude.
pub open spec fn abs_int(a: int) -> int {
    if a < 0 {
        -a
    } else {
        a
    }
}

/// The decimal digit of `n`'s magnitude at position `p`, with position 1
/// the units.
pub open spec fn digit_at(n: int, p: int) -> int {
    (abs_int(n) / pow10(p - 1)) % 10
}

/// Ten to the power `p`, zero below zero.
pub open spec fn pow10(p: int) -> int
    decreases p,
{
    if p <= 0 {
        1
    } else {
        10 * pow10(p - 1)
    }
}

/// The sign of a number, one for zero and positives.
pub open spec fn sign_of(n: int) -> int {
    if n < 0 {
        -1
    } else {
        1
    }
}

/// The digit permutation: result position `i` takes the source digit the
/// mask digit at `i` selects; mask digits outside 1..4 give 0. The sign
/// is the product of both signs.
pub open spec fn swiz_val(a: int, b: int) -> int {
    sign_of(a) * sign_of(b) * (swiz_digit(a, b, 1) + swiz_digit(a, b, 2) * 10 + swiz_digit(
        a,
        b,
        3,
    ) * 100 + swiz_digit(a, b, 4) * 1000)
}

/// The digit the permutation puts at position `p`.
pub open spec fn swiz_digit(a: int, b: int, p: int) -> int {
    let m = digit_at(b, p);
    if 1 <= m <= 4 {
        digit_at(a, m)
    } else {
        0
    }
}

/// The value an arithmetic opcode computes.
pub open spec fn arith_val(kind: ArithKind, a: int, b: int) -> int {
    match kind {
        ArithKind::Add => a + b,
        ArithKind::Subtract => a - b,
        ArithKind::Multiply => a * b,
        ArithKind::Divide => trunc_div(a, b),
        ArithKind::Modulo => trunc_mod(a, b),
        ArithKind::Swiz => swiz_val(a, b),
    }
}

/// `ADDI`/`SUBI`/`MULI`/`DIVI`/`MODI`/`SWIZ a b dst`: both sources must
/// be numbers, a zero divisor kills, and the result goes to the
/// destination.
pub open spec fn arith_post(
    e0: ExaView,
    w0: WorldView,
    e1: ExaView,
    w1: WorldView,
    r: Result<ResponseView, StepErrorView>,
    kind: ArithKind,
    a: ValueView,
    b: ValueView,
    dst: ValueView,
) -> bool {
    match peek_source(e0, w0, a) {
        SourceOutcome::Wait(st) => blocked(e0, w0, e1, w1, r, st, ResponseView::Success),
        SourceOutcome::Fail(er) => dead(e0, w0, e1, w1, r, er),
        SourceOutcome::Val(va) => match peek_source(e0, w0, b) {
            SourceOutcome::Wait(st) => blocked(e0, w0, e1, w1, r, st, ResponseView::Success),
            SourceOutcome::Fail(er) => dead(e0, w0, e1, w1, r, er),
            SourceOutcome::Val(vb) => if !(va is Number && vb is Number) {
                dead(e0, w0, e1, w1, r, StepErrorView::MathWithKeywords(va, vb))
            } else if (kind == ArithKind::Divide || kind == ArithKind::Modulo) && vb
                == ValueView::Number(0) {
                dead(e0, w0, e1, w1, r, StepErrorView::DivideByZero(va, vb))
            } else {
                store_post(
                    e0,
                    w0,
                    e1,
                    w1,
                    r,
                    seq![a, b],
                    dst_id(dst),
                    ValueView::Number(arith_val(kind, va->Number_0, vb->Number_0)),
                )
            },
        },
    }
}

/// The three comparison operators of `TEST`.
pub enum CmpKind {
    Eq,
    Gt,
    Lt,
}

/// Character-wise lexicographic order on text.
pub open spec fn lex_lt(a: Seq<char>, b: Seq<char>) -> bool
    decreases a.len(),
{
    if b.len() == 0 {
        false
    } else if a.len() == 0 {
        true
    } else if a[0] != b[0] {
        (a[0] as int) < (b[0] as int)
    } else {
        lex_lt(a.skip(1), b.skip(1))
    }
}

/// What a comparison yields: numbers compare as numbers, keywords as
/// text, equality across kinds is false, and an order across kinds is a
/// type error.
pub open spec fn cmp_result(kind: CmpKind, a: ValueView, b: ValueView) -> Option<bool> {
    match kind {
        CmpKind::Eq => Some(a == b),
        CmpKind::Gt => match (a, b) {
            (ValueView::Number(x), ValueView::Number(y)) => Some(x > y),
            (ValueView::Keyword(x), ValueView::Keyword(y)) => Some(lex_lt(y, x)),
            _ => None,
        },
        CmpKind::Lt => match (a, b) {
            (ValueView::Number(x), ValueView::Number(y)) => Some(x < y),
            (ValueView::Keyword(x), ValueView::Keyword(y)) => Some(lex_lt(x, y)),
            _ => None,
        },
    }
}

/// The agent with its `T` register set to a truth value.
pub open spec fn set_t(e: ExaView, res: bool) -> ExaView {
    ExaView {
        t: RegisterView {
            value: Some(ValueView::Number(if res { 1int } else { 0int })),
            ..e.t
        },
        ..e
    }
}

/// `TEST a op b`: the truth of the comparison lands in `T`.
pub open spec fn test_cmp_post(
    e0: ExaView,
    w0: WorldView,
    e1: ExaView,
    w1: WorldView,
    r: Result<ResponseView, StepErrorView>,
    kind: CmpKind,
    a: ValueView,
    b: ValueView,
) -> bool {
    match peek_source(e0, w0, a) {
        SourceOutcome::Wait(st) => blocked(e0, w0, e1, w1, r, st, ResponseView::Success),
        SourceOutcome::Fail(er) => dead(e0, w0, e1, w1, r, er),
        SourceOutcome::Val(va) => match peek_source(e0, w0, b) {
            SourceOutcome::Wait(st) => blocked(e0, w0, e1, w1, r, st, ResponseView::Success),
            SourceOutcome::Fail(er) => dead(e0, w0, e1, w1, r, er),
            SourceOutcome::Val(vb) => match cmp_result(kind, va, vb) {
                None => dead(e0, w0, e1, w1, r, StepErrorView::MathWithKeywords(va, vb)),
                Some(res) => {
                    let (ec, wc) = commit_sources(e0, w0, seq![a, b]);
                    e1 == advanced(set_t(ec, res)) && w1 == wc && r == Result::<ResponseView, StepErrorView>::Ok(
                        ResponseView::Success,
                    )
                },
            },
        },
    }
}

/// `TEST EOF`: whether the held file's cursor is at its end, into `T`.
pub open spec fn test_eof_post(
    e0: ExaView,
    w0: WorldView,
    e1: ExaView,
    w1: WorldView,
    r: Result<ResponseView, StepErrorView>,
) -> bool {
    match e0.file {
        None => dead(e0, w0, e1, w1, r, StepErrorView::InvalidFRegisterAccess),
        Some(f) => e1 == advanced(set_t(e0, f.index == f.contents.len())) && w1 == w0 && r
            == Result::<ResponseView, StepErrorView>::Ok(ResponseView::Success),
    }
}

/// `TEST MRD`: whether a message is pending in the current mode, into
/// `T`; never blocks.
pub open spec fn test_mrd_post(
    e0: ExaView,
    w0: WorldView,
    e1: ExaView,
    w1: WorldView,
    r: Result<ResponseView, StepErrorView>,
) -> bool {
    e1 == advanced(set_t(e0, m_value(e0, w0) is Some)) && w1 == w0 && r == Result::<ResponseView, StepErrorView>::Ok(
        ResponseView::Success,
    )
}

/// The label text a jump operand names.
pub open spec fn label_key(v: ValueView) -> Seq<char> {
    match v {
        ValueView::LabelId(l) => l,
        _ => value_text(v),
    }
}

/// `JUMP l`: the cursor moves to the label's step.
pub open spec fn jump_post(
    e0: ExaView,
    w0: WorldView,
    e1: ExaView,
    w1: WorldView,
    r: Result<ResponseView, StepErrorView>,
    l: ValueView,
) -> bool {
    e1 == (ExaView {
        program: ProgramView { cursor: e0.program.marks[label_key(l)], ..e0.program },
        state: ExaState::Running,
        ..e0
    }) && w1 == w0 && r == Result::<ResponseView, StepErrorView>::Ok(ResponseView::Success)
}

/// A value `TJMP` takes as true: everything but the number zero.
pub open spec fn truthy(v: ValueView) -> bool {
    v != ValueView::Number(0)
}

/// `TJMP l`: jump when `T` is truthy, otherwise step on.
pub open spec fn tjmp_post(
    e0: ExaView,
    w0: WorldView,
    e1: ExaView,
    w1: WorldView,
    r: Result<ResponseView, StepErrorView>,
    l: ValueView,
) -> bool {
    if truthy(reg_read(e0.t)) {
        jump_post(e0, w0, e1, w1, r, l)
    } else {
        e1 == advanced(e0) && w1 == w0 && r == Result::<ResponseView, StepErrorView>::Ok(ResponseView::Success)
    }
}

/// `FJMP l`: jump when `T` is falsy, otherwise step on.
pub open spec fn fjmp_post(
    e0: ExaView,
    w0: WorldView,
    e1: ExaView,
    w1: WorldView,
    r: Result<ResponseView, StepErrorView>,
    l: ValueView,
) -> bool {
    if !truthy(reg_read(e0.t)) {
        jump_post(e0, w0, e1, w1, r, l)
    } else {
        e1 == advanced(e0) && w1 == w0 && r == Result::<ResponseView, StepErrorView>::Ok(ResponseView::Success)
    }
}

/// The child a `REPL` builds: fresh registers, the parent's program with
/// the cursor at the label, no file, the parent's mode.
pub open spec fn child_view(e0: ExaView, l: ValueView) -> ExaView {
    ExaView {
        id: child_id_text(e0.id, e0.next_exa_id),
        x: RegisterView { id: "X"@, value: Some(ValueView::Number(0)) },
        t: RegisterView { id: "T"@, value: Some(ValueView::Number(0)) },
        host: e0.host,
        program: ProgramView { cursor: e0.program.marks[label_key(l)], ..e0.program },
        file: None,
        next_exa_id: 0,
        mode: e0.mode,
        state: ExaState::Running,
    }
}

/// `REPL l`: with room in the host the child's id takes a slot, the
/// counter moves on and the child comes back; without room the parent
/// waits and the counter stays.
pub open spec fn repl_post(
    e0: ExaView,
    w0: WorldView,
    e1: ExaView,
    w1: WorldView,
    r: Result<ResponseView, StepErrorView>,
    l: ValueView,
) -> bool {
    let h = w0.hosts[e0.host];
    if host_used(h) < h.occupancy_limit {
        let cid = child_id_text(e0.id, e0.next_exa_id);
        let occ1 = if find_id(h.occupying_exa_ids, cid) is None {
            h.occupying_exa_ids.push(cid)
        } else {
            h.occupying_exa_ids
        };
        &&& e1 == advanced(ExaView { next_exa_id: e0.next_exa_id + 1, ..e0 })
        &&& w1 == with_host(w0, e0.host, HostView { occupying_exa_ids: occ1, ..h })
        &&& r == Result::<ResponseView, StepErrorView>::Ok(ResponseView::Replicate(child_view(e0, l)))
    } else {
        blocked(
            e0,
            w0,
            e1,
            w1,
            r,
            ExaState::WaitingForHostAvailabilityToReplicate,
            ResponseView::Success,
        )
    }
}

/// `HALT`: the agent's own slot is freed at once and the driver is told
/// to remove it this cycle.
pub open spec fn halt_post(
    e0: ExaView,
    w0: WorldView,
    e1: ExaView,
    w1: WorldView,
    r: Result<ResponseView, StepErrorView>,
) -> bool {
    let h = w0.hosts[e0.host];
    let occ1 = match find_id(h.occupying_exa_ids, e0.id) {
        Some(k) => h.occupying_exa_ids.remove(k),
        None => h.occupying_exa_ids,
    };
    &&& e1 == e0
    &&& w1 == with_host(w0, e0.host, HostView { occupying_exa_ids: occ1, ..h })
    &&& r == Result::<ResponseView, StepErrorView>::Err(StepErrorView::Halt(e0.id))
}

/// `KILL`: one other resident of the host, or failing that one
/// pre-placed agent, is chosen by a random draw, loses its slot at once
/// and is named for removal next cycle; with nobody to kill the step
/// just advances.
pub open spec fn kill_post(
    e0: ExaView,
    w0: WorldView,
    e1: ExaView,
    w1: WorldView,
    r: Result<ResponseView, StepErrorView>,
) -> bool {
    let h = w0.hosts[e0.host];
    let occ = h.occupying_exa_ids;
    if exists|k: int| 0 <= k < occ.len() && #[trigger] occ[k] != e0.id {
        exists|k: int|
            #![trigger occ.remove(k)]
            0 <= k < occ.len() && occ[k] != e0.id && e1 == advanced(e0) && w1 == with_host(
                w0,
                e0.host,
                HostView { occupying_exa_ids: occ.remove(k), ..h },
            ) && r == Result::<ResponseView, StepErrorView>::Err(StepErrorView::Kill(occ[k]))
    } else if h.system_exa_ids.len() > 0 {
        exists|k: int|
            #![trigger h.system_exa_ids.remove(k)]
            0 <= k < h.system_exa_ids.len() && e1 == advanced(e0) && w1 == with_host(
                w0,
                e0.host,
                HostView { system_exa_ids: h.system_exa_ids.remove(k), ..h },
            ) && r == Result::<ResponseView, StepErrorView>::Err(StepErrorView::Kill(h.system_exa_ids[k]))
    } else {
        e1 == advanced(e0) && w1 == w0 && r == Result::<ResponseView, StepErrorView>::Ok(ResponseView::Success)
    }
}

/// `LINK gate`: an unknown gate kills; an occupied link or a full
/// destination blocks without touching anything; otherwise the link is
/// taken for the cycle and the agent moves across.
pub open spec fn link_post(
    e0: ExaView,
    w0: WorldView,
    e1: ExaView,
    w1: WorldView,
    r: Result<ResponseView, StepErrorView>,
    gate: ValueView,
) -> bool {
    match peek_source(e0, w0, gate) {
        SourceOutcome::Wait(st) => blocked(e0, w0, e1, w1, r, st, ResponseView::Success),
        SourceOutcome::Fail(er) => dead(e0, w0, e1, w1, r, er),
        SourceOutcome::Val(v) => {
            let g = value_text(v);
            let h = w0.hosts[e0.host];
            if !h.links.contains_key(g) {
                dead(e0, w0, e1, w1, r, StepErrorView::InvalidLinkTraversal(g))
            } else {
                let li = h.links[g];
                let lk = w0.links[li];
                if lk.occupied {
                    blocked(
                        e0,
                        w0,
                        e1,
                        w1,
                        r,
                        ExaState::WaitingForLinkToOpen,
                        ResponseView::Link,
                    )
                } else {
                    match crate::host::link::link_destination(lk, g) {
                        None => dead(e0, w0, e1, w1, r, StepErrorView::InvalidLinkTraversal(g)),
                        Some(d) => if host_used(w0.hosts[d]) >= w0.hosts[d].occupancy_limit {
                            blocked(
                                e0,
                                w0,
                                e1,
                                w1,
                                r,
                                ExaState::WaitingForLinkToOpen,
                                ResponseView::Link,
                            )
                        } else {
                            let (ec, wc) = commit_source(e0, w0, gate);
                            let w_occ = WorldView {
                                links: wc.links.update(
                                    li,
                                    (crate::host::link::LinkView {
                                        occupied: true,
                                        ..wc.links[li]
                                    }),
                                ),
                                ..wc
                            };
                            let hs = w_occ.hosts[e0.host];
                            let occ1 = match find_id(hs.occupying_exa_ids, e0.id) {
                                Some(k) => hs.occupying_exa_ids.remove(k),
                                None => hs.occupying_exa_ids,
                            };
                            let w_src = with_host(
                                w_occ,
                                e0.host,
                                HostView { occupying_exa_ids: occ1, ..hs },
                            );
                            let hd = w_src.hosts[d];
                            let occ2 = if find_id(hd.occupying_exa_ids, e0.id) is None {
                                hd.occupying_exa_ids.push(e0.id)
                            } else {
                                hd.occupying_exa_ids
                            };
                            let w_dst = with_host(
                                w_src,
                                d,
                                HostView { occupying_exa_ids: occ2, ..hd },
                            );
                            &&& e1 == (ExaView {
                                host: d,
                                program: ProgramView {
                                    cursor: e0.program.cursor + 1,
                                    ..e0.program
                                },
                                state: ExaState::Running,
                                ..ec
                            })
                            &&& w1 == w_dst
                            &&& r == Result::<ResponseView, StepErrorView>::Ok(ResponseView::Link)
                        },
                    }
                }
            }
        },
    }
}

/// `HOST dst`: the host's id, as a keyword, goes to the destination.
pub open spec fn host_post(
    e0: ExaView,
    w0: WorldView,
    e1: ExaView,
    w1: WorldView,
    r: Result<ResponseView, StepErrorView>,
    dst: ValueView,
) -> bool {
    store_post(
        e0,
        w0,
        e1,
        w1,
        r,
        Seq::empty(),
        dst_id(dst),
        ValueView::Keyword(w0.hosts[e0.host].id),
    )
}

/// The other communication mode.
pub open spec fn toggled(m: CommunicationMode) -> CommunicationMode {
    match m {
        CommunicationMode::Global => CommunicationMode::Local,
        CommunicationMode::Local => CommunicationMode::Global,
    }
}

/// `MODE`: global and local switch places.
pub open spec fn mode_post(
    e0: ExaView,
    w0: WorldView,
    e1: ExaView,
    w1: WorldView,
    r: Result<ResponseView, StepErrorView>,
) -> bool {
    e1 == advanced(ExaView { mode: toggled(e0.mode), ..e0 }) && w1 == w0 && r == Result::<ResponseView, StepErrorView>::Ok(
        ResponseView::Success,
    )
}

/// `VOID M`: the pending message is consumed and discarded, or the agent
/// waits for one.
pub open spec fn voidm_post(
    e0: ExaView,
    w0: WorldView,
    e1: ExaView,
    w1: WorldView,
    r: Result<ResponseView, StepErrorView>,
) -> bool {
    match m_value(e0, w0) {
        Some(_) => e1 == advanced(e0) && w1 == with_m(e0, w0, None) && r == Result::<ResponseView, StepErrorView>::Ok(
            ResponseView::Success,
        ),
        None => blocked(e0, w0, e1, w1, r, ExaState::WaitingForMRead, ResponseView::Success),
    }
}

/// `MAKE`: holding a file already kills; otherwise a fresh empty file is
/// carried, its id drawn from the world's id source. The new file takes
/// no host slot until it is dropped.
pub open spec fn make_post(
    e0: ExaView,
    w0: WorldView,
    e1: ExaView,
    w1: WorldView,
    r: Result<ResponseView, StepErrorView>,
) -> bool {
    match e0.file {
        Some(f) => dead(e0, w0, e1, w1, r, StepErrorView::InvalidFileAccess(f.id)),
        None => {
            &&& e1 == advanced(
                ExaView {
                    file: Some(
                        FileView {
                            id: crate::text::dec_digits(w0.generator.next as nat),
                            contents: Seq::empty(),
                            index: 0,
                        },
                    ),
                    ..e0
                },
            )
            &&& w1.hosts == w0.hosts
            &&& w1.links == w0.links
            &&& w1.global_m == w0.global_m
            &&& w1.generator.avoid == w0.generator.avoid
            &&& w1.generator.next > w0.generator.next
            &&& crate::file::id_generator::id_generator_wf(w1.generator)
            &&& r == Result::<ResponseView, StepErrorView>::Ok(ResponseView::Success)
        },
    }
}

/// `GRAB src`: grabbing while holding a file kills, as does an unknown
/// id; an id among the pending files waits until next cycle; otherwise
/// the file leaves the host for the agent's hands.
pub open spec fn grab_post(
    e0: ExaView,
    w0: WorldView,
    e1: ExaView,
    w1: WorldView,
    r: Result<ResponseView, StepErrorView>,
    src: ValueView,
) -> bool {
    match peek_source(e0, w0, src) {
        SourceOutcome::Wait(st) => blocked(e0, w0, e1, w1, r, st, ResponseView::Success),
        SourceOutcome::Fail(er) => dead(e0, w0, e1, w1, r, er),
        SourceOutcome::Val(v) => {
            let t = value_text(v);
            let h = w0.hosts[e0.host];
            if e0.file is Some {
                dead(e0, w0, e1, w1, r, StepErrorView::InvalidFileAccess(t))
            } else if find_file(h.pending_files, t) is Some {
                blocked(e0, w0, e1, w1, r, ExaState::WaitingForFile, ResponseView::Success)
            } else {
                match find_file(h.files, t) {
                    None => dead(e0, w0, e1, w1, r, StepErrorView::InvalidFileAccess(t)),
                    Some(k) => {
                        let (ec, wc) = commit_source(e0, w0, src);
                        let hc = wc.hosts[e0.host];
                        &&& e1 == advanced(ExaView { file: Some(h.files[k]), ..ec })
                        &&& w1 == with_host(
                            wc,
                            e0.host,
                            HostView { files: hc.files.remove(k), ..hc },
                        )
                        &&& r == Result::<ResponseView, StepErrorView>::Ok(ResponseView::Success)
                    },
                }
            }
        },
    }
}

/// `FILE dst`: the held file's id, as a keyword, goes to the
/// destination; holding none kills.
pub open spec fn file_post(
    e0: ExaView,
    w0: WorldView,
    e1: ExaView,
    w1: WorldView,
    r: Result<ResponseView, StepErrorView>,
    dst: ValueView,
) -> bool {
    match e0.file {
        None => dead(e0, w0, e1, w1, r, StepErrorView::InvalidFRegisterAccess),
        Some(f) => store_post(
            e0,
            w0,
            e1,
            w1,
            r,
            Seq::empty(),
            dst_id(dst),
            ValueView::Keyword(f.id),
        ),
    }
}

/// `SEEK src`: the file cursor moves by the number read, saturating to
/// the file's bounds; no file kills, and so does a non-number.
pub open spec fn seek_post(
    e0: ExaView,
    w0: WorldView,
    e1: ExaView,
    w1: WorldView,
    r: Result<ResponseView, StepErrorView>,
    src: ValueView,
) -> bool {
    match peek_source(e0, w0, src) {
        SourceOutcome::Wait(st) => blocked(e0, w0, e1, w1, r, st, ResponseView::Success),
        SourceOutcome::Fail(er) => dead(e0, w0, e1, w1, r, er),
        SourceOutcome::Val(v) => match e0.file {
            None => dead(e0, w0, e1, w1, r, StepErrorView::InvalidFRegisterAccess),
            Some(_) => if !(v is Number) {
                dead(e0, w0, e1, w1, r, StepErrorView::MathWithKeywords(v, v))
            } else {
                let (ec, wc) = commit_source(e0, w0, src);
                let f = ec.file->0;
                &&& e1 == advanced(
                    ExaView {
                        file: Some(
                            FileView {
                                index: crate::file::seek_target(
                                    f.index,
                                    f.contents.len() as int,
                                    v->Number_0,
                                ),
                                ..f
                            },
                        ),
                        ..ec
                    },
                )
                &&& w1 == wc
                &&& r == Result::<ResponseView, StepErrorView>::Ok(ResponseView::Success)
            },
        },
    }
}

/// `VOID F`: the value under the file cursor is removed; at the end of
/// the file nothing changes; no file kills.
pub open spec fn voidf_post(
    e0: ExaView,
    w0: WorldView,
    e1: ExaView,
    w1: WorldView,
    r: Result<ResponseView, StepErrorView>,
) -> bool {
    match e0.file {
        None => dead(e0, w0, e1, w1, r, StepErrorView::InvalidFRegisterAccess),
        Some(f) => {
            let f1 = if f.index < f.contents.len() {
                FileView { contents: f.contents.remove(f.index), ..f }
            } else {
                f
            };
            e1 == advanced(ExaView { file: Some(f1), ..e0 }) && w1 == w0 && r == Result::<ResponseView, StepErrorView>::Ok(
                ResponseView::Success,
            )
        },
    }
}

/// `DROP`: with room the held file joins the host's pending set, dropped
/// until the cycle ends; a full host makes the agent wait; no file
/// kills.
pub open spec fn drop_post(
    e0: ExaView,
    w0: WorldView,
    e1: ExaView,
    w1: WorldView,
    r: Result<ResponseView, StepErrorView>,
) -> bool {
    match e0.file {
        None => dead(e0, w0, e1, w1, r, StepErrorView::InvalidFRegisterAccess),
        Some(f) => {
            let h = w0.hosts[e0.host];
            if host_used(h) < h.occupancy_limit {
                &&& e1 == advanced(ExaView { file: None, ..e0 })
                &&& w1 == with_host(
                    w0,
                    e0.host,
                    HostView { pending_files: h.pending_files.push(f), ..h },
                )
                &&& r == Result::<ResponseView, StepErrorView>::Ok(ResponseView::Success)
            } else {
                blocked(
                    e0,
                    w0,
                    e1,
                    w1,
                    r,
                    ExaState::WaitingForHostAvailabilityToDropFile,
                    ResponseView::Success,
                )
            }
        },
    }
}

/// `WIPE`: the held file is destroyed; holding none changes nothing.
pub open spec fn wipe_post(
    e0: ExaView,
    w0: WorldView,
    e1: ExaView,
    w1: WorldView,
    r: Result<ResponseView, StepErrorView>,
) -> bool {
    e1 == advanced(ExaView { file: None, ..e0 }) && w1 == w0 && r == Result::<ResponseView, StepErrorView>::Ok(ResponseView::Success)
}

/// `NOOP` and `NOTE`: one cycle passes.
pub open spec fn noop_post(
    e0: ExaView,
    w0: WorldView,
    e1: ExaView,
    w1: WorldView,
    r: Result<ResponseView, StepErrorView>,
) -> bool {
    e1 == advanced(e0) && w1 == w0 && r == Result::<ResponseView, StepErrorView>::Ok(ResponseView::Success)
}

/// A drawn number, wrapped as a value.
pub open spec fn picked(n: int) -> ValueView {
    ValueView::Number(n)
}

/// `RAND a b dst`: both sources must be numbers; some draw between the
/// smaller and the larger, both ends included, goes to the destination.
pub open spec fn rand_post(
    e0: ExaView,
    w0: WorldView,
    e1: ExaView,
    w1: WorldView,
    r: Result<ResponseView, StepErrorView>,
    a: ValueView,
    b: ValueView,
    dst: ValueView,
) -> bool {
    match peek_source(e0, w0, a) {
        SourceOutcome::Wait(st) => blocked(e0, w0, e1, w1, r, st, ResponseView::Success),
        SourceOutcome::Fail(er) => dead(e0, w0, e1, w1, r, er),
        SourceOutcome::Val(va) => match peek_source(e0, w0, b) {
            SourceOutcome::Wait(st) => blocked(e0, w0, e1, w1, r, st, ResponseView::Success),
            SourceOutcome::Fail(er) => dead(e0, w0, e1, w1, r, er),
            SourceOutcome::Val(vb) => if !(va is Number && vb is Number) {
                dead(e0, w0, e1, w1, r, StepErrorView::MathWithKeywords(va, vb))
            } else {
                let lo = if va->Number_0 <= vb->Number_0 {
                    va->Number_0
                } else {
                    vb->Number_0
                };
                let hi = if va->Number_0 <= vb->Number_0 {
                    vb->Number_0
                } else {
                    va->Number_0
                };
                exists|pick: int|
                    #![trigger picked(pick)]
                    lo <= pick <= hi && store_post(
                        e0,
                        w0,
                        e1,
                        w1,
                        r,
                        seq![a, b],
                        dst_id(dst),
                        picked(pick),
                    )
            },
        },
    }
}

/// What the label table guarantees of a step's operands: jump-like steps
/// carry labels, and a `MARK` never stands among the steps.
pub open spec fn step_instr_ok(i: InstructionView) -> bool {
    match i {
        InstructionView::Jump(v) => v is LabelId,
        InstructionView::JumpIfTrue(v) => v is LabelId,
        InstructionView::JumpIfFalse(v) => v is LabelId,
        InstructionView::Replicate(v) => v is LabelId,
        InstructionView::Mark(_) => false,
        _ => true,
    }
}

/// Every step of the program satisfies [`step_instr_ok`].
pub open spec fn steps_ok(p: ProgramView) -> bool {
    forall|i: int| 0 <= i < p.steps.len() ==> step_instr_ok(#[trigger] p.steps[i].1)
}

/// An agent that fits its world: a well-formed program with sound
/// operands, a host that exists, and a well-formed held file.
pub open spec fn exa_wf(e: ExaView, w: WorldView) -> bool {
    &&& crate::program::program_wf(e.program)
    &&& steps_ok(e.program)
    &&& 0 <= e.host < w.hosts.len()
    &&& (e.file matches Some(f) ==> crate::file::file_wf(f))
}

/// What a step asks of the driver: a spent id source never reaches a
/// `MAKE`, a held file's id is not already on the host when it is
/// dropped, and the replication counter has room to grow.
pub open spec fn step_assumptions(e: ExaView, w: WorldView) -> bool {
    if 0 <= e.program.cursor < e.program.steps.len() {
        match e.program.steps[e.program.cursor].1 {
            InstructionView::Make => e.file is None ==> w.generator.next
                <= crate::file::id_generator::last_id(),
            InstructionView::Drop => e.file matches Some(f) ==> find_file(
                w.hosts[e.host].files,
                f.id,
            ) is None && find_file(w.hosts[e.host].pending_files, f.id) is None,
            InstructionView::Replicate(_) => e.next_exa_id < usize::MAX as int,
            _ => true,
        }
    } else {
        true
    }
}

/// One step of one agent: what [`Exa::execute_current_instruction`]
/// does, over the models, for every instruction.
pub open spec fn step_post(
    e0: ExaView,
    w0: WorldView,
    e1: ExaView,
    w1: WorldView,
    r: Result<ResponseView, StepErrorView>,
) -> bool {
    if e0.program.cursor >= e0.program.steps.len() {
        dead(e0, w0, e1, w1, r, StepErrorView::OutOfInstructions(e0.id))
    } else {
        match e0.program.steps[e0.program.cursor].1 {
            InstructionView::Copy(a, d) => copy_post(e0, w0, e1, w1, r, a, d),
            InstructionView::Add(a, b, d) => arith_post(
                e0, w0, e1, w1, r, ArithKind::Add, a, b, d,
            ),
            InstructionView::Subtract(a, b, d) => arith_post(
                e0, w0, e1, w1, r, ArithKind::Subtract, a, b, d,
            ),
            InstructionView::Multiply(a, b, d) => arith_post(
                e0, w0, e1, w1, r, ArithKind::Multiply, a, b, d,
            ),
            InstructionView::Divide(a, b, d) => arith_post(
                e0, w0, e1, w1, r, ArithKind::Divide, a, b, d,
            ),
            InstructionView::Modulo(a, b, d) => arith_post(
                e0, w0, e1, w1, r, ArithKind::Modulo, a, b, d,
            ),
            InstructionView::Swiz(a, b, d) => arith_post(
                e0, w0, e1, w1, r, ArithKind::Swiz, a, b, d,
            ),
            InstructionView::Mark(_) => true,
            InstructionView::Jump(v) => jump_post(e0, w0, e1, w1, r, v),
            InstructionView::JumpIfTrue(v) => tjmp_post(e0, w0, e1, w1, r, v),
            InstructionView::JumpIfFalse(v) => fjmp_post(e0, w0, e1, w1, r, v),
            InstructionView::TestEqual(a, b) => test_cmp_post(
                e0, w0, e1, w1, r, CmpKind::Eq, a, b,
            ),
            InstructionView::TestGreaterThan(a, b) => test_cmp_post(
                e0, w0, e1, w1, r, CmpKind::Gt, a, b,
            ),
            InstructionView::TestLessThan(a, b) => test_cmp_post(
                e0, w0, e1, w1, r, CmpKind::Lt, a, b,
            ),
            InstructionView::Replicate(v) => repl_post(e0, w0, e1, w1, r, v),
            InstructionView::Halt => halt_post(e0, w0, e1, w1, r),
            InstructionView::Kill => kill_post(e0, w0, e1, w1, r),
            InstructionView::Link(v) => link_post(e0, w0, e1, w1, r, v),
            InstructionView::Host(d) => host_post(e0, w0, e1, w1, r, d),
            InstructionView::Mode => mode_post(e0, w0, e1, w1, r),
            InstructionView::VoidM => voidm_post(e0, w0, e1, w1, r),
            InstructionView::TestMRD => test_mrd_post(e0, w0, e1, w1, r),
            InstructionView::Make => make_post(e0, w0, e1, w1, r),
            InstructionView::Grab(v) => grab_post(e0, w0, e1, w1, r, v),
            InstructionView::File(d) => file_post(e0, w0, e1, w1, r, d),
            InstructionView::Seek(v) => seek_post(e0, w0, e1, w1, r, v),
            InstructionView::VoidF => voidf_post(e0, w0, e1, w1, r),
            InstructionView::Drop => drop_post(e0, w0, e1, w1, r),
            InstructionView::Wipe => wipe_post(e0, w0, e1, w1, r),
            InstructionView::TestEndOfFile => test_eof_post(e0, w0, e1, w1, r),
            InstructionView::Note => noop_post(e0, w0, e1, w1, r),
            InstructionView::NoOp => noop_post(e0, w0, e1, w1, r),
            InstructionView::Random(a, b, d) => rand_post(e0, w0, e1, w1, r, a, b, d),
        }
    }
}



/// Hardware register lists with the same ids in the same places are
/// searched alike.
pub proof fn lemma_find_hw_same_ids(
    s1: Seq<crate::register::HardwareRegisterView>,
    s2: Seq<crate::register::HardwareRegisterView>,
    id: Seq<char>,
)
    requires
        s1.len() == s2.len(),
        forall|i: int| 0 <= i < s1.len() ==> (#[trigger] s1[i]).id == (#[trigger] s2[i]).id,
    ensures
        find_hw(s1, id) == find_hw(s2, id),
    decreases s1.len(),
{
    if s1.len() > 0 {
        assert(forall|i: int|
            0 <= i < s1.drop_first().len() ==> (#[trigger] s1.drop_first()[i]).id == s1[i + 1].id
                && (#[trigger] s2.drop_first()[i]).id == s2[i + 1].id);
        lemma_find_hw_same_ids(s1.drop_first(), s2.drop_first(), id);
    }
}

/// Two hosts of one skeleton: everything the occupancy invariant sees
/// is the same; only register contents and the message cell may differ.
pub open spec fn same_skeleton(h1: HostView, h0: HostView) -> bool {
    &&& h1.id == h0.id
    &&& h1.occupancy_limit == h0.occupancy_limit
    &&& h1.links == h0.links
    &&& h1.files == h0.files
    &&& h1.pending_files == h0.pending_files
    &&& h1.system_exa_ids == h0.system_exa_ids
    &&& h1.occupying_exa_ids == h0.occupying_exa_ids
    &&& h1.hardware_registers.len() == h0.hardware_registers.len()
    &&& (forall|i: int|
        0 <= i < h0.hardware_registers.len() ==> (#[trigger] h1.hardware_registers[i]).id == (
        #[trigger] h0.hardware_registers[i]).id)
}

/// Hosts of one skeleton are equally well formed.
pub proof fn lemma_same_skeleton_wf(h1: HostView, h0: HostView)
    requires
        same_skeleton(h1, h0),
        crate::host::host_wf(h0),
    ensures
        crate::host::host_wf(h1),
{
    assert forall|i: int, j: int|
        0 <= i < j < h1.hardware_registers.len() implies (
    #[trigger] h1.hardware_registers[i]).id != (#[trigger] h1.hardware_registers[j]).id by {
        assert(h1.hardware_registers[i].id == h0.hardware_registers[i].id);
        assert(h1.hardware_registers[j].id == h0.hardware_registers[j].id);
    }
}

/// Committing a source keeps every host's skeleton.
pub proof fn lemma_commit_keeps_hosts(e0: ExaView, w0: WorldView, src: ValueView)
    requires
        0 <= e0.host < w0.hosts.len(),
    ensures
        ({
            let (ec, wc) = commit_source(e0, w0, src);
            &&& wc.hosts.len() == w0.hosts.len()
            &&& (forall|i: int|
                0 <= i < w0.hosts.len() ==> same_skeleton(
                    #[trigger] wc.hosts[i],
                    w0.hosts[i],
                ))
            &&& wc.links == w0.links
            &&& wc.generator == w0.generator
        }),
{
    let (ec, wc) = commit_source(e0, w0, src);
    match src {
        ValueView::RegisterId(sid) => {
            if sid == "F"@ || sid == "X"@ || sid == "T"@ {
            } else if sid == "M"@ {
            } else {
                let hws0 = w0.hosts[e0.host].hardware_registers;
                match find_hw(hws0, sid) {
                    Some(k) => {
                        crate::host::lemma_find_hw_some(hws0, sid);
                    },
                    None => {},
                }
            }
        },
        _ => {},
    }
}

/// A world stays well formed when one host is exchanged for a well
/// formed host with the same gates, while links and id source stay.
pub proof fn lemma_world_wf_update(w0: WorldView, w1: WorldView, i: int, h: HostView)
    requires
        crate::world::world_wf(w0),
        0 <= i < w0.hosts.len(),
        w1.hosts == w0.hosts.update(i, h),
        w1.links == w0.links,
        w1.generator == w0.generator,
        crate::host::host_wf(h),
        h.links == w0.hosts[i].links,
    ensures
        crate::world::world_wf(w1),
{
    assert forall|k: int| 0 <= k < w1.hosts.len() implies crate::host::host_wf(
        #[trigger] w1.hosts[k],
    ) by {
        if k != i {
            assert(w1.hosts[k] == w0.hosts[k]);
        }
    }
    assert forall|k: int, g: Seq<char>|
        0 <= k < w1.hosts.len() && (#[trigger] w1.hosts[k]).links.contains_key(g) implies 0
        <= #[trigger] w1.hosts[k].links[g] < w1.links.len() by {
        if k != i {
            assert(w1.hosts[k] == w0.hosts[k]);
        } else {
            assert(w1.hosts[k].links == w0.hosts[i].links);
        }
    }
}

/// Removing one held file keeps a host well formed.
pub proof fn lemma_host_wf_files_remove(h: HostView, k: int)
    requires
        crate::host::host_wf(h),
        0 <= k < h.files.len(),
    ensures
        crate::host::host_wf(HostView { files: h.files.remove(k), ..h }),
{
    let h1 = HostView { files: h.files.remove(k), ..h };
    assert forall|i: int| 0 <= i < h1.files.len() implies crate::file::file_wf(
        #[trigger] h1.files[i],
    ) by {
        if i < k {
            assert(h1.files[i] == h.files[i]);
        } else {
            assert(h1.files[i] == h.files[i + 1]);
        }
    }
    assert forall|i: int, j: int| 0 <= i < j < h1.files.len() implies (
    #[trigger] h1.files[i]).id != (#[trigger] h1.files[j]).id by {
        let i0 = if i < k { i } else { i + 1 };
        let j0 = if j < k { j } else { j + 1 };
        assert(h1.files[i] == h.files[i0]);
        assert(h1.files[j] == h.files[j0]);
    }
    assert forall|i: int, j: int|
        0 <= i < h1.files.len() && 0 <= j < h1.pending_files.len() implies (
    #[trigger] h1.files[i]).id != (#[trigger] h1.pending_files[j]).id by {
        let i0 = if i < k { i } else { i + 1 };
        assert(h1.files[i] == h.files[i0]);
    }
}

/// Striking one resident id keeps a host well formed.
pub proof fn lemma_host_wf_occ_remove(h: HostView, k: int)
    requires
        crate::host::host_wf(h),
        0 <= k < h.occupying_exa_ids.len(),
    ensures
        crate::host::host_wf(HostView { occupying_exa_ids: h.occupying_exa_ids.remove(k), ..h }),
{
    let h1 = HostView { occupying_exa_ids: h.occupying_exa_ids.remove(k), ..h };
    assert forall|i: int, j: int|
        0 <= i < j < h1.occupying_exa_ids.len() implies #[trigger] h1.occupying_exa_ids[i]
        != #[trigger] h1.occupying_exa_ids[j] by {
        let i0 = if i < k { i } else { i + 1 };
        let j0 = if j < k { j } else { j + 1 };
        assert(h1.occupying_exa_ids[i] == h.occupying_exa_ids[i0]);
        assert(h1.occupying_exa_ids[j] == h.occupying_exa_ids[j0]);
    }
}

/// Striking one pre-placed agent keeps a host well formed.
pub proof fn lemma_host_wf_sys_remove(h: HostView, k: int)
    requires
        crate::host::host_wf(h),
        0 <= k < h.system_exa_ids.len(),
    ensures
        crate::host::host_wf(HostView { system_exa_ids: h.system_exa_ids.remove(k), ..h }),
{
}

/// Committing a source keeps the world well formed.
pub proof fn lemma_commit_preserves_world_wf(e: ExaView, w: WorldView, src: ValueView)
    requires
        crate::world::world_wf(w),
        0 <= e.host < w.hosts.len(),
    ensures
        crate::world::world_wf(commit_source(e, w, src).1),
{
    let wc = commit_source(e, w, src).1;
    lemma_commit_keeps_hosts(e, w, src);
    if wc != w {
        assert forall|i: int| 0 <= i < wc.hosts.len() implies crate::host::host_wf(
            #[trigger] wc.hosts[i],
        ) by {
            lemma_same_skeleton_wf(wc.hosts[i], w.hosts[i]);
        }
        assert forall|i: int, g: Seq<char>|
            0 <= i < wc.hosts.len() && (#[trigger] wc.hosts[i]).links.contains_key(g) implies 0
            <= #[trigger] wc.hosts[i].links[g] < wc.links.len() by {
            assert(wc.hosts[i].links == w.hosts[i].links);
        }
    }
}

/// A permitted write keeps the world well formed, and a held file stays
/// well formed.
pub proof fn lemma_write_preserves_wf(e: ExaView, w: WorldView, d: Seq<char>, val: ValueView)
    requires
        crate::world::world_wf(w),
        0 <= e.host < w.hosts.len(),
        e.file matches Some(f) ==> crate::file::file_wf(f),
        write_dest(e, w, d, val) is Done,
    ensures
        ({
            let done = write_dest(e, w, d, val);
            match done {
                WriteOutcome::Done(e1, w1) => crate::world::world_wf(w1) && (e1.file
                    matches Some(f) ==> crate::file::file_wf(f)) && e1.host == e.host,
                _ => true,
            }
        }),
{
    let done = write_dest(e, w, d, val);
    match done {
        WriteOutcome::Done(e1, w1) => {
            if w1.hosts != w.hosts {
                let h0 = w.hosts[e.host];
                let h1 = w1.hosts[e.host];
                if !(d == "X"@ || d == "T"@ || d == "F"@ || d == "M"@) {
                    match find_hw(h0.hardware_registers, d) {
                        Some(k) => {
                            crate::host::lemma_find_hw_some(h0.hardware_registers, d);
                        },
                        None => {},
                    }
                }
                assert(same_skeleton(h1, h0));
                lemma_same_skeleton_wf(h1, h0);
                lemma_world_wf_update(w, w1, e.host, h1);
            } else {
                assert(crate::world::world_wf(w1));
            }
        },
        _ => {},
    }
}

/// A destination allowed before the sources' effects stays allowed after
/// them: committing a source can only empty the message cell, move the
/// file cursor, or pop a hardware queue, none of which closes a
/// destination that was open.
pub proof fn lemma_commit_keeps_dest(
    e0: ExaView,
    w0: WorldView,
    src: ValueView,
    d: Seq<char>,
    val: ValueView,
)
    requires
        0 <= e0.host < w0.hosts.len(),
        write_dest(e0, w0, d, val) is Done,
    ensures
        ({
            let (ec, wc) = commit_source(e0, w0, src);
            write_dest(ec, wc, d, val) is Done
        }),
{
    let (ec, wc) = commit_source(e0, w0, src);
    assert(ec.host == e0.host);
    assert(ec.mode == e0.mode);
    if !(d == "X"@ || d == "T"@ || d == "F"@ || d == "M"@) {
        let hws0 = w0.hosts[e0.host].hardware_registers;
        let hwsc = wc.hosts[ec.host].hardware_registers;
        match src {
            ValueView::RegisterId(sid) => {
                if sid == "F"@ || sid == "M"@ || sid == "X"@ || sid == "T"@ {
                } else {
                    match find_hw(hws0, sid) {
                        Some(k) => {
                            crate::host::lemma_find_hw_some(hws0, sid);
                        },
                        None => {},
                    }
                }
            },
            _ => {},
        }
        assert(hws0.len() == hwsc.len());
        assert(forall|i: int|
            0 <= i < hws0.len() ==> (#[trigger] hws0[i]).id == (#[trigger] hwsc[i]).id);
        lemma_find_hw_same_ids(hws0, hwsc, d);
    }
}

} // verus!
