//! Agents: each one executes one instruction per cycle against its host
//! and the world, and every step advances, blocks, replicates, or dies.

use vstd::prelude::*;
use vstd::string::StringExecFns;

use crate::file::{File, FileView};
use crate::instruction::Instruction;
use crate::program::{Program, ProgramView};
use crate::register::{writable, BasicRegister, RegisterView};
use crate::step::{
    advanced, arith_val, blocked, commit_source, commit_sources, dead, error_view, label_key,
    lemma_commit_keeps_dest, m_value, peek_source, range_fail, step_assumptions, step_post,
    step_result_view, store_post, write_dest, ArithKind, CmpKind, ResponseView, SourceOutcome,
    StepErrorView, WriteOutcome,
};
use crate::text::str_eq;
use crate::value::{value_eq, Value, ValueView};
use crate::world::{world_wf, World, WorldView};

verus! {

/// Which audience the `M` register talks to: every agent in the same
/// mode everywhere, or only those in the same host.
#[derive(Debug, Clone, Copy, PartialEq, Eq, Structural)]
pub enum CommunicationMode {
    Global,
    Local,
}

/// What an agent is doing: running, or waiting for one resource.
#[derive(Debug, Clone, Copy, PartialEq, Eq, Structural)]
pub enum ExaState {
    Running,
    WaitingForFile,
    WaitingForMRead,
    WaitingForMWrite,
    WaitingForLinkToOpen,
    WaitingForHostAvailabilityToDropFile,
    WaitingForHostAvailabilityToReplicate,
}

/// The model of an agent.
#[verifier::ext_equal]
pub struct ExaView {
    pub id: Seq<char>,
    pub x: RegisterView,
    pub t: RegisterView,
    pub host: int,
    pub program: ProgramView,
    pub file: Option<FileView>,
    pub next_exa_id: int,
    pub mode: CommunicationMode,
    pub state: ExaState,
}

/// The model of a held file.
pub open spec fn file_view(f: Option<File>) -> Option<FileView> {
    match f {
        Some(file) => Some(file@),
        None => None,
    }
}

/// A mobile agent: private `X` and `T` registers, a program with its
/// cursor, at most one carried file, a communication mode, and a
/// blocking state.
#[derive(Debug)]
pub struct Exa {
    pub id: String,
    pub(crate) x_register: BasicRegister,
    pub(crate) t_register: BasicRegister,
    pub(crate) host: usize,
    pub(crate) program: Program,
    pub(crate) file: Option<File>,
    pub(crate) next_exa_id: usize,
    pub(crate) communication_mode: CommunicationMode,
    pub(crate) state: ExaState,
}

impl View for Exa {
    type V = ExaView;

    closed spec fn view(&self) -> ExaView {
        ExaView {
            id: self.id@,
            x: self.x_register@,
            t: self.t_register@,
            host: self.host as int,
            program: self.program@,
            file: file_view(self.file),
            next_exa_id: self.next_exa_id as int,
            mode: self.communication_mode,
            state: self.state,
        }
    }
}

impl Exa {
    /// A fresh agent: `X` and `T` hold zero, no file is carried, the
    /// mode is global, and the program stands at its first step.
    pub fn new(id: &str, program: Program, host: usize) -> (e: Self)
        ensures
            e@.id == id@,
            e@.x == (RegisterView { id: "X"@, value: Some(ValueView::Number(0)) }),
            e@.t == (RegisterView { id: "T"@, value: Some(ValueView::Number(0)) }),
            e@.host == host as int,
            e@.program == program@,
            e@.file is None,
            e@.next_exa_id == 0,
            e@.mode == CommunicationMode::Global,
            e@.state == ExaState::Running,
    {
        let mut x_register = BasicRegister::new("X");
        let rx = x_register.write(&Value::Number(0));
        let mut t_register = BasicRegister::new("T");
        let rt = t_register.write(&Value::Number(0));
        Exa {
            id: id.to_owned(),
            x_register,
            t_register,
            host,
            program,
            file: None,
            next_exa_id: 0,
            communication_mode: CommunicationMode::Global,
            state: ExaState::Running,
        }
    }

    /// The step under the program cursor, without moving it.
    pub fn peak_current_instruction(&self) -> (r: Option<(usize, crate::instruction::Instruction)>)
        ensures
            self@.program.cursor < self@.program.steps.len() ==> (r matches Some(p) && (
            p.0 as int,
            p.1@,
            ) == self@.program.steps[self@.program.cursor]),
            self@.program.cursor >= self@.program.steps.len() ==> r is None,
    {
        self.program.peak_current_instruction()
    }

    /// The id the next replicated child will carry: this agent's id,
    /// a separator, and the counter, which then moves on.
    pub fn next_replicated_exa_id(&mut self) -> (r: String)
        requires
            old(self)@.next_exa_id < usize::MAX,
        ensures
            r@ == child_id_text(old(self)@.id, old(self)@.next_exa_id),
            final(self)@ == (ExaView { next_exa_id: old(self)@.next_exa_id + 1, ..old(self)@ }),
    {
        proof {
            reveal_strlit(":");
        }
        let sep: &str = ":";
        proof {
            assert(sep@ =~= seq![':']);
        }
        let counter = crate::text::u64_to_string(self.next_exa_id as u64);
        let result = self.id.clone().concat(sep).concat(counter.as_str());
        self.next_exa_id = self.next_exa_id + 1;
        proof {
            assert(result@ =~= child_id_text(old(self)@.id, old(self)@.next_exa_id));
        }
        result
    }

    /// Moves the program cursor one step forward without executing.
    pub fn advance_program(&mut self)
        requires
            old(self)@.program.cursor < old(self)@.program.steps.len(),
        ensures
            final(self)@ == (ExaView {
                program: ProgramView {
                    cursor: old(self)@.program.cursor + 1,
                    ..old(self)@.program
                },
                ..old(self)@
            }),
    {
        self.program.advance();
    }

    /// Hands the carried file to the caller, if there is one.
    pub fn drop_file(&mut self) -> (r: Option<File>)
        ensures
            file_view(r) == old(self)@.file,
            final(self)@ == (ExaView { file: None, ..old(self)@ }),
    {
        self.file.take()
    }

    /// Consumes the agent, handing back its id.
    pub fn into_id(self) -> (s: String)
        ensures
            s@ == self@.id,
    {
        self.id
    }

    /// What this agent is doing.
    pub fn state(&self) -> (s: ExaState)
        ensures
            s == self@.state,
    {
        self.state
    }

    /// Which host this agent stands in.
    pub fn host_index(&self) -> (h: usize)
        ensures
            h as int == self@.host,
    {
        self.host
    }

    /// A clone of what the `X` register holds.
    pub fn read_x(&self) -> (r: Option<Value>)
        ensures
            crate::value::opt_view(r) == self@.x.value,
    {
        match self.x_register.read() {
            Ok(v) => v,
            Err(_) => None,
        }
    }

    /// A clone of what the `T` register holds.
    pub fn read_t(&self) -> (r: Option<Value>)
        ensures
            crate::value::opt_view(r) == self@.t.value,
    {
        match self.t_register.read() {
            Ok(v) => v,
            Err(_) => None,
        }
    }

    /// A clone of the carried file, if any.
    pub fn held_file(&self) -> (r: Option<File>)
        ensures
            file_view(r) == self@.file,
    {
        match &self.file {
            Some(f) => Some(f.clone()),
            None => None,
        }
    }
}

/// The id a child gets: the parent's id, `:`, and the counter.
pub open spec fn child_id_text(parent: Seq<char>, counter: int) -> Seq<char> {
    parent + seq![':'] + crate::text::dec_digits(counter as nat)
}

/// A successful step's outcome.
#[derive(Debug)]
pub enum ExecutionResponse {
    /// An ordinary advance.
    Success,
    /// A `LINK` was handled, by moving or by waiting.
    Link,
    /// A `REPL` produced this child.
    Replicate(Exa),
}

impl PartialEq for ExecutionResponse {
    fn eq(&self, other: &Self) -> bool {
        match (self, other) {
            (ExecutionResponse::Success, ExecutionResponse::Success) => true,
            (ExecutionResponse::Link, ExecutionResponse::Link) => true,
            (ExecutionResponse::Replicate(_), ExecutionResponse::Replicate(_)) => true,
            _ => false,
        }
    }
}

impl vstd::std_specs::cmp::PartialEqSpecImpl for ExecutionResponse {
    open spec fn obeys_eq_spec() -> bool {
        true
    }

    open spec fn eq_spec(&self, other: &Self) -> bool {
        match (self, other) {
            (ExecutionResponse::Success, ExecutionResponse::Success) => true,
            (ExecutionResponse::Link, ExecutionResponse::Link) => true,
            (ExecutionResponse::Replicate(_), ExecutionResponse::Replicate(_)) => true,
            _ => false,
        }
    }
}

/// Why a step failed, and so which agent must die and when.
///
/// `Halt`, `OutOfInstructions` and `Kill` carry the id of the agent to
/// remove; the others fault the stepping agent itself. A number that an
/// arithmetic step tried to write outside `[-9999, 9999]` comes back in
/// `NumberValueTooSmall` or `NumberValueTooLarge`, saturated to the
/// machine's signed 64-bit range.
#[derive(Debug, PartialEq)]
pub enum ExecutionResponseError {
    /// The agent halted itself; it dies this cycle.
    Halt(String),
    /// The cursor ran off the end; the agent dies next cycle.
    OutOfInstructions(String),
    /// Another agent's `KILL` chose this id; it dies next cycle.
    Kill(String),
    /// Division or modulus by zero; holds numerator and denominator.
    DivideByZero(Value, Value),
    /// Arithmetic or an ordering on something not a number.
    MathWithKeywords(Value, Value),
    /// `F` used without a held file, or read at the end of the file.
    InvalidFRegisterAccess,
    /// A read of a write-only register, any use of an unknown `#`
    /// register, or an out-of-range number written to one.
    InvalidHardwareRegisterAccess(String),
    /// A `GRAB` of an unknown file id, or a `MAKE`/`GRAB` while already
    /// holding a file.
    InvalidFileAccess(String),
    /// A `LINK` through an unknown gate.
    InvalidLinkTraversal(String),
    /// A write of a number below -9999.
    NumberValueTooSmall(Value),
    /// A write of a number above 9999.
    NumberValueTooLarge(Value),
}


impl Clone for ExecutionResponseError {
    /// A copy naming the same fault over the same values.
    fn clone(&self) -> (r: Self)
        ensures
            error_view(r) == error_view(*self),
    {
        match self {
            ExecutionResponseError::Halt(s) => ExecutionResponseError::Halt(s.clone()),
            ExecutionResponseError::OutOfInstructions(s) =>
                ExecutionResponseError::OutOfInstructions(s.clone()),
            ExecutionResponseError::Kill(s) => ExecutionResponseError::Kill(s.clone()),
            ExecutionResponseError::DivideByZero(a, b) => ExecutionResponseError::DivideByZero(
                a.clone(),
                b.clone(),
            ),
            ExecutionResponseError::MathWithKeywords(a, b) =>
                ExecutionResponseError::MathWithKeywords(a.clone(), b.clone()),
            ExecutionResponseError::InvalidFRegisterAccess =>
                ExecutionResponseError::InvalidFRegisterAccess,
            ExecutionResponseError::InvalidHardwareRegisterAccess(s) =>
                ExecutionResponseError::InvalidHardwareRegisterAccess(s.clone()),
            ExecutionResponseError::InvalidFileAccess(s) =>
                ExecutionResponseError::InvalidFileAccess(s.clone()),
            ExecutionResponseError::InvalidLinkTraversal(s) =>
                ExecutionResponseError::InvalidLinkTraversal(s.clone()),
            ExecutionResponseError::NumberValueTooSmall(v) =>
                ExecutionResponseError::NumberValueTooSmall(v.clone()),
            ExecutionResponseError::NumberValueTooLarge(v) =>
                ExecutionResponseError::NumberValueTooLarge(v.clone()),
        }
    }
}

/// What evaluating a source operand yielded, carried in executable form.
pub(crate) enum SourcePeek {
    Val(Value),
    Wait(ExaState),
    Fail(ExecutionResponseError),
}

/// What a destination pre-check yielded.
pub(crate) enum DestCheck {
    Proceed,
    Wait(ExaState),
    Fail(ExecutionResponseError),
}

/// Whether a value may be stored in a register.
pub(crate) fn value_writable(v: &Value) -> (b: bool)
    ensures
        b == writable(v@),
{
    match v {
        Value::Number(n) => -9999 <= *n && *n <= 9999,
        Value::Keyword(_) => true,
        _ => false,
    }
}

/// The range error a refused number earns; for a storable value any
/// placeholder comes back, never used.
pub(crate) fn range_error_of(v: &Value) -> (e: ExecutionResponseError)
    ensures
        !writable(v@) ==> error_view(e) == range_fail(v@),
{
    match v {
        Value::Number(n) => if *n < -9999 {
            ExecutionResponseError::NumberValueTooSmall(v.clone())
        } else {
            ExecutionResponseError::NumberValueTooLarge(v.clone())
        },
        _ => ExecutionResponseError::InvalidFRegisterAccess,
    }
}

/// The register name a destination operand stands for, as text.
pub(crate) fn dest_name(v: &Value) -> (s: String)
    ensures
        s@ == crate::step::dst_id(v@),
{
    match v {
        Value::RegisterId(id) => id.clone(),
        _ => v.to_text(),
    }
}

/// The sources an instruction reads, in order, as the spec sees them.
pub(crate) open spec fn opt2seq(a: Option<ValueView>, b: Option<ValueView>) -> Seq<ValueView> {
    match (a, b) {
        (None, None) => Seq::empty(),
        (Some(x), None) => seq![x],
        (None, Some(y)) => seq![y],
        (Some(x), Some(y)) => seq![x, y],
    }
}

/// The view of an optional operand.
pub(crate) open spec fn opt_val_view(v: Option<&Value>) -> Option<ValueView> {
    match v {
        Some(x) => Some(x@),
        None => None,
    }
}

impl Exa {
    /// Evaluates a source operand without applying its effect.
    pub(crate) fn peek_src(&self, world: &World, v: &Value) -> (r: SourcePeek)
        requires
            0 <= self@.host < world@.hosts.len(),
        ensures
            match r {
                SourcePeek::Val(x) => peek_source(self@, world@, v@) == SourceOutcome::Val(x@),
                SourcePeek::Wait(st) => peek_source(self@, world@, v@) == SourceOutcome::Wait(
                    st,
                ),
                SourcePeek::Fail(e) => peek_source(self@, world@, v@) == SourceOutcome::Fail(
                    error_view(e),
                ),
            },
    {
        match v {
            Value::RegisterId(id) => {
                if str_eq(id.as_str(), "X") {
                    match self.x_register.read() {
                        Ok(Some(x)) => SourcePeek::Val(x),
                        _ => SourcePeek::Val(Value::Number(0)),
                    }
                } else if str_eq(id.as_str(), "T") {
                    match self.t_register.read() {
                        Ok(Some(x)) => SourcePeek::Val(x),
                        _ => SourcePeek::Val(Value::Number(0)),
                    }
                } else if str_eq(id.as_str(), "F") {
                    match &self.file {
                        None => SourcePeek::Fail(
                            ExecutionResponseError::InvalidFRegisterAccess,
                        ),
                        Some(f) => match f.current() {
                            Some(x) => SourcePeek::Val(x),
                            None => SourcePeek::Fail(
                                ExecutionResponseError::InvalidFRegisterAccess,
                            ),
                        },
                    }
                } else if str_eq(id.as_str(), "M") {
                    let cell = match self.communication_mode {
                        CommunicationMode::Global => world.global_m_read(),
                        CommunicationMode::Local => world.host(self.host).local_m_read(),
                    };
                    match cell {
                        Some(x) => SourcePeek::Val(x),
                        None => SourcePeek::Wait(ExaState::WaitingForMRead),
                    }
                } else {
                    let h = world.host(self.host);
                    match h.find_hw_index(id.as_str()) {
                        None => SourcePeek::Fail(
                            ExecutionResponseError::InvalidHardwareRegisterAccess(id.clone()),
                        ),
                        Some(k) => match h.hw_read_at(k) {
                            Err(_) => SourcePeek::Fail(
                                ExecutionResponseError::InvalidHardwareRegisterAccess(
                                    id.clone(),
                                ),
                            ),
                            Ok(Some(x)) => SourcePeek::Val(x),
                            Ok(None) => SourcePeek::Val(Value::Number(0)),
                        },
                    }
                }
            },
            _ => SourcePeek::Val(v.clone()),
        }
    }

    /// Checks what writing a value of the given storability at the named
    /// destination would do, without touching anything; `range_err` is
    /// the error a refused number earns at a plain register.
    pub(crate) fn check_dest(
        &self,
        world: &World,
        dname: &str,
        val_ok: bool,
        range_err: &ExecutionResponseError,
        Ghost(val): Ghost<ValueView>,
    ) -> (c: DestCheck)
        requires
            0 <= self@.host < world@.hosts.len(),
            val_ok == writable(val),
            !writable(val) ==> error_view(*range_err) == range_fail(val),
        ensures
            match c {
                DestCheck::Proceed => write_dest(self@, world@, dname@, val) is Done,
                DestCheck::Wait(st) => write_dest(self@, world@, dname@, val)
                    == WriteOutcome::Wait(st),
                DestCheck::Fail(e) => write_dest(self@, world@, dname@, val)
                    == WriteOutcome::Fail(error_view(e)),
            },
    {
        if str_eq(dname, "X") || str_eq(dname, "T") {
            if val_ok {
                DestCheck::Proceed
            } else {
                DestCheck::Fail(range_err.clone())
            }
        } else if str_eq(dname, "F") {
            match &self.file {
                None => DestCheck::Fail(ExecutionResponseError::InvalidFRegisterAccess),
                Some(_) => if val_ok {
                    DestCheck::Proceed
                } else {
                    DestCheck::Fail(range_err.clone())
                },
            }
        } else if str_eq(dname, "M") {
            let cell = match self.communication_mode {
                CommunicationMode::Global => world.global_m_read(),
                CommunicationMode::Local => world.host(self.host).local_m_read(),
            };
            match cell {
                Some(_) => DestCheck::Wait(ExaState::WaitingForMWrite),
                None => if val_ok {
                    DestCheck::Proceed
                } else {
                    DestCheck::Fail(range_err.clone())
                },
            }
        } else {
            let h = world.host(self.host);
            match h.find_hw_index(dname) {
                None => DestCheck::Fail(
                    ExecutionResponseError::InvalidHardwareRegisterAccess(dname.to_owned()),
                ),
                Some(_) => if !val_ok {
                    DestCheck::Fail(
                        ExecutionResponseError::InvalidHardwareRegisterAccess(
                            dname.to_owned(),
                        ),
                    )
                } else {
                    DestCheck::Proceed
                },
            }
        }
    }

    /// Applies the effect of having read a source operand.
    pub(crate) fn commit_src(&mut self, world: &mut World, v: &Value)
        requires
            0 <= old(self)@.host < old(world)@.hosts.len(),
            old(self)@.file matches Some(f) ==> crate::file::file_wf(f),
        ensures
            (final(self)@, final(world)@) == commit_source(old(self)@, old(world)@, v@),
            final(self)@.file matches Some(f) ==> crate::file::file_wf(f),
    {
        match v {
            Value::RegisterId(id) => {
                if str_eq(id.as_str(), "F") {
                    match &mut self.file {
                        Some(f) => {
                            f.adjust_index(1);
                        },
                        None => {},
                    }
                } else if str_eq(id.as_str(), "M") {
                    match self.communication_mode {
                        CommunicationMode::Global => {
                            let taken = world.global_m_take();
                            proof {
                                assert(final(world)@ == crate::step::with_m(
                                    old(self)@,
                                    old(world)@,
                                    None,
                                ));
                            }
                        },
                        CommunicationMode::Local => {
                            let ghost w0 = world@;
                            let mut h = world.take_host(self.host);
                            let taken = h.local_m_take();
                            world.put_host(self.host, h);
                            proof {
                                assert(w0.hosts.remove(self@.host).insert(self@.host, h@)
                                    =~= w0.hosts.update(self@.host, h@));
                                assert(final(world)@ == crate::step::with_m(
                                    old(self)@,
                                    old(world)@,
                                    None,
                                ));
                            }
                        },
                    }
                } else if str_eq(id.as_str(), "X") || str_eq(id.as_str(), "T") {
                } else {
                    let ghost w0 = world@;
                    let mut h = world.take_host(self.host);
                    match h.find_hw_index(id.as_str()) {
                        Some(k) => {
                            h.hw_pop_at(k);
                        },
                        None => {},
                    }
                    world.put_host(self.host, h);
                    proof {
                        assert(w0.hosts.remove(self@.host).insert(self@.host, h@)
                            =~= w0.hosts.update(self@.host, h@));
                        let hv0 = w0.hosts[self@.host];
                        match crate::host::find_hw(hv0.hardware_registers, id@) {
                            Some(k) => {
                                crate::host::lemma_find_hw_some(hv0.hardware_registers, id@);
                                if !(hv0.hardware_registers[k].mode
                                    == crate::register::AccessMode::ReadOnly
                                    && hv0.hardware_registers[k].values.len() > 0) {
                                    assert(h@ == hv0);
                                    assert(w0.hosts.update(self@.host, h@) =~= w0.hosts);
                                }
                            },
                            None => {
                                assert(h@ == hv0);
                                assert(w0.hosts.update(self@.host, h@) =~= w0.hosts);
                            },
                        }
                        assert(final(world)@ =~= commit_source(
                            old(self)@,
                            old(world)@,
                            v@,
                        ).1);
                        assert((final(self)@, final(world)@) == commit_source(
                            old(self)@,
                            old(world)@,
                            v@,
                        ));
                    }
                }
            },
            _ => {},
        }
    }

    /// Writes a value at the named destination; the pre-check must have
    /// allowed it.
    pub(crate) fn apply_dest(&mut self, world: &mut World, dname: &str, val: &Value)
        requires
            0 <= old(self)@.host < old(world)@.hosts.len(),
            old(self)@.file matches Some(f) ==> crate::file::file_wf(f),
            write_dest(old(self)@, old(world)@, dname@, val@) is Done,
        ensures
            WriteOutcome::Done(final(self)@, final(world)@) == write_dest(
                old(self)@,
                old(world)@,
                dname@,
                val@,
            ),
            final(self)@.file matches Some(f) ==> crate::file::file_wf(f),
    {
        if str_eq(dname, "X") {
            let w = self.x_register.write(val);
        } else if str_eq(dname, "T") {
            let w = self.t_register.write(val);
        } else if str_eq(dname, "F") {
            match &mut self.file {
                Some(f) => {
                    f.replace_current(val);
                    f.adjust_index(1);
                },
                None => {},
            }
        } else if str_eq(dname, "M") {
            match self.communication_mode {
                CommunicationMode::Global => {
                    let w = world.global_m_write(val);
                },
                CommunicationMode::Local => {
                    let ghost w0 = world@;
                    let mut h = world.take_host(self.host);
                    let w = h.local_m_write(val);
                    world.put_host(self.host, h);
                    proof {
                        assert(w0.hosts.remove(self@.host).insert(self@.host, h@)
                            =~= w0.hosts.update(self@.host, h@));
                        assert(final(world)@ == crate::step::with_m(
                            old(self)@,
                            old(world)@,
                            Some(val@),
                        ));
                    }
                },
            }
        } else {
            let ghost w0 = world@;
            let mut h = world.take_host(self.host);
            match h.find_hw_index(dname) {
                Some(k) => {
                    let w = h.hw_write_at(k, val);
                },
                None => {},
            }
            world.put_host(self.host, h);
            proof {
                assert(w0.hosts.remove(self@.host).insert(self@.host, h@)
                    =~= w0.hosts.update(self@.host, h@));
                let hv0 = w0.hosts[self@.host];
                match crate::host::find_hw(hv0.hardware_registers, dname@) {
                    Some(k) => {
                        crate::host::lemma_find_hw_some(hv0.hardware_registers, dname@);
                        if hv0.hardware_registers[k].mode
                            == crate::register::AccessMode::ReadOnly {
                            assert(w0.hosts.update(self@.host, h@) =~= w0.hosts);
                        }
                    },
                    None => {},
                }
                assert(WriteOutcome::Done(final(self)@, final(world)@) == write_dest(
                    old(self)@,
                    old(world)@,
                    dname@,
                    val@,
                ));
            }
        }
    }

    /// Blocks the step: the state records the wait, nothing else moves.
    fn block(&mut self, st: ExaState)
        ensures
            final(self)@ == (ExaView { state: st, ..old(self)@ }),
    {
        self.state = st;
    }

    /// Finishes a successful step: the cursor moves on and the agent
    /// runs again.
    fn step_on(&mut self)
        requires
            old(self)@.program.cursor < old(self)@.program.steps.len(),
        ensures
            final(self)@ == advanced(old(self)@),
    {
        self.program.advance();
        self.state = ExaState::Running;
    }

    /// Commits the sources and stores the computed value, as
    /// [`store_post`] describes.
    fn store_value(
        &mut self,
        world: &mut World,
        src1: Option<&Value>,
        src2: Option<&Value>,
        dname: &str,
        val_ok: bool,
        range_err: &ExecutionResponseError,
        real_val: Option<&Value>,
        Ghost(gval): Ghost<ValueView>,
    ) -> (r: Result<ExecutionResponse, ExecutionResponseError>)
        requires
            world_wf(old(world)@),
            crate::step::exa_wf(old(self)@, old(world)@),
            old(self)@.program.cursor < old(self)@.program.steps.len(),
            val_ok == writable(gval),
            !writable(gval) ==> error_view(*range_err) == range_fail(gval),
            val_ok ==> (real_val matches Some(v) && v@ == gval),
        ensures
            world_wf(final(world)@),
            crate::step::exa_wf(final(self)@, final(world)@),
            store_post(
                old(self)@,
                old(world)@,
                final(self)@,
                final(world)@,
                step_result_view(r),
                opt2seq(opt_val_view(src1), opt_val_view(src2)),
                dname@,
                gval,
            ),
    {
        match self.check_dest(world, dname, val_ok, range_err, Ghost(gval)) {
            DestCheck::Wait(st) => {
                self.block(st);
                Ok(ExecutionResponse::Success)
            },
            DestCheck::Fail(e) => Err(e),
            DestCheck::Proceed => {
                match real_val {
                    Some(v) => self.store_commit_apply(world, src1, src2, dname, v, Ghost(gval)),
                    None => vstd::pervasive::unreached(),
                }
            },
        }
    }

    /// The committed half of a store: the sources' effects land, then
    /// the write, then the advance.
    #[verifier::rlimit(100)]
    fn store_commit_apply(
        &mut self,
        world: &mut World,
        src1: Option<&Value>,
        src2: Option<&Value>,
        dname: &str,
        val: &Value,
        Ghost(gval): Ghost<ValueView>,
    ) -> (r: Result<ExecutionResponse, ExecutionResponseError>)
        requires
            world_wf(old(world)@),
            crate::step::exa_wf(old(self)@, old(world)@),
            old(self)@.program.cursor < old(self)@.program.steps.len(),
            val@ == gval,
            write_dest(old(self)@, old(world)@, dname@, gval) is Done,
        ensures
            world_wf(final(world)@),
            crate::step::exa_wf(final(self)@, final(world)@),
            ({
                let (ec, wc) = commit_sources(
                    old(self)@,
                    old(world)@,
                    opt2seq(opt_val_view(src1), opt_val_view(src2)),
                );
                match write_dest(ec, wc, dname@, gval) {
                    WriteOutcome::Done(ed, wd) => final(self)@ == advanced(ed) && final(world)@
                        == wd && r == Ok::<ExecutionResponse, ExecutionResponseError>(
                        ExecutionResponse::Success,
                    ),
                    _ => false,
                }
            }),
    {
        let ghost e0 = self@;
        let ghost w0 = world@;
        let ghost commits = opt2seq(opt_val_view(src1), opt_val_view(src2));
        proof {
            match opt_val_view(src1) {
                Some(x) => {
                    lemma_commit_keeps_dest(e0, w0, x, dname@, gval);
                },
                None => {},
            }
        }
        match src1 {
            Some(c1) => {
                self.commit_src(world, c1);
            },
            None => {},
        }
        let ghost e1 = self@;
        let ghost w1 = world@;
        proof {
            match opt_val_view(src1) {
                Some(x) => {
                    crate::step::lemma_commit_preserves_world_wf(e0, w0, x);
                },
                None => {},
            }
            match opt_val_view(src2) {
                Some(y) => {
                    lemma_commit_keeps_dest(e1, w1, y, dname@, gval);
                },
                None => {},
            }
        }
        match src2 {
            Some(c2) => {
                self.commit_src(world, c2);
            },
            None => {},
        }
        proof {
            match opt_val_view(src2) {
                Some(y) => {
                    crate::step::lemma_commit_preserves_world_wf(e1, w1, y);
                },
                None => {},
            }
            reveal_with_fuel(crate::step::commit_sources, 3);
            match (opt_val_view(src1), opt_val_view(src2)) {
                (None, None) => {
                    assert(commit_sources(e0, w0, commits) == (e0, w0));
                },
                (Some(x), None) => {
                    assert(commits =~= seq![x]);
                    assert(commits.drop_first() =~= Seq::<ValueView>::empty());
                    assert(commit_sources(e0, w0, commits) == (self@, world@));
                },
                (Some(x), Some(y)) => {
                    assert(commits =~= seq![x, y]);
                    assert(commits.drop_first() =~= seq![y]);
                    assert(commits.drop_first().drop_first() =~= Seq::<ValueView>::empty());
                    assert(commit_sources(e0, w0, commits) == (self@, world@));
                },
                (None, Some(y)) => {
                    assert(commits =~= seq![y]);
                    assert(commits.drop_first() =~= Seq::<ValueView>::empty());
                    assert(commit_sources(e0, w0, commits) == (self@, world@));
                },
            }
            crate::step::lemma_write_preserves_wf(self@, world@, dname@, gval);
        }
        self.apply_dest(world, dname, val);
        self.step_on();
        Ok(ExecutionResponse::Success)
    }
}


impl Exa {
    /// `NOOP`/`NOTE`: one cycle passes.
    fn exec_noop(&mut self, world: &World) -> (r: Result<
        ExecutionResponse,
        ExecutionResponseError,
    >)
        requires
            old(self)@.program.cursor < old(self)@.program.steps.len(),
            crate::step::exa_wf(old(self)@, world@),
        ensures
            final(self)@ == advanced(old(self)@),
            r == Ok::<ExecutionResponse, ExecutionResponseError>(ExecutionResponse::Success),
            crate::step::exa_wf(final(self)@, world@),
    {
        self.step_on();
        Ok(ExecutionResponse::Success)
    }

    /// `WIPE`: the held file is destroyed; holding none changes nothing.
    fn exec_wipe(&mut self, world: &World) -> (r: Result<
        ExecutionResponse,
        ExecutionResponseError,
    >)
        requires
            old(self)@.program.cursor < old(self)@.program.steps.len(),
            crate::step::exa_wf(old(self)@, world@),
        ensures
            final(self)@ == advanced(ExaView { file: None, ..old(self)@ }),
            r == Ok::<ExecutionResponse, ExecutionResponseError>(ExecutionResponse::Success),
            crate::step::exa_wf(final(self)@, world@),
    {
        self.file = None;
        self.step_on();
        Ok(ExecutionResponse::Success)
    }

    /// `MODE`: global and local switch places.
    fn exec_mode(&mut self, world: &World) -> (r: Result<
        ExecutionResponse,
        ExecutionResponseError,
    >)
        requires
            old(self)@.program.cursor < old(self)@.program.steps.len(),
            crate::step::exa_wf(old(self)@, world@),
        ensures
            final(self)@ == advanced(
                ExaView { mode: crate::step::toggled(old(self)@.mode), ..old(self)@ },
            ),
            r == Ok::<ExecutionResponse, ExecutionResponseError>(ExecutionResponse::Success),
            crate::step::exa_wf(final(self)@, world@),
    {
        self.communication_mode = match self.communication_mode {
            CommunicationMode::Global => CommunicationMode::Local,
            CommunicationMode::Local => CommunicationMode::Global,
        };
        self.step_on();
        Ok(ExecutionResponse::Success)
    }

    /// Writes a truth value into `T` and steps on.
    fn finish_test(&mut self, res: bool) -> (r: Result<ExecutionResponse, ExecutionResponseError>)
        requires
            old(self)@.program.cursor < old(self)@.program.steps.len(),
        ensures
            final(self)@ == advanced(crate::step::set_t(old(self)@, res)),
            r == Ok::<ExecutionResponse, ExecutionResponseError>(ExecutionResponse::Success),
    {
        let w = self.t_register.write(&Value::Number(if res { 1 } else { 0 }));
        self.step_on();
        Ok(ExecutionResponse::Success)
    }

    /// `TEST EOF`.
    fn exec_test_eof(&mut self, world: &World) -> (r: Result<
        ExecutionResponse,
        ExecutionResponseError,
    >)
        requires
            old(self)@.program.cursor < old(self)@.program.steps.len(),
            crate::step::exa_wf(old(self)@, world@),
        ensures
            crate::step::exa_wf(final(self)@, world@),
            crate::step::test_eof_post(
                old(self)@,
                world@,
                final(self)@,
                world@,
                step_result_view(r),
            ),
    {
        let eof = match &self.file {
            None => {
                return Err(ExecutionResponseError::InvalidFRegisterAccess);
            },
            Some(f) => f.is_eof(),
        };
        self.finish_test(eof)
    }

    /// `TEST MRD`.
    fn exec_test_mrd(&mut self, world: &World) -> (r: Result<
        ExecutionResponse,
        ExecutionResponseError,
    >)
        requires
            old(self)@.program.cursor < old(self)@.program.steps.len(),
            crate::step::exa_wf(old(self)@, world@),
        ensures
            crate::step::exa_wf(final(self)@, world@),
            crate::step::test_mrd_post(
                old(self)@,
                world@,
                final(self)@,
                world@,
                step_result_view(r),
            ),
    {
        let pending = match self.communication_mode {
            CommunicationMode::Global => world.global_m_read().is_some(),
            CommunicationMode::Local => world.host(self.host).local_m_read().is_some(),
        };
        self.finish_test(pending)
    }

    /// `JUMP`, and the taken branch of the conditional jumps.
    fn exec_jump(&mut self, world: &World, label: &Value) -> (r: Result<
        ExecutionResponse,
        ExecutionResponseError,
    >)
        requires
            label@ is LabelId,
            old(self)@.program.marks.contains_key(label_key(label@)),
            crate::step::exa_wf(old(self)@, world@),
        ensures
            crate::step::exa_wf(final(self)@, world@),
            crate::step::jump_post(
                old(self)@,
                world@,
                final(self)@,
                world@,
                step_result_view(r),
                label@,
            ),
    {
        self.program.jump_to(label);
        self.state = ExaState::Running;
        Ok(ExecutionResponse::Success)
    }

    /// Whether `T` currently reads as true.
    fn t_truthy(&self) -> (b: bool)
        ensures
            b == crate::step::truthy(crate::step::reg_read(self@.t)),
    {
        match self.read_t() {
            Some(v) => !value_eq(&v, &Value::Number(0)),
            None => false,
        }
    }

    /// `TJMP`.
    fn exec_tjmp(&mut self, world: &World, label: &Value) -> (r: Result<
        ExecutionResponse,
        ExecutionResponseError,
    >)
        requires
            label@ is LabelId,
            old(self)@.program.marks.contains_key(label_key(label@)),
            old(self)@.program.cursor < old(self)@.program.steps.len(),
            crate::step::exa_wf(old(self)@, world@),
        ensures
            crate::step::exa_wf(final(self)@, world@),
            crate::step::tjmp_post(
                old(self)@,
                world@,
                final(self)@,
                world@,
                step_result_view(r),
                label@,
            ),
    {
        if self.t_truthy() {
            self.exec_jump(world, label)
        } else {
            self.step_on();
            Ok(ExecutionResponse::Success)
        }
    }

    /// `FJMP`.
    fn exec_fjmp(&mut self, world: &World, label: &Value) -> (r: Result<
        ExecutionResponse,
        ExecutionResponseError,
    >)
        requires
            label@ is LabelId,
            old(self)@.program.marks.contains_key(label_key(label@)),
            old(self)@.program.cursor < old(self)@.program.steps.len(),
            crate::step::exa_wf(old(self)@, world@),
        ensures
            crate::step::exa_wf(final(self)@, world@),
            crate::step::fjmp_post(
                old(self)@,
                world@,
                final(self)@,
                world@,
                step_result_view(r),
                label@,
            ),
    {
        if !self.t_truthy() {
            self.exec_jump(world, label)
        } else {
            self.step_on();
            Ok(ExecutionResponse::Success)
        }
    }

    /// `HALT`.
    fn exec_halt(&mut self, world: &mut World) -> (r: Result<
        ExecutionResponse,
        ExecutionResponseError,
    >)
        requires
            world_wf(old(world)@),
            crate::step::exa_wf(old(self)@, old(world)@),
        ensures
            world_wf(final(world)@),
            crate::step::exa_wf(final(self)@, final(world)@),
            crate::step::halt_post(
                old(self)@,
                old(world)@,
                final(self)@,
                final(world)@,
                step_result_view(r),
            ),
    {
        let ghost w0 = world@;
        let mut h = world.take_host(self.host);
        let removed = h.remove_occupying_exa_id(self.id.as_str());
        world.put_host(self.host, h);
        proof {
            assert(w0.hosts.remove(self@.host).insert(self@.host, h@) =~= w0.hosts.update(
                self@.host,
                h@,
            ));
            let hv0 = w0.hosts[self@.host];
            if crate::host::find_id(hv0.occupying_exa_ids, self@.id) is None {
                assert(h@ == hv0);
                assert(w0.hosts.update(self@.host, h@) =~= w0.hosts);
            }
            assert(final(world)@ =~= crate::step::with_host(
                w0,
                self@.host,
                (crate::host::HostView {
                    occupying_exa_ids: match crate::host::find_id(
                        hv0.occupying_exa_ids,
                        self@.id,
                    ) {
                        Some(k) => hv0.occupying_exa_ids.remove(k),
                        None => hv0.occupying_exa_ids,
                    },
                    ..hv0
                }),
            ));
            crate::step::lemma_world_wf_update(w0, final(world)@, self@.host, h@);
        }
        Err(ExecutionResponseError::Halt(self.id.clone()))
    }

    /// `MAKE`.
    fn exec_make(&mut self, world: &mut World) -> (r: Result<
        ExecutionResponse,
        ExecutionResponseError,
    >)
        requires
            old(self)@.program.cursor < old(self)@.program.steps.len(),
            world_wf(old(world)@),
            crate::step::exa_wf(old(self)@, old(world)@),
            old(self)@.file is None ==> old(world)@.generator.next
                <= crate::file::id_generator::last_id(),
        ensures
            world_wf(final(world)@),
            crate::step::exa_wf(final(self)@, final(world)@),
            crate::step::make_post(
                old(self)@,
                old(world)@,
                final(self)@,
                final(world)@,
                step_result_view(r),
            ),
    {
        let held = match &self.file {
            Some(f) => Some(f.id_text().to_owned()),
            None => None,
        };
        match held {
            Some(id) => Err(ExecutionResponseError::InvalidFileAccess(id)),
            None => {
                let id = world.mint_file_id();
                self.file = Some(File::new(id.as_str()));
                self.step_on();
                Ok(ExecutionResponse::Success)
            },
        }
    }

    /// `VOID F`.
    fn exec_voidf(&mut self, world: &World) -> (r: Result<
        ExecutionResponse,
        ExecutionResponseError,
    >)
        requires
            old(self)@.program.cursor < old(self)@.program.steps.len(),
            crate::step::exa_wf(old(self)@, world@),
        ensures
            crate::step::exa_wf(final(self)@, world@),
            crate::step::voidf_post(
                old(self)@,
                world@,
                final(self)@,
                world@,
                step_result_view(r),
            ),
    {
        match &mut self.file {
            None => {
                return Err(ExecutionResponseError::InvalidFRegisterAccess);
            },
            Some(f) => {
                f.remove_current();
            },
        }
        self.step_on();
        Ok(ExecutionResponse::Success)
    }

    /// `VOID M`.
    fn exec_voidm(&mut self, world: &mut World) -> (r: Result<
        ExecutionResponse,
        ExecutionResponseError,
    >)
        requires
            old(self)@.program.cursor < old(self)@.program.steps.len(),
            world_wf(old(world)@),
            crate::step::exa_wf(old(self)@, old(world)@),
        ensures
            world_wf(final(world)@),
            crate::step::exa_wf(final(self)@, final(world)@),
            crate::step::voidm_post(
                old(self)@,
                old(world)@,
                final(self)@,
                final(world)@,
                step_result_view(r),
            ),
    {
        let pending = match self.communication_mode {
            CommunicationMode::Global => world.global_m_read().is_some(),
            CommunicationMode::Local => world.host(self.host).local_m_read().is_some(),
        };
        if !pending {
            self.block(ExaState::WaitingForMRead);
            return Ok(ExecutionResponse::Success);
        }
        match self.communication_mode {
            CommunicationMode::Global => {
                let taken = world.global_m_take();
            },
            CommunicationMode::Local => {
                let ghost w0 = world@;
                let mut h = world.take_host(self.host);
                let taken = h.local_m_take();
                world.put_host(self.host, h);
                proof {
                    assert(w0.hosts.remove(self@.host).insert(self@.host, h@)
                        =~= w0.hosts.update(self@.host, h@));
                    assert(world@ =~= crate::step::with_m(old(self)@, old(world)@, None));
                    crate::step::lemma_same_skeleton_wf(h@, w0.hosts[self@.host]);
                    crate::step::lemma_world_wf_update(w0, world@, self@.host, h@);
                }
            },
        }
        self.step_on();
        Ok(ExecutionResponse::Success)
    }

    /// `SEEK`.
    fn exec_seek(&mut self, world: &mut World, src: &Value) -> (r: Result<
        ExecutionResponse,
        ExecutionResponseError,
    >)
        requires
            old(self)@.program.cursor < old(self)@.program.steps.len(),
            world_wf(old(world)@),
            crate::step::exa_wf(old(self)@, old(world)@),
        ensures
            world_wf(final(world)@),
            crate::step::exa_wf(final(self)@, final(world)@),
            crate::step::seek_post(
                old(self)@,
                old(world)@,
                final(self)@,
                final(world)@,
                step_result_view(r),
                src@,
            ),
    {
        match self.peek_src(world, src) {
            SourcePeek::Wait(st) => {
                self.block(st);
                Ok(ExecutionResponse::Success)
            },
            SourcePeek::Fail(e) => Err(e),
            SourcePeek::Val(v) => {
                if self.file.is_none() {
                    return Err(ExecutionResponseError::InvalidFRegisterAccess);
                }
                match &v {
                    Value::Number(n) => {
                        let offset: i64 = *n;
                        let ghost es0 = self@;
                        let ghost ws0 = world@;
                        self.commit_src(world, src);
                        proof {
                            crate::step::lemma_commit_preserves_world_wf(es0, ws0, src@);
                        }
                        match &mut self.file {
                            Some(f) => {
                                f.adjust_index(offset);
                            },
                            None => {},
                        }
                        self.step_on();
                        Ok(ExecutionResponse::Success)
                    },
                    _ => Err(ExecutionResponseError::MathWithKeywords(v.clone(), v)),
                }
            },
        }
    }

    /// `DROP`.
    fn exec_drop(&mut self, world: &mut World) -> (r: Result<
        ExecutionResponse,
        ExecutionResponseError,
    >)
        requires
            old(self)@.program.cursor < old(self)@.program.steps.len(),
            world_wf(old(world)@),
            crate::step::exa_wf(old(self)@, old(world)@),
            old(self)@.file matches Some(f) ==> crate::host::find_file(
                old(world)@.hosts[old(self)@.host].files,
                f.id,
            ) is None && crate::host::find_file(
                old(world)@.hosts[old(self)@.host].pending_files,
                f.id,
            ) is None,
        ensures
            world_wf(final(world)@),
            crate::step::exa_wf(final(self)@, final(world)@),
            crate::step::drop_post(
                old(self)@,
                old(world)@,
                final(self)@,
                final(world)@,
                step_result_view(r),
            ),
    {
        if self.file.is_none() {
            return Err(ExecutionResponseError::InvalidFRegisterAccess);
        }
        let has_room = world.host(self.host).has_available_space();
        if !has_room {
            self.block(ExaState::WaitingForHostAvailabilityToDropFile);
            return Ok(ExecutionResponse::Success);
        }
        match self.file.take() {
            Some(f) => {
                let ghost w0 = world@;
                let mut h = world.take_host(self.host);
                let put = h.insert_pending_file(f);
                world.put_host(self.host, h);
                proof {
                    assert(w0.hosts.remove(self@.host).insert(self@.host, h@)
                        =~= w0.hosts.update(self@.host, h@));
                    crate::step::lemma_world_wf_update(w0, world@, self@.host, h@);
                }
                self.step_on();
                Ok(ExecutionResponse::Success)
            },
            None => vstd::pervasive::unreached(),
        }
    }

    /// `COPY`.
    fn exec_copy(&mut self, world: &mut World, src: &Value, dst: &Value) -> (r: Result<
        ExecutionResponse,
        ExecutionResponseError,
    >)
        requires
            old(self)@.program.cursor < old(self)@.program.steps.len(),
            world_wf(old(world)@),
            crate::step::exa_wf(old(self)@, old(world)@),
        ensures
            world_wf(final(world)@),
            crate::step::exa_wf(final(self)@, final(world)@),
            crate::step::copy_post(
                old(self)@,
                old(world)@,
                final(self)@,
                final(world)@,
                step_result_view(r),
                src@,
                dst@,
            ),
    {
        match self.peek_src(world, src) {
            SourcePeek::Wait(st) => {
                self.block(st);
                Ok(ExecutionResponse::Success)
            },
            SourcePeek::Fail(e) => Err(e),
            SourcePeek::Val(v) => {
                let dname = dest_name(dst);
                let ok = value_writable(&v);
                let rerr = range_error_of(&v);
                proof {
                    assert(opt2seq(opt_val_view(Some(src)), opt_val_view(None)) =~= seq![
                        src@,
                    ]);
                }
                self.store_value(
                    world,
                    Some(src),
                    None,
                    dname.as_str(),
                    ok,
                    &rerr,
                    Some(&v),
                    Ghost(v@),
                )
            },
        }
    }

    /// `HOST`.
    fn exec_host_instr(&mut self, world: &mut World, dst: &Value) -> (r: Result<
        ExecutionResponse,
        ExecutionResponseError,
    >)
        requires
            old(self)@.program.cursor < old(self)@.program.steps.len(),
            world_wf(old(world)@),
            crate::step::exa_wf(old(self)@, old(world)@),
        ensures
            world_wf(final(world)@),
            crate::step::exa_wf(final(self)@, final(world)@),
            crate::step::host_post(
                old(self)@,
                old(world)@,
                final(self)@,
                final(world)@,
                step_result_view(r),
                dst@,
            ),
    {
        let hid = world.host(self.host).id_text().to_owned();
        let val = Value::Keyword(hid);
        let dname = dest_name(dst);
        let rerr = ExecutionResponseError::InvalidFRegisterAccess;
        proof {
            assert(opt2seq(opt_val_view(None), opt_val_view(None)) =~= Seq::<
                ValueView,
            >::empty());
        }
        self.store_value(world, None, None, dname.as_str(), true, &rerr, Some(&val), Ghost(val@))
    }

    /// `FILE`.
    fn exec_file_instr(&mut self, world: &mut World, dst: &Value) -> (r: Result<
        ExecutionResponse,
        ExecutionResponseError,
    >)
        requires
            old(self)@.program.cursor < old(self)@.program.steps.len(),
            world_wf(old(world)@),
            crate::step::exa_wf(old(self)@, old(world)@),
        ensures
            world_wf(final(world)@),
            crate::step::exa_wf(final(self)@, final(world)@),
            crate::step::file_post(
                old(self)@,
                old(world)@,
                final(self)@,
                final(world)@,
                step_result_view(r),
                dst@,
            ),
    {
        let fid = match &self.file {
            None => {
                return Err(ExecutionResponseError::InvalidFRegisterAccess);
            },
            Some(f) => f.id_text().to_owned(),
        };
        let val = Value::Keyword(fid);
        let dname = dest_name(dst);
        let rerr = ExecutionResponseError::InvalidFRegisterAccess;
        proof {
            assert(opt2seq(opt_val_view(None), opt_val_view(None)) =~= Seq::<
                ValueView,
            >::empty());
        }
        self.store_value(world, None, None, dname.as_str(), true, &rerr, Some(&val), Ghost(val@))
    }
}

/// The magnitude of a signed number, as an unsigned one.
fn mag64(x: i64) -> (m: u64)
    ensures
        m as int == crate::step::abs_int(x as int),
{
    if x == i64::MIN {
        9223372036854775808u64
    } else if x < 0 {
        (-x) as u64
    } else {
        x as u64
    }
}

/// The decimal digit of a magnitude at position `p` in 1..=4.
fn mag_digit(m: u64, p: u64) -> (d: u64)
    requires
        1 <= p <= 4,
    ensures
        0 <= d < 10,
        ({
            let pow = crate::step::pow10(p as int - 1);
            d as int == (m as int) / pow % 10
        }),
{
    proof {
        reveal_with_fuel(crate::step::pow10, 5);
    }
    let pow: u64 = if p == 1 {
        1
    } else if p == 2 {
        10
    } else if p == 3 {
        100
    } else {
        1000
    };
    (m / pow) % 10
}

/// The digit permutation, over machine numbers.
fn swiz_compute(a: i64, b: i64) -> (r: i64)
    ensures
        r as int == crate::step::swiz_val(a as int, b as int),
        -9999 <= r <= 9999,
{
    let ma = mag64(a);
    let mb = mag64(b);
    let d1 = swiz_pick(ma, mb, 1);
    let d2 = swiz_pick(ma, mb, 2);
    let d3 = swiz_pick(ma, mb, 3);
    let d4 = swiz_pick(ma, mb, 4);
    let total: u64 = d1 + d2 * 10 + d3 * 100 + d4 * 1000;
    proof {
        assert(total as int == crate::step::swiz_digit(a as int, b as int, 1)
            + crate::step::swiz_digit(a as int, b as int, 2) * 10 + crate::step::swiz_digit(
            a as int,
            b as int,
            3,
        ) * 100 + crate::step::swiz_digit(a as int, b as int, 4) * 1000);
    }
    proof {
        let t = total as int;
        let sv = crate::step::swiz_val(a as int, b as int);
        if (a < 0) != (b < 0) {
            assert(crate::step::sign_of(a as int) * crate::step::sign_of(b as int) == -1);
            assert(sv == -1 * t) by (nonlinear_arith)
                requires
                    sv == crate::step::sign_of(a as int) * crate::step::sign_of(b as int) * t,
                    crate::step::sign_of(a as int) * crate::step::sign_of(b as int) == -1,
            ;
        } else {
            assert(crate::step::sign_of(a as int) * crate::step::sign_of(b as int) == 1);
            assert(sv == 1 * t) by (nonlinear_arith)
                requires
                    sv == crate::step::sign_of(a as int) * crate::step::sign_of(b as int) * t,
                    crate::step::sign_of(a as int) * crate::step::sign_of(b as int) == 1,
            ;
        }
    }
    if (a < 0) != (b < 0) {
        -(total as i64)
    } else {
        total as i64
    }
}

/// The source digit the mask selects for one result position.
fn swiz_pick(ma: u64, mb: u64, p: u64) -> (d: u64)
    requires
        1 <= p <= 4,
    ensures
        0 <= d < 10,
        ({
            let m = (mb as int) / crate::step::pow10(p as int - 1) % 10;
            d as int == (if 1 <= m <= 4 {
                (ma as int) / crate::step::pow10(m - 1) % 10
            } else {
                0int
            })
        }),
{
    let mdig = mag_digit(mb, p);
    if 1 <= mdig && mdig <= 4 {
        mag_digit(ma, mdig)
    } else {
        0
    }
}

/// The arithmetic result over wide machine numbers; division and
/// modulus run on magnitudes so that rounding is toward zero.
fn arith_compute(kind: &ArithKind, na: i64, nb: i64) -> (r: i128)
    requires
        (kind == ArithKind::Divide || kind == ArithKind::Modulo) ==> nb != 0,
        kind == ArithKind::Swiz ==> true,
    ensures
        r as int == arith_val(*kind, na as int, nb as int),
{
    match kind {
        ArithKind::Add => (na as i128) + (nb as i128),
        ArithKind::Subtract => (na as i128) - (nb as i128),
        ArithKind::Multiply => {
            let ma = mag64(na) as u128;
            let mb = mag64(nb) as u128;
            proof {
                vstd::arithmetic::mul::lemma_mul_upper_bound(
                    ma as int,
                    0x8000000000000000int,
                    mb as int,
                    0x8000000000000000int,
                );
            }
            let mp = ma * mb;
            proof {
                assert((na as int) * (nb as int) == (if (na < 0) == (nb < 0) {
                    crate::step::abs_int(na as int) * crate::step::abs_int(nb as int)
                } else {
                    -(crate::step::abs_int(na as int) * crate::step::abs_int(nb as int))
                })) by (nonlinear_arith);
            }
            if (na < 0) != (nb < 0) {
                -(mp as i128)
            } else {
                mp as i128
            }
        },
        ArithKind::Divide => {
            let ma = mag64(na) as u128;
            let mb = mag64(nb) as u128;
            let q = ma / mb;
            proof {
                assert(q as int == crate::step::abs_int(na as int)
                    / crate::step::abs_int(nb as int));
                assert(q <= ma);
            }
            if (na < 0) == (nb < 0) {
                q as i128
            } else {
                -(q as i128)
            }
        },
        ArithKind::Modulo => {
            let ma = mag64(na) as u128;
            let mb = mag64(nb) as u128;
            let rm = ma % mb;
            proof {
                assert(rm as int == crate::step::abs_int(na as int)
                    % crate::step::abs_int(nb as int));
                assert(rm < mb);
            }
            if na < 0 {
                -(rm as i128)
            } else {
                rm as i128
            }
        },
        ArithKind::Swiz => swiz_compute(na, nb) as i128,
    }
}

/// Character-wise lexicographic comparison of two texts.
fn lex_less(a: &str, b: &str) -> (r: bool)
    ensures
        r == crate::step::lex_lt(a@, b@),
{
    let ca = crate::text::chars_of(a);
    let cb = crate::text::chars_of(b);
    let na = ca.len();
    let nb = cb.len();
    let mut i: usize = 0;
    proof {
        assert(a@.skip(0) =~= a@);
        assert(b@.skip(0) =~= b@);
    }
    while i < na && i < nb
        invariant
            i <= na,
            i <= nb,
            na == a@.len(),
            nb == b@.len(),
            ca@ == a@,
            cb@ == b@,
            crate::step::lex_lt(a@, b@) == crate::step::lex_lt(
                a@.skip(i as int),
                b@.skip(i as int),
            ),
        decreases na - i,
    {
        proof {
            assert(a@.skip(i as int).skip(1) =~= a@.skip(i + 1));
            assert(b@.skip(i as int).skip(1) =~= b@.skip(i + 1));
        }
        if ca[i] != cb[i] {
            return ca[i] < cb[i];
        }
        i += 1;
    }
    i < nb
}

impl Exa {
    /// `ADDI`/`SUBI`/`MULI`/`DIVI`/`MODI`/`SWIZ`.
    fn exec_arith(
        &mut self,
        world: &mut World,
        kind: ArithKind,
        a: &Value,
        b: &Value,
        dst: &Value,
    ) -> (r: Result<ExecutionResponse, ExecutionResponseError>)
        requires
            old(self)@.program.cursor < old(self)@.program.steps.len(),
            world_wf(old(world)@),
            crate::step::exa_wf(old(self)@, old(world)@),
        ensures
            world_wf(final(world)@),
            crate::step::exa_wf(final(self)@, final(world)@),
            crate::step::arith_post(
                old(self)@,
                old(world)@,
                final(self)@,
                final(world)@,
                step_result_view(r),
                kind,
                a@,
                b@,
                dst@,
            ),
    {
        let va = match self.peek_src(world, a) {
            SourcePeek::Wait(st) => {
                self.block(st);
                return Ok(ExecutionResponse::Success);
            },
            SourcePeek::Fail(e) => {
                return Err(e);
            },
            SourcePeek::Val(v) => v,
        };
        let vb = match self.peek_src(world, b) {
            SourcePeek::Wait(st) => {
                self.block(st);
                return Ok(ExecutionResponse::Success);
            },
            SourcePeek::Fail(e) => {
                return Err(e);
            },
            SourcePeek::Val(v) => v,
        };
        let (na, nb) = match (&va, &vb) {
            (Value::Number(x), Value::Number(y)) => (*x, *y),
            _ => {
                return Err(ExecutionResponseError::MathWithKeywords(va, vb));
            },
        };
        if matches!(kind, ArithKind::Divide | ArithKind::Modulo) && nb == 0 {
            return Err(ExecutionResponseError::DivideByZero(va, vb));
        }
        let res = arith_compute(&kind, na, nb);
        let dname = dest_name(dst);
        proof {
            assert(opt2seq(opt_val_view(Some(a)), opt_val_view(Some(b))) =~= seq![a@, b@]);
        }
        if -9999 <= res && res <= 9999 {
            let val = Value::Number(res as i64);
            let rerr = ExecutionResponseError::InvalidFRegisterAccess;
            self.store_value(
                world,
                Some(a),
                Some(b),
                dname.as_str(),
                true,
                &rerr,
                Some(&val),
                Ghost(val@),
            )
        } else {
            let sat: i64 = if res < i64::MIN as i128 {
                i64::MIN
            } else if res > i64::MAX as i128 {
                i64::MAX
            } else {
                res as i64
            };
            let rerr = if res < -9999 {
                ExecutionResponseError::NumberValueTooSmall(Value::Number(sat))
            } else {
                ExecutionResponseError::NumberValueTooLarge(Value::Number(sat))
            };
            self.store_value(
                world,
                Some(a),
                Some(b),
                dname.as_str(),
                false,
                &rerr,
                None,
                Ghost(ValueView::Number(res as int)),
            )
        }
    }

    /// `TEST a op b`.
    fn exec_test_cmp(
        &mut self,
        world: &mut World,
        kind: CmpKind,
        a: &Value,
        b: &Value,
    ) -> (r: Result<ExecutionResponse, ExecutionResponseError>)
        requires
            old(self)@.program.cursor < old(self)@.program.steps.len(),
            world_wf(old(world)@),
            crate::step::exa_wf(old(self)@, old(world)@),
        ensures
            world_wf(final(world)@),
            crate::step::exa_wf(final(self)@, final(world)@),
            crate::step::test_cmp_post(
                old(self)@,
                old(world)@,
                final(self)@,
                final(world)@,
                step_result_view(r),
                kind,
                a@,
                b@,
            ),
    {
        let ghost e0 = self@;
        let ghost w0 = world@;
        let va = match self.peek_src(world, a) {
            SourcePeek::Wait(st) => {
                self.block(st);
                return Ok(ExecutionResponse::Success);
            },
            SourcePeek::Fail(e) => {
                return Err(e);
            },
            SourcePeek::Val(v) => v,
        };
        let vb = match self.peek_src(world, b) {
            SourcePeek::Wait(st) => {
                self.block(st);
                return Ok(ExecutionResponse::Success);
            },
            SourcePeek::Fail(e) => {
                return Err(e);
            },
            SourcePeek::Val(v) => v,
        };
        let res: bool = match kind {
            CmpKind::Eq => value_eq(&va, &vb),
            CmpKind::Gt => match (&va, &vb) {
                (Value::Number(x), Value::Number(y)) => *x > *y,
                (Value::Keyword(x), Value::Keyword(y)) => lex_less(y.as_str(), x.as_str()),
                _ => {
                    return Err(ExecutionResponseError::MathWithKeywords(va, vb));
                },
            },
            CmpKind::Lt => match (&va, &vb) {
                (Value::Number(x), Value::Number(y)) => *x < *y,
                (Value::Keyword(x), Value::Keyword(y)) => lex_less(x.as_str(), y.as_str()),
                _ => {
                    return Err(ExecutionResponseError::MathWithKeywords(va, vb));
                },
            },
        };
        self.commit_src(world, a);
        let ghost em = self@;
        let ghost wm = world@;
        self.commit_src(world, b);
        proof {
            reveal_with_fuel(crate::step::commit_sources, 3);
            let commits = seq![a@, b@];
            assert(commits.drop_first() =~= seq![b@]);
            assert(commits.drop_first().drop_first() =~= Seq::<ValueView>::empty());
            assert(commit_sources(e0, w0, commits) == (self@, world@));
            crate::step::lemma_commit_preserves_world_wf(e0, w0, a@);
            crate::step::lemma_commit_preserves_world_wf(em, wm, b@);
        }
        self.finish_test(res)
    }
}


impl Exa {
    /// `GRAB`.
    fn exec_grab(&mut self, world: &mut World, src: &Value) -> (r: Result<
        ExecutionResponse,
        ExecutionResponseError,
    >)
        requires
            old(self)@.program.cursor < old(self)@.program.steps.len(),
            world_wf(old(world)@),
            crate::step::exa_wf(old(self)@, old(world)@),
        ensures
            world_wf(final(world)@),
            crate::step::exa_wf(final(self)@, final(world)@),
            crate::step::grab_post(
                old(self)@,
                old(world)@,
                final(self)@,
                final(world)@,
                step_result_view(r),
                src@,
            ),
    {
        let ghost e0 = self@;
        let ghost w0 = world@;
        match self.peek_src(world, src) {
            SourcePeek::Wait(st) => {
                self.block(st);
                Ok(ExecutionResponse::Success)
            },
            SourcePeek::Fail(e) => Err(e),
            SourcePeek::Val(v) => {
                let t = v.to_text();
                if self.file.is_some() {
                    return Err(ExecutionResponseError::InvalidFileAccess(t));
                }
                let pend = world.host(self.host).find_pending(t.as_str());
                if pend.is_some() {
                    self.block(ExaState::WaitingForFile);
                    return Ok(ExecutionResponse::Success);
                }
                match world.host(self.host).find_file_index(t.as_str()) {
                    None => Err(ExecutionResponseError::InvalidFileAccess(t)),
                    Some(k) => {
                        self.commit_src(world, src);
                        proof {
                            crate::step::lemma_commit_keeps_hosts(e0, w0, src@);
                            crate::step::lemma_commit_preserves_world_wf(e0, w0, src@);
                        }
                        let ghost wc = world@;
                        let mut h = world.take_host(self.host);
                        let f = h.remove_file_at(k);
                        world.put_host(self.host, h);
                        proof {
                            assert(wc.hosts.remove(self@.host).insert(self@.host, h@)
                                =~= wc.hosts.update(self@.host, h@));
                            crate::step::lemma_host_wf_files_remove(
                                wc.hosts[self@.host],
                                k as int,
                            );
                            crate::step::lemma_world_wf_update(
                                wc,
                                world@,
                                self@.host,
                                h@,
                            );
                        }
                        self.file = Some(f);
                        self.step_on();
                        Ok(ExecutionResponse::Success)
                    },
                }
            },
        }
    }

    /// `REPL`.
    fn exec_repl(&mut self, world: &mut World, label: &Value) -> (r: Result<
        ExecutionResponse,
        ExecutionResponseError,
    >)
        requires
            old(self)@.program.cursor < old(self)@.program.steps.len(),
            world_wf(old(world)@),
            crate::step::exa_wf(old(self)@, old(world)@),
            label@ is LabelId,
            old(self)@.program.marks.contains_key(label_key(label@)),
            old(self)@.next_exa_id < usize::MAX,
        ensures
            world_wf(final(world)@),
            crate::step::exa_wf(final(self)@, final(world)@),
            crate::step::repl_post(
                old(self)@,
                old(world)@,
                final(self)@,
                final(world)@,
                step_result_view(r),
                label@,
            ),
    {
        let ghost e0 = self@;
        let ghost w0 = world@;
        let has_room = world.host(self.host).has_available_space();
        if !has_room {
            self.block(ExaState::WaitingForHostAvailabilityToReplicate);
            return Ok(ExecutionResponse::Success);
        }
        let child_id = self.next_replicated_exa_id();
        let ghost wtake = world@;
        let mut h = world.take_host(self.host);
        h.insert_exa_id(child_id.as_str());
        world.put_host(self.host, h);
        proof {
            assert(wtake.hosts.remove(self@.host).insert(self@.host, h@)
                =~= wtake.hosts.update(self@.host, h@));
        }
        let mut child_program = self.program.clone();
        child_program.jump_to(label);
        let mut x_register = BasicRegister::new("X");
        let wx = x_register.write(&Value::Number(0));
        let mut t_register = BasicRegister::new("T");
        let wt = t_register.write(&Value::Number(0));
        let child = Exa {
            id: child_id,
            x_register,
            t_register,
            host: self.host,
            program: child_program,
            file: None,
            next_exa_id: 0,
            communication_mode: self.communication_mode,
            state: ExaState::Running,
        };
        self.step_on();
        proof {
            assert(child@ =~= crate::step::child_view(e0, label@));
        }
        Ok(ExecutionResponse::Replicate(child))
    }

    /// `LINK`.
    fn exec_link(&mut self, world: &mut World, gate: &Value) -> (r: Result<
        ExecutionResponse,
        ExecutionResponseError,
    >)
        requires
            old(self)@.program.cursor < old(self)@.program.steps.len(),
            world_wf(old(world)@),
            crate::step::exa_wf(old(self)@, old(world)@),
        ensures
            world_wf(final(world)@),
            crate::step::exa_wf(final(self)@, final(world)@),
            crate::step::link_post(
                old(self)@,
                old(world)@,
                final(self)@,
                final(world)@,
                step_result_view(r),
                gate@,
            ),
    {
        let ghost e0 = self@;
        let ghost w0 = world@;
        match self.peek_src(world, gate) {
            SourcePeek::Wait(st) => {
                self.block(st);
                Ok(ExecutionResponse::Success)
            },
            SourcePeek::Fail(e) => Err(e),
            SourcePeek::Val(v) => {
                let gtext = v.to_text();
                let li = match world.host(self.host).link(gtext.as_str()) {
                    Err(_) => {
                        return Err(ExecutionResponseError::InvalidLinkTraversal(gtext));
                    },
                    Ok(ix) => ix,
                };
                proof {
                    assert(0 <= w0.hosts[e0.host].links[gtext@] < w0.links.len());
                }
                if world.link(li).is_occupied() {
                    self.block(ExaState::WaitingForLinkToOpen);
                    return Ok(ExecutionResponse::Link);
                }
                let d = match world.link(li).destination(gtext.as_str()) {
                    None => {
                        return Err(ExecutionResponseError::InvalidLinkTraversal(gtext));
                    },
                    Some(d) => d,
                };
                proof {
                    assert(0 <= (d as int) && (d as int) < w0.hosts.len());
                }
                let has_room = world.host(d).has_available_space();
                if !has_room {
                    self.block(ExaState::WaitingForLinkToOpen);
                    return Ok(ExecutionResponse::Link);
                }
                self.commit_src(world, gate);
                proof {
                    crate::step::lemma_commit_keeps_hosts(e0, w0, gate@);
                    assert(crate::host::host_wf(w0.hosts[e0.host]));
                    assert(crate::host::host_wf(w0.hosts[d as int]));
                    crate::step::lemma_same_skeleton_wf(
                        world@.hosts[e0.host],
                        w0.hosts[e0.host],
                    );
                    crate::step::lemma_same_skeleton_wf(
                        world@.hosts[d as int],
                        w0.hosts[d as int],
                    );
                }
                let ghost wcv = world@;
                world.occupy_link(li);
                let ghost w_occ = world@;
                let mut hs = world.take_host(self.host);
                let removed = hs.remove_occupying_exa_id(self.id.as_str());
                world.put_host(self.host, hs);
                proof {
                    assert(w_occ.hosts.remove(self@.host).insert(self@.host, hs@)
                        =~= w_occ.hosts.update(self@.host, hs@));
                    let hv = w_occ.hosts[self@.host];
                    if crate::host::find_id(hv.occupying_exa_ids, self@.id) is None {
                        assert(hs@ == hv);
                        assert(w_occ.hosts.update(self@.host, hs@) =~= w_occ.hosts);
                    } else {
                        crate::host::lemma_find_id_some(hv.occupying_exa_ids, self@.id);
                    }
                }
                let ghost w_src = world@;
                let mut hd = world.take_host(d);
                proof {
                    assert(crate::host::host_used(wcv.hosts[d as int]) == crate::host::host_used(
                        w0.hosts[d as int],
                    ));
                    if d as int == e0.host {
                        assert(hd@ == hs@);
                        assert(crate::host::host_used(hd@) <= crate::host::host_used(
                            wcv.hosts[d as int],
                        ));
                    } else {
                        assert(hd@ == wcv.hosts[d as int]);
                    }
                }
                hd.insert_exa_id(self.id.as_str());
                world.put_host(d, hd);
                proof {
                    assert(w_src.hosts.remove(d as int).insert(d as int, hd@)
                        =~= w_src.hosts.update(d as int, hd@));
                    let hv = w_src.hosts[d as int];
                    if crate::host::find_id(hv.occupying_exa_ids, self@.id) is Some {
                        assert(hd@ == hv);
                        assert(w_src.hosts.update(d as int, hd@) =~= w_src.hosts);
                    }
                }
                self.host = d;
                self.program.advance();
                self.state = ExaState::Running;
                Ok(ExecutionResponse::Link)
            },
        }
    }

    /// `KILL`.
    fn exec_kill(&mut self, world: &mut World) -> (r: Result<
        ExecutionResponse,
        ExecutionResponseError,
    >)
        requires
            old(self)@.program.cursor < old(self)@.program.steps.len(),
            world_wf(old(world)@),
            crate::step::exa_wf(old(self)@, old(world)@),
        ensures
            world_wf(final(world)@),
            crate::step::exa_wf(final(self)@, final(world)@),
            crate::step::kill_post(
                old(self)@,
                old(world)@,
                final(self)@,
                final(world)@,
                step_result_view(r),
            ),
    {
        let ghost e0 = self@;
        let ghost w0 = world@;
        let ghost occ = w0.hosts[e0.host].occupying_exa_ids;
        let mut cands: Vec<usize> = Vec::new();
        let n = world.host(self.host).occupying_count();
        let mut i: usize = 0;
        while i < n
            invariant
                i <= n,
                0 <= self@.host < world@.hosts.len(),
                self@ == e0,
                world@ == w0,
                n as int == occ.len(),
                occ == w0.hosts[e0.host].occupying_exa_ids,
                forall|j: int|
                    0 <= j < cands@.len() ==> 0 <= #[trigger] cands@[j] < n && occ[
                        cands@[j] as int
                    ] != e0.id,
                cands@.len() == 0 ==> forall|j: int| 0 <= j < i ==> #[trigger] occ[j] == e0.id,
            decreases n - i,
        {
            if !crate::text::str_eq(
                world.host(self.host).occupying_id_at(i),
                self.id.as_str(),
            ) {
                cands.push(i);
            }
            i += 1;
        }
        if cands.len() > 0 {
            let pick = cands[crate::rng::random_below(cands.len())];
            let ghost wtake = world@;
            let mut h = world.take_host(self.host);
            let victim = h.remove_occupying_at(pick);
            world.put_host(self.host, h);
            proof {
                assert(wtake.hosts.remove(self@.host).insert(self@.host, h@)
                    =~= wtake.hosts.update(self@.host, h@));
            }
            self.step_on();
            proof {
                let k = pick as int;
                assert(0 <= k < occ.len() && occ[k] != e0.id && final(self)@ == advanced(e0)
                    && world@ == crate::step::with_host(
                    w0,
                    e0.host,
                    (crate::host::HostView {
                        occupying_exa_ids: occ.remove(k),
                        ..w0.hosts[e0.host]
                    }),
                ));
            }
            return Err(ExecutionResponseError::Kill(victim));
        }
        let sys_n = world.host(self.host).system_count();
        if sys_n > 0 {
            let k = crate::rng::random_below(sys_n);
            let ghost wtake = world@;
            let mut h = world.take_host(self.host);
            let sid = h.remove_system_at(k);
            world.put_host(self.host, h);
            proof {
                assert(wtake.hosts.remove(self@.host).insert(self@.host, h@)
                    =~= wtake.hosts.update(self@.host, h@));
            }
            self.step_on();
            proof {
                let kk = k as int;
                let sys = w0.hosts[e0.host].system_exa_ids;
                assert(0 <= kk < sys.len() && final(self)@ == advanced(e0) && world@
                    == crate::step::with_host(
                    w0,
                    e0.host,
                    (crate::host::HostView {
                        system_exa_ids: sys.remove(kk),
                        ..w0.hosts[e0.host]
                    }),
                ));
            }
            return Err(ExecutionResponseError::Kill(sid));
        }
        self.step_on();
        Ok(ExecutionResponse::Success)
    }

    /// `RAND`.
    fn exec_rand(&mut self, world: &mut World, a: &Value, b: &Value, dst: &Value) -> (r: Result<
        ExecutionResponse,
        ExecutionResponseError,
    >)
        requires
            old(self)@.program.cursor < old(self)@.program.steps.len(),
            world_wf(old(world)@),
            crate::step::exa_wf(old(self)@, old(world)@),
        ensures
            world_wf(final(world)@),
            crate::step::exa_wf(final(self)@, final(world)@),
            crate::step::rand_post(
                old(self)@,
                old(world)@,
                final(self)@,
                final(world)@,
                step_result_view(r),
                a@,
                b@,
                dst@,
            ),
    {
        let va = match self.peek_src(world, a) {
            SourcePeek::Wait(st) => {
                self.block(st);
                return Ok(ExecutionResponse::Success);
            },
            SourcePeek::Fail(e) => {
                return Err(e);
            },
            SourcePeek::Val(v) => v,
        };
        let vb = match self.peek_src(world, b) {
            SourcePeek::Wait(st) => {
                self.block(st);
                return Ok(ExecutionResponse::Success);
            },
            SourcePeek::Fail(e) => {
                return Err(e);
            },
            SourcePeek::Val(v) => v,
        };
        let (na, nb) = match (&va, &vb) {
            (Value::Number(x), Value::Number(y)) => (*x, *y),
            _ => {
                return Err(ExecutionResponseError::MathWithKeywords(va, vb));
            },
        };
        let lo = if na <= nb {
            na
        } else {
            nb
        };
        let hi = if na <= nb {
            nb
        } else {
            na
        };
        let pick = crate::rng::random_in_range(lo, hi);
        let val = Value::Number(pick);
        let ok = value_writable(&val);
        let rerr = range_error_of(&val);
        let dname = dest_name(dst);
        proof {
            assert(opt2seq(opt_val_view(Some(a)), opt_val_view(Some(b))) =~= seq![a@, b@]);
        }
        let res = self.store_value(
            world,
            Some(a),
            Some(b),
            dname.as_str(),
            ok,
            &rerr,
            Some(&val),
            Ghost(val@),
        );
        proof {
            assert(crate::step::picked(pick as int) == val@);
        }
        res
    }

    /// Executes the step under the program cursor against the world, as
    /// [`step_post`] describes: the one instruction runs, and the agent
    /// advances, blocks, replicates, or dies.
    ///
    /// What the driver owes the step is collected in
    /// [`step_assumptions`]; the well-formedness of agent and world is
    /// preserved, which the invariant lemma in the laws states.
    pub fn execute_current_instruction(&mut self, world: &mut World) -> (r: Result<
        ExecutionResponse,
        ExecutionResponseError,
    >)
        requires
            world_wf(old(world)@),
            crate::step::exa_wf(old(self)@, old(world)@),
            step_assumptions(old(self)@, old(world)@),
        ensures
            step_post(
                old(self)@,
                old(world)@,
                final(self)@,
                final(world)@,
                step_result_view(r),
            ),
            world_wf(final(world)@),
            crate::step::exa_wf(final(self)@, final(world)@),
    {
        let ghost e0 = self@;
        let ghost w0 = world@;
        let inst = match self.program.peak_current_instruction() {
            None => {
                return Err(ExecutionResponseError::OutOfInstructions(self.id.clone()));
            },
            Some((_, inst)) => inst,
        };
        let ghost cur = e0.program.steps[e0.program.cursor].1;
        proof {
            assert(inst@ == cur);
            assert(crate::step::step_instr_ok(cur));
        }
        match inst {
            Instruction::Copy(a, d) => self.exec_copy(world, &a, &d),
            Instruction::Add(a, b, d) => self.exec_arith(world, ArithKind::Add, &a, &b, &d),
            Instruction::Subtract(a, b, d) => self.exec_arith(
                world,
                ArithKind::Subtract,
                &a,
                &b,
                &d,
            ),
            Instruction::Multiply(a, b, d) => self.exec_arith(
                world,
                ArithKind::Multiply,
                &a,
                &b,
                &d,
            ),
            Instruction::Divide(a, b, d) => self.exec_arith(
                world,
                ArithKind::Divide,
                &a,
                &b,
                &d,
            ),
            Instruction::Modulo(a, b, d) => self.exec_arith(
                world,
                ArithKind::Modulo,
                &a,
                &b,
                &d,
            ),
            Instruction::Swiz(a, b, d) => self.exec_arith(world, ArithKind::Swiz, &a, &b, &d),
            Instruction::Mark(_) => vstd::pervasive::unreached(),
            Instruction::Jump(v) => self.exec_jump(world, &v),
            Instruction::JumpIfTrue(v) => self.exec_tjmp(world, &v),
            Instruction::JumpIfFalse(v) => self.exec_fjmp(world, &v),
            Instruction::TestEqual(a, b) => self.exec_test_cmp(world, CmpKind::Eq, &a, &b),
            Instruction::TestGreaterThan(a, b) => self.exec_test_cmp(
                world,
                CmpKind::Gt,
                &a,
                &b,
            ),
            Instruction::TestLessThan(a, b) => self.exec_test_cmp(world, CmpKind::Lt, &a, &b),
            Instruction::Replicate(v) => self.exec_repl(world, &v),
            Instruction::Halt => self.exec_halt(world),
            Instruction::Kill => self.exec_kill(world),
            Instruction::Link(v) => self.exec_link(world, &v),
            Instruction::Host(d) => self.exec_host_instr(world, &d),
            Instruction::Mode => self.exec_mode(world),
            Instruction::VoidM => self.exec_voidm(world),
            Instruction::TestMRD => self.exec_test_mrd(world),
            Instruction::Make => self.exec_make(world),
            Instruction::Grab(v) => self.exec_grab(world, &v),
            Instruction::File(d) => self.exec_file_instr(world, &d),
            Instruction::Seek(v) => self.exec_seek(world, &v),
            Instruction::VoidF => self.exec_voidf(world),
            Instruction::Drop => self.exec_drop(world),
            Instruction::Wipe => self.exec_wipe(world),
            Instruction::TestEndOfFile => self.exec_test_eof(world),
            Instruction::Note => self.exec_noop(world),
            Instruction::NoOp => self.exec_noop(world),
            Instruction::Random(a, b, d) => self.exec_rand(world, &a, &b, &d),
        }
    }
}

} // verus!
