//! Registers: the scalar cell every agent carries and the two host-side
//! variants, a basic cell and a hardware queue with an access mode.
//!
//! Every write checks the value the same way: numbers must lie in
//! [-9999, 9999], and register ids or label ids are never stored.

use vstd::prelude::*;

use crate::value::{opt_view, Value, ValueView};

verus! {

/// Numbers a register will store lie in `[-9999, 9999]`.
pub open spec fn writable(v: ValueView) -> bool {
    match v {
        ValueView::Number(n) => -9999 <= n && n <= 9999,
        ValueView::Keyword(_) => true,
        ValueView::RegisterId(_) => false,
        ValueView::LabelId(_) => false,
    }
}

/// Why a register refused a read or a write.
#[derive(Debug, Clone, PartialEq)]
pub enum AccessError {
    NumberValueTooSmall(Value),
    NumberValueTooLarge(Value),
    WriteWithLabelId(Value),
    WriteWithRegisterId(Value),
    InvalidReadAccess,
}

/// The write error that the value `v` earns, if any.
pub open spec fn write_fails(v: ValueView, e: AccessError) -> bool {
    match e {
        AccessError::NumberValueTooSmall(w) => w@ == v && (v matches ValueView::Number(n)
            && n < -9999),
        AccessError::NumberValueTooLarge(w) => w@ == v && (v matches ValueView::Number(n)
            && n > 9999),
        AccessError::WriteWithLabelId(w) => w@ == v && v is LabelId,
        AccessError::WriteWithRegisterId(w) => w@ == v && v is RegisterId,
        AccessError::InvalidReadAccess => false,
    }
}

/// The model of a scalar register: its id and its possible value.
#[verifier::ext_equal]
pub struct RegisterView {
    pub id: Seq<char>,
    pub value: Option<ValueView>,
}

/// A scalar register holding at most one [`Value`].
#[derive(Debug, Clone, PartialEq)]
pub struct Register {
    id: String,
    value: Option<Value>,
}

/// Why a scalar [`Register`] refused a write.
#[derive(Debug, Clone, PartialEq)]
pub enum RegisterWriteError {
    NumberValueTooSmall(Value),
    NumberValueTooLarge(Value),
    WriteWithLabelId(Value),
    WriteWithRegisterId(Value),
}

/// The write error that the value `v` earns from a scalar [`Register`].
pub open spec fn register_write_fails(v: ValueView, e: RegisterWriteError) -> bool {
    match e {
        RegisterWriteError::NumberValueTooSmall(w) => w@ == v && (v
            matches ValueView::Number(n) && n < -9999),
        RegisterWriteError::NumberValueTooLarge(w) => w@ == v && (v
            matches ValueView::Number(n) && n > 9999),
        RegisterWriteError::WriteWithLabelId(w) => w@ == v && v is LabelId,
        RegisterWriteError::WriteWithRegisterId(w) => w@ == v && v is RegisterId,
    }
}

impl View for Register {
    type V = RegisterView;

    closed spec fn view(&self) -> RegisterView {
        RegisterView { id: self.id@, value: opt_view(self.value) }
    }
}

impl Register {
    /// A register with the given id and no value.
    pub fn new(id: &str) -> (r: Self)
        ensures
            r@.id == id@,
            r@.value is None,
    {
        Register { id: id.to_owned(), value: None }
    }

    /// A register with the given id holding the given value, when the
    /// value is one a register stores.
    pub fn new_with_value(id: &str, value: &Value) -> (r: Result<Self, RegisterWriteError>)
        ensures
            r is Ok <==> writable(value@),
            writable(value@) ==> (r matches Ok(reg) && reg@.id == id@ && reg@.value == Some(
                value@,
            )),
            !writable(value@) ==> (r matches Err(e) && register_write_fails(value@, e)),
    {
        let mut register = Self::new(id);
        match register.write(value) {
            Ok(()) => Ok(register),
            Err(e) => Err(e),
        }
    }

    /// A clone of the held value, without consuming it.
    pub fn read(&self) -> (r: Option<Value>)
        ensures
            opt_view(r) == self@.value,
    {
        match &self.value {
            Some(v) => Some(v.clone()),
            None => None,
        }
    }

    /// Stores the given value; a refused value leaves the register as it
    /// was.
    pub fn write(&mut self, value: &Value) -> (r: Result<(), RegisterWriteError>)
        ensures
            r is Ok <==> writable(value@),
            writable(value@) ==> final(self)@ == (RegisterView {
                id: old(self)@.id,
                value: Some(value@),
            }),
            !writable(value@) ==> *final(self) == *old(self),
            !writable(value@) ==> (r matches Err(e) && register_write_fails(value@, e)),
    {
        match value {
            Value::Number(n) if *n < -9999 => Err(
                RegisterWriteError::NumberValueTooSmall(value.clone()),
            ),
            Value::Number(n) if *n > 9999 => Err(
                RegisterWriteError::NumberValueTooLarge(value.clone()),
            ),
            Value::LabelId(_) => Err(RegisterWriteError::WriteWithLabelId(value.clone())),
            Value::RegisterId(_) => Err(RegisterWriteError::WriteWithRegisterId(value.clone())),
            _ => {
                self.value = Some(value.clone());
                Ok(())
            },
        }
    }

    /// Forgets the held value.
    pub fn clear(&mut self)
        ensures
            final(self)@ == (RegisterView { id: old(self)@.id, value: None }),
    {
        self.value = None;
    }
}

/// An agent-side scalar register: the same cell as [`Register`], erring
/// with the shared [`AccessError`] and offering a consuming read.
#[derive(Debug, Clone, PartialEq)]
pub struct BasicRegister {
    id: String,
    value: Option<Value>,
}

impl View for BasicRegister {
    type V = RegisterView;

    closed spec fn view(&self) -> RegisterView {
        RegisterView { id: self.id@, value: opt_view(self.value) }
    }
}

impl BasicRegister {
    /// A register with the given id and no value.
    pub fn new(id: &str) -> (r: Self)
        ensures
            r@.id == id@,
            r@.value is None,
    {
        BasicRegister { id: id.to_owned(), value: None }
    }

    /// A register with the given id holding the given value, when the
    /// value is one a register stores.
    pub fn new_with_value(id: &str, value: &Value) -> (r: Result<Self, AccessError>)
        ensures
            r is Ok <==> writable(value@),
            writable(value@) ==> (r matches Ok(reg) && reg@.id == id@ && reg@.value == Some(
                value@,
            )),
            !writable(value@) ==> (r matches Err(e) && write_fails(value@, e)),
    {
        let mut register = Self::new(id);
        match register.write(value) {
            Ok(()) => Ok(register),
            Err(e) => Err(e),
        }
    }

    /// A clone of the held value, without consuming it.
    pub fn read(&self) -> (r: Result<Option<Value>, AccessError>)
        ensures
            r matches Ok(v) && opt_view(v) == self@.value,
    {
        match &self.value {
            Some(v) => Ok(Some(v.clone())),
            None => Ok(None),
        }
    }

    /// Takes the held value, leaving the register empty.
    pub fn read_mut(&mut self) -> (r: Result<Option<Value>, AccessError>)
        ensures
            r matches Ok(v) && opt_view(v) == old(self)@.value,
            final(self)@ == (RegisterView { id: old(self)@.id, value: None }),
    {
        let result = self.value.take();
        Ok(result)
    }

    /// Stores the given value; a refused value leaves the register as it
    /// was.
    pub fn write(&mut self, value: &Value) -> (r: Result<(), AccessError>)
        ensures
            r is Ok <==> writable(value@),
            writable(value@) ==> final(self)@ == (RegisterView {
                id: old(self)@.id,
                value: Some(value@),
            }),
            !writable(value@) ==> *final(self) == *old(self),
            !writable(value@) ==> (r matches Err(e) && write_fails(value@, e)),
    {
        match value {
            Value::Number(n) if *n < -9999 => Err(
                AccessError::NumberValueTooSmall(value.clone()),
            ),
            Value::Number(n) if *n > 9999 => Err(AccessError::NumberValueTooLarge(value.clone())),
            Value::LabelId(_) => Err(AccessError::WriteWithLabelId(value.clone())),
            Value::RegisterId(_) => Err(AccessError::WriteWithRegisterId(value.clone())),
            _ => {
                self.value = Some(value.clone());
                Ok(())
            },
        }
    }

    /// Forgets the held value.
    pub fn clear(&mut self)
        ensures
            final(self)@ == (RegisterView { id: old(self)@.id, value: None }),
    {
        self.value = None;
    }
}

/// Whether an agent may read or write a hardware register.
#[derive(Debug, Clone, Copy, PartialEq, Eq, Structural)]
pub enum AccessMode {
    ReadOnly,
    WriteOnly,
}

/// The model of a hardware register: its id, queued values in order, and
/// its access mode.
#[verifier::ext_equal]
pub struct HardwareRegisterView {
    pub id: Seq<char>,
    pub values: Seq<ValueView>,
    pub mode: AccessMode,
}

/// A host-owned register backed by a queue of values.
///
/// Reads see the front of the queue and are refused on a write-only
/// register. Writes append to the back; on a read-only register a write
/// is accepted but changes nothing, standing for a device that ignores
/// what agents send it.
#[derive(Debug, PartialEq)]
pub struct HardwareRegister {
    id: String,
    values: Vec<Value>,
    mode: AccessMode,
}

impl Clone for HardwareRegister {
    /// A register equal to this one in every part of its model.
    fn clone(&self) -> (r: Self)
        ensures
            r@ == self@,
    {
        HardwareRegister {
            id: self.id.clone(),
            values: crate::file::clone_values(&self.values),
            mode: self.mode,
        }
    }
}

impl View for HardwareRegister {
    type V = HardwareRegisterView;

    closed spec fn view(&self) -> HardwareRegisterView {
        HardwareRegisterView {
            id: self.id@,
            values: self.values@.map_values(|v: Value| v@),
            mode: self.mode,
        }
    }
}

impl HardwareRegister {
    /// A register with the given id and access mode and an empty queue.
    pub fn new(id: &str, mode: AccessMode) -> (r: Self)
        ensures
            r@.id == id@,
            r@.values == Seq::<ValueView>::empty(),
            r@.mode == mode,
    {
        let r = HardwareRegister { id: id.to_owned(), values: Vec::new(), mode };
        proof {
            assert(r@.values =~= Seq::<ValueView>::empty());
        }
        r
    }

    /// A register with the given id, access mode, and queued values, when
    /// every value is one a register stores.
    pub fn new_with_values(id: &str, mode: AccessMode, values: &[Value]) -> (r: Result<
        Self,
        AccessError,
    >)
        ensures
            r is Ok <==> (forall|i: int|
                0 <= i < values@.len() ==> writable(#[trigger] values@[i]@)),
            r matches Ok(reg) ==> reg@.id == id@ && reg@.mode == mode && reg@.values
                == values@.map_values(|v: Value| v@),
            r matches Err(e) ==> exists|i: int|
                0 <= i < values@.len() && write_fails(#[trigger] values@[i]@, e),
    {
        // Writes are checked while the register is still write-only, so a
        // read-only register can be filled before its mode is set.
        let mut register = Self::new(id, AccessMode::WriteOnly);
        proof {
            assert(values@.subrange(0, 0).map_values(|v: Value| v@) =~= Seq::<
                ValueView,
            >::empty());
        }
        let n = values.len();
        let mut i: usize = 0;
        while i < n
            invariant
                i <= n,
                n == values@.len(),
                register@.id == id@,
                register@.mode == AccessMode::WriteOnly,
                register@.values == values@.subrange(0, i as int).map_values(|v: Value| v@),
                forall|j: int| 0 <= j < i ==> writable(#[trigger] values@[j]@),
            decreases n - i,
        {
            let value = &values[i];
            match register.write(value) {
                Ok(()) => {},
                Err(e) => {
                    return Err(e);
                },
            }
            proof {
                assert(values@.subrange(0, i + 1).map_values(|v: Value| v@) =~= values@.subrange(
                    0,
                    i as int,
                ).map_values(|v: Value| v@).push(values@[i as int]@));
            }
            i += 1;
        }
        register.mode = mode;
        proof {
            assert(values@.subrange(0, n as int) =~= values@);
        }
        Ok(register)
    }

    /// The register's id as text.
    pub fn id_text(&self) -> (s: &str)
        ensures
            s@ == self@.id,
    {
        self.id.as_str()
    }

    /// A clone of the front of the queue; refused on a write-only
    /// register.
    pub fn read(&self) -> (r: Result<Option<Value>, AccessError>)
        ensures
            self@.mode == AccessMode::WriteOnly ==> (r matches Err(e) && e
                == AccessError::InvalidReadAccess),
            self@.mode == AccessMode::ReadOnly ==> (r matches Ok(v) && opt_view(v) == (
            if self@.values.len() > 0 {
                Some(self@.values[0])
            } else {
                None
            })),
    {
        if matches!(self.mode, AccessMode::WriteOnly) {
            Err(AccessError::InvalidReadAccess)
        } else if self.values.len() > 0 {
            Ok(Some(self.values[0].clone()))
        } else {
            Ok(None)
        }
    }

    /// Pops the front of the queue; refused on a write-only register.
    pub fn read_mut(&mut self) -> (r: Result<Option<Value>, AccessError>)
        ensures
            old(self)@.mode == AccessMode::WriteOnly ==> (r matches Err(e) && e
                == AccessError::InvalidReadAccess) && *final(self) == *old(self),
            old(self)@.mode == AccessMode::ReadOnly ==> (r matches Ok(v) && opt_view(v) == (
            if old(self)@.values.len() > 0 {
                Some(old(self)@.values[0])
            } else {
                None
            })),
            old(self)@.mode == AccessMode::ReadOnly ==> final(self)@ == (HardwareRegisterView {
                id: old(self)@.id,
                values: if old(self)@.values.len() > 0 {
                    old(self)@.values.skip(1)
                } else {
                    old(self)@.values
                },
                mode: old(self)@.mode,
            }),
    {
        if matches!(self.mode, AccessMode::WriteOnly) {
            Err(AccessError::InvalidReadAccess)
        } else if self.values.len() > 0 {
            let v = self.values.remove(0);
            proof {
                assert(self.values@.map_values(|x: Value| x@) =~= old(
                    self,
                )@.values.skip(1));
            }
            Ok(Some(v))
        } else {
            Ok(None)
        }
    }

    /// Appends the given value when the register is write-only; on a
    /// read-only register an accepted value is dropped silently. A refused
    /// value leaves the register as it was either way.
    pub fn write(&mut self, value: &Value) -> (r: Result<(), AccessError>)
        ensures
            r is Ok <==> writable(value@),
            writable(value@) && old(self)@.mode == AccessMode::WriteOnly ==> final(self)@ == (
            HardwareRegisterView {
                id: old(self)@.id,
                values: old(self)@.values.push(value@),
                mode: old(self)@.mode,
            }),
            writable(value@) && old(self)@.mode == AccessMode::ReadOnly ==> *final(self) == *old(
                self,
            ),
            !writable(value@) ==> *final(self) == *old(self),
            !writable(value@) ==> (r matches Err(e) && write_fails(value@, e)),
    {
        match value {
            Value::Number(n) if *n < -9999 => Err(
                AccessError::NumberValueTooSmall(value.clone()),
            ),
            Value::Number(n) if *n > 9999 => Err(AccessError::NumberValueTooLarge(value.clone())),
            Value::LabelId(_) => Err(AccessError::WriteWithLabelId(value.clone())),
            Value::RegisterId(_) => Err(AccessError::WriteWithRegisterId(value.clone())),
            _ => {
                if matches!(self.mode, AccessMode::WriteOnly) {
                    self.values.push(value.clone());
                    proof {
                        assert(self.values@.map_values(|x: Value| x@) =~= old(
                            self,
                        )@.values.push(value@));
                    }
                }
                Ok(())
            },
        }
    }

    /// Empties the queue.
    pub fn clear(&mut self)
        ensures
            final(self)@ == (HardwareRegisterView {
                id: old(self)@.id,
                values: Seq::<ValueView>::empty(),
                mode: old(self)@.mode,
            }),
    {
        self.values = Vec::new();
        proof {
            assert(self.values@.map_values(|x: Value| x@) =~= Seq::<ValueView>::empty());
        }
    }
}

} // verus!
