//! A `Value` is the scalar the machine trades in: a number, a keyword, the
//! id of a register, or the id of a program label.

use vstd::prelude::*;
use vstd::string::StrSliceExecFns;
use vstd::string::StringExecFns;

use crate::text::{
    chars_of, i64_to_string, int_text, number_val, parsable_number, parse_i64,
};

verus! {

/// The mathematical shape of a [`Value`]: the same four variants over
/// unbounded integers and character sequences.
pub enum ValueView {
    Number(int),
    Keyword(Seq<char>),
    RegisterId(Seq<char>),
    LabelId(Seq<char>),
}

/// A tagged scalar. Numbers are signed; the other three variants carry
/// text. Registers only ever hold numbers or keywords; register ids and
/// label ids appear inside instructions.
#[derive(Debug)]
pub enum Value {
    /// A number.
    Number(i64),
    /// A keyword.
    Keyword(String),
    /// The id of a register.
    RegisterId(String),
    /// The id of a label in a program.
    LabelId(String),
}

/// Marks that a piece of text could not be read as the requested kind of
/// value.
#[derive(Debug, Clone, Copy, PartialEq, Eq, Structural)]
pub struct ParseError;

impl View for Value {
    type V = ValueView;

    open spec fn view(&self) -> ValueView {
        match self {
            Value::Number(n) => ValueView::Number(*n as int),
            Value::Keyword(s) => ValueView::Keyword(s@),
            Value::RegisterId(s) => ValueView::RegisterId(s@),
            Value::LabelId(s) => ValueView::LabelId(s@),
        }
    }
}

impl Clone for Value {
    fn clone(&self) -> (r: Self)
        ensures
            r == *self,
    {
        match self {
            Value::Number(n) => Value::Number(*n),
            Value::Keyword(s) => Value::Keyword(s.clone()),
            Value::RegisterId(s) => Value::RegisterId(s.clone()),
            Value::LabelId(s) => Value::LabelId(s.clone()),
        }
    }
}

impl PartialEq for Value {
    fn eq(&self, other: &Self) -> bool {
        value_eq(self, other)
    }
}

/// Equality of two values: same variant, same payload.
pub(crate) fn value_eq(a: &Value, b: &Value) -> (r: bool)
    ensures
        r == (a@ == b@),
{
    match (a, b) {
        (Value::Number(x), Value::Number(y)) => *x == *y,
        (Value::Keyword(x), Value::Keyword(y)) => *x == *y,
        (Value::RegisterId(x), Value::RegisterId(y)) => *x == *y,
        (Value::LabelId(x), Value::LabelId(y)) => *x == *y,
        _ => false,
    }
}

impl vstd::std_specs::cmp::PartialEqSpecImpl for Value {
    open spec fn obeys_eq_spec() -> bool {
        true
    }

    open spec fn eq_spec(&self, other: &Self) -> bool {
        self@ == other@
    }
}

/// The model of an optional held value.
pub open spec fn opt_view(o: Option<Value>) -> Option<ValueView> {
    match o {
        Some(v) => Some(v@),
        None => None,
    }
}

/// The text a register id must have: one of `X`, `T`, `F`, `M`, or `#`
/// followed by exactly four characters.
pub open spec fn is_register_id_text(s: Seq<char>) -> bool {
    ||| (s.len() == 5 && s[0] == '#')
    ||| (s.len() == 1 && (s[0] == 'X' || s[0] == 'T' || s[0] == 'F' || s[0] == 'M'))
}

/// The text of a value as it appears in source or in a file: a number's
/// decimal digits, or the carried text itself.
pub open spec fn value_text(v: ValueView) -> Seq<char> {
    match v {
        ValueView::Number(n) => int_text(n),
        ValueView::Keyword(s) => s,
        ValueView::RegisterId(s) => s,
        ValueView::LabelId(s) => s,
    }
}

impl Value {
    /// Reads a raw token: empty text is refused, a signed decimal literal
    /// becomes a number, and anything else becomes a keyword.
    pub fn from_text(input: &str) -> (r: Result<Self, ParseError>)
        ensures
            r is Ok <==> input@.len() > 0,
            input@.len() > 0 && parsable_number(input@) ==> (r matches Ok(v) && v@
                == ValueView::Number(number_val(input@))),
            input@.len() > 0 && !parsable_number(input@) ==> (r matches Ok(v) && v@
                == ValueView::Keyword(input@)),
    {
        let cs = chars_of(input);
        if cs.len() == 0 {
            Err(ParseError)
        } else {
            match parse_i64(&cs) {
                Some(n) => Ok(Value::Number(n)),
                None => Ok(Value::Keyword(input.to_owned())),
            }
        }
    }

    /// Reads a token as a number or a register id.
    ///
    /// Anything that is neither a signed decimal literal nor a valid
    /// register id is refused.
    pub fn new_number_or_register_id(input: &str) -> (r: Result<Self, ParseError>)
        ensures
            r is Ok <==> (parsable_number(input@) || is_register_id_text(input@)),
            parsable_number(input@) ==> (r matches Ok(v) && v@ == ValueView::Number(
                number_val(input@),
            )),
            !parsable_number(input@) && is_register_id_text(input@) ==> (r matches Ok(v)
                && v@ == ValueView::RegisterId(input@)),
    {
        let cs = chars_of(input);
        if cs.len() == 0 {
            return Err(ParseError);
        }
        match parse_i64(&cs) {
            Some(n) => Ok(Value::Number(n)),
            None => Self::new_register_id(input),
        }
    }

    /// Reads a token as a register id: one of `X`, `T`, `F`, `M`, or `#`
    /// followed by exactly four characters.
    pub fn new_register_id(input: &str) -> (r: Result<Self, ParseError>)
        ensures
            r is Ok <==> is_register_id_text(input@),
            is_register_id_text(input@) ==> (r matches Ok(v) && v@ == ValueView::RegisterId(
                input@,
            )),
    {
        let cs = chars_of(input);
        let valid = if cs.len() == 5 {
            cs[0] == '#'
        } else if cs.len() == 1 {
            let c = cs[0];
            c == 'X' || c == 'T' || c == 'F' || c == 'M'
        } else {
            false
        };
        if valid {
            Ok(Value::RegisterId(input.to_owned()))
        } else {
            Err(ParseError)
        }
    }

    /// Reads a token as a label id; only empty text is refused.
    pub fn new_label_id(input: &str) -> (r: Result<Self, ParseError>)
        ensures
            r is Ok <==> input@.len() > 0,
            input@.len() > 0 ==> (r matches Ok(v) && v@ == ValueView::LabelId(input@)),
    {
        if input.unicode_len() == 0 {
            Err(ParseError)
        } else {
            Ok(Value::LabelId(input.to_owned()))
        }
    }

    /// The number a `Number` value holds.
    pub fn to_number(&self) -> (n: i64)
        requires
            self@ is Number,
        ensures
            self@ == ValueView::Number(n as int),
    {
        match self {
            Value::Number(n) => *n,
            _ => vstd::pervasive::unreached(),
        }
    }

    /// The text of the value: a number's decimal digits, or the carried
    /// text itself.
    pub fn to_text(&self) -> (s: String)
        ensures
            s@ == value_text(self@),
    {
        match self {
            Value::Number(n) => i64_to_string(*n),
            Value::Keyword(s) => s.clone(),
            Value::RegisterId(s) => s.clone(),
            Value::LabelId(s) => s.clone(),
        }
    }
}

impl From<i64> for Value {
    fn from(input: i64) -> Self {
        Value::Number(input)
    }
}

impl vstd::std_specs::convert::FromSpecImpl<i64> for Value {
    open spec fn obeys_from_spec() -> bool {
        true
    }

    open spec fn from_spec(input: i64) -> Self {
        Value::Number(input)
    }
}

impl core::str::FromStr for Value {
    type Err = ParseError;

    fn from_str(s: &str) -> Result<Self, ParseError> {
        Value::from_text(s)
    }
}

} // verus!
