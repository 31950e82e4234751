//! The scalar values that predicates take as arguments and that events hold
//! in their fields.

use vstd::prelude::*;
use vstd::slice::*;
use vstd::string::*;
use vstd::utf8::*;
use crate::text::{
    bool_text, bool_to_text, bytes_equal, decimal, decode_lossy, integer_to_text, quote, quoted, text_of_bytes,
};

verus! {

/// A binary64 number: its bit pattern, and its two decimal renderings, the
/// plain one and the one used where a value is shown for inspection. The
/// renderings are supplied by whoever builds the value; nothing here computes
/// or checks them.
#[derive(Debug)]
pub struct Float {
    pub bits: u64,
    pub shown: String,
    pub debug: String,
}

/// The model of a [`Float`].
pub struct FloatView {
    pub bits: u64,
    pub shown: Seq<char>,
    pub debug: Seq<char>,
}

impl View for Float {
    type V = FloatView;

    open spec fn view(&self) -> FloatView {
        FloatView { bits: self.bits, shown: self.shown@, debug: self.debug@ }
    }
}

impl Float {
    /// A number from its bits and its renderings.
    pub fn new(bits: u64, shown: String, debug: String) -> (r: Float)
        ensures
            r@ == (FloatView { bits, shown: shown@, debug: debug@ }),
    {
        Float { bits, shown, debug }
    }
}

impl Clone for Float {
    fn clone(&self) -> (r: Float)
        ensures
            r@ == self@,
    {
        Float { bits: self.bits, shown: self.shown.clone(), debug: self.debug.clone() }
    }
}

/// The argument of a predicate, as the configuration gives it.
#[derive(Debug)]
pub enum CheckFieldsPredicateArg {
    String(String),
    Integer(i64),
    Float(Float),
    Boolean(bool),
}

/// The model of a [`CheckFieldsPredicateArg`].
pub enum ArgView {
    String(Seq<char>),
    Integer(i64),
    Float(FloatView),
    Boolean(bool),
}

impl View for CheckFieldsPredicateArg {
    type V = ArgView;

    open spec fn view(&self) -> ArgView {
        match self {
            CheckFieldsPredicateArg::String(s) => ArgView::String(s@),
            CheckFieldsPredicateArg::Integer(i) => ArgView::Integer(*i),
            CheckFieldsPredicateArg::Float(f) => ArgView::Float(f@),
            CheckFieldsPredicateArg::Boolean(b) => ArgView::Boolean(*b),
        }
    }
}

/// The plain rendering of an argument: a string as it is, a number in
/// decimal, a truth value as `true` or `false`.
pub open spec fn arg_display(arg: ArgView) -> Seq<char> {
    match arg {
        ArgView::String(s) => s,
        ArgView::Integer(i) => decimal(i as int),
        ArgView::Float(f) => f.shown,
        ArgView::Boolean(b) => bool_text(b),
    }
}

/// The rendering of an argument for inspection: a string quoted and escaped,
/// the others as in their plain rendering, but for a binary64 number, which
/// has a rendering of its own.
pub open spec fn arg_debug(arg: ArgView) -> Seq<char> {
    match arg {
        ArgView::String(s) => quoted(s),
        ArgView::Integer(i) => decimal(i as int),
        ArgView::Float(f) => f.debug,
        ArgView::Boolean(b) => bool_text(b),
    }
}

impl CheckFieldsPredicateArg {
    /// The plain rendering of the argument.
    pub fn display_text(&self) -> (s: String)
        ensures
            s@ == arg_display(self@),
    {
        match self {
            CheckFieldsPredicateArg::String(s) => s.clone(),
            CheckFieldsPredicateArg::Integer(i) => integer_to_text(*i),
            CheckFieldsPredicateArg::Float(f) => f.shown.clone(),
            CheckFieldsPredicateArg::Boolean(b) => bool_to_text(*b),
        }
    }

    /// The rendering of the argument for inspection.
    pub fn debug_text(&self) -> (s: String)
        ensures
            s@ == arg_debug(self@),
    {
        match self {
            CheckFieldsPredicateArg::String(s) => quote(s.as_str()),
            CheckFieldsPredicateArg::Integer(i) => integer_to_text(*i),
            CheckFieldsPredicateArg::Float(f) => f.debug.clone(),
            CheckFieldsPredicateArg::Boolean(b) => bool_to_text(*b),
        }
    }
}

impl Clone for CheckFieldsPredicateArg {
    fn clone(&self) -> (r: CheckFieldsPredicateArg)
        ensures
            r@ == self@,
    {
        match self {
            CheckFieldsPredicateArg::String(s) => CheckFieldsPredicateArg::String(s.clone()),
            CheckFieldsPredicateArg::Integer(i) => CheckFieldsPredicateArg::Integer(*i),
            CheckFieldsPredicateArg::Float(f) => CheckFieldsPredicateArg::Float(f.clone()),
            CheckFieldsPredicateArg::Boolean(b) => CheckFieldsPredicateArg::Boolean(*b),
        }
    }
}

/// The content of a field of a log event. Text is held as raw bytes, which
/// need not be valid UTF-8.
#[derive(Debug)]
pub enum Value {
    Bytes(Vec<u8>),
    Integer(i64),
    Float(Float),
    Boolean(bool),
}

/// The model of a [`Value`].
pub enum ValueView {
    Bytes(Seq<u8>),
    Integer(i64),
    Float(FloatView),
    Boolean(bool),
}

impl View for Value {
    type V = ValueView;

    open spec fn view(&self) -> ValueView {
        match self {
            Value::Bytes(b) => ValueView::Bytes(b@),
            Value::Integer(i) => ValueView::Integer(*i),
            Value::Float(f) => ValueView::Float(f@),
            Value::Boolean(b) => ValueView::Boolean(*b),
        }
    }
}

/// The text of a value: what its bytes are read as, or the plain rendering
/// of a number or truth value.
pub open spec fn value_text(v: ValueView) -> Seq<char> {
    match v {
        ValueView::Bytes(b) => text_of_bytes(b),
        ValueView::Integer(i) => decimal(i as int),
        ValueView::Float(f) => f.shown,
        ValueView::Boolean(b) => bool_text(b),
    }
}

/// The bytes of a value: the bytes themselves, or the UTF-8 encoding of the
/// plain rendering of a number or truth value.
pub open spec fn value_bytes(v: ValueView) -> Seq<u8> {
    match v {
        ValueView::Bytes(b) => b,
        ValueView::Integer(i) => encode_utf8(decimal(i as int)),
        ValueView::Float(f) => encode_utf8(f.shown),
        ValueView::Boolean(b) => encode_utf8(bool_text(b)),
    }
}

impl Value {
    /// A text value holding the UTF-8 bytes of `text`.
    pub fn from_text(text: &str) -> (v: Value)
        ensures
            v@ == ValueView::Bytes(encode_utf8(text@)),
    {
        Value::Bytes(text.as_bytes_vec())
    }

    /// The bytes of the value.
    pub fn as_bytes(&self) -> (bytes: Vec<u8>)
        ensures
            bytes@ == value_bytes(self@),
    {
        match self {
            Value::Bytes(b) => slice_to_vec(b.as_slice()),
            Value::Integer(i) => integer_to_text(*i).as_str().as_bytes_vec(),
            Value::Float(f) => f.shown.as_str().as_bytes_vec(),
            Value::Boolean(b) => bool_to_text(*b).as_str().as_bytes_vec(),
        }
    }

    /// Whether the bytes of the value are `other`.
    pub fn has_bytes(&self, other: &[u8]) -> (r: bool)
        ensures
            r == (value_bytes(self@) == other@),
    {
        match self {
            Value::Bytes(b) => bytes_equal(b.as_slice(), other),
            Value::Integer(i) => bytes_equal(integer_to_text(*i).as_str().as_bytes(), other),
            Value::Float(f) => bytes_equal(f.shown.as_str().as_bytes(), other),
            Value::Boolean(b) => bytes_equal(bool_to_text(*b).as_str().as_bytes(), other),
        }
    }

    /// The text of the value, with a replacement character wherever its bytes
    /// are not valid UTF-8.
    pub fn to_string_lossy(&self) -> (text: String)
        ensures
            text@ == value_text(self@),
    {
        match self {
            Value::Bytes(b) => decode_lossy(b.as_slice()),
            Value::Integer(i) => integer_to_text(*i),
            Value::Float(f) => f.shown.clone(),
            Value::Boolean(b) => bool_to_text(*b),
        }
    }
}

impl Clone for Value {
    fn clone(&self) -> (r: Value)
        ensures
            r@ == self@,
    {
        match self {
            Value::Bytes(b) => Value::Bytes(slice_to_vec(b.as_slice())),
            Value::Integer(i) => Value::Integer(*i),
            Value::Float(f) => Value::Float(f.clone()),
            Value::Boolean(b) => Value::Boolean(*b),
        }
    }
}

} // verus!
