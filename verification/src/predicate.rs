//! The seven kinds of predicate: what each tests of an event, and how each is
//! made from a target field and an argument.

use vstd::prelude::*;
use vstd::string::*;
use vstd::utf8::*;
use regex::Regex;
use string_cache::DefaultAtom;
use crate::event::{Event, EventView};
use crate::float::{
    float_bits_equal, float_bits_to_integer, float_equal, float_to_integer, integer_to_float,
    integer_to_float_bits,
};
use crate::pattern::{
    compile, describe, is_match, regex_accepts, regex_compiled, regex_error_text,
};
use crate::target::{atom_str, atom_text, intern};
use crate::text::{
    begins_with, ends_with, includes, same_text, text_begins_with, text_ends_with, text_includes,
};
use crate::value::{
    arg_display, value_bytes, value_text, ArgView, CheckFieldsPredicateArg, Value, ValueView,
};

verus! {

/// The model of a predicate: its kind, the name of the field or tag that it
/// inspects, and what it compares with.
pub enum PredicateView {
    Equals { target: Seq<char>, arg: ArgView },
    NotEquals { target: Seq<char>, text: Seq<char> },
    Contains { target: Seq<char>, text: Seq<char> },
    StartsWith { target: Seq<char>, text: Seq<char> },
    EndsWith { target: Seq<char>, text: Seq<char> },
    Regex { target: Seq<char>, regex: Regex },
    Exists { target: Seq<char>, wanted: bool },
}

/// The value of the field `target` of a log record; a metric has no fields.
pub open spec fn log_field(e: EventView, target: Seq<char>) -> Option<ValueView> {
    match e {
        EventView::Log(fields) => if fields.contains_key(target) {
            Some(fields[target])
        } else {
            None
        },
        EventView::Metric(_) => None,
    }
}

/// The text of the tag `target` of a metric; a log record has no tags.
pub open spec fn metric_tag(e: EventView, target: Seq<char>) -> Option<Seq<char>> {
    match e {
        EventView::Log(_) => None,
        EventView::Metric(tags) => match tags {
            Some(tags) => if tags.contains_key(target) {
                Some(tags[target])
            } else {
                None
            },
            None => None,
        },
    }
}

/// Whether an argument equals the value of a field. A string is compared with
/// the bytes of the value. An integer equals the same integer, and a binary64
/// number that converts to it. A binary64 number equals an equal one, and an
/// integer that converts to an equal one. A truth value equals the same truth
/// value only.
pub open spec fn equals_value(arg: ArgView, v: ValueView) -> bool {
    match arg {
        ArgView::String(s) => encode_utf8(s) == value_bytes(v),
        ArgView::Integer(i) => match v {
            ValueView::Integer(vi) => i == vi,
            ValueView::Float(vf) => i == float_to_integer(vf.bits),
            _ => false,
        },
        ArgView::Float(f) => match v {
            ValueView::Float(vf) => float_equal(f.bits, vf.bits),
            ValueView::Integer(vi) => float_equal(f.bits, integer_to_float(vi as int)),
            _ => false,
        },
        ArgView::Boolean(b) => match v {
            ValueView::Boolean(vb) => b == vb,
            _ => false,
        },
    }
}

/// Whether an argument equals the text of a tag: only a string can.
pub open spec fn equals_tag(arg: ArgView, tag: Seq<char>) -> bool {
    arg matches ArgView::String(s) && s == tag
}

/// Whether an event passes a predicate.
pub open spec fn passes(p: PredicateView, e: EventView) -> bool {
    match p {
        PredicateView::Equals { target, arg } => match log_field(e, target) {
            Some(v) => equals_value(arg, v),
            None => match metric_tag(e, target) {
                Some(tag) => equals_tag(arg, tag),
                None => false,
            },
        },
        PredicateView::NotEquals { target, text } => match log_field(e, target) {
            Some(v) => value_bytes(v) != encode_utf8(text),
            None => match metric_tag(e, target) {
                Some(tag) => tag != text,
                None => false,
            },
        },
        PredicateView::Contains { target, text } => match log_field(e, target) {
            Some(v) => includes(value_text(v), text),
            None => false,
        },
        PredicateView::StartsWith { target, text } => match log_field(e, target) {
            Some(v) => begins_with(value_text(v), text),
            None => false,
        },
        PredicateView::EndsWith { target, text } => match log_field(e, target) {
            Some(v) => ends_with(value_text(v), text),
            None => false,
        },
        PredicateView::Regex { target, regex } => match log_field(e, target) {
            Some(v) => regex_accepts(regex, value_text(v)),
            None => match metric_tag(e, target) {
                Some(tag) => regex_accepts(regex, tag),
                None => false,
            },
        },
        PredicateView::Exists { target, wanted } => (log_field(e, target) is Some || metric_tag(
            e,
            target,
        ) is Some) == wanted,
    }
}

/// The value of the field `target`, if the event is a log record that has it.
fn field_of<'a>(event: &'a Event, target: &str) -> (r: Option<&'a Value>)
    ensures
        match r {
            Some(v) => log_field(event@, target@) == Some(v@),
            None => log_field(event@, target@) is None,
        },
{
    match event {
        Event::Log(log) => log.get(target),
        Event::Metric(_) => None,
    }
}

/// The text of the tag `target`, if the event is a metric that carries it.
fn tag_of<'a>(event: &'a Event, target: &str) -> (r: Option<&'a String>)
    ensures
        match r {
            Some(tag) => metric_tag(event@, target@) == Some(tag@),
            None => metric_tag(event@, target@) is None,
        },
{
    match event {
        Event::Log(_) => None,
        Event::Metric(metric) => metric.tag(target),
    }
}

/// A predicate: something that an event passes or fails.
pub trait CheckFieldsPredicate: std::fmt::Debug + Send + Sync {
    /// What the predicate tests.
    spec fn model(&self) -> PredicateView;

    /// Whether the event passes.
    fn check(&self, e: &Event) -> (r: bool)
        ensures
            r == passes(self.model(), e@),
    ;
}

/// Passes where the target equals the argument.
#[derive(Debug)]
pub struct EqualsPredicate {
    target: DefaultAtom,
    arg: CheckFieldsPredicateArg,
}

/// Passes where the target is there and its bytes differ from the argument.
/// The argument is taken as text, also where it was written as a number or a
/// truth value: unlike an equality, this predicate converts no numbers, so
/// an argument `5` lets a field pass that holds 5.5 and fail one that holds
/// 5, whether as a number or as text.
#[derive(Debug)]
pub struct NotEqualsPredicate {
    target: DefaultAtom,
    arg: String,
}

/// Passes where the text of the target field contains the argument.
#[derive(Debug)]
pub struct ContainsPredicate {
    target: DefaultAtom,
    arg: String,
}

/// Passes where the text of the target field starts with the argument.
#[derive(Debug)]
pub struct StartsWithPredicate {
    target: DefaultAtom,
    arg: String,
}

/// Passes where the text of the target field ends with the argument.
#[derive(Debug)]
pub struct EndsWithPredicate {
    target: DefaultAtom,
    arg: String,
}

/// Passes where the expression finds a match in the text of the target.
#[derive(Debug)]
pub struct RegexPredicate {
    target: DefaultAtom,
    regex: Regex,
}

/// Passes where the target is there, or is not there, as the argument asks.
#[derive(Debug)]
pub struct ExistsPredicate {
    target: DefaultAtom,
    arg: bool,
}

/// A predicate of any of the seven kinds.
#[derive(Debug)]
pub enum Predicate {
    Equals(EqualsPredicate),
    NotEquals(NotEqualsPredicate),
    Contains(ContainsPredicate),
    StartsWith(StartsWithPredicate),
    EndsWith(EndsWithPredicate),
    Regex(RegexPredicate),
    Exists(ExistsPredicate),
}

impl View for Predicate {
    type V = PredicateView;

    open spec fn view(&self) -> PredicateView {
        match self {
            Predicate::Equals(p) => p.model(),
            Predicate::NotEquals(p) => p.model(),
            Predicate::Contains(p) => p.model(),
            Predicate::StartsWith(p) => p.model(),
            Predicate::EndsWith(p) => p.model(),
            Predicate::Regex(p) => p.model(),
            Predicate::Exists(p) => p.model(),
        }
    }
}

impl CheckFieldsPredicate for Predicate {
    open spec fn model(&self) -> PredicateView {
        self@
    }

    fn check(&self, e: &Event) -> (r: bool) {
        match self {
            Predicate::Equals(p) => p.check(e),
            Predicate::NotEquals(p) => p.check(e),
            Predicate::Contains(p) => p.check(e),
            Predicate::StartsWith(p) => p.check(e),
            Predicate::EndsWith(p) => p.check(e),
            Predicate::Regex(p) => p.check(e),
            Predicate::Exists(p) => p.check(e),
        }
    }
}

/// The message for an argument of the wrong type where a string is needed.
pub open spec fn needs_string(kind: Seq<char>) -> Seq<char> {
    kind + " predicate requires a string argument"@
}

/// The message for an argument of the wrong type where a truth value is needed.
pub open spec fn needs_boolean(kind: Seq<char>) -> Seq<char> {
    kind + " predicate requires a boolean argument"@
}

/// The message for a pattern that does not compile.
pub open spec fn invalid_regex(pattern: Seq<char>, reason: Seq<char>) -> Seq<char> {
    "Invalid regex \""@ + pattern + "\": "@ + reason
}

fn string_needed(kind: &str) -> (message: String)
    ensures
        message@ == needs_string(kind@),
{
    let mut message = kind.to_owned();
    message.append(" predicate requires a string argument");
    message
}

impl EqualsPredicate {
    /// A predicate that compares `target` with `arg`; any argument will do.
    pub fn new(target: String, arg: &CheckFieldsPredicateArg) -> (r: Result<Predicate, String>)
        ensures
            r matches Ok(p) && p@ == (PredicateView::Equals { target: target@, arg: arg@ }),
    {
        Ok(Predicate::Equals(EqualsPredicate { target: intern(target), arg: arg.clone() }))
    }
}

impl CheckFieldsPredicate for EqualsPredicate {
    closed spec fn model(&self) -> PredicateView {
        PredicateView::Equals { target: atom_text(self.target), arg: self.arg@ }
    }

    fn check(&self, e: &Event) -> (r: bool) {
        let target = atom_str(&self.target);
        match field_of(e, target) {
            Some(v) => match &self.arg {
                CheckFieldsPredicateArg::String(s) => v.has_bytes(s.as_str().as_bytes()),
                CheckFieldsPredicateArg::Integer(i) => match v {
                    Value::Integer(vi) => *i == *vi,
                    Value::Float(vf) => *i == float_bits_to_integer(vf.bits),
                    _ => false,
                },
                CheckFieldsPredicateArg::Float(f) => match v {
                    Value::Float(vf) => float_bits_equal(f.bits, vf.bits),
                    Value::Integer(vi) => float_bits_equal(f.bits, integer_to_float_bits(*vi)),
                    _ => false,
                },
                CheckFieldsPredicateArg::Boolean(b) => match v {
                    Value::Boolean(vb) => *b == *vb,
                    _ => false,
                },
            },
            None => match tag_of(e, target) {
                Some(tag) => match &self.arg {
                    CheckFieldsPredicateArg::String(s) => same_text(s.as_str(), tag.as_str()),
                    _ => false,
                },
                None => false,
            },
        }
    }
}

impl NotEqualsPredicate {
    /// A predicate that compares `target` with the plain rendering of `arg`;
    /// any argument will do.
    pub fn new(target: String, arg: &CheckFieldsPredicateArg) -> (r: Result<Predicate, String>)
        ensures
            r matches Ok(p) && p@ == (PredicateView::NotEquals {
                target: target@,
                text: arg_display(arg@),
            }),
    {
        Ok(
            Predicate::NotEquals(
                NotEqualsPredicate { target: intern(target), arg: arg.display_text() },
            ),
        )
    }
}

impl CheckFieldsPredicate for NotEqualsPredicate {
    closed spec fn model(&self) -> PredicateView {
        PredicateView::NotEquals { target: atom_text(self.target), text: self.arg@ }
    }

    fn check(&self, e: &Event) -> (r: bool) {
        let target = atom_str(&self.target);
        match field_of(e, target) {
            Some(v) => !v.has_bytes(self.arg.as_str().as_bytes()),
            None => match tag_of(e, target) {
                Some(tag) => !same_text(tag.as_str(), self.arg.as_str()),
                None => false,
            },
        }
    }
}

impl ContainsPredicate {
    /// A predicate that looks for `arg` in `target`; `arg` must be a string.
    pub fn new(target: String, arg: &CheckFieldsPredicateArg) -> (r: Result<Predicate, String>)
        ensures
            match arg@ {
                ArgView::String(s) => r matches Ok(p) && p@ == (PredicateView::Contains {
                    target: target@,
                    text: s,
                }),
                _ => r matches Err(message) && message@ == needs_string("contains"@),
            },
    {
        match arg {
            CheckFieldsPredicateArg::String(s) => Ok(
                Predicate::Contains(ContainsPredicate { target: intern(target), arg: s.clone() }),
            ),
            _ => Err(string_needed("contains")),
        }
    }
}

impl CheckFieldsPredicate for ContainsPredicate {
    closed spec fn model(&self) -> PredicateView {
        PredicateView::Contains { target: atom_text(self.target), text: self.arg@ }
    }

    fn check(&self, e: &Event) -> (r: bool) {
        match field_of(e, atom_str(&self.target)) {
            Some(v) => {
                let text = v.to_string_lossy();
                text_includes(text.as_str(), self.arg.as_str())
            },
            None => false,
        }
    }
}

impl StartsWithPredicate {
    /// A predicate that looks for `arg` at the start of `target`; `arg` must
    /// be a string.
    pub fn new(target: String, arg: &CheckFieldsPredicateArg) -> (r: Result<Predicate, String>)
        ensures
            match arg@ {
                ArgView::String(s) => r matches Ok(p) && p@ == (PredicateView::StartsWith {
                    target: target@,
                    text: s,
                }),
                _ => r matches Err(message) && message@ == needs_string("starts_with"@),
            },
    {
        match arg {
            CheckFieldsPredicateArg::String(s) => Ok(
                Predicate::StartsWith(
                    StartsWithPredicate { target: intern(target), arg: s.clone() },
                ),
            ),
            _ => Err(string_needed("starts_with")),
        }
    }
}

impl CheckFieldsPredicate for StartsWithPredicate {
    closed spec fn model(&self) -> PredicateView {
        PredicateView::StartsWith { target: atom_text(self.target), text: self.arg@ }
    }

    fn check(&self, e: &Event) -> (r: bool) {
        match field_of(e, atom_str(&self.target)) {
            Some(v) => {
                let text = v.to_string_lossy();
                text_begins_with(text.as_str(), self.arg.as_str())
            },
            None => false,
        }
    }
}

impl EndsWithPredicate {
    /// A predicate that looks for `arg` at the end of `target`; `arg` must be
    /// a string.
    pub fn new(target: String, arg: &CheckFieldsPredicateArg) -> (r: Result<Predicate, String>)
        ensures
            match arg@ {
                ArgView::String(s) => r matches Ok(p) && p@ == (PredicateView::EndsWith {
                    target: target@,
                    text: s,
                }),
                _ => r matches Err(message) && message@ == needs_string("ends_with"@),
            },
    {
        match arg {
            CheckFieldsPredicateArg::String(s) => Ok(
                Predicate::EndsWith(EndsWithPredicate { target: intern(target), arg: s.clone() }),
            ),
            _ => Err(string_needed("ends_with")),
        }
    }
}

impl CheckFieldsPredicate for EndsWithPredicate {
    closed spec fn model(&self) -> PredicateView {
        PredicateView::EndsWith { target: atom_text(self.target), text: self.arg@ }
    }

    fn check(&self, e: &Event) -> (r: bool) {
        match field_of(e, atom_str(&self.target)) {
            Some(v) => {
                let text = v.to_string_lossy();
                text_ends_with(text.as_str(), self.arg.as_str())
            },
            None => false,
        }
    }
}

/// What making a regex predicate gives, once the pattern has gone through
/// compiling: the predicate that holds the expression, or the message with
/// the reason for which the pattern was refused.
pub open spec fn regex_outcome(
    target: Seq<char>,
    pattern: Seq<char>,
    compiled: Result<Regex, regex::Error>,
) -> Result<PredicateView, Seq<char>> {
    match compiled {
        Ok(regex) => Ok(PredicateView::Regex { target, regex }),
        Err(error) => Err(invalid_regex(pattern, regex_error_text(error))),
    }
}

impl RegexPredicate {
    /// The predicate for an expression that compiled, or the message for the
    /// error that compiling gave.
    pub fn from_compiled(target: String, pattern: &str, compiled: Result<Regex, regex::Error>) -> (r:
        Result<Predicate, String>)
        ensures
            match regex_outcome(target@, pattern@, compiled) {
                Ok(model) => r matches Ok(p) && p@ == model,
                Err(text) => r matches Err(message) && message@ == text,
            },
    {
        match compiled {
            Ok(regex) => Ok(Predicate::Regex(RegexPredicate { target: intern(target), regex })),
            Err(error) => {
                let mut message = "Invalid regex \"".to_owned();
                message.append(pattern);
                message.append("\": ");
                message.append(describe(&error).as_str());
                Err(message)
            },
        }
    }

    /// A predicate that searches `target` for a match of the pattern `arg`;
    /// `arg` must be a string, and must compile.
    pub fn new(target: String, arg: &CheckFieldsPredicateArg) -> (r: Result<Predicate, String>)
        ensures
            match arg@ {
                ArgView::String(s) => match regex_outcome(target@, s, regex_compiled(s)) {
                    Ok(model) => r matches Ok(p) && p@ == model,
                    Err(text) => r matches Err(message) && message@ == text,
                },
                _ => r matches Err(message) && message@ == needs_string("regex"@),
            },
    {
        match arg {
            CheckFieldsPredicateArg::String(s) => {
                let compiled = compile(s.as_str());
                RegexPredicate::from_compiled(target, s.as_str(), compiled)
            },
            _ => Err(string_needed("regex")),
        }
    }
}

impl CheckFieldsPredicate for RegexPredicate {
    closed spec fn model(&self) -> PredicateView {
        PredicateView::Regex { target: atom_text(self.target), regex: self.regex }
    }

    fn check(&self, e: &Event) -> (r: bool) {
        let target = atom_str(&self.target);
        match field_of(e, target) {
            Some(v) => {
                let text = v.to_string_lossy();
                is_match(&self.regex, text.as_str())
            },
            None => match tag_of(e, target) {
                Some(tag) => is_match(&self.regex, tag.as_str()),
                None => false,
            },
        }
    }
}

impl ExistsPredicate {
    /// A predicate that asks whether `target` is there; `arg` must be a truth
    /// value, and says which answer passes.
    pub fn new(target: String, arg: &CheckFieldsPredicateArg) -> (r: Result<Predicate, String>)
        ensures
            match arg@ {
                ArgView::Boolean(b) => r matches Ok(p) && p@ == (PredicateView::Exists {
                    target: target@,
                    wanted: b,
                }),
                _ => r matches Err(message) && message@ == needs_boolean("exists"@),
            },
    {
        match arg {
            CheckFieldsPredicateArg::Boolean(b) => Ok(
                Predicate::Exists(ExistsPredicate { target: intern(target), arg: *b }),
            ),
            _ => {
                let mut message = "exists".to_owned();
                message.append(" predicate requires a boolean argument");
                Err(message)
            },
        }
    }
}

impl CheckFieldsPredicate for ExistsPredicate {
    closed spec fn model(&self) -> PredicateView {
        PredicateView::Exists { target: atom_text(self.target), wanted: self.arg }
    }

    fn check(&self, e: &Event) -> (r: bool) {
        let target = atom_str(&self.target);
        let present = field_of(e, target).is_some() || tag_of(e, target).is_some();
        present == self.arg
    }
}

} // verus!
