//! The configuration of a condition: rules keyed `<target>.<predicate>`, and
//! how they compile into named predicates.

use vstd::prelude::*;
use vstd::string::*;
use vstd::utf8::*;
use indexmap::IndexMap;
use crate::condition::CheckFields;
use crate::encoding::{lemma_dot_has_its_byte, lemma_split_at_last_dot, DOT};
use crate::ordered::{
    arguments_in_order, config_items, named_predicates, no_predicates, put_predicate, with_entry,
};
use crate::pattern::regex_compiled;
use crate::predicate::{
    needs_boolean, needs_string, regex_outcome, ContainsPredicate, EndsWithPredicate,
    EqualsPredicate, ExistsPredicate, NotEqualsPredicate, Predicate, PredicateView,
    RegexPredicate, StartsWithPredicate,
};
use crate::text::{join, joined, same_text, texts};
use crate::value::{arg_debug, arg_display, ArgView, CheckFieldsPredicateArg};

verus! {

/// The place of the last `.` in a key, or -1 where it holds none.
pub open spec fn last_dot(key: Seq<char>) -> int
    decreases key.len(),
{
    if key.len() == 0 {
        -1
    } else if key.last() == '.' {
        key.len() - 1
    } else {
        last_dot(key.drop_last())
    }
}

/// The target and the kind that a key names: what stands before its last `.`
/// and what stands after it, where neither is empty.
pub open spec fn key_parts(key: Seq<char>) -> Option<(Seq<char>, Seq<char>)> {
    let dot = last_dot(key);
    if 0 < dot < key.len() - 1 {
        Some((key.subrange(0, dot), key.subrange(dot + 1, key.len() as int)))
    } else {
        None
    }
}

/// The kinds of predicate.
#[derive(Clone, Copy, Debug, PartialEq, Eq)]
pub enum Kind {
    Equals,
    NotEquals,
    Contains,
    StartsWith,
    EndsWith,
    Exists,
    Regex,
}

/// The kind that a name stands for.
pub open spec fn kind_of(name: Seq<char>) -> Option<Kind> {
    if name == "eq"@ || name == "equals"@ {
        Some(Kind::Equals)
    } else if name == "neq"@ || name == "not_equals"@ {
        Some(Kind::NotEquals)
    } else if name == "contains"@ {
        Some(Kind::Contains)
    } else if name == "prefix"@ || name == "starts_with"@ {
        Some(Kind::StartsWith)
    } else if name == "ends_with"@ {
        Some(Kind::EndsWith)
    } else if name == "exists"@ {
        Some(Kind::Exists)
    } else if name == "regex"@ {
        Some(Kind::Regex)
    } else {
        None
    }
}

/// The name of a kind that is still taken but should no longer be written.
pub open spec fn is_deprecated(name: Seq<char>) -> bool {
    name == "prefix"@
}

/// The message for a name that stands for no kind.
pub open spec fn unknown_kind(name: Seq<char>) -> Seq<char> {
    "predicate type '"@ + name + "' not recognized"@
}

/// The message for a key that names no target or no kind.
pub open spec fn malformed_key(key: Seq<char>) -> Seq<char> {
    "predicate not found in check_fields value '"@ + key
        + "', format must be <target>.<predicate>"@
}

/// The name under which a rule's predicate is reported.
pub open spec fn display_name(key: Seq<char>, arg: ArgView) -> Seq<char> {
    key + ": "@ + arg_debug(arg)
}

/// What a kind makes of a target and an argument: the predicate, or the
/// message that says which argument the kind needs.
pub open spec fn built(kind: Seq<char>, target: Seq<char>, arg: ArgView) -> Result<
    PredicateView,
    Seq<char>,
> {
    match kind_of(kind) {
        Some(Kind::Equals) => Ok(PredicateView::Equals { target, arg }),
        Some(Kind::NotEquals) => Ok(PredicateView::NotEquals { target, text: arg_display(arg) }),
        Some(Kind::Contains) => match arg {
            ArgView::String(s) => Ok(PredicateView::Contains { target, text: s }),
            _ => Err(needs_string("contains"@)),
        },
        Some(Kind::StartsWith) => match arg {
            ArgView::String(s) => Ok(PredicateView::StartsWith { target, text: s }),
            _ => Err(needs_string("starts_with"@)),
        },
        Some(Kind::EndsWith) => match arg {
            ArgView::String(s) => Ok(PredicateView::EndsWith { target, text: s }),
            _ => Err(needs_string("ends_with"@)),
        },
        Some(Kind::Exists) => match arg {
            ArgView::Boolean(b) => Ok(PredicateView::Exists { target, wanted: b }),
            _ => Err(needs_boolean("exists"@)),
        },
        Some(Kind::Regex) => match arg {
            ArgView::String(s) => regex_outcome(target, s, regex_compiled(s)),
            _ => Err(needs_string("regex"@)),
        },
        None => Err(unknown_kind(kind)),
    }
}

/// What one rule compiles to.
pub open spec fn compiled_entry(key: Seq<char>, arg: ArgView) -> Result<PredicateView, Seq<char>> {
    match key_parts(key) {
        Some((target, kind)) => built(kind, target, arg),
        None => Err(malformed_key(key)),
    }
}

/// The named predicates that the rules compile to, in the order of the rules
/// that compile.
pub open spec fn compiled(items: Seq<(Seq<char>, ArgView)>) -> Seq<(Seq<char>, PredicateView)>
    decreases items.len(),
{
    if items.len() == 0 {
        Seq::empty()
    } else {
        let before = compiled(items.drop_last());
        let (key, arg) = items.last();
        match compiled_entry(key, arg) {
            Ok(predicate) => with_entry(before, display_name(key, arg), predicate),
            Err(_) => before,
        }
    }
}

/// The messages of the rules that do not compile, in the order of the rules.
pub open spec fn compile_errors(items: Seq<(Seq<char>, ArgView)>) -> Seq<Seq<char>>
    decreases items.len(),
{
    if items.len() == 0 {
        Seq::empty()
    } else {
        let before = compile_errors(items.drop_last());
        let (key, arg) = items.last();
        match compiled_entry(key, arg) {
            Ok(_) => before,
            Err(message) => before.push(message),
        }
    }
}

/// The targets of the rules that name their kind by its deprecated name, in
/// the order of the rules.
pub open spec fn deprecated_uses(items: Seq<(Seq<char>, ArgView)>) -> Seq<Seq<char>>
    decreases items.len(),
{
    if items.len() == 0 {
        Seq::empty()
    } else {
        let before = deprecated_uses(items.drop_last());
        match key_parts(items.last().0) {
            Some((target, kind)) => if is_deprecated(kind) {
                before.push(target)
            } else {
                before
            },
            None => before,
        }
    }
}

/// The one message that stands for all the rules that do not compile: the
/// message itself where there is one, and otherwise a header with all of
/// them, one to a line.
pub open spec fn report(errors: Seq<Seq<char>>) -> Seq<char> {
    if errors.len() > 1 {
        "failed to parse predicates:\n"@ + joined(errors, "\n"@)
    } else {
        errors[0]
    }
}

/// The result agrees with what was to be made.
pub open spec fn agrees(r: Result<Predicate, String>, wanted: Result<PredicateView, Seq<char>>) -> bool {
    match wanted {
        Ok(model) => r matches Ok(p) && p@ == model,
        Err(text) => r matches Err(message) && message@ == text,
    }
}

proof fn lemma_last_dot(key: Seq<char>, dot: int)
    requires
        -1 <= dot < key.len(),
        dot >= 0 ==> key[dot] == '.',
        forall|j: int| dot < j < key.len() ==> key[j] != '.',
    ensures
        last_dot(key) == dot,
    decreases key.len(),
{
    if key.len() > 0 && dot < key.len() - 1 {
        lemma_last_dot(key.drop_last(), dot);
    }
}

/// Splits a key at its last `.` into the target and the kind.
pub fn split_key(key: &str) -> (r: Option<(String, String)>)
    ensures
        match r {
            Some((target, kind)) => key_parts(key@) == Some((target@, kind@)),
            None => key_parts(key@) is None,
        },
{
    let bytes = key.as_bytes();
    let n = bytes.len();
    let mut i: usize = n;
    while i > 0
        invariant
            i <= n,
            n == bytes@.len(),
            bytes@ == encode_utf8(key@),
            forall|j: int| i <= j < n ==> bytes@[j] != DOT,
        decreases i,
    {
        i -= 1;
        if bytes[i] == DOT {
            let ghost before = decode_utf8(bytes@.subrange(0, i as int));
            let ghost behind = decode_utf8(bytes@.subrange(i + 1, n as int));
            proof {
                lemma_split_at_last_dot(key@, i as int);
                lemma_last_dot(key@, before.len() as int);
                assert(key@.subrange(0, before.len() as int) =~= before);
                assert(key@.subrange((before.len() + 1) as int, key@.len() as int) =~= behind);
            }
            if i > 0 && i < n - 1 {
                let (target, rest) = key.split_at(i);
                let (_, kind) = rest.split_at(1);
                proof {
                    assert(rest.spec_bytes().subrange(1, rest.spec_bytes().len() as int)
                        =~= bytes@.subrange(i + 1, n as int));
                    encode_utf8_decode_utf8(target@);
                    encode_utf8_decode_utf8(kind@);
                }
                return Some((target.to_owned(), kind.to_owned()));
            } else {
                return None;
            }
        }
    }
    proof {
        assert forall|j: int| 0 <= j < key@.len() implies key@[j] != '.' by {
            if key@[j] == '.' {
                lemma_dot_has_its_byte(key@, j);
            }
        }
        lemma_last_dot(key@, -1);
    }
    None
}

/// The kind that a name stands for.
pub fn parse_kind(name: &str) -> (r: Option<Kind>)
    ensures
        r == kind_of(name@),
{
    if same_text(name, "eq") || same_text(name, "equals") {
        Some(Kind::Equals)
    } else if same_text(name, "neq") || same_text(name, "not_equals") {
        Some(Kind::NotEquals)
    } else if same_text(name, "contains") {
        Some(Kind::Contains)
    } else if same_text(name, "prefix") || same_text(name, "starts_with") {
        Some(Kind::StartsWith)
    } else if same_text(name, "ends_with") {
        Some(Kind::EndsWith)
    } else if same_text(name, "exists") {
        Some(Kind::Exists)
    } else if same_text(name, "regex") {
        Some(Kind::Regex)
    } else {
        None
    }
}

/// Whether a name of a kind is the deprecated one.
pub fn deprecated_kind(name: &str) -> (r: bool)
    ensures
        r == is_deprecated(name@),
{
    same_text(name, "prefix")
}

/// Makes the predicate of the kind `predicate` for `target` and `arg`.
pub fn build_predicate(predicate: &str, target: String, arg: &CheckFieldsPredicateArg) -> (r: Result<
    Predicate,
    String,
>)
    ensures
        agrees(r, built(predicate@, target@, arg@)),
{
    match parse_kind(predicate) {
        Some(Kind::Equals) => EqualsPredicate::new(target, arg),
        Some(Kind::NotEquals) => NotEqualsPredicate::new(target, arg),
        Some(Kind::Contains) => ContainsPredicate::new(target, arg),
        Some(Kind::StartsWith) => StartsWithPredicate::new(target, arg),
        Some(Kind::EndsWith) => EndsWithPredicate::new(target, arg),
        Some(Kind::Exists) => ExistsPredicate::new(target, arg),
        Some(Kind::Regex) => RegexPredicate::new(target, arg),
        None => {
            let mut message = "predicate type '".to_owned();
            message.append(predicate);
            message.append("' not recognized");
            Err(message)
        },
    }
}

/// Compiles one rule.
pub fn build_entry(key: &str, arg: &CheckFieldsPredicateArg) -> (r: Result<Predicate, String>)
    ensures
        agrees(r, compiled_entry(key@, arg@)),
{
    match split_key(key) {
        Some((target, kind)) => build_predicate(kind.as_str(), target, arg),
        None => {
            let mut message = "predicate not found in check_fields value '".to_owned();
            message.append(key);
            message.append("', format must be <target>.<predicate>");
            Err(message)
        },
    }
}

/// Compiles every rule, in order: the named predicates where all compile, and
/// otherwise the messages of all that do not.
pub fn build_predicates(map: &IndexMap<String, CheckFieldsPredicateArg>) -> (r: Result<
    IndexMap<String, Predicate>,
    Vec<String>,
>)
    ensures
        match r {
            Ok(predicates) => compile_errors(config_items(*map)).len() == 0 && named_predicates(
                predicates,
            ) == compiled(config_items(*map)),
            Err(errors) => errors@.len() > 0 && texts(errors@) == compile_errors(
                config_items(*map),
            ),
        },
{
    let entries = arguments_in_order(map);
    let ghost items = config_items(*map);
    let mut predicates = no_predicates();
    let mut errors: Vec<String> = Vec::new();
    let mut i: usize = 0;
    proof {
        assert(items.take(0) =~= Seq::empty());
        assert(texts(errors@) =~= Seq::empty());
    }
    while i < entries.len()
        invariant
            i <= entries.len(),
            entries@.len() == items.len(),
            forall|j: int|
                0 <= j < entries@.len() ==> (#[trigger] entries@[j]).0@ == items[j].0
                    && entries@[j].1@ == items[j].1,
            named_predicates(predicates) == compiled(items.take(i as int)),
            texts(errors@) == compile_errors(items.take(i as int)),
        decreases entries.len() - i,
    {
        let (key, arg) = entries[i];
        proof {
            assert(items.take(i + 1).drop_last() =~= items.take(i as int));
            assert(items.take(i + 1).last() == items[i as int]);
            assert(entries@[i as int].0@ == items[i as int].0);
        }
        match build_entry(key.as_str(), arg) {
            Ok(predicate) => {
                let mut name = key.clone();
                name.append(": ");
                name.append(arg.debug_text().as_str());
                put_predicate(&mut predicates, name, predicate);
            },
            Err(message) => {
                let ghost before = errors@;
                errors.push(message);
                proof {
                    assert(texts(errors@) =~= texts(before).push(message@));
                }
            },
        }
        i += 1;
    }
    proof {
        assert(items.take(entries.len() as int) =~= items);
    }
    if errors.len() == 0 {
        Ok(predicates)
    } else {
        Err(errors)
    }
}

/// The rules of a condition, in the order in which they were written.
#[derive(Debug)]
pub struct CheckFieldsConfig {
    predicates: IndexMap<String, CheckFieldsPredicateArg>,
}

impl View for CheckFieldsConfig {
    type V = Seq<(Seq<char>, ArgView)>;

    closed spec fn view(&self) -> Seq<(Seq<char>, ArgView)> {
        config_items(self.predicates)
    }
}

impl CheckFieldsConfig {
    /// The configuration that holds the given rules.
    pub fn new(predicates: IndexMap<String, CheckFieldsPredicateArg>) -> (config: CheckFieldsConfig)
        ensures
            config@ == config_items(predicates),
    {
        CheckFieldsConfig { predicates }
    }

    /// The rules.
    pub fn predicates(&self) -> (rules: &IndexMap<String, CheckFieldsPredicateArg>)
        ensures
            config_items(*rules) == self@,
    {
        &self.predicates
    }

    /// Compiles the rules into a condition. Where some do not compile, the
    /// error reports every one of them.
    pub fn build(&self) -> (r: Result<CheckFields, String>)
        ensures
            match r {
                Ok(condition) => compile_errors(self@).len() == 0 && condition@ == compiled(self@),
                Err(message) => compile_errors(self@).len() > 0 && message@ == report(
                    compile_errors(self@),
                ),
            },
    {
        match build_predicates(&self.predicates) {
            Ok(predicates) => Ok(CheckFields::new(predicates)),
            Err(errors) => {
                if errors.len() > 1 {
                    let mut message = "failed to parse predicates:\n".to_owned();
                    message.append(join(&errors, "\n").as_str());
                    Err(message)
                } else {
                    Err(errors[0].clone())
                }
            },
        }
    }

    /// The targets of the rules that name their kind by its deprecated name,
    /// for the caller to warn about.
    pub fn deprecations(&self) -> (targets: Vec<String>)
        ensures
            texts(targets@) == deprecated_uses(self@),
    {
        let entries = arguments_in_order(&self.predicates);
        let ghost items = config_items(self.predicates);
        let mut targets: Vec<String> = Vec::new();
        let mut i: usize = 0;
        proof {
            assert(items.take(0) =~= Seq::empty());
            assert(texts(targets@) =~= Seq::empty());
        }
        while i < entries.len()
            invariant
                i <= entries.len(),
                entries@.len() == items.len(),
                forall|j: int|
                    0 <= j < entries@.len() ==> (#[trigger] entries@[j]).0@ == items[j].0
                        && entries@[j].1@ == items[j].1,
                texts(targets@) == deprecated_uses(items.take(i as int)),
            decreases entries.len() - i,
        {
            let (key, _) = entries[i];
            proof {
                assert(items.take(i + 1).drop_last() =~= items.take(i as int));
                assert(items.take(i + 1).last() == items[i as int]);
                assert(entries@[i as int].0@ == items[i as int].0);
            }
            match split_key(key.as_str()) {
                Some((target, kind)) => {
                    if deprecated_kind(kind.as_str()) {
                        let ghost before = targets@;
                        targets.push(target);
                        proof {
                            assert(texts(targets@) =~= texts(before).push(target@));
                        }
                    }
                },
                None => {},
            }
            i += 1;
        }
        proof {
            assert(items.take(entries.len() as int) =~= items);
        }
        targets
    }
}

} // verus!
