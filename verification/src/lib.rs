//! Conditions on structured events: field-level predicates, compiled from
//! rules keyed `<target>.<predicate>`, all of which an event must pass.

pub mod condition;
pub mod config;
pub mod encoding;
pub mod event;
pub mod float;
pub mod laws;
pub mod ordered;
pub mod pattern;
pub mod predicate;
pub mod target;
pub mod text;
pub mod value;

pub use condition::CheckFields;
pub use config::CheckFieldsConfig;
pub use event::{Event, LogEvent, Metric};
pub use predicate::{
    CheckFieldsPredicate, ContainsPredicate, EndsWithPredicate, EqualsPredicate, ExistsPredicate,
    NotEqualsPredicate, Predicate, RegexPredicate, StartsWithPredicate,
};
pub use value::{CheckFieldsPredicateArg, Float, Value};
