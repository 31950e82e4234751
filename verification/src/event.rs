//! Events: a log record with named fields, or a metric with named tags.

use vstd::prelude::*;
use vstd::string::*;
use vstd::utf8::*;
use crate::text::same_text;
use crate::value::{Value, ValueView};

verus! {

/// The entry at `at` is the first one under `name`.
pub open spec fn is_first_at<V>(entries: Seq<(String, V)>, name: Seq<char>, at: int) -> bool {
    &&& 0 <= at < entries.len()
    &&& entries[at].0@ == name
    &&& forall|j: int| 0 <= j < at ==> entries[j].0@ != name
}

/// Some entry stands under `name`.
pub open spec fn has_name<V>(entries: Seq<(String, V)>, name: Seq<char>) -> bool {
    exists|at: int| is_first_at(entries, name, at)
}

/// The place of the first entry under `name`.
pub open spec fn first_at<V>(entries: Seq<(String, V)>, name: Seq<char>) -> int {
    choose|at: int| is_first_at(entries, name, at)
}

/// The mapping that a list of named entries stands for: each name that occurs,
/// to the value of its first entry.
pub open spec fn entries_map<V: View>(entries: Seq<(String, V)>) -> Map<Seq<char>, V::V> {
    Map::new(
        |name: Seq<char>| has_name(entries, name),
        |name: Seq<char>| entries[first_at(entries, name)].1@,
    )
}

proof fn lemma_first_is_unique<V>(entries: Seq<(String, V)>, name: Seq<char>, at: int)
    requires
        is_first_at(entries, name, at),
    ensures
        has_name(entries, name),
        first_at(entries, name) == at,
{
    let other = first_at(entries, name);
    assert(is_first_at(entries, name, other));
    if other < at {
        assert(entries[other].0@ != name);
    } else if at < other {
        assert(entries[at].0@ != name);
    }
}

proof fn lemma_entry_replaced<V: View>(
    before: Seq<(String, V)>,
    after: Seq<(String, V)>,
    at: int,
    name: Seq<char>,
    value: V,
)
    requires
        is_first_at(before, name, at),
        after.len() == before.len(),
        after[at].0@ == name,
        after[at].1 == value,
        forall|j: int| 0 <= j < before.len() && j != at ==> after[j] == before[j],
    ensures
        entries_map(after) == entries_map(before).insert(name, value@),
{
    assert forall|k: Seq<char>, j: int| is_first_at(after, k, j) == is_first_at(before, k, j) by {
        if is_first_at(after, k, j) {
            assert forall|i: int| 0 <= i < j implies before[i].0@ != k by {
                assert(after[i].0@ != k);
            }
        }
        if is_first_at(before, k, j) {
            assert forall|i: int| 0 <= i < j implies after[i].0@ != k by {
                assert(before[i].0@ != k);
            }
        }
    }
    lemma_first_is_unique(after, name, at);
    assert forall|k: Seq<char>| has_name(after, k) == has_name(before, k) by {
        if has_name(after, k) {
            assert(is_first_at(before, k, first_at(after, k)));
        }
        if has_name(before, k) {
            assert(is_first_at(after, k, first_at(before, k)));
        }
    }
    assert forall|k: Seq<char>| k != name && has_name(before, k) implies first_at(after, k)
        == first_at(before, k) by {
        let j = first_at(before, k);
        assert(is_first_at(after, k, j));
        lemma_first_is_unique(after, k, j);
    }
    assert(entries_map(after) =~= entries_map(before).insert(name, value@));
}

proof fn lemma_entry_added<V: View>(before: Seq<(String, V)>, entry: (String, V))
    requires
        !has_name(before, entry.0@),
    ensures
        entries_map(before.push(entry)) == entries_map(before).insert(entry.0@, entry.1@),
{
    let after = before.push(entry);
    let name = entry.0@;
    assert forall|j: int| 0 <= j < before.len() implies before[j].0@ != name by {
        if before[j].0@ == name {
            lemma_some_is_first(before, name, j);
        }
    }
    assert(is_first_at(after, name, before.len() as int));
    lemma_first_is_unique(after, name, before.len() as int);
    assert forall|k: Seq<char>, j: int| k != name implies is_first_at(after, k, j) == is_first_at(
        before,
        k,
        j,
    ) by {
        if is_first_at(after, k, j) {
            assert forall|i: int| 0 <= i < j implies before[i].0@ != k by {
                assert(after[i].0@ != k);
            }
        }
        if is_first_at(before, k, j) {
            assert forall|i: int| 0 <= i < j implies after[i].0@ != k by {
                assert(before[i].0@ != k);
            }
        }
    }
    assert forall|k: Seq<char>| k != name implies has_name(after, k) == has_name(before, k) by {
        if has_name(after, k) {
            assert(is_first_at(before, k, first_at(after, k)));
        }
        if has_name(before, k) {
            assert(is_first_at(after, k, first_at(before, k)));
        }
    }
    assert forall|k: Seq<char>| k != name && has_name(before, k) implies first_at(after, k)
        == first_at(before, k) by {
        let j = first_at(before, k);
        assert(is_first_at(after, k, j));
        lemma_first_is_unique(after, k, j);
    }
    assert(entries_map(after) =~= entries_map(before).insert(name, entry.1@));
}

proof fn lemma_some_is_first<V>(entries: Seq<(String, V)>, name: Seq<char>, at: int)
    requires
        0 <= at < entries.len(),
        entries[at].0@ == name,
    ensures
        has_name(entries, name),
    decreases at,
{
    if forall|j: int| 0 <= j < at ==> entries[j].0@ != name {
        assert(is_first_at(entries, name, at));
    } else {
        let j = choose|j: int| 0 <= j < at && entries[j].0@ == name;
        lemma_some_is_first(entries, name, j);
    }
}

/// The place of the first entry under `name`, if there is one.
fn find_entry<V>(entries: &Vec<(String, V)>, name: &str) -> (r: Option<usize>)
    ensures
        match r {
            Some(at) => is_first_at(entries@, name@, at as int),
            None => !has_name(entries@, name@),
        },
{
    let mut i: usize = 0;
    while i < entries.len()
        invariant
            i <= entries.len(),
            forall|j: int| 0 <= j < i ==> entries@[j].0@ != name@,
        decreases entries.len() - i,
    {
        if same_text(entries[i].0.as_str(), name) {
            return Some(i);
        }
        i += 1;
    }
    proof {
        if has_name(entries@, name@) {
            let at = first_at(entries@, name@);
            assert(is_first_at(entries@, name@, at));
        }
    }
    None
}

/// The value under `name`, if there is one.
fn lookup<'a, V: View>(entries: &'a Vec<(String, V)>, name: &str) -> (r: Option<&'a V>)
    ensures
        match r {
            Some(v) => entries_map(entries@).contains_key(name@) && v@ == entries_map(
                entries@,
            )[name@],
            None => !entries_map(entries@).contains_key(name@),
        },
{
    match find_entry(entries, name) {
        Some(at) => {
            proof {
                lemma_first_is_unique(entries@, name@, at as int);
            }
            Some(&entries[at].1)
        },
        None => None,
    }
}

/// Puts `value` under `name`: in the place of the value that stood there, or
/// as a new last entry.
fn store<V: View>(entries: &mut Vec<(String, V)>, name: &str, value: V)
    ensures
        entries_map(final(entries)@) == entries_map(old(entries)@).insert(name@, value@),
{
    match find_entry(entries, name) {
        Some(at) => {
            let ghost before = entries@;
            entries.set(at, (name.to_owned(), value));
            proof {
                lemma_entry_replaced(before, entries@, at as int, name@, value);
            }
        },
        None => {
            let ghost before = entries@;
            let entry = (name.to_owned(), value);
            proof {
                lemma_entry_added(before, entry);
            }
            entries.push(entry);
        },
    }
}

/// A log record: named fields, each holding a value.
#[derive(Debug)]
pub struct LogEvent {
    fields: Vec<(String, Value)>,
}

impl View for LogEvent {
    type V = Map<Seq<char>, ValueView>;

    closed spec fn view(&self) -> Map<Seq<char>, ValueView> {
        entries_map(self.fields@)
    }
}

impl LogEvent {
    /// A record without fields.
    pub fn new() -> (log: LogEvent)
        ensures
            log@ == Map::<Seq<char>, ValueView>::empty(),
    {
        let log = LogEvent { fields: Vec::new() };
        proof {
            assert forall|name: Seq<char>| !has_name(log.fields@, name) by {
                if has_name(log.fields@, name) {
                    assert(is_first_at(log.fields@, name, first_at(log.fields@, name)));
                }
            }
            assert(log@ =~= Map::<Seq<char>, ValueView>::empty());
        }
        log
    }

    /// Sets the field `name` to `value`, replacing what it held.
    pub fn insert(&mut self, name: &str, value: Value)
        ensures
            final(self)@ == old(self)@.insert(name@, value@),
    {
        store(&mut self.fields, name, value);
    }

    /// The value of the field `name`, if the record has it.
    pub fn get(&self, name: &str) -> (r: Option<&Value>)
        ensures
            match r {
                Some(v) => self@.contains_key(name@) && v@ == self@[name@],
                None => !self@.contains_key(name@),
            },
    {
        lookup(&self.fields, name)
    }
}

/// A metric: it may carry tags, each a name with a text.
#[derive(Debug)]
pub struct Metric {
    tags: Option<Vec<(String, String)>>,
}

impl View for Metric {
    type V = Option<Map<Seq<char>, Seq<char>>>;

    closed spec fn view(&self) -> Option<Map<Seq<char>, Seq<char>>> {
        match self.tags {
            Some(tags) => Some(entries_map(tags@)),
            None => None,
        }
    }
}

impl Metric {
    /// A metric that carries no tags.
    pub fn new() -> (metric: Metric)
        ensures
            metric@ is None,
    {
        Metric { tags: None }
    }

    /// Sets the tag `name` to `text`, replacing what it held.
    pub fn insert_tag(&mut self, name: &str, text: &str)
        ensures
            final(self)@ == Some(
                (match old(self)@ {
                    Some(tags) => tags,
                    None => Map::empty(),
                }).insert(name@, text@),
            ),
    {
        let mut tags = match self.tags.take() {
            Some(tags) => tags,
            None => {
                let tags: Vec<(String, String)> = Vec::new();
                proof {
                    assert forall|k: Seq<char>| !has_name(tags@, k) by {
                        if has_name(tags@, k) {
                            assert(is_first_at(tags@, k, first_at(tags@, k)));
                        }
                    }
                    assert(entries_map(tags@) =~= Map::<Seq<char>, Seq<char>>::empty());
                }
                tags
            },
        };
        store(&mut tags, name, text.to_owned());
        self.tags = Some(tags);
    }

    /// The text of the tag `name`, if the metric carries it.
    pub fn tag(&self, name: &str) -> (r: Option<&String>)
        ensures
            match r {
                Some(text) => self@ matches Some(tags) && tags.contains_key(name@) && text@
                    == tags[name@],
                None => self@ matches Some(tags) ==> !tags.contains_key(name@),
            },
    {
        match &self.tags {
            Some(tags) => lookup(tags, name),
            None => None,
        }
    }
}

/// What a condition is evaluated against.
#[derive(Debug)]
pub enum Event {
    Log(LogEvent),
    Metric(Metric),
}

/// The model of an [`Event`].
pub enum EventView {
    Log(Map<Seq<char>, ValueView>),
    Metric(Option<Map<Seq<char>, Seq<char>>>),
}

impl View for Event {
    type V = EventView;

    open spec fn view(&self) -> EventView {
        match self {
            Event::Log(log) => EventView::Log(log@),
            Event::Metric(metric) => EventView::Metric(metric@),
        }
    }
}

/// The name of the field that holds the text a log record is made from.
pub open spec fn message_key() -> Seq<char> {
    "message"@
}

impl Event {
    /// A log record whose field `message` holds `message`.
    pub fn from_message(message: &str) -> (event: Event)
        ensures
            event@ == EventView::Log(
                Map::<Seq<char>, ValueView>::empty().insert(
                    message_key(),
                    ValueView::Bytes(encode_utf8(message@)),
                ),
            ),
    {
        let mut log = LogEvent::new();
        log.insert("message", Value::from_text(message));
        Event::Log(log)
    }

    /// The log record, for changing its fields.
    pub fn as_mut_log(&mut self) -> (log: &mut LogEvent)
        requires
            *old(self) is Log,
        ensures
            *old(self) == Event::Log(*log),
            *final(self) == Event::Log(*final(log)),
    {
        match self {
            Event::Log(log) => log,
            Event::Metric(_) => vstd::pervasive::unreached(),
        }
    }
}

} // verus!
