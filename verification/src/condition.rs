//! A compiled condition: named predicates, all of which an event must pass.

use vstd::prelude::*;
use vstd::string::*;
use indexmap::IndexMap;
use crate::text::{join, joined, texts};
use crate::event::{Event, EventView};
use crate::ordered::{named_predicates, predicate_at, predicate_count};
use crate::predicate::{passes, CheckFieldsPredicate, Predicate, PredicateView};

verus! {

/// The event passes every predicate.
pub open spec fn all_pass(entries: Seq<(Seq<char>, PredicateView)>, e: EventView) -> bool {
    forall|i: int| 0 <= i < entries.len() ==> passes(#[trigger] entries[i].1, e)
}

/// The names of the predicates that the event fails, in the order of the
/// predicates.
pub open spec fn failed_names(entries: Seq<(Seq<char>, PredicateView)>, e: EventView) -> Seq<
    Seq<char>,
>
    decreases entries.len(),
{
    if entries.len() == 0 {
        Seq::empty()
    } else {
        let before = failed_names(entries.drop_last(), e);
        if passes(entries.last().1, e) {
            before
        } else {
            before.push(entries.last().0)
        }
    }
}

/// The message that lists the predicates that failed.
pub open spec fn failure_report(names: Seq<Seq<char>>) -> Seq<char> {
    "predicates failed: [ "@ + joined(names, ", "@) + " ]"@
}

/// The verdict with its explanation: success where no predicate fails, and
/// otherwise the message that lists those that do.
pub open spec fn verdict(entries: Seq<(Seq<char>, PredicateView)>, e: EventView) -> Result<
    (),
    Seq<char>,
> {
    let failed = failed_names(entries, e);
    if failed.len() == 0 {
        Ok(())
    } else {
        Err(failure_report(failed))
    }
}

/// A condition on events: the conjunction of its named predicates.
#[derive(Debug)]
pub struct CheckFields {
    predicates: IndexMap<String, Predicate>,
}

impl View for CheckFields {
    type V = Seq<(Seq<char>, PredicateView)>;

    closed spec fn view(&self) -> Seq<(Seq<char>, PredicateView)> {
        named_predicates(self.predicates)
    }
}

impl CheckFields {
    /// The condition that holds the given predicates.
    pub fn new(predicates: IndexMap<String, Predicate>) -> (condition: CheckFields)
        ensures
            condition@ == named_predicates(predicates),
    {
        CheckFields { predicates }
    }

    /// Whether the event passes every predicate.
    pub fn check(&self, e: &Event) -> (r: bool)
        ensures
            r == all_pass(self@, e@),
    {
        let n = predicate_count(&self.predicates);
        let mut i: usize = 0;
        while i < n
            invariant
                i <= n,
                n == self@.len(),
                forall|j: int| 0 <= j < i ==> passes(#[trigger] self@[j].1, e@),
            decreases n - i,
        {
            match predicate_at(&self.predicates, i) {
                Some((_, predicate)) => {
                    if !predicate.check(e) {
                        return false;
                    }
                },
                None => {},
            }
            i += 1;
        }
        true
    }

    /// Tests every predicate, and names those that the event fails.
    pub fn check_with_context(&self, e: &Event) -> (r: Result<(), String>)
        ensures
            match r {
                Ok(_) => verdict(self@, e@) is Ok,
                Err(message) => verdict(self@, e@) == Err::<(), Seq<char>>(message@),
            },
    {
        let n = predicate_count(&self.predicates);
        let mut failed: Vec<String> = Vec::new();
        let mut i: usize = 0;
        proof {
            assert(self@.take(0) =~= Seq::empty());
            assert(texts(failed@) =~= Seq::empty());
        }
        while i < n
            invariant
                i <= n,
                n == self@.len(),
                texts(failed@) == failed_names(self@.take(i as int), e@),
            decreases n - i,
        {
            match predicate_at(&self.predicates, i) {
                Some((name, predicate)) => {
                    proof {
                        assert(self@.take(i + 1).drop_last() =~= self@.take(i as int));
                        assert(self@.take(i + 1).last() == self@[i as int]);
                    }
                    if !predicate.check(e) {
                        let ghost before = failed@;
                        failed.push(name.clone());
                        proof {
                            assert(texts(failed@) =~= texts(before).push(name@));
                        }
                    }
                },
                None => {},
            }
            i += 1;
        }
        proof {
            assert(self@.take(n as int) =~= self@);
        }
        if failed.len() == 0 {
            Ok(())
        } else {
            let mut message = "predicates failed: [ ".to_owned();
            message.append(join(&failed, ", ").as_str());
            message.append(" ]");
            Err(message)
        }
    }
}

} // verus!
