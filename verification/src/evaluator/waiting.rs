//! Handling the events that wait, and running the `after` statements that wait.

use crate::base::DreamberdError;
use crate::events::{event_key, InputEvent};
use crate::interpreter::{done_outcome, failure_of, follows, lemma_waiting, limit_error, performed,
    run_of, take_matching, Interpreter};
use crate::number::Arithmetic;
use crate::processor::syntax_tree::AfterStatement;
use crate::semantics::{after_views, flushes, in_sequence, lemma_flushes_push,
    lemma_in_sequence_push, lemma_valid, valid, waiting, Machine, Outcome, Run, RunKind};
use vstd::prelude::*;

verus! {

impl<'a> Interpreter<'a> {
    /// Takes the events that wait off the bus and handles them in the order in which
    /// they came.
    pub(crate) fn poll_input_events<N: Arithmetic>(&mut self, ops: &N, depth: usize) -> (out: (
        Result<(), DreamberdError>,
        Ghost<Run>,
    ))
        requires
            old(self).namespaces@.len() >= 1,
        ensures
            performed(
                out.1@,
                RunKind::Poll { depth: depth as nat },
                *old(self),
                *final(self),
                done_outcome(out.0),
            ),
            valid(ops, out.1@),
            follows(*final(self), *old(self)),
            out.0 is Ok ==> final(self).namespaces@.len() == old(self).namespaces@.len(),
            old(self).after_statements@.len() == 0 ==> out.0 is Ok && *final(self) == *old(self),
        decreases depth, 12int,
    {
        let ghost start = self.machine();
        let ghost kind = RunKind::Poll { depth: depth as nat };
        let pending = self.events.drain();
        let ghost events = Seq::new(pending@.len(), |k: int| pending@[k]@);
        let ghost mut parts: Seq<Run> = Seq::empty();
        let mut i: usize = 0;
        while i < pending.len()
            invariant
                i <= pending.len(),
                follows(*self, *old(self)),
                self.namespaces@.len() == old(self).namespaces@.len(),
                old(self).after_statements@.len() == 0 ==> *self == *old(self),
                start == old(self).machine(),
                kind == (RunKind::Poll { depth: depth as nat }),
                events == Seq::new(pending@.len(), |k: int| pending@[k]@),
                parts.len() == i,
                forall|j: int| 0 <= j < parts.len() ==> valid(ops, #[trigger] parts[j]),
                forall|j: int|
                    0 <= j < parts.len() ==> (#[trigger] parts[j]).kind == (RunKind::Event {
                        event: events[j],
                        depth: depth as nat,
                    }),
                forall|j: int| 0 <= j < parts.len() ==> !((#[trigger] parts[j]).result is Failed),
                in_sequence(parts, start),
                self.machine() == (if i == 0 {
                    start
                } else {
                    parts[i - 1].after
                }),
            decreases pending.len() - i,
        {
            let (handled, Ghost(p)) = self.process_event_within(&pending[i], ops, depth);
            match handled {
                Ok(()) => {},
                Err(e) => {
                    let ghost run = Run {
                        kind,
                        before: start,
                        after: self.machine(),
                        result: failure_of(e),
                        parts: parts.push(p),
                        readings: Seq::empty(),
                        events,
                    };
                    proof {
                        lemma_in_sequence_push(parts, start, p);
                        lemma_valid(ops, run);
                    }
                    return (Err(e), Ghost(run));
                },
            }
            proof {
                lemma_in_sequence_push(parts, start, p);
                parts = parts.push(p);
            }
            i += 1;
        }
        let ghost run = Run {
            kind,
            before: start,
            after: self.machine(),
            result: Outcome::Done,
            parts,
            readings: Seq::empty(),
            events,
        };
        proof {
            lemma_valid(ops, run);
        }
        (Ok(()), Ghost(run))
    }

    /// Handles one event: the `after` statements that it sets off leave the queue and
    /// their bodies run.
    pub(crate) fn process_event_within<N: Arithmetic>(&mut self, ev: &InputEvent, ops: &N, depth: usize) -> (out:
        (Result<(), DreamberdError>, Ghost<Run>))
        requires
            old(self).namespaces@.len() >= 1,
        ensures
            performed(
                out.1@,
                RunKind::Event { event: ev@, depth: depth as nat },
                *old(self),
                *final(self),
                done_outcome(out.0),
            ),
            valid(ops, out.1@),
            follows(*final(self), *old(self)),
            out.0 is Ok ==> final(self).namespaces@.len() == old(self).namespaces@.len(),
            old(self).after_statements@.len() == 0 ==> out.0 is Ok && *final(self) == *old(self),
        decreases depth, 11int,
    {
        let ghost start = self.machine();
        let ghost kind = RunKind::Event { event: ev@, depth: depth as nat };
        let key = event_key(ev);
        if self.after_statements.len() == 0 {
            let ghost run = run_of(kind, start, start, Outcome::Done, Seq::empty());
            proof {
                lemma_valid(ops, run);
            }
            return (Ok(()), Ghost(run));
        }
        let ghost queue = self.after_statements@;
        let matching = take_matching(&mut self.after_statements, key.as_str());
        proof {
            lemma_waiting(queue, key@, true);
            lemma_waiting(queue, key@, false);
        }
        let ghost taken = self.machine();
        let ghost set_off = waiting(start.afters, key@, true);
        if depth == 0 {
            if matching.len() > 0 {
                let e = limit_error();
                let ghost run = run_of(kind, start, taken, failure_of(e), Seq::empty());
                proof {
                    lemma_valid(ops, run);
                }
                return (Err(e), Ghost(run));
            }
            let ghost run = run_of(kind, start, taken, Outcome::Done, Seq::empty());
            proof {
                lemma_valid(ops, run);
            }
            return (Ok(()), Ghost(run));
        }
        let ghost mut parts: Seq<Run> = Seq::empty();
        let mut i: usize = 0;
        while i < matching.len()
            invariant
                depth > 0,
                i <= matching.len(),
                old(self).after_statements@.len() > 0,
                follows(*self, *old(self)),
                self.namespaces@.len() == old(self).namespaces@.len(),
                start == old(self).machine(),
                kind == (RunKind::Event { event: ev@, depth: depth as nat }),
                set_off == after_views(matching@),
                start.afters.len() > 0,
                set_off == waiting(start.afters, crate::events::key_of(ev@), true),
                taken == (Machine {
                    afters: waiting(start.afters, crate::events::key_of(ev@), false),
                    ..start
                }),
                parts.len() == i,
                forall|j: int| 0 <= j < parts.len() ==> valid(ops, #[trigger] parts[j]),
                forall|j: int|
                    0 <= j < parts.len() ==> (#[trigger] parts[j]).kind == (RunKind::Block {
                        statements: set_off[j].body,
                        depth: (depth - 1) as nat,
                    }),
                forall|j: int| 0 <= j < parts.len() ==> !((#[trigger] parts[j]).result is Failed),
                in_sequence(parts, taken),
                self.machine() == (if i == 0 {
                    taken
                } else {
                    parts[i - 1].after
                }),
            decreases matching.len() - i,
        {
            let stmt: &'a AfterStatement = matching[i];
            let (ran, Ghost(p)) = self.run_block(&stmt.body, ops, depth - 1);
            match ran {
                Ok(_) => {},
                Err(e) => {
                    let ghost run = run_of(
                        kind,
                        start,
                        self.machine(),
                        failure_of(e),
                        parts.push(p),
                    );
                    proof {
                        lemma_in_sequence_push(parts, taken, p);
                        lemma_valid(ops, run);
                    }
                    return (Err(e), Ghost(run));
                },
            }
            proof {
                lemma_in_sequence_push(parts, taken, p);
                parts = parts.push(p);
            }
            i += 1;
        }
        let ghost run = run_of(kind, start, self.machine(), Outcome::Done, parts);
        proof {
            lemma_valid(ops, run);
        }
        (Ok(()), Ghost(run))
    }

    /// Runs the `after` statements that wait, without their events, until none waits.
    pub(crate) fn execute_scheduled_after_statements<N: Arithmetic>(&mut self, ops: &N, depth: usize) -> (out:
        (Result<(), DreamberdError>, Ghost<Run>))
        requires
            old(self).namespaces@.len() >= 1,
        ensures
            performed(
                out.1@,
                RunKind::Flush { depth: depth as nat },
                *old(self),
                *final(self),
                done_outcome(out.0),
            ),
            valid(ops, out.1@),
            follows(*final(self), *old(self)),
            out.0 is Ok ==> final(self).namespaces@.len() == old(self).namespaces@.len(),
            out.0 is Ok ==> final(self).after_statements@.len() == 0,
            old(self).after_statements@.len() == 0 ==> out.0 is Ok && *final(self) == *old(self),
        decreases depth, 12int,
    {
        let ghost start = self.machine();
        let ghost kind = RunKind::Flush { depth: depth as nat };
        let ghost mut parts: Seq<Run> = Seq::empty();
        let mut rounds: usize = 0;
        while rounds < usize::MAX && self.after_statements.len() > 0
            invariant
                follows(*self, *old(self)),
                self.namespaces@.len() == old(self).namespaces@.len(),
                old(self).after_statements@.len() == 0 ==> *self == *old(self),
                start == old(self).machine(),
                kind == (RunKind::Flush { depth: depth as nat }),
                parts.len() == rounds,
                rounds > 0 ==> depth > 0,
                forall|j: int| 0 <= j < parts.len() ==> valid(ops, #[trigger] parts[j]),
                forall|j: int| 0 <= j < parts.len() ==> !((#[trigger] parts[j]).result is Failed),
                flushes(parts, start, depth as nat),
                self.machine() == (if rounds == 0 {
                    start
                } else {
                    parts[rounds - 1].after
                }),
            decreases usize::MAX - rounds,
        {
            let ghost from = self.machine();
            let ghost queue = self.after_statements@;
            let stmt: &'a AfterStatement = match self.after_statements.pop_front() {
                Some(stmt) => stmt,
                None => {
                    let ghost run = run_of(kind, start, self.machine(), Outcome::Done, parts);
                    proof {
                        assert(false);
                    }
                    return (Ok(()), Ghost(run));
                },
            };
            assert(self.machine().afters =~= from.afters.drop_first());
            if depth == 0 {
                let e = limit_error();
                let ghost run = run_of(kind, start, self.machine(), failure_of(e), parts);
                proof {
                    lemma_valid(ops, run);
                }
                return (Err(e), Ghost(run));
            }
            rounds += 1;
            let mut texts: Vec<&str> = Vec::new();
            texts.push("Executing scheduled after statement for ");
            let filename = self.filename.clone();
            texts.push(filename.as_str());
            texts.push(": ");
            texts.push(stmt.event.as_str());
            self.notice(&texts);
            let (ran, Ghost(p)) = self.run_block(&stmt.body, ops, depth - 1);
            match ran {
                Ok(_) => {},
                Err(e) => {
                    let ghost run = run_of(
                        kind,
                        start,
                        self.machine(),
                        failure_of(e),
                        parts.push(p),
                    );
                    proof {
                        lemma_flushes_push(parts, start, depth as nat, p);
                        lemma_valid(ops, run);
                    }
                    return (Err(e), Ghost(run));
                },
            }
            proof {
                lemma_flushes_push(parts, start, depth as nat, p);
                parts = parts.push(p);
            }
        }
        if self.after_statements.len() > 0 {
            let e = limit_error();
            let ghost run = run_of(kind, start, self.machine(), failure_of(e), parts);
            proof {
                lemma_valid(ops, run);
            }
            return (Err(e), Ghost(run));
        }
        let ghost run = run_of(kind, start, self.machine(), Outcome::Done, parts);
        proof {
            lemma_valid(ops, run);
        }
        (Ok(()), Ghost(run))
    }
}

} // verus!
