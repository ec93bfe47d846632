//! Running statements one after the other.

use crate::base::DreamberdError;
use crate::builtin::DreamberdValue;
use crate::interpreter::{block_run, done_outcome, failure_of, follows, maybe_outcome, performed,
    returned, run_of, Interpreter};
use crate::processor::syntax_tree::stmt_view;
use crate::number::Arithmetic;
use crate::processor::syntax_tree::{stmt_views, CodeStatement};
use crate::semantics::{in_sequence, lemma_in_sequence_push, lemma_valid, valid, Outcome, Run,
    RunKind};
use vstd::prelude::*;

verus! {

impl<'a> Interpreter<'a> {
    /// Gives a statement its turn in a block: the clock is read and what has expired
    /// is swept out; the events that wait are handled; the statement runs; the line
    /// counter goes up by one.
    pub(crate) fn take_turn<N: Arithmetic>(
        &mut self,
        statement: &'a CodeStatement,
        ops: &N,
        depth: usize,
    ) -> (out: (Result<Option<DreamberdValue<'a>>, DreamberdError>, Ghost<Run>))
        requires
            old(self).namespaces@.len() >= 1,
        ensures
            performed(
                out.1@,
                RunKind::Turn { statement: stmt_view(*statement), depth: depth as nat },
                *old(self),
                *final(self),
                maybe_outcome(out.0),
            ),
            valid(ops, out.1@),
            follows(*final(self), *old(self)),
            out.0 is Ok ==> final(self).namespaces@.len() == old(self).namespaces@.len(),
        decreases depth, 18int,
    {
        let ghost from = self.machine();
        let ghost kind = RunKind::Turn { statement: stmt_view(*statement), depth: depth as nat };
        let now = self.clock.seconds();
        self.cleanup_expired_variables(now);
        let (polled, Ghost(first)) = self.poll_input_events(ops, depth);
        match polled {
            Ok(()) => {},
            Err(e) => {
                let ghost turn = Run {
                    kind,
                    before: from,
                    after: self.machine(),
                    result: failure_of(e),
                    parts: seq![first],
                    readings: seq![now],
                    events: Seq::empty(),
                };
                proof {
                    lemma_valid(ops, turn);
                }
                return (Err(e), Ghost(turn));
            },
        }
        let (stepped, Ghost(second)) = self.execute_statement(statement, ops, depth);
        let result = match stepped {
            Ok(r) => r,
            Err(e) => {
                let ghost turn = Run {
                    kind,
                    before: from,
                    after: self.machine(),
                    result: failure_of(e),
                    parts: seq![first, second],
                    readings: seq![now],
                    events: Seq::empty(),
                };
                proof {
                    lemma_valid(ops, turn);
                }
                return (Err(e), Ghost(turn));
            },
        };
        if self.current_line < u64::MAX {
            self.current_line = self.current_line + 1;
        }
        let ghost turn = Run {
            kind,
            before: from,
            after: self.machine(),
            result: returned(result),
            parts: seq![first, second],
            readings: seq![now],
            events: Seq::empty(),
        };
        proof {
            lemma_valid(ops, turn);
        }
        (Ok(result), Ghost(turn))
    }

    /// Closes a block: the `after` statements that wait are run, and then the events
    /// that wait are handled.
    pub(crate) fn close_block<N: Arithmetic>(&mut self, ops: &N, depth: usize) -> (out: (
        Result<(), DreamberdError>,
        Ghost<Run>,
    ))
        requires
            old(self).namespaces@.len() >= 1,
        ensures
            performed(
                out.1@,
                RunKind::Closing { depth: depth as nat },
                *old(self),
                *final(self),
                done_outcome(out.0),
            ),
            valid(ops, out.1@),
            follows(*final(self), *old(self)),
            out.0 is Ok ==> final(self).namespaces@.len() == old(self).namespaces@.len(),
            out.0 is Ok ==> final(self).after_statements@.len() == 0,
            old(self).after_statements@.len() == 0 ==> out.0 is Ok && *final(self) == *old(self),
        decreases depth, 18int,
    {
        let ghost from = self.machine();
        let ghost kind = RunKind::Closing { depth: depth as nat };
        let (flushed, Ghost(flush)) = self.execute_scheduled_after_statements(ops, depth);
        match flushed {
            Ok(()) => {},
            Err(e) => {
                let ghost closing = run_of(kind, from, self.machine(), failure_of(e), seq![flush]);
                proof {
                    lemma_valid(ops, closing);
                }
                return (Err(e), Ghost(closing));
            },
        }
        let (polled, Ghost(poll)) = self.poll_input_events(ops, depth);
        let ghost closing = run_of(
            kind,
            from,
            self.machine(),
            done_outcome(polled),
            seq![flush, poll],
        );
        proof {
            lemma_valid(ops, closing);
        }
        (polled, Ghost(closing))
    }

    /// Runs statements as a block: each has its turn, until one fails or returns a
    /// value; then the block closes. Gives what the last turn returned, and the run.
    pub(crate) fn run_block<N: Arithmetic>(
        &mut self,
        statements: &'a Vec<CodeStatement>,
        ops: &N,
        depth: usize,
    ) -> (out: (Result<Option<DreamberdValue<'a>>, DreamberdError>, Ghost<Run>))
        requires
            old(self).namespaces@.len() >= 1,
        ensures
            performed(
                out.1@,
                block_run(statements@, depth),
                *old(self),
                *final(self),
                maybe_outcome(out.0),
            ),
            valid(ops, out.1@),
            follows(*final(self), *old(self)),
            out.0 is Ok ==> final(self).namespaces@.len() == old(self).namespaces@.len(),
            out.0 is Ok ==> final(self).after_statements@.len() == 0,
            statements@.len() == 0 && old(self).after_statements@.len() == 0 ==> out.0 is Ok
                && out.0->Ok_0 is None && *final(self) == *old(self),
        decreases depth, 20int,
    {
        let ghost start = self.machine();
        let ghost kind = block_run(statements@, depth);
        let ghost views = stmt_views(statements@);
        let ghost mut parts: Seq<Run> = Seq::empty();
        let mut result: Option<DreamberdValue<'a>> = None;
        let mut i: usize = 0;
        while i < statements.len() && result.is_none()
            invariant
                i <= statements.len(),
                follows(*self, *old(self)),
                self.namespaces@.len() == old(self).namespaces@.len(),
                statements@.len() == 0 ==> *self == *old(self) && result is None,
                start == old(self).machine(),
                kind == (block_run(statements@, depth)),
                views == stmt_views(statements@),
                parts.len() == i,
                i == 0 ==> result is None,
                forall|j: int| 0 <= j < parts.len() ==> valid(ops, #[trigger] parts[j]),
                forall|j: int|
                    0 <= j < parts.len() ==> (#[trigger] parts[j]).kind == (RunKind::Turn {
                        statement: views[j],
                        depth: depth as nat,
                    }),
                forall|j: int|
                    0 <= j < parts.len() - 1 ==> (#[trigger] parts[j]).result == Outcome::Maybe(
                        None,
                    ),
                in_sequence(parts, start),
                i > 0 ==> parts[i - 1].result == returned(result),
                self.machine() == (if i == 0 {
                    start
                } else {
                    parts[i - 1].after
                }),
            decreases statements.len() - i,
        {
            let (stepped, Ghost(turn)) = self.take_turn(&statements[i], ops, depth);
            result = match stepped {
                Ok(r) => r,
                Err(e) => {
                    let ghost run = run_of(
                        kind,
                        start,
                        self.machine(),
                        failure_of(e),
                        parts.push(turn),
                    );
                    proof {
                        lemma_in_sequence_push(parts, start, turn);
                        lemma_valid(ops, run);
                    }
                    return (Err(e), Ghost(run));
                },
            };
            proof {
                lemma_in_sequence_push(parts, start, turn);
                parts = parts.push(turn);
            }
            i += 1;
        }
        let (closed, Ghost(closing)) = self.close_block(ops, depth);
        match closed {
            Ok(()) => {
                let ghost run = run_of(
                    kind,
                    start,
                    self.machine(),
                    returned(result),
                    parts.push(closing),
                );
                proof {
                    lemma_in_sequence_push(parts, start, closing);
                    lemma_valid(ops, run);
                }
                (Ok(result), Ghost(run))
            },
            Err(e) => {
                let ghost run = run_of(
                    kind,
                    start,
                    self.machine(),
                    failure_of(e),
                    parts.push(closing),
                );
                proof {
                    lemma_in_sequence_push(parts, start, closing);
                    lemma_valid(ops, run);
                }
                (Err(e), Ghost(run))
            },
        }
    }
}

} // verus!
