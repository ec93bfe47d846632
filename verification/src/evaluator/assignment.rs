//! Assigning to variables and to items of lists, with what that sets off.

use crate::base::{DreamberdError, TokenType};
use crate::binding::{Name, Variable};
use crate::builtin::{value_view, DreamberdValue};
use crate::interpreter::{bare_error, done_outcome, failure_of, follows, limit_error, listed,
    performed, run_of, sets_off_when, simple_error, unwatched, Interpreter};
use crate::number::Arithmetic;
use crate::processor::expression_tree::{expr_view, ExpressionTreeNode, IndexNode};
use crate::processor::syntax_tree::CodeStatement;
use crate::rules::list_key;
use crate::scope::{assign, insert_into_list, stack_view};
use crate::semantics::{in_sequence, lemma_in_sequence_push, lemma_valid, valid, Outcome, Run,
    RunKind};
use vstd::prelude::*;

verus! {

impl<'a> Interpreter<'a> {
    /// Assigns to a variable, and gives the `when` statements that read it their
    /// turn if the variable existed.
    pub(crate) fn assign_variable<N: Arithmetic>(
        &mut self,
        var_name: &str,
        value: DreamberdValue<'a>,
        ops: &N,
        depth: usize,
    ) -> (out: (Result<(), DreamberdError>, Ghost<Run>))
        requires
            old(self).namespaces@.len() >= 1,
        ensures
            performed(
                out.1@,
                RunKind::AssignVariable {
                    name: var_name@,
                    value: value_view(value),
                    depth: depth as nat,
                },
                *old(self),
                *final(self),
                done_outcome(out.0),
            ),
            valid(ops, out.1@),
            follows(*final(self), *old(self)),
            out.0 is Ok ==> final(self).namespaces@.len() == old(self).namespaces@.len(),
            unwatched(old(self).when_statements@, var_name@) ==> {
                &&& out.0 is Ok
                &&& stack_view(final(self).namespaces@) == crate::scope::stack_assigned(
                    stack_view(old(self).namespaces@),
                    var_name@,
                    value_view(value),
                )
                &&& final(self).effects == old(self).effects
                &&& final(self).when_statements == old(self).when_statements
                &&& final(self).after_statements == old(self).after_statements
                &&& final(self).current_line == old(self).current_line
            },
        decreases depth, 8int,
    {
        let ghost start = self.machine();
        let ghost kind = RunKind::AssignVariable {
            name: var_name@,
            value: value_view(value),
            depth: depth as nat,
        };
        let existed = assign(&mut self.namespaces, var_name, value);
        if existed {
            let (r, Ghost(first)) = self.trigger_when_statements_for_variable(var_name, ops, depth);
            let ghost run = run_of(kind, start, self.machine(), done_outcome(r), seq![first]);
            proof {
                lemma_valid(ops, run);
            }
            (r, Ghost(run))
        } else {
            let ghost run = run_of(kind, start, self.machine(), Outcome::Done, Seq::empty());
            proof {
                lemma_valid(ops, run);
            }
            (Ok(()), Ghost(run))
        }
    }

    /// Puts a value into a named list under an index.
    pub(crate) fn assign_index<N: Arithmetic>(
        &mut self,
        index_node: &IndexNode,
        value: DreamberdValue<'a>,
        ops: &N,
        depth: usize,
    ) -> (out: (Result<(), DreamberdError>, Ghost<Run>))
        requires
            old(self).namespaces@.len() >= 1,
        ensures
            performed(
                out.1@,
                RunKind::AssignIndex {
                    target: expr_view(*index_node.value),
                    index: expr_view(*index_node.index),
                    value: value_view(value),
                    depth: depth as nat,
                },
                *old(self),
                *final(self),
                done_outcome(out.0),
            ),
            valid(ops, out.1@),
            follows(*final(self), *old(self)),
            out.0 is Ok ==> final(self).namespaces@.len() == old(self).namespaces@.len(),
        decreases depth, 8int,
    {
        let ghost start = self.machine();
        let ghost kind = RunKind::AssignIndex {
            target: expr_view(*index_node.value),
            index: expr_view(*index_node.index),
            value: value_view(value),
            depth: depth as nat,
        };
        if let ExpressionTreeNode::Value(node) = &*index_node.value {
            if node.token.token_type == TokenType::Name {
                if depth == 0 {
                    let e = limit_error();
                    let ghost run = run_of(kind, start, start, failure_of(e), Seq::empty());
                    proof {
                        lemma_valid(ops, run);
                    }
                    return (Err(e), Ghost(run));
                }
                let (found, Ghost(first)) = self.evaluate_expression(&index_node.index, ops, depth - 1);
                let index = match found {
                    Ok(v) => v,
                    Err(e) => {
                        let ghost run = run_of(
                            kind,
                            start,
                            self.machine(),
                            failure_of(e),
                            seq![first],
                        );
                        proof {
                            lemma_valid(ops, run);
                        }
                        return (Err(e), Ghost(run));
                    },
                };
                if let DreamberdValue::Number(n) = &index {
                    let parts = ops.index_parts(n.bits);
                    assert(call_ensures(N::index_parts, (ops, n.bits), parts));
                    let key = list_key(parts, n.bits);
                    if insert_into_list(
                        &mut self.namespaces,
                        node.token.value.as_str(),
                        key,
                        parts.floor,
                        value,
                    ) {
                        let ghost run = run_of(
                            kind,
                            start,
                            self.machine(),
                            Outcome::Done,
                            seq![first],
                        );
                        proof {
                            lemma_valid(ops, run);
                        }
                        return (Ok(()), Ghost(run));
                    }
                }
                let mut texts: Vec<&str> = Vec::new();
                texts.push("Variable '");
                texts.push(node.token.value.as_str());
                texts.push("' not found or is not a list");
                let e = bare_error(&texts);
                let ghost run = run_of(kind, start, self.machine(), failure_of(e), seq![first]);
                proof {
                    lemma_valid(ops, run);
                }
                return (Err(e), Ghost(run));
            }
        }
        let e = simple_error("Index assignment only supported on variable references");
        let ghost run = run_of(kind, start, start, failure_of(e), Seq::empty());
        proof {
            lemma_valid(ops, run);
        }
        (Err(e), Ghost(run))
    }

    /// Gives every `when` that is registered its turn: one that reads the variable
    /// has its condition evaluated, and its body run unless the condition is false.
    pub(crate) fn trigger_when_statements_for_variable<N: Arithmetic>(
        &mut self,
        var_name: &str,
        ops: &N,
        depth: usize,
    ) -> (out: (Result<(), DreamberdError>, Ghost<Run>))
        requires
            old(self).namespaces@.len() >= 1,
        ensures
            performed(
                out.1@,
                RunKind::Trigger { name: var_name@, depth: depth as nat },
                *old(self),
                *final(self),
                done_outcome(out.0),
            ),
            valid(ops, out.1@),
            follows(*final(self), *old(self)),
            out.0 is Ok ==> final(self).namespaces@.len() == old(self).namespaces@.len(),
            unwatched(old(self).when_statements@, var_name@) ==> out.0 is Ok && *final(self) == *old(
                self,
            ),
        decreases depth, 6int,
    {
        let ghost start = self.machine();
        let ghost kind = RunKind::Trigger { name: var_name@, depth: depth as nat };
        let ghost mut parts: Seq<Run> = Seq::empty();
        let registered = self.when_statements.len();
        let mut i: usize = 0;
        while i < registered
            invariant
                i <= registered <= self.when_statements@.len(),
                registered == old(self).when_statements@.len(),
                follows(*self, *old(self)),
                self.namespaces@.len() == old(self).namespaces@.len(),
                unwatched(old(self).when_statements@, var_name@) ==> *self == *old(self),
                start == old(self).machine(),
                kind == (RunKind::Trigger { name: var_name@, depth: depth as nat }),
                parts.len() == i,
                forall|j: int| 0 <= j < parts.len() ==> valid(ops, #[trigger] parts[j]),
                forall|j: int|
                    0 <= j < parts.len() ==> (#[trigger] parts[j]).kind == (RunKind::Reaction {
                        index: j as nat,
                        name: var_name@,
                        depth: depth as nat,
                    }),
                forall|j: int| 0 <= j < parts.len() ==> !((#[trigger] parts[j]).result is Failed),
                in_sequence(parts, start),
                self.machine() == (if i == 0 {
                    start
                } else {
                    parts[i - 1].after
                }),
            decreases registered - i,
        {
            let ghost from = self.machine();
            let ghost turn = RunKind::Reaction {
                index: i as nat,
                name: var_name@,
                depth: depth as nat,
            };
            if listed(&self.when_statements[i].dependent_variables, var_name) {
                if depth == 0 {
                    let e = limit_error();
                    let ghost reaction = run_of(turn, from, from, failure_of(e), Seq::empty());
                    let ghost run = run_of(kind, start, from, failure_of(e), parts.push(reaction));
                    proof {
                        lemma_in_sequence_push(parts, start, reaction);
                        lemma_valid(ops, reaction);
                        lemma_valid(ops, run);
                    }
                    return (Err(e), Ghost(run));
                }
                let condition: &'a ExpressionTreeNode = self.when_statements[i].condition;
                let body: &'a Vec<CodeStatement> = self.when_statements[i].body;
                let (found, Ghost(tested)) = self.evaluate_expression(condition, ops, depth - 1);
                let value = match found {
                    Ok(v) => v,
                    Err(e) => {
                        let ghost reaction = run_of(
                            turn,
                            from,
                            self.machine(),
                            failure_of(e),
                            seq![tested],
                        );
                        let ghost run = run_of(
                            kind,
                            start,
                            self.machine(),
                            failure_of(e),
                            parts.push(reaction),
                        );
                        proof {
                            lemma_in_sequence_push(parts, start, reaction);
                            lemma_valid(ops, reaction);
                            lemma_valid(ops, run);
                        }
                        return (Err(e), Ghost(run));
                    },
                };
                if sets_off_when(&value) {
                    let (ran, Ghost(reacted)) = self.run_block(body, ops, depth - 1);
                    match ran {
                        Ok(_) => {
                            proof {
                                let reaction = run_of(
                                    turn,
                                    from,
                                    self.machine(),
                                    Outcome::Done,
                                    seq![tested, reacted],
                                );
                                lemma_valid(ops, reaction);
                                lemma_in_sequence_push(parts, start, reaction);
                                parts = parts.push(reaction);
                            }
                        },
                        Err(e) => {
                            let ghost reaction = run_of(
                                turn,
                                from,
                                self.machine(),
                                failure_of(e),
                                seq![tested, reacted],
                            );
                            let ghost run = run_of(
                                kind,
                                start,
                                self.machine(),
                                failure_of(e),
                                parts.push(reaction),
                            );
                            proof {
                                lemma_in_sequence_push(parts, start, reaction);
                                lemma_valid(ops, reaction);
                                lemma_valid(ops, run);
                            }
                            return (Err(e), Ghost(run));
                        },
                    }
                } else {
                    proof {
                        let reaction = run_of(turn, from, self.machine(), Outcome::Done, seq![tested]);
                        lemma_valid(ops, reaction);
                        lemma_in_sequence_push(parts, start, reaction);
                        parts = parts.push(reaction);
                    }
                }
            } else {
                proof {
                    let reaction = run_of(turn, from, from, Outcome::Done, Seq::empty());
                    lemma_valid(ops, reaction);
                    lemma_in_sequence_push(parts, start, reaction);
                    parts = parts.push(reaction);
                }
            }
            i += 1;
        }
        let ghost run = run_of(kind, start, self.machine(), Outcome::Done, parts);
        proof {
            lemma_valid(ops, run);
        }
        (Ok(()), Ghost(run))
    }
}

} // verus!
