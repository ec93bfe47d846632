//! Evaluating calls.

use crate::base::{DreamberdError, TokenType};
use crate::binding::{Name, Namespace, NamespaceEntry};
use crate::builtin::{copy_value, value_view, value_views, DreamberdValue, ValueView};
use crate::interpreter::{expression_run, failure_of, follows, limit_error, performed, run_of,
    simple_error, undefined_value, value_outcome, Interpreter};
use crate::number::Arithmetic;
use crate::processor::expression_tree::{expr_views, ExpressionTreeNode, FunctionNode};
use crate::processor::syntax_tree::CodeStatement;
use crate::scope::{enter, leave, previous};
use crate::semantics::{call_scope, calls, lemma_valid, valid, Outcome, Run};
use crate::text::same_text;
use vstd::prelude::*;

verus! {

impl<'a> Interpreter<'a> {
    /// Evaluates a call: of `current`, `previous` or `next`, of a function of the
    /// program, or of a function of the runtime.
    pub(crate) fn evaluate_function_call<N: Arithmetic>(&mut self, func: &FunctionNode, ops: &N, depth: usize) -> (out:
        (Result<DreamberdValue<'a>, DreamberdError>, Ghost<Run>))
        requires
            old(self).namespaces@.len() >= 1,
        ensures
            performed(
                out.1@,
                expression_run(ExpressionTreeNode::Function(*func), depth),
                *old(self),
                *final(self),
                value_outcome(out.0),
            ),
            valid(ops, out.1@),
            follows(*final(self), *old(self)),
            out.0 is Ok ==> final(self).namespaces@.len() == old(self).namespaces@.len(),
        decreases depth, 12int,
    {
        let ghost start = self.machine();
        let ghost kind = expression_run(ExpressionTreeNode::Function(*func), depth);
        let ghost views = expr_views(func.args@);
        if depth == 0 {
            let e = limit_error();
            let ghost run = run_of(kind, start, start, failure_of(e), Seq::empty());
            proof {
                lemma_valid(ops, run);
            }
            return (Err(e), Ghost(run));
        }
        proof {
            reveal_strlit("current");
            reveal_strlit("previous");
            reveal_strlit("next");
            assert("current"@.len() == 7);
            assert("previous"@.len() == 8);
            assert("next"@.len() == 4);
        }
        let name = func.name.value.as_str();
        if same_text(name, "current") {
            if func.args.len() != 1 {
                let e = simple_error("current() expects 1 argument");
                let ghost run = run_of(kind, start, start, failure_of(e), Seq::empty());
                proof {
                    lemma_valid(ops, run);
                }
                return (Err(e), Ghost(run));
            }
            let (r, Ghost(first)) = self.evaluate_expression(&func.args[0], ops, depth - 1);
            let ghost run = run_of(kind, start, self.machine(), value_outcome(r), seq![first]);
            proof {
                lemma_valid(ops, run);
            }
            return (r, Ghost(run));
        }
        if same_text(name, "previous") {
            if func.args.len() != 1 {
                let e = simple_error("previous() expects 1 argument");
                let ghost run = run_of(kind, start, start, failure_of(e), Seq::empty());
                proof {
                    lemma_valid(ops, run);
                }
                return (Err(e), Ghost(run));
            }
            if let ExpressionTreeNode::Value(node) = &func.args[0] {
                if node.token.token_type == TokenType::Name {
                    let value = previous(&self.namespaces, node.token.value.as_str());
                    let ghost run = run_of(
                        kind,
                        start,
                        start,
                        Outcome::Value(value_view(value)),
                        Seq::empty(),
                    );
                    proof {
                        lemma_valid(ops, run);
                    }
                    return (Ok(value), Ghost(run));
                }
            }
            let e = simple_error("previous() expects a variable name");
            let ghost run = run_of(kind, start, start, failure_of(e), Seq::empty());
            proof {
                lemma_valid(ops, run);
            }
            return (Err(e), Ghost(run));
        }
        if same_text(name, "next") {
            if func.args.len() != 1 {
                let e = simple_error("next() expects 1 argument");
                let ghost run = run_of(kind, start, start, failure_of(e), Seq::empty());
                proof {
                    lemma_valid(ops, run);
                }
                return (Err(e), Ghost(run));
            }
            if let ExpressionTreeNode::Value(node) = &func.args[0] {
                if node.token.token_type == TokenType::Name {
                    let value = undefined_value();
                    let ghost run = run_of(
                        kind,
                        start,
                        start,
                        Outcome::Value(ValueView::Undefined),
                        Seq::empty(),
                    );
                    proof {
                        lemma_valid(ops, run);
                    }
                    return (Ok(value), Ghost(run));
                }
            }
            let e = simple_error("next() expects a variable name");
            let ghost run = run_of(kind, start, start, failure_of(e), Seq::empty());
            proof {
                lemma_valid(ops, run);
            }
            return (Err(e), Ghost(run));
        }
        let ghost mut prefix: Seq<Run> = Seq::empty();
        let callee = match func.name.token_type {
            TokenType::InterpolatedString => {
                let (found, Ghost(p)) = self.evaluate_interpolated_string(name, ops, depth);
                proof {
                    prefix = seq![p];
                }
                found
            },
            _ => self.value_of_token(&func.name, ops),
        };
        let ghost base: int = prefix.len() as int;
        let ghost from = self.machine();
        let ghost what = value_outcome(callee);
        let callee = match callee {
            Ok(v) => v,
            Err(e) => {
                let ghost run = run_of(kind, start, from, failure_of(e), prefix);
                proof {
                    assert(calls(ops, run, func.name@, what, views, depth as nat));
                    lemma_valid(ops, run);
                }
                return (Err(e), Ghost(run));
            },
        };
        match callee {
            DreamberdValue::Function(f) => {
                let (found, Ghost(given_run)) = self.evaluate_all(&func.args, ops, depth);
                let args = match found {
                    Ok(args) => args,
                    Err(e) => {
                        let ghost run = run_of(
                            kind,
                            start,
                            self.machine(),
                            failure_of(e),
                            prefix.push(given_run),
                        );
                        proof {
                            assert(calls(ops, run, func.name@, what, views, depth as nat));
                            lemma_valid(ops, run);
                        }
                        return (Err(e), Ghost(run));
                    },
                };
                let ghost after_args = self.machine();
                let ghost params = crate::processor::syntax_tree::texts(f.args@);
                let ghost given = value_views(args@);
                let mut scope = Namespace::new();
                let mut i: usize = 0;
                while i < f.args.len() && i < args.len()
                    invariant
                        i <= f.args.len(),
                        i <= args.len(),
                        scope.wf(),
                        params == crate::processor::syntax_tree::texts(f.args@),
                        given == value_views(args@),
                        scope@ == call_scope(params, given, i as nat),
                    decreases f.args.len() - i,
                {
                    scope.insert(
                        f.args[i].clone(),
                        NamespaceEntry::Name(Name::new(f.args[i].clone(), copy_value(&args[i]))),
                    );
                    i += 1;
                }
                let ghost bound_to = scope@;
                enter(&mut self.namespaces, scope);
                assert(self.machine().stack =~= after_args.stack.push(bound_to));
                let code: &'a Vec<CodeStatement> = f.code;
                let (ran, Ghost(body_run)) = self.run_block(code, ops, depth - 1);
                let result = match ran {
                    Ok(r) => r,
                    Err(e) => {
                        let ghost run = run_of(
                            kind,
                            start,
                            self.machine(),
                            failure_of(e),
                            prefix.push(given_run).push(body_run),
                        );
                        proof {
                            assert(calls(ops, run, func.name@, what, views, depth as nat));
                            lemma_valid(ops, run);
                        }
                        return (Err(e), Ghost(run));
                    },
                };
                let ghost ended = self.machine();
                leave(&mut self.namespaces);
                assert(self.machine().stack =~= ended.stack.drop_last());
                let value = match result {
                    Some(v) => v,
                    None => undefined_value(),
                };
                let ghost run = run_of(
                    kind,
                    start,
                    self.machine(),
                    Outcome::Value(value_view(value)),
                    prefix.push(given_run).push(body_run),
                );
                proof {
                    assert(calls(ops, run, func.name@, what, views, depth as nat));
                    lemma_valid(ops, run);
                }
                (Ok(value), Ghost(run))
            },
            DreamberdValue::BuiltinFunction(f) => {
                let (found, Ghost(given_run)) = self.evaluate_all(&func.args, ops, depth);
                let args = match found {
                    Ok(args) => args,
                    Err(e) => {
                        let ghost run = run_of(
                            kind,
                            start,
                            self.machine(),
                            failure_of(e),
                            prefix.push(given_run),
                        );
                        proof {
                            assert(calls(ops, run, func.name@, what, views, depth as nat));
                            lemma_valid(ops, run);
                        }
                        return (Err(e), Ghost(run));
                    },
                };
                let value = self.call_builtin(f.name.as_str(), &args, ops);
                let ghost run = run_of(
                    kind,
                    start,
                    self.machine(),
                    Outcome::Value(value_view(value)),
                    prefix.push(given_run),
                );
                proof {
                    assert(calls(ops, run, func.name@, what, views, depth as nat));
                    lemma_valid(ops, run);
                }
                (Ok(value), Ghost(run))
            },
            _ => {
                let e = simple_error("Not a function");
                let ghost run = run_of(kind, start, from, failure_of(e), prefix);
                proof {
                    assert(calls(ops, run, func.name@, what, views, depth as nat));
                    lemma_valid(ops, run);
                }
                (Err(e), Ghost(run))
            },
        }
    }
}

} // verus!
