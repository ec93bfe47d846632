//! Evaluating expressions.

use crate::base::{DreamberdError, OperatorType, TokenType};
use crate::binding::Name;
use crate::builtin::{copy_value, db_not, db_to_boolean, entry_views, value_view, value_views,
    DreamberdList, DreamberdMap, DreamberdString, DreamberdValue, ValueView};
use crate::interpreter::{expression_run, failure_of, follows, limit_error, performed, run_of,
    value_outcome, values_outcome, Interpreter};
use crate::number::Arithmetic;
use crate::processor::expression_tree::{expr_views, ConstructorNode, ExpressionNode,
    ExpressionTreeNode, IndexNode, ListNode, SingleOperatorNode, ValueNode};
use crate::rules::{apply_binary, element_at};
use crate::semantics::{constructed, in_sequence, lemma_in_sequence_push, lemma_valid, valid,
    Outcome, Run, RunKind};
use crate::text::{append_text, decimal_text};
use vstd::prelude::*;

verus! {

impl<'a> Interpreter<'a> {
    /// Evaluates an expression. Gives its value, and the run.
    pub(crate) fn evaluate_expression<N: Arithmetic>(
        &mut self,
        expr: &ExpressionTreeNode,
        ops: &N,
        depth: usize,
    ) -> (out: (Result<DreamberdValue<'a>, DreamberdError>, Ghost<Run>))
        requires
            old(self).namespaces@.len() >= 1,
        ensures
            performed(
                out.1@,
                expression_run(*expr, depth),
                *old(self),
                *final(self),
                value_outcome(out.0),
            ),
            valid(ops, out.1@),
            follows(*final(self), *old(self)),
            out.0 is Ok ==> final(self).namespaces@.len() == old(self).namespaces@.len(),
        decreases depth, 20int,
    {
        match expr {
            ExpressionTreeNode::Value(v) => self.evaluate_value_node(v, ops, depth),
            ExpressionTreeNode::BinaryOp(op) => self.evaluate_binary_operation(op, ops, depth),
            ExpressionTreeNode::Function(f) => self.evaluate_function_call(f, ops, depth),
            ExpressionTreeNode::Constructor(c) => self.evaluate_constructor_call(c, ops, depth),
            ExpressionTreeNode::List(l) => self.evaluate_list_literal(l, ops, depth),
            ExpressionTreeNode::UnaryOp(op) => self.evaluate_unary_operation(op, ops, depth),
            ExpressionTreeNode::Index(i) => self.evaluate_index_operation(i, ops, depth),
        }
    }

    /// Evaluates a literal or a name.
    pub(crate) fn evaluate_value_node<N: Arithmetic>(&mut self, node: &ValueNode, ops: &N, depth: usize) -> (out:
        (Result<DreamberdValue<'a>, DreamberdError>, Ghost<Run>))
        requires
            old(self).namespaces@.len() >= 1,
        ensures
            performed(
                out.1@,
                expression_run(ExpressionTreeNode::Value(*node), depth),
                *old(self),
                *final(self),
                value_outcome(out.0),
            ),
            valid(ops, out.1@),
            follows(*final(self), *old(self)),
            out.0 is Ok ==> final(self).namespaces@.len() == old(self).namespaces@.len(),
        decreases depth, 12int,
    {
        let ghost start = self.machine();
        let ghost kind = expression_run(ExpressionTreeNode::Value(*node), depth);
        match node.token.token_type {
            TokenType::InterpolatedString => {
                let (r, Ghost(first)) = self.evaluate_interpolated_string(
                    node.token.value.as_str(),
                    ops,
                    depth,
                );
                let ghost run = run_of(kind, start, self.machine(), value_outcome(r), seq![first]);
                proof {
                    lemma_valid(ops, run);
                }
                (r, Ghost(run))
            },
            _ => {
                let r = self.value_of_token(&node.token, ops);
                let ghost run = run_of(kind, start, start, value_outcome(r), Seq::empty());
                proof {
                    lemma_valid(ops, run);
                }
                (r, Ghost(run))
            },
        }
    }

    /// Evaluates some expressions one after the other, until one fails.
    pub(crate) fn evaluate_all<N: Arithmetic>(
        &mut self,
        exprs: &Vec<ExpressionTreeNode>,
        ops: &N,
        depth: usize,
    ) -> (out: (Result<Vec<DreamberdValue<'a>>, DreamberdError>, Ghost<Run>))
        requires
            old(self).namespaces@.len() >= 1,
        ensures
            performed(
                out.1@,
                RunKind::All { exprs: expr_views(exprs@), depth: depth as nat },
                *old(self),
                *final(self),
                values_outcome(out.0),
            ),
            valid(ops, out.1@),
            follows(*final(self), *old(self)),
            out.0 is Ok ==> final(self).namespaces@.len() == old(self).namespaces@.len(),
            out.0 is Ok ==> out.0->Ok_0@.len() == exprs@.len(),
            exprs@.len() == 0 ==> out.0 is Ok && *final(self) == *old(self),
        decreases depth, 11int,
    {
        let ghost start = self.machine();
        let ghost views = expr_views(exprs@);
        let ghost kind = RunKind::All { exprs: views, depth: depth as nat };
        let mut values: Vec<DreamberdValue<'a>> = Vec::new();
        if depth == 0 {
            if exprs.len() > 0 {
                let e = limit_error();
                let ghost run = run_of(kind, start, start, failure_of(e), Seq::empty());
                proof {
                    lemma_valid(ops, run);
                }
                return (Err(e), Ghost(run));
            }
            let ghost run = run_of(
                kind,
                start,
                start,
                Outcome::Values(value_views(values@)),
                Seq::empty(),
            );
            proof {
                assert(value_views(values@) =~= Seq::empty());
                lemma_valid(ops, run);
            }
            return (Ok(values), Ghost(run));
        }
        let ghost mut parts: Seq<Run> = Seq::empty();
        let mut i: usize = 0;
        while i < exprs.len()
            invariant
                depth > 0,
                i <= exprs.len(),
                values@.len() == i,
                follows(*self, *old(self)),
                self.namespaces@.len() == old(self).namespaces@.len(),
                exprs@.len() == 0 ==> *self == *old(self),
                start == old(self).machine(),
                kind == (RunKind::All { exprs: expr_views(exprs@), depth: depth as nat }),
                views == expr_views(exprs@),
                parts.len() == i,
                forall|j: int| 0 <= j < parts.len() ==> valid(ops, #[trigger] parts[j]),
                forall|j: int|
                    0 <= j < parts.len() ==> (#[trigger] parts[j]).kind == (RunKind::Expression {
                        expr: views[j],
                        depth: (depth - 1) as nat,
                    }),
                forall|j: int|
                    0 <= j < parts.len() ==> (#[trigger] parts[j]).result == Outcome::Value(
                        value_view(values@[j]),
                    ),
                in_sequence(parts, start),
                self.machine() == (if i == 0 {
                    start
                } else {
                    parts[i - 1].after
                }),
            decreases exprs.len() - i,
        {
            let (found, Ghost(p)) = self.evaluate_expression(&exprs[i], ops, depth - 1);
            match found {
                Ok(v) => {
                    values.push(v);
                },
                Err(e) => {
                    let ghost run = run_of(
                        kind,
                        start,
                        self.machine(),
                        failure_of(e),
                        parts.push(p),
                    );
                    proof {
                        lemma_in_sequence_push(parts, start, p);
                        lemma_valid(ops, run);
                    }
                    return (Err(e), Ghost(run));
                },
            }
            proof {
                lemma_in_sequence_push(parts, start, p);
                parts = parts.push(p);
            }
            i += 1;
        }
        let ghost run = run_of(
            kind,
            start,
            self.machine(),
            Outcome::Values(value_views(values@)),
            parts,
        );
        proof {
            lemma_valid(ops, run);
        }
        (Ok(values), Ghost(run))
    }

    /// Evaluates a binary operator: `=` with a name or an indexing on its left
    /// assigns; any other operator is applied to the values of both sides.
    pub(crate) fn evaluate_binary_operation<N: Arithmetic>(
        &mut self,
        op: &ExpressionNode,
        ops: &N,
        depth: usize,
    ) -> (out: (Result<DreamberdValue<'a>, DreamberdError>, Ghost<Run>))
        requires
            old(self).namespaces@.len() >= 1,
        ensures
            performed(
                out.1@,
                expression_run(ExpressionTreeNode::BinaryOp(*op), depth),
                *old(self),
                *final(self),
                value_outcome(out.0),
            ),
            valid(ops, out.1@),
            follows(*final(self), *old(self)),
            out.0 is Ok ==> final(self).namespaces@.len() == old(self).namespaces@.len(),
        decreases depth, 12int,
    {
        let ghost start = self.machine();
        let ghost kind = expression_run(ExpressionTreeNode::BinaryOp(*op), depth);
        if depth == 0 {
            let e = limit_error();
            let ghost run = run_of(kind, start, start, failure_of(e), Seq::empty());
            proof {
                lemma_valid(ops, run);
            }
            return (Err(e), Ghost(run));
        }
        if op.operator == OperatorType::E {
            let (found, Ghost(first)) = self.evaluate_expression(&op.right, ops, depth - 1);
            let right = match found {
                Ok(v) => v,
                Err(e) => {
                    let ghost run = run_of(kind, start, self.machine(), failure_of(e), seq![first]);
                    proof {
                        lemma_valid(ops, run);
                    }
                    return (Err(e), Ghost(run));
                },
            };
            match &*op.left {
                ExpressionTreeNode::Value(node) => {
                    if node.token.token_type == TokenType::Name {
                        let (assigned, Ghost(second)) = self.assign_variable(
                            node.token.value.as_str(),
                            copy_value(&right),
                            ops,
                            depth,
                        );
                        let r = match assigned {
                            Ok(()) => Ok(right),
                            Err(e) => Err(e),
                        };
                        let ghost run = run_of(
                            kind,
                            start,
                            self.machine(),
                            value_outcome(r),
                            seq![first, second],
                        );
                        proof {
                            lemma_valid(ops, run);
                        }
                        return (r, Ghost(run));
                    }
                },
                ExpressionTreeNode::Index(index_node) => {
                    let (assigned, Ghost(second)) = self.assign_index(
                        index_node,
                        copy_value(&right),
                        ops,
                        depth,
                    );
                    let r = match assigned {
                        Ok(()) => Ok(right),
                        Err(e) => Err(e),
                    };
                    let ghost run = run_of(
                        kind,
                        start,
                        self.machine(),
                        value_outcome(r),
                        seq![first, second],
                    );
                    proof {
                        lemma_valid(ops, run);
                    }
                    return (r, Ghost(run));
                },
                _ => {},
            }
            let (found, Ghost(second)) = self.evaluate_expression(&op.left, ops, depth - 1);
            let r = match found {
                Ok(left) => Ok(apply_binary(OperatorType::E, &left, &right, ops)),
                Err(e) => Err(e),
            };
            let ghost run = run_of(kind, start, self.machine(), value_outcome(r), seq![first, second]);
            proof {
                lemma_valid(ops, run);
            }
            return (r, Ghost(run));
        }
        let (found, Ghost(first)) = self.evaluate_expression(&op.left, ops, depth - 1);
        let left = match found {
            Ok(v) => v,
            Err(e) => {
                let ghost run = run_of(kind, start, self.machine(), failure_of(e), seq![first]);
                proof {
                    lemma_valid(ops, run);
                }
                return (Err(e), Ghost(run));
            },
        };
        let (found, Ghost(second)) = self.evaluate_expression(&op.right, ops, depth - 1);
        let r = match found {
            Ok(right) => Ok(apply_binary(op.operator, &left, &right, ops)),
            Err(e) => Err(e),
        };
        let ghost run = run_of(kind, start, self.machine(), value_outcome(r), seq![first, second]);
        proof {
            lemma_valid(ops, run);
        }
        (r, Ghost(run))
    }

    /// Evaluates a unary operator: `;` is not.
    pub(crate) fn evaluate_unary_operation<N: Arithmetic>(
        &mut self,
        op: &SingleOperatorNode,
        ops: &N,
        depth: usize,
    ) -> (out: (Result<DreamberdValue<'a>, DreamberdError>, Ghost<Run>))
        requires
            old(self).namespaces@.len() >= 1,
        ensures
            performed(
                out.1@,
                expression_run(ExpressionTreeNode::UnaryOp(*op), depth),
                *old(self),
                *final(self),
                value_outcome(out.0),
            ),
            valid(ops, out.1@),
            follows(*final(self), *old(self)),
            out.0 is Ok ==> final(self).namespaces@.len() == old(self).namespaces@.len(),
        decreases depth, 12int,
    {
        let ghost start = self.machine();
        let ghost kind = expression_run(ExpressionTreeNode::UnaryOp(*op), depth);
        if depth == 0 {
            let e = limit_error();
            let ghost run = run_of(kind, start, start, failure_of(e), Seq::empty());
            proof {
                lemma_valid(ops, run);
            }
            return (Err(e), Ghost(run));
        }
        let (found, Ghost(first)) = self.evaluate_expression(&op.expression, ops, depth - 1);
        let r = match found {
            Ok(operand) => match op.operator.token_type {
                TokenType::Semicolon => {
                    let truth = db_to_boolean(&operand);
                    Ok(DreamberdValue::Boolean(db_not(&truth)))
                },
                _ => Ok(operand),
            },
            Err(e) => Err(e),
        };
        let ghost run = run_of(kind, start, self.machine(), value_outcome(r), seq![first]);
        proof {
            lemma_valid(ops, run);
        }
        (r, Ghost(run))
    }

    /// Evaluates a constructor call: a map of the class name and the arguments.
    pub(crate) fn evaluate_constructor_call<N: Arithmetic>(
        &mut self,
        constructor: &ConstructorNode,
        ops: &N,
        depth: usize,
    ) -> (out: (Result<DreamberdValue<'a>, DreamberdError>, Ghost<Run>))
        requires
            old(self).namespaces@.len() >= 1,
        ensures
            performed(
                out.1@,
                expression_run(ExpressionTreeNode::Constructor(*constructor), depth),
                *old(self),
                *final(self),
                value_outcome(out.0),
            ),
            valid(ops, out.1@),
            follows(*final(self), *old(self)),
            out.0 is Ok ==> final(self).namespaces@.len() == old(self).namespaces@.len(),
            out.0 is Ok ==> value_view(out.0->Ok_0) is Mapping,
        decreases depth, 12int,
    {
        let ghost start = self.machine();
        let ghost kind = expression_run(ExpressionTreeNode::Constructor(*constructor), depth);
        let (found, Ghost(first)) = self.evaluate_all(&constructor.args, ops, depth);
        let args = match found {
            Ok(args) => args,
            Err(e) => {
                let ghost run = run_of(kind, start, self.machine(), failure_of(e), seq![first]);
                proof {
                    lemma_valid(ops, run);
                }
                return (Err(e), Ghost(run));
            },
        };
        let ghost class_name = constructor.class_name.value@;
        let ghost given = value_views(args@);
        let mut object = DreamberdMap::new();
        object.insert(
            String::from_str("__class__"),
            DreamberdValue::String(DreamberdString::new(constructor.class_name.value.clone())),
        );
        let mut i: usize = 0;
        assert(entry_views(object.values@) =~= seq![("__class__"@, ValueView::String(class_name))]);
        while i < args.len()
            invariant
                i <= args.len(),
                given == value_views(args@),
                entry_views(object.values@) == constructed(class_name, given, i as nat),
            decreases args.len() - i,
        {
            let mut key = String::from_str("arg");
            append_text(&mut key, decimal_text(i as u64).as_str());
            object.insert(key, copy_value(&args[i]));
            i += 1;
        }
        let value = DreamberdValue::Mapping(object);
        let ghost run = run_of(
            kind,
            start,
            self.machine(),
            Outcome::Value(value_view(value)),
            seq![first],
        );
        proof {
            lemma_valid(ops, run);
        }
        (Ok(value), Ghost(run))
    }

    /// Evaluates a list in brackets.
    pub(crate) fn evaluate_list_literal<N: Arithmetic>(&mut self, list: &ListNode, ops: &N, depth: usize) -> (out:
        (Result<DreamberdValue<'a>, DreamberdError>, Ghost<Run>))
        requires
            old(self).namespaces@.len() >= 1,
        ensures
            performed(
                out.1@,
                expression_run(ExpressionTreeNode::List(*list), depth),
                *old(self),
                *final(self),
                value_outcome(out.0),
            ),
            valid(ops, out.1@),
            follows(*final(self), *old(self)),
            out.0 is Ok ==> final(self).namespaces@.len() == old(self).namespaces@.len(),
            out.0 is Ok ==> value_view(out.0->Ok_0) is List,
        decreases depth, 12int,
    {
        let ghost start = self.machine();
        let ghost kind = expression_run(ExpressionTreeNode::List(*list), depth);
        let (found, Ghost(first)) = self.evaluate_all(&list.values, ops, depth);
        let values = match found {
            Ok(values) => values,
            Err(e) => {
                let ghost run = run_of(kind, start, self.machine(), failure_of(e), seq![first]);
                proof {
                    lemma_valid(ops, run);
                }
                return (Err(e), Ghost(run));
            },
        };
        let value = DreamberdValue::List(DreamberdList::new(values));
        let ghost run = run_of(
            kind,
            start,
            self.machine(),
            Outcome::Value(value_view(value)),
            seq![first],
        );
        proof {
            lemma_valid(ops, run);
        }
        (Ok(value), Ghost(run))
    }

    /// Evaluates an indexing.
    pub(crate) fn evaluate_index_operation<N: Arithmetic>(
        &mut self,
        index_op: &IndexNode,
        ops: &N,
        depth: usize,
    ) -> (out: (Result<DreamberdValue<'a>, DreamberdError>, Ghost<Run>))
        requires
            old(self).namespaces@.len() >= 1,
        ensures
            performed(
                out.1@,
                expression_run(ExpressionTreeNode::Index(*index_op), depth),
                *old(self),
                *final(self),
                value_outcome(out.0),
            ),
            valid(ops, out.1@),
            follows(*final(self), *old(self)),
            out.0 is Ok ==> final(self).namespaces@.len() == old(self).namespaces@.len(),
        decreases depth, 12int,
    {
        let ghost start = self.machine();
        let ghost kind = expression_run(ExpressionTreeNode::Index(*index_op), depth);
        if depth == 0 {
            let e = limit_error();
            let ghost run = run_of(kind, start, start, failure_of(e), Seq::empty());
            proof {
                lemma_valid(ops, run);
            }
            return (Err(e), Ghost(run));
        }
        let (found, Ghost(first)) = self.evaluate_expression(&index_op.value, ops, depth - 1);
        let value = match found {
            Ok(v) => v,
            Err(e) => {
                let ghost run = run_of(kind, start, self.machine(), failure_of(e), seq![first]);
                proof {
                    lemma_valid(ops, run);
                }
                return (Err(e), Ghost(run));
            },
        };
        let (found, Ghost(second)) = self.evaluate_expression(&index_op.index, ops, depth - 1);
        let r = match found {
            Ok(index) => Ok(element_at(&value, &index, ops)),
            Err(e) => Err(e),
        };
        let ghost run = run_of(kind, start, self.machine(), value_outcome(r), seq![first, second]);
        proof {
            lemma_valid(ops, run);
        }
        (r, Ghost(run))
    }
}

} // verus!
