//! Running one statement.

use crate::base::{DreamberdError, TokenType};
use crate::binding::Name;
use crate::builtin::{db_to_boolean, DreamberdValue, ValueView};
use crate::interpreter::{extract_variable_dependencies, failure_of, follows, limit_error,
    maybe_outcome, performed, run_of, sets_off_when, statement_outcome, statement_run,
    undefined_value, when_view, Interpreter, ReactiveWhen};
use crate::number::Arithmetic;
use crate::processor::expression_tree::ExpressionTreeNode;
use crate::processor::syntax_tree::{AfterStatement, ClassDeclaration, CodeStatement, Conditional,
    DeleteStatement, ImportStatement, IndexAssignment, VariableAssignment, VariableDeclaration,
    WhenStatement};
use crate::scope::delete;
use crate::semantics::{bound_somewhere, lemma_valid, valid, Outcome, Run};
use vstd::prelude::*;

verus! {

impl<'a> Interpreter<'a> {
    /// Runs one statement. Gives the value that it returned, if it is a `return`
    /// or holds one that ran, and the run.
    pub(crate) fn execute_statement<N: Arithmetic>(
        &mut self,
        statement: &'a CodeStatement,
        ops: &N,
        depth: usize,
    ) -> (out: (Result<Option<DreamberdValue<'a>>, DreamberdError>, Ghost<Run>))
        requires
            old(self).namespaces@.len() >= 1,
        ensures
            performed(
                out.1@,
                statement_run(*statement, depth),
                *old(self),
                *final(self),
                maybe_outcome(out.0),
            ),
            valid(ops, out.1@),
            follows(*final(self), *old(self)),
            out.0 is Ok ==> final(self).namespaces@.len() == old(self).namespaces@.len(),
        decreases depth, 15int,
    {
        let ghost start = self.machine();
        let ghost kind = statement_run(*statement, depth);
        match statement {
            CodeStatement::ExpressionStatement(stmt) => {
                if depth == 0 {
                    let e = limit_error();
                    let ghost run = run_of(kind, start, start, failure_of(e), Seq::empty());
                    proof {
                        lemma_valid(ops, run);
                    }
                    return (Err(e), Ghost(run));
                }
                let (value, Ghost(first)) = self.evaluate_expression(&stmt.expression, ops, depth - 1);
                let r = match value {
                    Ok(_) => Ok(None),
                    Err(e) => Err(e),
                };
                let ghost run = run_of(kind, start, self.machine(), maybe_outcome(r), seq![first]);
                proof {
                    lemma_valid(ops, run);
                }
                (r, Ghost(run))
            },
            CodeStatement::VariableDeclaration(decl) => {
                let (done, Ghost(run)) = self.execute_variable_declaration(decl, ops, depth);
                match done {
                    Ok(()) => (Ok(None), Ghost(run)),
                    Err(e) => (Err(e), Ghost(run)),
                }
            },
            CodeStatement::FunctionDefinition(func_def) => {
                self.execute_function_definition(func_def);
                let ghost run = run_of(
                    kind,
                    start,
                    self.machine(),
                    Outcome::Maybe(None),
                    Seq::empty(),
                );
                proof {
                    lemma_valid(ops, run);
                }
                (Ok(None), Ghost(run))
            },
            CodeStatement::ReturnStatement(ret) => match &ret.value {
                Some(expr) => {
                    if depth == 0 {
                        let e = limit_error();
                        let ghost run = run_of(kind, start, start, failure_of(e), Seq::empty());
                        proof {
                            lemma_valid(ops, run);
                        }
                        return (Err(e), Ghost(run));
                    }
                    let (value, Ghost(first)) = self.evaluate_expression(expr, ops, depth - 1);
                    let r = match value {
                        Ok(v) => Ok(Some(v)),
                        Err(e) => Err(e),
                    };
                    let ghost run = run_of(kind, start, self.machine(), maybe_outcome(r), seq![first]);
                    proof {
                        lemma_valid(ops, run);
                    }
                    (r, Ghost(run))
                },
                None => {
                    let ghost run = run_of(
                        kind,
                        start,
                        start,
                        Outcome::Maybe(Some(ValueView::Undefined)),
                        Seq::empty(),
                    );
                    proof {
                        lemma_valid(ops, run);
                    }
                    (Ok(Some(undefined_value())), Ghost(run))
                },
            },
            CodeStatement::Conditional(cond) => self.execute_conditional(cond, ops, depth),
            CodeStatement::WhenStatement(when_stmt) => {
                let (done, Ghost(run)) = self.execute_when_statement(when_stmt, ops, depth);
                match done {
                    Ok(()) => (Ok(None), Ghost(run)),
                    Err(e) => (Err(e), Ghost(run)),
                }
            },
            CodeStatement::DeleteStatement(del_stmt) => {
                let (done, Ghost(run)) = self.execute_delete_statement(del_stmt, ops, depth);
                match done {
                    Ok(()) => (Ok(None), Ghost(run)),
                    Err(e) => (Err(e), Ghost(run)),
                }
            },
            CodeStatement::VariableAssignment(var_assign) => {
                let (done, Ghost(run)) = self.execute_variable_assignment(var_assign, ops, depth);
                match done {
                    Ok(()) => (Ok(None), Ghost(run)),
                    Err(e) => (Err(e), Ghost(run)),
                }
            },
            CodeStatement::AfterStatement(after_stmt) => {
                self.execute_after_statement(after_stmt);
                let ghost run = run_of(
                    kind,
                    start,
                    self.machine(),
                    Outcome::Maybe(None),
                    Seq::empty(),
                );
                proof {
                    lemma_valid(ops, run);
                }
                (Ok(None), Ghost(run))
            },
            CodeStatement::IndexAssignment(idx_assign) => {
                let (done, Ghost(run)) = self.execute_index_assignment(idx_assign, ops, depth);
                match done {
                    Ok(()) => (Ok(None), Ghost(run)),
                    Err(e) => (Err(e), Ghost(run)),
                }
            },
            CodeStatement::ClassDeclaration(class_decl) => {
                let (done, Ghost(run)) = self.execute_class_declaration(class_decl, ops, depth);
                match done {
                    Ok(()) => (Ok(None), Ghost(run)),
                    Err(e) => (Err(e), Ghost(run)),
                }
            },
            CodeStatement::ImportStatement(import_stmt) => {
                let (done, Ghost(run)) = self.execute_import_statement(import_stmt, ops, depth);
                match done {
                    Ok(()) => (Ok(None), Ghost(run)),
                    Err(e) => (Err(e), Ghost(run)),
                }
            },
            CodeStatement::ExportStatement(export_stmt) => {
                let done = self.execute_export_statement(export_stmt, ops);
                let ghost run = run_of(
                    kind,
                    start,
                    self.machine(),
                    statement_outcome(done),
                    Seq::empty(),
                );
                proof {
                    lemma_valid(ops, run);
                }
                match done {
                    Ok(()) => (Ok(None), Ghost(run)),
                    Err(e) => (Err(e), Ghost(run)),
                }
            },
            CodeStatement::ReverseStatement(_) => {
                self.execute_reverse_statement();
                let ghost run = run_of(
                    kind,
                    start,
                    self.machine(),
                    Outcome::Maybe(None),
                    Seq::empty(),
                );
                proof {
                    lemma_valid(ops, run);
                }
                (Ok(None), Ghost(run))
            },
        }
    }

    /// Runs a declaration: evaluates the value, reads the clock and binds the name.
    pub(crate) fn execute_variable_declaration<N: Arithmetic>(
        &mut self,
        var_decl: &'a VariableDeclaration,
        ops: &N,
        depth: usize,
    ) -> (out: (Result<(), DreamberdError>, Ghost<Run>))
        requires
            old(self).namespaces@.len() >= 1,
        ensures
            performed(
                out.1@,
                statement_run(CodeStatement::VariableDeclaration(*var_decl), depth),
                *old(self),
                *final(self),
                statement_outcome(out.0),
            ),
            valid(ops, out.1@),
            follows(*final(self), *old(self)),
            out.0 is Ok ==> final(self).namespaces@.len() == old(self).namespaces@.len(),
        decreases depth, 12int,
    {
        let ghost start = self.machine();
        let ghost kind = statement_run(CodeStatement::VariableDeclaration(*var_decl), depth);
        let ghost mut parts: Seq<Run> = Seq::empty();
        let value = match &var_decl.value {
            Some(expr) => {
                if depth == 0 {
                    let e = limit_error();
                    let ghost run = run_of(kind, start, start, failure_of(e), Seq::empty());
                    proof {
                        lemma_valid(ops, run);
                    }
                    return (Err(e), Ghost(run));
                }
                let (value, Ghost(first)) = self.evaluate_expression(expr, ops, depth - 1);
                proof {
                    parts = seq![first];
                }
                match value {
                    Ok(v) => v,
                    Err(e) => {
                        let ghost run = run_of(kind, start, self.machine(), failure_of(e), parts);
                        proof {
                            lemma_valid(ops, run);
                        }
                        return (Err(e), Ghost(run));
                    },
                }
            },
            None => undefined_value(),
        };
        let now = self.clock.seconds();
        self.declare_variable(
            var_decl.name.value.as_str(),
            &var_decl.modifiers,
            &var_decl.lifetime,
            var_decl.confidence,
            value,
            now,
        );
        let ghost run = Run {
            kind,
            before: start,
            after: self.machine(),
            result: Outcome::Maybe(None),
            parts,
            readings: seq![now],
            events: Seq::empty(),
        };
        proof {
            lemma_valid(ops, run);
        }
        (Ok(()), Ghost(run))
    }

    /// Runs an `if`: the block if the condition is true, the other block otherwise.
    pub(crate) fn execute_conditional<N: Arithmetic>(&mut self, cond: &'a Conditional, ops: &N, depth: usize) -> (out:
        (Result<Option<DreamberdValue<'a>>, DreamberdError>, Ghost<Run>))
        requires
            old(self).namespaces@.len() >= 1,
        ensures
            performed(
                out.1@,
                statement_run(CodeStatement::Conditional(*cond), depth),
                *old(self),
                *final(self),
                maybe_outcome(out.0),
            ),
            valid(ops, out.1@),
            follows(*final(self), *old(self)),
            out.0 is Ok ==> final(self).namespaces@.len() == old(self).namespaces@.len(),
        decreases depth, 12int,
    {
        let ghost start = self.machine();
        let ghost kind = statement_run(CodeStatement::Conditional(*cond), depth);
        if depth == 0 {
            let e = limit_error();
            let ghost run = run_of(kind, start, start, failure_of(e), Seq::empty());
            proof {
                lemma_valid(ops, run);
            }
            return (Err(e), Ghost(run));
        }
        let (value, Ghost(first)) = self.evaluate_expression(&cond.condition, ops, depth - 1);
        let condition_value = match value {
            Ok(v) => v,
            Err(e) => {
                let ghost run = run_of(kind, start, self.machine(), failure_of(e), seq![first]);
                proof {
                    lemma_valid(ops, run);
                }
                return (Err(e), Ghost(run));
            },
        };
        let truth = db_to_boolean(&condition_value);
        match truth.value {
            Some(true) => {
                let (r, Ghost(second)) = self.run_block(&cond.body, ops, depth - 1);
                let ghost run = run_of(kind, start, self.machine(), maybe_outcome(r), seq![first, second]);
                proof {
                    lemma_valid(ops, run);
                }
                (r, Ghost(run))
            },
            _ => match &cond.else_body {
                Some(else_body) => {
                    let (r, Ghost(second)) = self.run_block(else_body, ops, depth - 1);
                    let ghost run = run_of(
                        kind,
                        start,
                        self.machine(),
                        maybe_outcome(r),
                        seq![first, second],
                    );
                    proof {
                        lemma_valid(ops, run);
                    }
                    (r, Ghost(run))
                },
                None => {
                    let ghost run = run_of(
                        kind,
                        start,
                        self.machine(),
                        Outcome::Maybe(None),
                        seq![first],
                    );
                    proof {
                        lemma_valid(ops, run);
                    }
                    (Ok(None), Ghost(run))
                },
            },
        }
    }

    /// Runs a `when`: the body at once unless the condition is false, and registers
    /// the statement.
    pub(crate) fn execute_when_statement<N: Arithmetic>(
        &mut self,
        when_stmt: &'a WhenStatement,
        ops: &N,
        depth: usize,
    ) -> (out: (Result<(), DreamberdError>, Ghost<Run>))
        requires
            old(self).namespaces@.len() >= 1,
        ensures
            performed(
                out.1@,
                statement_run(CodeStatement::WhenStatement(*when_stmt), depth),
                *old(self),
                *final(self),
                statement_outcome(out.0),
            ),
            valid(ops, out.1@),
            follows(*final(self), *old(self)),
            out.0 is Ok ==> final(self).namespaces@.len() == old(self).namespaces@.len(),
        decreases depth, 12int,
    {
        let ghost start = self.machine();
        let ghost kind = statement_run(CodeStatement::WhenStatement(*when_stmt), depth);
        if depth == 0 {
            let e = limit_error();
            let ghost run = run_of(kind, start, start, failure_of(e), Seq::empty());
            proof {
                lemma_valid(ops, run);
            }
            return (Err(e), Ghost(run));
        }
        let dependent_variables = extract_variable_dependencies(&when_stmt.condition);
        let (value, Ghost(first)) = self.evaluate_expression(&when_stmt.condition, ops, depth - 1);
        let condition_value = match value {
            Ok(v) => v,
            Err(e) => {
                let ghost run = run_of(kind, start, self.machine(), failure_of(e), seq![first]);
                proof {
                    lemma_valid(ops, run);
                }
                return (Err(e), Ghost(run));
            },
        };
        let ghost mut parts: Seq<Run> = seq![first];
        if sets_off_when(&condition_value) {
            let (ran, Ghost(second)) = self.run_block(&when_stmt.body, ops, depth - 1);
            proof {
                parts = seq![first, second];
            }
            match ran {
                Ok(_) => {},
                Err(e) => {
                    let ghost run = run_of(kind, start, self.machine(), failure_of(e), parts);
                    proof {
                        lemma_valid(ops, run);
                    }
                    return (Err(e), Ghost(run));
                },
            }
        }
        let ghost reached = self.machine();
        let registered = ReactiveWhen {
            condition: &when_stmt.condition,
            body: &when_stmt.body,
            dependent_variables,
        };
        let ghost added = when_view(registered);
        self.when_statements.push(registered);
        assert(self.machine().whens =~= reached.whens.push(added));
        let ghost run = run_of(kind, start, self.machine(), Outcome::Maybe(None), parts);
        proof {
            lemma_valid(ops, run);
        }
        (Ok(()), Ghost(run))
    }

    /// Runs a `delete`: takes a name out of every namespace, and tells what it
    /// deleted.
    pub(crate) fn execute_delete_statement<N: Arithmetic>(
        &mut self,
        del_stmt: &'a DeleteStatement,
        ops: &N,
        depth: usize,
    ) -> (out: (Result<(), DreamberdError>, Ghost<Run>))
        requires
            old(self).namespaces@.len() >= 1,
        ensures
            performed(
                out.1@,
                statement_run(CodeStatement::DeleteStatement(*del_stmt), depth),
                *old(self),
                *final(self),
                statement_outcome(out.0),
            ),
            valid(ops, out.1@),
            follows(*final(self), *old(self)),
            out.0 is Ok ==> final(self).namespaces@.len() == old(self).namespaces@.len(),
        decreases depth, 12int,
    {
        let ghost start = self.machine();
        let ghost kind = statement_run(CodeStatement::DeleteStatement(*del_stmt), depth);
        match &del_stmt.target {
            ExpressionTreeNode::Value(node) => {
                let mut parts: Vec<&str> = Vec::new();
                match node.token.token_type {
                    TokenType::Name => {
                        let removed = delete(&mut self.namespaces, node.token.value.as_str());
                        assert(removed == bound_somewhere(start.stack, node.token.value@));
                        if removed {
                            parts.push("Deleted variable: ");
                            parts.push(node.token.value.as_str());
                            self.notice(&parts);
                        }
                    },
                    TokenType::String => {
                        parts.push("Deleted keyword: ");
                        parts.push(node.token.value.as_str());
                        self.notice(&parts);
                    },
                    _ => {
                        parts.push("Deleted literal: ");
                        parts.push(node.token.value.as_str());
                        self.notice(&parts);
                    },
                }
                let ghost run = run_of(
                    kind,
                    start,
                    self.machine(),
                    Outcome::Maybe(None),
                    Seq::empty(),
                );
                proof {
                    lemma_valid(ops, run);
                }
                (Ok(()), Ghost(run))
            },
            _ => {
                if depth == 0 {
                    let e = limit_error();
                    let ghost run = run_of(kind, start, start, failure_of(e), Seq::empty());
                    proof {
                        lemma_valid(ops, run);
                    }
                    return (Err(e), Ghost(run));
                }
                let (found, Ghost(first)) = self.evaluate_expression(&del_stmt.target, ops, depth - 1);
                let value = match found {
                    Ok(v) => v,
                    Err(e) => {
                        let ghost run = run_of(
                            kind,
                            start,
                            self.machine(),
                            failure_of(e),
                            seq![first],
                        );
                        proof {
                            lemma_valid(ops, run);
                        }
                        return (Err(e), Ghost(run));
                    },
                };
                let mut parts: Vec<&str> = Vec::new();
                parts.push("Deleted ");
                parts.push(value.kind_name());
                self.notice(&parts);
                let ghost run = run_of(
                    kind,
                    start,
                    self.machine(),
                    Outcome::Maybe(None),
                    seq![first],
                );
                proof {
                    lemma_valid(ops, run);
                }
                (Ok(()), Ghost(run))
            },
        }
    }
}

} // verus!
