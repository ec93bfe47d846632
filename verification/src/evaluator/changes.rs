//! The statements that assign, declare a class, and import.

use crate::base::DreamberdError;
use crate::binding::{Namespace, NamespaceEntry, Variable, VariableLifetime};
use crate::builtin::{DreamberdObject, DreamberdValue};
use crate::interpreter::{clamp_to_i32, failure_of, follows, formatted_error, index_assignment_error,
    limit_error, module_views, performed, run_of, statement_outcome, statement_run, Interpreter,
    Module};
use crate::number::Arithmetic;
use crate::processor::expression_tree::ExpressionTreeNode;
use crate::processor::syntax_tree::{stmt_views, ClassDeclaration, CodeStatement, ImportStatement,
    IndexAssignment, VariableAssignment};
use crate::scope::{collapse, declare, enter, leave, reassign, replace_list_item, stack_view,
    ItemAssignment, Reassignment};
use crate::semantics::{in_sequence, lemma_in_sequence_push, lemma_valid, module_place, valid,
    Outcome, Run, RunKind};
use crate::text::same_text;
use vstd::prelude::*;

verus! {

impl<'a> Interpreter<'a> {
    /// Runs an assignment by statement: the outermost binding of the name takes the
    /// value, unless it may not be reset.
    pub(crate) fn execute_variable_assignment<N: Arithmetic>(
        &mut self,
        var_assign: &'a VariableAssignment,
        ops: &N,
        depth: usize,
    ) -> (out: (Result<(), DreamberdError>, Ghost<Run>))
        requires
            old(self).namespaces@.len() >= 1,
        ensures
            performed(
                out.1@,
                statement_run(CodeStatement::VariableAssignment(*var_assign), depth),
                *old(self),
                *final(self),
                statement_outcome(out.0),
            ),
            valid(ops, out.1@),
            follows(*final(self), *old(self)),
            out.0 is Ok ==> final(self).namespaces@.len() == old(self).namespaces@.len(),
        decreases depth, 12int,
    {
        let ghost start = self.machine();
        let ghost kind = statement_run(CodeStatement::VariableAssignment(*var_assign), depth);
        if depth == 0 {
            let e = limit_error();
            let ghost run = run_of(kind, start, start, failure_of(e), Seq::empty());
            proof {
                lemma_valid(ops, run);
            }
            return (Err(e), Ghost(run));
        }
        let (value, Ghost(first)) = self.evaluate_expression(&var_assign.value, ops, depth - 1);
        let new_value = match value {
            Ok(v) => v,
            Err(e) => {
                let ghost run = run_of(kind, start, self.machine(), failure_of(e), seq![first]);
                proof {
                    lemma_valid(ops, run);
                }
                return (Err(e), Ghost(run));
            },
        };
        let mut parts: Vec<&str> = Vec::new();
        let r: Result<(), DreamberdError> = if let ExpressionTreeNode::Value(node) =
            &var_assign.target {
            let name = node.token.value.as_str();
            match reassign(&mut self.namespaces, name, new_value) {
                Reassignment::Done => Ok(()),
                Reassignment::Constant => {
                    parts.push("Cannot reassign constant variable '");
                    parts.push(name);
                    parts.push("'");
                    Err(formatted_error(&parts))
                },
                Reassignment::Missing => {
                    parts.push("Variable '");
                    parts.push(name);
                    parts.push("' not found");
                    Err(formatted_error(&parts))
                },
            }
        } else {
            parts.push("Complex assignment targets not yet implemented");
            Err(formatted_error(&parts))
        };
        let ghost run = run_of(kind, start, self.machine(), statement_outcome(r), seq![first]);
        proof {
            lemma_valid(ops, run);
        }
        (r, Ghost(run))
    }

    /// Runs an index assignment by statement: an item of a list that exists is
    /// replaced.
    pub(crate) fn execute_index_assignment<N: Arithmetic>(
        &mut self,
        idx_assign: &'a IndexAssignment,
        ops: &N,
        depth: usize,
    ) -> (out: (Result<(), DreamberdError>, Ghost<Run>))
        requires
            old(self).namespaces@.len() >= 1,
        ensures
            performed(
                out.1@,
                statement_run(CodeStatement::IndexAssignment(*idx_assign), depth),
                *old(self),
                *final(self),
                statement_outcome(out.0),
            ),
            valid(ops, out.1@),
            follows(*final(self), *old(self)),
            out.0 is Ok ==> final(self).namespaces@.len() == old(self).namespaces@.len(),
        decreases depth, 12int,
    {
        let ghost start = self.machine();
        let ghost kind = statement_run(CodeStatement::IndexAssignment(*idx_assign), depth);
        if depth == 0 {
            let e = limit_error();
            let ghost run = run_of(kind, start, start, failure_of(e), Seq::empty());
            proof {
                lemma_valid(ops, run);
            }
            return (Err(e), Ghost(run));
        }
        let (found, Ghost(first)) = self.evaluate_expression(&idx_assign.index, ops, depth - 1);
        let index_value = match found {
            Ok(v) => v,
            Err(e) => {
                let ghost run = run_of(kind, start, self.machine(), failure_of(e), seq![first]);
                proof {
                    lemma_valid(ops, run);
                }
                return (Err(e), Ghost(run));
            },
        };
        let (given, Ghost(second)) = self.evaluate_expression(&idx_assign.value, ops, depth - 1);
        let new_value = match given {
            Ok(v) => v,
            Err(e) => {
                let ghost run = run_of(kind, start, self.machine(), failure_of(e), seq![first, second]);
                proof {
                    lemma_valid(ops, run);
                }
                return (Err(e), Ghost(run));
            },
        };
        let ghost at = self.machine();
        let r: Result<(), DreamberdError> = if let ExpressionTreeNode::Value(node) =
            &idx_assign.target {
            let name = node.token.value.as_str();
            match &index_value {
                DreamberdValue::Number(n) => {
                    let parts = ops.index_parts(n.bits);
                    assert(call_ensures(N::index_parts, (ops, n.bits), parts));
                    let index = clamp_to_i32(parts.truncated);
                    match replace_list_item(&mut self.namespaces, name, index + 1, new_value) {
                        ItemAssignment::Done => Ok(()),
                        other => Err(index_assignment_error(name, other, index)),
                    }
                },
                _ => {
                    let mut texts: Vec<&str> = Vec::new();
                    texts.push("Index must be a number");
                    Err(formatted_error(&texts))
                },
            }
        } else {
            let mut texts: Vec<&str> = Vec::new();
            texts.push("Complex index assignment targets not yet supported");
            Err(formatted_error(&texts))
        };
        let ghost run = run_of(kind, start, self.machine(), statement_outcome(r), seq![first, second]);
        proof {
            lemma_valid(ops, run);
        }
        (r, Ghost(run))
    }

    /// Runs a class declaration: its body runs in a namespace of its own, which
    /// becomes the properties of the one object of the class.
    pub(crate) fn execute_class_declaration<N: Arithmetic>(
        &mut self,
        class_decl: &'a ClassDeclaration,
        ops: &N,
        depth: usize,
    ) -> (out: (Result<(), DreamberdError>, Ghost<Run>))
        requires
            old(self).namespaces@.len() >= 1,
        ensures
            performed(
                out.1@,
                statement_run(CodeStatement::ClassDeclaration(*class_decl), depth),
                *old(self),
                *final(self),
                statement_outcome(out.0),
            ),
            valid(ops, out.1@),
            follows(*final(self), *old(self)),
            out.0 is Ok ==> final(self).namespaces@.len() == old(self).namespaces@.len(),
        decreases depth, 12int,
    {
        let ghost start = self.machine();
        let ghost kind = statement_run(CodeStatement::ClassDeclaration(*class_decl), depth);
        if depth == 0 {
            let e = limit_error();
            let ghost run = run_of(kind, start, start, failure_of(e), Seq::empty());
            proof {
                lemma_valid(ops, run);
            }
            return (Err(e), Ghost(run));
        }
        enter(&mut self.namespaces, Namespace::new());
        assert(self.machine().stack =~= start.stack.push(Seq::empty()));
        let ghost entered = self.machine();
        let ghost views = stmt_views(class_decl.body@);
        let ghost mut parts: Seq<Run> = Seq::empty();
        let mut i: usize = 0;
        while i < class_decl.body.len()
            invariant
                depth > 0,
                i <= class_decl.body.len(),
                follows(*self, *old(self)),
                self.namespaces@.len() == old(self).namespaces@.len() + 1,
                start == old(self).machine(),
                kind == (statement_run(CodeStatement::ClassDeclaration(*class_decl), depth)),
                views == stmt_views(class_decl.body@),
                parts.len() == i,
                forall|j: int| 0 <= j < parts.len() ==> valid(ops, #[trigger] parts[j]),
                forall|j: int|
                    0 <= j < parts.len() ==> (#[trigger] parts[j]).kind == (RunKind::Statement {
                        statement: views[j],
                        depth: (depth - 1) as nat,
                    }),
                forall|j: int| 0 <= j < parts.len() ==> !((#[trigger] parts[j]).result is Failed),
                in_sequence(parts, entered),
                entered == crate::semantics::with_stack(
                    start,
                    start.stack.push(Seq::empty()),
                ),
                self.machine() == (if i == 0 {
                    entered
                } else {
                    parts[i - 1].after
                }),
            decreases class_decl.body.len() - i,
        {
            let (stepped, Ghost(p)) = self.execute_statement(&class_decl.body[i], ops, depth - 1);
            match stepped {
                Ok(_) => {},
                Err(e) => {
                    let ghost run = run_of(
                        kind,
                        start,
                        self.machine(),
                        failure_of(e),
                        parts.push(p),
                    );
                    proof {
                        lemma_in_sequence_push(parts, entered, p);
                        lemma_valid(ops, run);
                    }
                    return (Err(e), Ghost(run));
                },
            }
            proof {
                lemma_in_sequence_push(parts, entered, p);
                parts = parts.push(p);
            }
            i += 1;
        }
        let ghost end = self.machine();
        let ghost levels = self.namespaces@;
        let class_namespace = match leave(&mut self.namespaces) {
            Some(ns) => ns,
            None => Namespace::new(),
        };
        assert(stack_view(self.namespaces@) =~= end.stack.drop_last());
        assert(class_namespace@ == end.stack.last());
        let object = DreamberdObject {
            class_name: class_decl.name.clone(),
            namespace: collapse(&class_namespace),
        };
        let lifetime = VariableLifetime::new(
            DreamberdValue::Object(object),
            u64::MAX,
            100,
            false,
            true,
        );
        let variable = Variable::new(class_decl.name.clone(), lifetime);
        declare(&mut self.namespaces, class_decl.name.clone(), NamespaceEntry::Variable(variable));
        let mut texts: Vec<&str> = Vec::new();
        texts.push("Class '");
        texts.push(class_decl.name.as_str());
        texts.push("' declared");
        self.notice(&texts);
        let ghost run = run_of(kind, start, self.machine(), Outcome::Maybe(None), parts);
        proof {
            lemma_valid(ops, run);
        }
        (Ok(()), Ghost(run))
    }

    /// Runs an `import`: the statements of the file run in place.
    pub(crate) fn execute_import_statement<N: Arithmetic>(
        &mut self,
        import_stmt: &'a ImportStatement,
        ops: &N,
        depth: usize,
    ) -> (out: (Result<(), DreamberdError>, Ghost<Run>))
        requires
            old(self).namespaces@.len() >= 1,
        ensures
            performed(
                out.1@,
                statement_run(CodeStatement::ImportStatement(*import_stmt), depth),
                *old(self),
                *final(self),
                statement_outcome(out.0),
            ),
            valid(ops, out.1@),
            follows(*final(self), *old(self)),
            out.0 is Ok ==> final(self).namespaces@.len() == old(self).namespaces@.len(),
        decreases depth, 12int,
    {
        let ghost start = self.machine();
        let ghost kind = statement_run(CodeStatement::ImportStatement(*import_stmt), depth);
        if depth == 0 {
            let e = limit_error();
            let ghost run = run_of(kind, start, start, failure_of(e), Seq::empty());
            proof {
                lemma_valid(ops, run);
            }
            return (Err(e), Ghost(run));
        }
        let modules: &'a Vec<Module> = self.modules;
        let mut i: usize = 0;
        while i < modules.len() && !same_text(modules[i].name.as_str(), import_stmt.name.as_str())
            invariant
                i <= modules.len(),
                module_place(module_views(modules@), import_stmt.name@, 0) == module_place(
                    module_views(modules@),
                    import_stmt.name@,
                    i as int,
                ),
            decreases modules.len() - i,
        {
            i += 1;
        }
        let mut parts: Vec<&str> = Vec::new();
        if i >= modules.len() {
            parts.push("Failed to import file '");
            parts.push(import_stmt.name.as_str());
            parts.push(".gom': the file is not at hand");
            let e = formatted_error(&parts);
            let ghost run = run_of(kind, start, start, failure_of(e), Seq::empty());
            proof {
                lemma_valid(ops, run);
            }
            return (Err(e), Ghost(run));
        }
        match &modules[i].statements {
            Ok(statements) => {
                let (ran, Ghost(first)) = self.run_block(statements, ops, depth - 1);
                match ran {
                    Ok(_) => {},
                    Err(e) => {
                        let ghost run = run_of(
                            kind,
                            start,
                            self.machine(),
                            failure_of(e),
                            seq![first],
                        );
                        proof {
                            lemma_valid(ops, run);
                        }
                        return (Err(e), Ghost(run));
                    },
                }
                parts.push("Successfully imported variables from '");
                parts.push(import_stmt.name.as_str());
                parts.push(".gom'");
                self.notice(&parts);
                let ghost run = run_of(
                    kind,
                    start,
                    self.machine(),
                    Outcome::Maybe(None),
                    seq![first],
                );
                proof {
                    lemma_valid(ops, run);
                }
                (Ok(()), Ghost(run))
            },
            Err(message) => {
                parts.push("Failed to import file '");
                parts.push(import_stmt.name.as_str());
                parts.push(".gom': ");
                parts.push(message.as_str());
                let e = formatted_error(&parts);
                let ghost run = run_of(kind, start, start, failure_of(e), Seq::empty());
                proof {
                    lemma_valid(ops, run);
                }
                (Err(e), Ghost(run))
            },
        }
    }
}

} // verus!
