//! Evaluating strings that hold expressions.

use crate::alias::{canonical_token, canonicalize_tokens, AliasTable};
use crate::base::{DreamberdError, Token, TokenType, TokenView};
use crate::builtin::{db_to_string, value_view, DreamberdString, DreamberdValue};
use crate::interpreter::{failure_of, find_closing_brace, follows, is_blank, limit_error, performed,
    run_of, value_outcome, Interpreter};
use crate::number::Arithmetic;
use crate::processor::expression_tree::{build_expression_tree, expr_view, views_of,
    ExpressionTreeNode};
use crate::processor::lexer::{token_views, tokenize};
use crate::scope::leave_to;
use crate::semantics::{hole_of, interpolates, lemma_piece_stays, lemma_pieced_push,
    lemma_pieces_join_push, lemma_settles_push, lemma_valid, piece_rule, pieced, pieces_join,
    settled_at, settles, unspaced, valid, Hole, Outcome, Piece, Run, RunKind};
use crate::text::{append_text, chars_of, push_char, text_of};
use vstd::prelude::*;

verus! {

/// The tokens among `tokens` that are no white space.
fn without_spaces(tokens: &Vec<Token>) -> (kept: Vec<Token>)
    ensures
        token_views(kept@) == unspaced(token_views(tokens@), tokens@.len()),
{
    let mut kept: Vec<Token> = Vec::new();
    let mut k: usize = 0;
    assert(token_views(kept@) =~= Seq::empty());
    while k < tokens.len()
        invariant
            k <= tokens.len(),
            token_views(kept@) == unspaced(token_views(tokens@), k as nat),
        decreases tokens.len() - k,
    {
        let ghost before = kept@;
        if tokens[k].token_type != TokenType::Whitespace {
            kept.push(tokens[k].clone());
            assert(token_views(kept@) =~= token_views(before).push(tokens@[k as int]@));
        }
        k += 1;
    }
    kept
}

/// Reads what stands between the braces of a part of a string, from `from` up to `to`:
/// the expression, or the text that stands for a part without one.
fn read_hole(aliases: &AliasTable, chars: &Vec<char>, from: usize, to: usize) -> (r: Result<
    ExpressionTreeNode,
    String,
>)
    requires
        from <= to <= chars.len(),
    ensures
        match hole_of(chars@.subrange(from as int, to as int), aliases@) {
            Hole::Empty => r is Err && r->Err_0@ == "${EMPTY}"@,
            Hole::Unreadable(message) => r is Err && r->Err_0@ == "${TOKEN_ERROR: "@ + message
                + "}"@,
            Hole::Malformed(message) => r is Err && r->Err_0@ == "${PARSE_ERROR: "@ + message
                + "}"@,
            Hole::Expression(tree) => r is Ok && expr_view(r->Ok_0) == tree,
        },
{
    if is_blank(chars, from, to) {
        return Err(String::from_str("${EMPTY}"));
    }
    let expr_str = text_of(chars, from, to);
    match tokenize("interpolation", expr_str.as_str()) {
        Ok(raw_tokens) => {
            let mut tokens = without_spaces(&raw_tokens);
            let ghost plain = token_views(tokens@);
            canonicalize_tokens(aliases, &mut tokens);
            assert(views_of(tokens@) =~= plain.map_values(
                |t: TokenView| canonical_token(aliases@, t),
            ));
            match build_expression_tree("interpolation", tokens, expr_str.as_str()) {
                Ok(tree) => Ok(tree),
                Err(e) => {
                    let mut filler = String::from_str("${PARSE_ERROR: ");
                    append_text(&mut filler, e.message().as_str());
                    append_text(&mut filler, "}");
                    Err(filler)
                },
            }
        },
        Err(e) => {
            let mut filler = String::from_str("${TOKEN_ERROR: ");
            append_text(&mut filler, e.message().as_str());
            append_text(&mut filler, "}");
            Err(filler)
        },
    }
}

impl<'a> Interpreter<'a> {
    /// Evaluates a string with parts in `${` and `}`: each part gives the text of the
    /// value of its expression, or a text that says why it has none.
    pub(crate) fn evaluate_interpolated_string<N: Arithmetic>(&mut self, input: &str, ops: &N, depth: usize) -> (out:
        (Result<DreamberdValue<'a>, DreamberdError>, Ghost<Run>))
        requires
            old(self).namespaces@.len() >= 1,
        ensures
            performed(
                out.1@,
                RunKind::Interpolation { text: input@, depth: depth as nat },
                *old(self),
                *final(self),
                value_outcome(out.0),
            ),
            valid(ops, out.1@),
            follows(*final(self), *old(self)),
            out.0 is Ok ==> final(self).namespaces@.len() == old(self).namespaces@.len(),
            out.0 is Ok ==> value_view(out.0->Ok_0) is String,
        decreases depth, 10int,
    {
        let ghost start = self.machine();
        let ghost kind = RunKind::Interpolation { text: input@, depth: depth as nat };
        if depth == 0 {
            let e = limit_error();
            let ghost run = run_of(kind, start, start, failure_of(e), Seq::empty());
            proof {
                lemma_valid(ops, run);
            }
            return (Err(e), Ghost(run));
        }
        let chars = chars_of(input);
        let mut result = String::new();
        let mut i: usize = 0;
        let levels = self.namespaces.len();
        let ghost mut parts: Seq<Run> = Seq::empty();
        let ghost mut pieces: Seq<Piece> = Seq::empty();
        while i < chars.len()
            invariant
                depth > 0,
                i <= chars.len(),
                chars@ == input@,
                levels == old(self).namespaces@.len(),
                levels == start.stack.len(),
                follows(*self, *old(self)),
                self.namespaces@.len() == old(self).namespaces@.len(),
                start == old(self).machine(),
                kind == (RunKind::Interpolation { text: input@, depth: depth as nat }),
                forall|j: int| 0 <= j < parts.len() ==> valid(ops, #[trigger] parts[j]),
                settles(parts, start, levels as nat),
                self.machine() == settled_at(parts, start, levels as nat, parts.len() as int),
                pieces_join(pieces),
                forall|j: int|
                    0 <= j < pieces.len() ==> piece_rule(
                        ops,
                        parts,
                        start,
                        levels as nat,
                        chars@,
                        depth as nat,
                        #[trigger] pieces[j],
                    ),
                forall|j: int| 0 <= j < pieces.len() ==> (#[trigger] pieces[j]).left <= parts.len(),
                pieces.len() == 0 ==> i == 0 && parts.len() == 0,
                pieces.len() > 0 ==> pieces.last().to == i && pieces.last().left == parts.len(),
                result@ == pieced(pieces, pieces.len()),
            decreases chars.len() - i,
        {
            let ghost earlier = pieces;
            let ghost known = parts;
            if chars[i] == '$' && i + 1 < chars.len() && chars[i + 1] == '{' {
                let start_at = i + 2;
                let end = find_closing_brace(&chars, start_at);
                let next = if end < chars.len() {
                    end + 1
                } else {
                    chars.len()
                };
                match read_hole(&self.aliases, &chars, start_at, end) {
                    Ok(tree) => {
                        let (found, Ghost(p)) = self.evaluate_expression(&tree, ops, depth - 1);
                        let ghost given: Seq<char>;
                        match found {
                            Ok(value) => {
                                let text = db_to_string(&value, ops);
                                append_text(&mut result, text.value.as_str());
                                proof {
                                    given = text.value@;
                                }
                            },
                            Err(e) => {
                                let ghost failed_at = self.machine();
                                leave_to(&mut self.namespaces, levels);
                                assert(self.machine().stack =~= failed_at.stack.take(
                                    levels as int,
                                ));
                                let mut filler = String::from_str("${ERROR: ");
                                append_text(&mut filler, e.message().as_str());
                                append_text(&mut filler, "}");
                                append_text(&mut result, filler.as_str());
                                proof {
                                    given = filler@;
                                }
                            },
                        }
                        proof {
                            let piece = Piece {
                                from: i as int,
                                to: next as int,
                                used: known.len() as int,
                                left: (known.len() + 1) as int,
                                text: given,
                            };
                            lemma_settles_push(parts, start, levels as nat, p);
                            parts = parts.push(p);
                            assert(parts[known.len() as int] == p);
                            assert(settled_at(parts, start, levels as nat, known.len() as int)
                                == settled_at(known, start, levels as nat, known.len() as int)) by {
                                if known.len() > 0 {
                                    assert(parts[known.len() - 1] == known[known.len() - 1]);
                                }
                            }
                            assert(piece_rule(
                                ops,
                                parts,
                                start,
                                levels as nat,
                                chars@,
                                depth as nat,
                                piece,
                            ));
                            assert forall|j: int| 0 <= j < earlier.len() implies piece_rule(
                                ops,
                                parts,
                                start,
                                levels as nat,
                                chars@,
                                depth as nat,
                                #[trigger] earlier[j],
                            ) by {
                                lemma_piece_stays(
                                    ops,
                                    known,
                                    start,
                                    levels as nat,
                                    chars@,
                                    depth as nat,
                                    earlier[j],
                                    p,
                                );
                            }
                            lemma_pieces_join_push(earlier, piece);
                            lemma_pieced_push(earlier, piece, earlier.len());
                            pieces = earlier.push(piece);
                        }
                    },
                    Err(filler) => {
                        append_text(&mut result, filler.as_str());
                        proof {
                            let piece = Piece {
                                from: i as int,
                                to: next as int,
                                used: known.len() as int,
                                left: known.len() as int,
                                text: filler@,
                            };
                            lemma_pieces_join_push(earlier, piece);
                            lemma_pieced_push(earlier, piece, earlier.len());
                            pieces = earlier.push(piece);
                        }
                    },
                }
                i = next;
            } else {
                push_char(&mut result, chars[i]);
                proof {
                    let piece = Piece {
                        from: i as int,
                        to: i + 1,
                        used: known.len() as int,
                        left: known.len() as int,
                        text: seq![chars@[i as int]],
                    };
                    lemma_pieces_join_push(earlier, piece);
                    lemma_pieced_push(earlier, piece, earlier.len());
                    pieces = earlier.push(piece);
                    assert(result@ =~= pieced(pieces, pieces.len()));
                }
                i += 1;
            }
        }
        let value = DreamberdValue::String(DreamberdString::new(result));
        let ghost run = run_of(kind, start, self.machine(), Outcome::Value(value_view(value)), parts);
        proof {
            assert(interpolates(ops, run, input@, depth as nat, pieces));
            lemma_valid(ops, run);
        }
        (Ok(value), Ghost(run))
    }
}

} // verus!
