//! The grammar layer: tokens to trees.
//!
//! Expressions are parsed by precedence climbing: a term, then a loop over
//! binary operators. Only `+` (binding power 6) and `*` (binding power 7) are
//! wired into the table, both left-associative; any other operator token ends
//! the climb. A term is, in this order: a block, a function call (tried
//! first, falling back to a bare identifier when its argument list does not
//! parse), an `if`/`else` whose branches must both be blocks, a boolean,
//! integer or string literal, or a bare identifier.
//!
//! A block `{ .. }` is a `;`-separated statement sequence. When it does not
//! end with a trailing `;`, its last statement must be an expression
//! statement and is promoted into the block's terminal slot (`spec_promote`);
//! a `let` in that position is a syntax error. With a trailing `;` the
//! terminal is `None`. The empty block `{}` denotes `Unit`.
//!
//! Every `spec_p_*` function is the mathematical definition of one grammar
//! production over the token stream; each executable parser is proved to
//! return exactly what its spec function says, for every input.

use vstd::prelude::*;

use crate::ast::ErrV;
use crate::ast::Expr;
use crate::ast::ExprV;
use crate::ast::Function;
use crate::ast::FunctionV;
use crate::ast::ParseError;
use crate::ast::ParseErrorKind;
use crate::ast::Statement;
use crate::ast::StmtV;
use crate::lexer::TokKind;
use crate::lexer::Token;
use crate::lexer::tok_wf;
use crate::lexer::tokenize;
use crate::lexer::TokenG;
use crate::lexer::spec_tokenize;
use crate::lexer::toks_g;
use crate::text::chars_of;
use crate::text::substring;
use crate::text::unescape_string;
use crate::lexer::unescape;

verus! {

/// How many tokens remain from position `pos`.
pub open spec fn t_rem(ts: Seq<TokenG>, pos: int) -> nat {
    if pos <= ts.len() {
        (ts.len() - pos) as nat
    } else {
        0
    }
}

/// The continuation position after a sub-parse, forced forward and into
/// bounds. Every parser moves forward and stays within the token stream
/// (`lemma_*_progress`), so the forcing never changes a reachable value; it
/// only makes termination of the definitions evident.
pub open spec fn adv(pos: int, next: int, len: int) -> int {
    let n = if next <= pos {
        pos + 1
    } else {
        next
    };
    if n > len {
        len
    } else {
        n
    }
}

/// The source position of the token at `pos`, or the end of the source when
/// the tokens have run out.
pub open spec fn tok_pos(src: Seq<char>, ts: Seq<TokenG>, pos: int) -> int {
    if 0 <= pos < ts.len() {
        ts[pos].start
    } else {
        src.len() as int
    }
}

/// The error for a position where some construct was required: the token
/// there does not begin it, or the input ended.
pub open spec fn expect_err(src: Seq<char>, ts: Seq<TokenG>, pos: int) -> ErrV {
    if 0 <= pos < ts.len() {
        ErrV { kind: ParseErrorKind::UnexpectedToken, pos: ts[pos].start }
    } else {
        ErrV { kind: ParseErrorKind::UnexpectedEnd, pos: src.len() as int }
    }
}

/// The text of the token at `pos`.
pub open spec fn tok_text(src: Seq<char>, ts: Seq<TokenG>, pos: int) -> Seq<char> {
    src.subrange(ts[pos].start, ts[pos].end)
}

/// The binding power of an operator: `*` binds tighter than `+`, and no
/// other operator is in the table.
pub open spec fn op_prec(op: Seq<char>) -> Option<int> {
    if op == seq!['+'] {
        Some(6int)
    } else if op == seq!['*'] {
        Some(7int)
    } else {
        None
    }
}

/// A term of the precedence climb: a block, a function call or bare
/// identifier, an `if`, or a literal.
pub open spec fn spec_p_term(src: Seq<char>, ts: Seq<TokenG>, pos: int) -> Result<
    (ExprV, int),
    ErrV,
>
    decreases t_rem(ts, pos), 1int,
{
    if !(0 <= pos < ts.len()) {
        Err(expect_err(src, ts, pos))
    } else {
        let t = ts[pos];
        match t.kind {
            TokKind::LBrace => spec_p_block(src, ts, pos + 1),
            TokKind::Ident => {
                let name = tok_text(src, ts, pos);
                if pos + 1 < ts.len() && ts[pos + 1].kind == TokKind::LParen {
                    // Try the call; fall back to the bare identifier when its
                    // argument list does not parse.
                    match spec_p_args(src, ts, pos + 2) {
                        Ok((args, p)) => Ok((ExprV::FnCall { function: name, args }, p)),
                        Err(_) => Ok((ExprV::Id { name }, pos + 1)),
                    }
                } else {
                    Ok((ExprV::Id { name }, pos + 1))
                }
            },
            TokKind::KwIf => spec_p_if(src, ts, pos),
            TokKind::KwTrue => Ok((ExprV::BoolLit { value: true }, pos + 1)),
            TokKind::KwFalse => Ok((ExprV::BoolLit { value: false }, pos + 1)),
            TokKind::Int(v) => Ok((ExprV::IntLit { value: v as int }, pos + 1)),
            TokKind::Str => Ok(
                (ExprV::StringLit { value: unescape(src.subrange(t.start + 1, t.end - 1)) }, pos
                    + 1),
            ),
            _ => Err(ErrV { kind: ParseErrorKind::UnexpectedToken, pos: t.start }),
        }
    }
}

/// `if <cond> { .. } else { .. }`: the cursor stands on the `if` keyword;
/// both branches must parse to blocks.
pub open spec fn spec_p_if(src: Seq<char>, ts: Seq<TokenG>, pos: int) -> Result<
    (ExprV, int),
    ErrV,
>
    decreases t_rem(ts, pos), 0int,
{
    let len = ts.len() as int;
    if !(0 <= pos < len) {
        Err(expect_err(src, ts, pos))
    } else {
        match spec_p_expr(src, ts, pos + 1, 0) {
            Err(e) => Err(e),
            Ok((cond, p1x)) => {
                let p1 = adv(pos, p1x, len);
                if 0 <= p1 < len && ts[p1].kind == TokKind::LBrace {
                    match spec_p_expr(src, ts, p1, 0) {
                        Err(e) => Err(e),
                        Ok((then_branch, p2x)) => {
                            let p2 = adv(p1, p2x, len);
                            if 0 <= p2 < len && ts[p2].kind == TokKind::KwElse {
                                if p2 + 1 < len && ts[p2 + 1].kind == TokKind::LBrace {
                                    match spec_p_expr(src, ts, p2 + 1, 0) {
                                        Err(e) => Err(e),
                                        Ok((else_branch, p3)) => {
                                            if (then_branch is Block) && (else_branch is Block) {
                                                Ok(
                                                    (
                                                        ExprV::If {
                                                            cond: Box::new(cond),
                                                            then_branch: Box::new(then_branch),
                                                            else_branch: Box::new(else_branch),
                                                        },
                                                        p3,
                                                    ),
                                                )
                                            } else {
                                                Err(
                                                    ErrV {
                                                        kind: ParseErrorKind::IfBranchNotBlock,
                                                        pos: ts[pos].start,
                                                    },
                                                )
                                            }
                                        },
                                    }
                                } else {
                                    Err(expect_err(src, ts, p2 + 1))
                                }
                            } else {
                                Err(expect_err(src, ts, p2))
                            }
                        },
                    }
                } else {
                    Err(expect_err(src, ts, p1))
                }
            },
        }
    }
}

/// The operator loop of the precedence climb: while the next token is an
/// operator in the table whose power is at least `min_prec`, take it and
/// parse its right-hand side with the next higher power (left associativity),
/// folding into `lhs`.
pub open spec fn spec_p_binop_rest(
    src: Seq<char>,
    ts: Seq<TokenG>,
    lhs: ExprV,
    pos: int,
    min_prec: int,
) -> Result<(ExprV, int), ErrV>
    decreases t_rem(ts, pos), 3int,
{
    let len = ts.len() as int;
    if 0 <= pos < len && ts[pos].kind == TokKind::Op {
        let optext = tok_text(src, ts, pos);
        match op_prec(optext) {
            Some(prec) => {
                if prec >= min_prec {
                    match spec_p_expr(src, ts, pos + 1, prec + 1) {
                        Err(e) => Err(e),
                        Ok((rhs, p2x)) => {
                            let p2 = adv(pos, p2x, len);
                            spec_p_binop_rest(
                                src,
                                ts,
                                ExprV::Op { lhs: Box::new(lhs), op: optext, rhs: Box::new(rhs) },
                                p2,
                                min_prec,
                            )
                        },
                    }
                } else {
                    Ok((lhs, pos))
                }
            },
            None => Ok((lhs, pos)),
        }
    } else {
        Ok((lhs, pos))
    }
}

/// An expression: a term followed by the operator loop at `min_prec`.
pub open spec fn spec_p_expr(src: Seq<char>, ts: Seq<TokenG>, pos: int, min_prec: int) -> Result<
    (ExprV, int),
    ErrV,
>
    decreases t_rem(ts, pos), 2int,
{
    if !(0 <= pos < ts.len()) {
        Err(expect_err(src, ts, pos))
    } else {
        match spec_p_term(src, ts, pos) {
            Err(e) => Err(e),
            Ok((lhs, px)) => spec_p_binop_rest(
                src,
                ts,
                lhs,
                adv(pos, px, ts.len() as int),
                min_prec,
            ),
        }
    }
}

/// A comma-separated, trailing-comma-tolerant argument list; the cursor
/// stands just after the `(` and the result just after the `)`.
pub open spec fn spec_p_args(src: Seq<char>, ts: Seq<TokenG>, pos: int) -> Result<
    (Seq<ExprV>, int),
    ErrV,
>
    decreases t_rem(ts, pos), 3int,
{
    let len = ts.len() as int;
    if !(0 <= pos < len) {
        Err(expect_err(src, ts, pos))
    } else if ts[pos].kind == TokKind::RParen {
        Ok((Seq::empty(), pos + 1))
    } else {
        match spec_p_expr(src, ts, pos, 0) {
            Err(e) => Err(e),
            Ok((e0, px)) => {
                let p = adv(pos, px, len);
                if 0 <= p < len && ts[p].kind == TokKind::Comma {
                    match spec_p_args(src, ts, p + 1) {
                        Err(e) => Err(e),
                        Ok((rest, p2)) => Ok((seq![e0] + rest, p2)),
                    }
                } else if 0 <= p < len && ts[p].kind == TokKind::RParen {
                    Ok((seq![e0], p + 1))
                } else {
                    Err(expect_err(src, ts, p))
                }
            },
        }
    }
}

/// A statement: `let <id> = <expr>`, or a bare expression statement. A `let`
/// keyword commits to the binding form.
pub open spec fn spec_p_stmt(src: Seq<char>, ts: Seq<TokenG>, pos: int) -> Result<
    (StmtV, int),
    ErrV,
>
    decreases t_rem(ts, pos), 3int,
{
    let len = ts.len() as int;
    if !(0 <= pos < len) {
        Err(expect_err(src, ts, pos))
    } else if ts[pos].kind == TokKind::KwLet {
        if pos + 1 < len && ts[pos + 1].kind == TokKind::Ident {
            let name = tok_text(src, ts, pos + 1);
            if pos + 2 < len && ts[pos + 2].kind == TokKind::Op && tok_text(src, ts, pos + 2)
                == seq!['='] {
                match spec_p_expr(src, ts, pos + 3, 0) {
                    Err(e) => Err(e),
                    Ok((value, p)) => Ok((StmtV::SLet { name, value }, p)),
                }
            } else {
                Err(expect_err(src, ts, pos + 2))
            }
        } else {
            Err(expect_err(src, ts, pos + 1))
        }
    } else {
        match spec_p_expr(src, ts, pos, 0) {
            Err(e) => Err(e),
            Ok((value, p)) => Ok((StmtV::SExpr { value }, p)),
        }
    }
}

/// A `;`-separated statement sequence inside a block. The `bool` of the
/// result says whether the sequence ended with a trailing `;` (the next token
/// then being the closing `}`); the position stands on the token after the
/// last statement or trailing `;`.
pub open spec fn spec_p_stmts(src: Seq<char>, ts: Seq<TokenG>, pos: int) -> Result<
    (Seq<StmtV>, bool, int),
    ErrV,
>
    decreases t_rem(ts, pos), 4int,
{
    let len = ts.len() as int;
    if !(0 <= pos < len) {
        Err(expect_err(src, ts, pos))
    } else {
        match spec_p_stmt(src, ts, pos) {
            Err(e) => Err(e),
            Ok((st, px)) => {
                let p = adv(pos, px, len);
                if 0 <= p < len && ts[p].kind == TokKind::Semi {
                    if p + 1 < len && ts[p + 1].kind == TokKind::RBrace {
                        Ok((seq![st], true, p + 1))
                    } else {
                        match spec_p_stmts(src, ts, p + 1) {
                            Err(e) => Err(e),
                            Ok((rest, trailing, p2)) => Ok((seq![st] + rest, trailing, p2)),
                        }
                    }
                } else {
                    Ok((seq![st], false, p))
                }
            },
        }
    }
}

/// The block-termination rule. Without a trailing `;` the last statement
/// must be an expression statement and becomes the block's terminal; a `let`
/// there is a syntax error, tagged at `errpos`. With a trailing `;` the
/// statements stand as they are and the terminal is `None`.
pub open spec fn spec_promote(stmts: Seq<StmtV>, trailing: bool, errpos: int) -> Result<
    (Seq<StmtV>, Option<ExprV>),
    ErrV,
> {
    if trailing {
        Ok((stmts, None))
    } else if stmts.len() == 0 {
        Ok((stmts, None))
    } else {
        match stmts.last() {
            StmtV::SExpr { value } => Ok((stmts.drop_last(), Some(value))),
            StmtV::SLet { .. } => Err(ErrV { kind: ParseErrorKind::BlockEndsWithLet, pos: errpos }),
        }
    }
}

/// A block body: the cursor stands just after the `{` and the result just
/// after the `}`. `{}` denotes `Unit`; `{;}` is the empty statement sequence
/// with a trailing `;`.
pub open spec fn spec_p_block(src: Seq<char>, ts: Seq<TokenG>, pos: int) -> Result<
    (ExprV, int),
    ErrV,
>
    decreases t_rem(ts, pos), 5int,
{
    let len = ts.len() as int;
    if !(0 <= pos < len) {
        Err(expect_err(src, ts, pos))
    } else if ts[pos].kind == TokKind::RBrace {
        Ok(
            (
                ExprV::Block { stmts: Seq::empty(), terminal: Some(Box::new(ExprV::Unit)) },
                pos + 1,
            ),
        )
    } else if ts[pos].kind == TokKind::Semi {
        if pos + 1 < len && ts[pos + 1].kind == TokKind::RBrace {
            Ok((ExprV::Block { stmts: Seq::empty(), terminal: None }, pos + 2))
        } else {
            Err(expect_err(src, ts, pos + 1))
        }
    } else {
        match spec_p_stmts(src, ts, pos) {
            Err(e) => Err(e),
            Ok((stmts, trailing, px)) => {
                if 0 <= px < len && ts[px].kind == TokKind::RBrace {
                    match spec_promote(stmts, trailing, ts[px].start) {
                        Err(e) => Err(e),
                        Ok((ss, term)) => Ok(
                            (
                                ExprV::Block {
                                    stmts: ss,
                                    terminal: match term {
                                        Some(v) => Some(Box::new(v)),
                                        None => None,
                                    },
                                },
                                px + 1,
                            ),
                        ),
                    }
                } else {
                    Err(expect_err(src, ts, px))
                }
            },
        }
    }
}

/// A non-empty `<id> : <type>` list separated by commas; the result position
/// stands on the token after the last pair (the `)` of a well-formed list).
pub open spec fn spec_p_param_list(src: Seq<char>, ts: Seq<TokenG>, pos: int) -> Result<
    (Seq<(Seq<char>, Seq<char>)>, int),
    ErrV,
>
    decreases t_rem(ts, pos), 3int,
{
    let len = ts.len() as int;
    if !(0 <= pos < len) {
        Err(expect_err(src, ts, pos))
    } else if ts[pos].kind != TokKind::Ident {
        Err(expect_err(src, ts, pos))
    } else if !(pos + 1 < len && ts[pos + 1].kind == TokKind::Colon) {
        Err(expect_err(src, ts, pos + 1))
    } else if !(pos + 2 < len && ts[pos + 2].kind == TokKind::Ident) {
        Err(expect_err(src, ts, pos + 2))
    } else {
        let prm = (tok_text(src, ts, pos), tok_text(src, ts, pos + 2));
        if pos + 3 < len && ts[pos + 3].kind == TokKind::Comma {
            match spec_p_param_list(src, ts, pos + 4) {
                Err(e) => Err(e),
                Ok((rest, p)) => Ok((seq![prm] + rest, p)),
            }
        } else {
            Ok((seq![prm], pos + 3))
        }
    }
}

/// The parenthesized argument list of a function definition: empty, or a
/// comma-separated pair list. The result position stands on the `)`.
pub open spec fn spec_p_params(src: Seq<char>, ts: Seq<TokenG>, pos: int) -> Result<
    (Seq<(Seq<char>, Seq<char>)>, int),
    ErrV,
>
    decreases t_rem(ts, pos), 4int,
{
    if !(0 <= pos < ts.len()) {
        Err(expect_err(src, ts, pos))
    } else if ts[pos].kind == TokKind::RParen {
        Ok((Seq::empty(), pos))
    } else {
        spec_p_param_list(src, ts, pos)
    }
}

/// `fn <name> ( <params> ) <body>`: the cursor stands on the `fn` keyword.
pub open spec fn spec_p_function(src: Seq<char>, ts: Seq<TokenG>, pos: int) -> Result<
    (FunctionV, int),
    ErrV,
>
    decreases t_rem(ts, pos), 6int,
{
    let len = ts.len() as int;
    if !(0 <= pos < len) {
        Err(expect_err(src, ts, pos))
    } else if ts[pos].kind != TokKind::KwFn {
        Err(expect_err(src, ts, pos))
    } else if !(pos + 1 < len && ts[pos + 1].kind == TokKind::Ident) {
        Err(expect_err(src, ts, pos + 1))
    } else if !(pos + 2 < len && ts[pos + 2].kind == TokKind::LParen) {
        Err(expect_err(src, ts, pos + 2))
    } else {
        let name = tok_text(src, ts, pos + 1);
        match spec_p_params(src, ts, pos + 3) {
            Err(e) => Err(e),
            Ok((argument_list, px)) => {
                if 0 <= px < len && ts[px].kind == TokKind::RParen {
                    match spec_p_expr(src, ts, adv(pos, px + 1, len), 0) {
                        Err(e) => Err(e),
                        Ok((body, p2)) => Ok((FunctionV { name, argument_list, body }, p2)),
                    }
                } else {
                    Err(expect_err(src, ts, px))
                }
            },
        }
    }
}

/// A successful term parse moves the cursor forward and keeps it in bounds.
pub proof fn lemma_term_progress(src: Seq<char>, ts: Seq<TokenG>, pos: int)
    ensures
        spec_p_term(src, ts, pos) matches Ok((e, p)) ==> pos < p <= ts.len(),
    decreases t_rem(ts, pos), 1int,
{
    if 0 <= pos < ts.len() {
        match ts[pos].kind {
            TokKind::LBrace => lemma_block_progress(src, ts, pos + 1),
            TokKind::Ident => {
                if pos + 1 < ts.len() && ts[pos + 1].kind == TokKind::LParen {
                    lemma_args_progress(src, ts, pos + 2);
                }
            },
            TokKind::KwIf => lemma_if_progress(src, ts, pos),
            _ => {},
        }
    }
}

/// A successful `if` parse moves the cursor forward and keeps it in bounds.
pub proof fn lemma_if_progress(src: Seq<char>, ts: Seq<TokenG>, pos: int)
    ensures
        spec_p_if(src, ts, pos) matches Ok((e, p)) ==> pos < p <= ts.len(),
    decreases t_rem(ts, pos), 0int,
{
    let len = ts.len() as int;
    if 0 <= pos < len {
        lemma_expr_progress(src, ts, pos + 1, 0);
        match spec_p_expr(src, ts, pos + 1, 0) {
            Err(_) => {},
            Ok((cond, p1x)) => {
                let p1 = adv(pos, p1x, len);
                if 0 <= p1 < len && ts[p1].kind == TokKind::LBrace {
                    lemma_expr_progress(src, ts, p1, 0);
                    match spec_p_expr(src, ts, p1, 0) {
                        Err(_) => {},
                        Ok((then_branch, p2x)) => {
                            let p2 = adv(p1, p2x, len);
                            if 0 <= p2 < len && ts[p2].kind == TokKind::KwElse {
                                if p2 + 1 < len && ts[p2 + 1].kind == TokKind::LBrace {
                                    lemma_expr_progress(src, ts, p2 + 1, 0);
                                }
                            }
                        },
                    }
                }
            },
        }
    }
}

/// A successful operator loop never moves the cursor backwards and keeps it
/// in bounds.
pub proof fn lemma_binop_rest_progress(
    src: Seq<char>,
    ts: Seq<TokenG>,
    lhs: ExprV,
    pos: int,
    min_prec: int,
)
    requires
        0 <= pos <= ts.len(),
    ensures
        spec_p_binop_rest(src, ts, lhs, pos, min_prec) matches Ok((e, p)) ==> pos <= p
            <= ts.len(),
    decreases t_rem(ts, pos), 3int,
{
    let len = ts.len() as int;
    if 0 <= pos < len && ts[pos].kind == TokKind::Op {
        let optext = tok_text(src, ts, pos);
        match op_prec(optext) {
            Some(prec) => {
                if prec >= min_prec {
                    lemma_expr_progress(src, ts, pos + 1, prec + 1);
                    match spec_p_expr(src, ts, pos + 1, prec + 1) {
                        Err(_) => {},
                        Ok((rhs, p2x)) => {
                            let p2 = adv(pos, p2x, len);
                            lemma_binop_rest_progress(
                                src,
                                ts,
                                ExprV::Op { lhs: Box::new(lhs), op: optext, rhs: Box::new(rhs) },
                                p2,
                                min_prec,
                            );
                        },
                    }
                }
            },
            None => {},
        }
    }
}

/// A successful expression parse moves the cursor forward and keeps it in
/// bounds.
pub proof fn lemma_expr_progress(src: Seq<char>, ts: Seq<TokenG>, pos: int, min_prec: int)
    ensures
        spec_p_expr(src, ts, pos, min_prec) matches Ok((e, p)) ==> pos < p <= ts.len(),
    decreases t_rem(ts, pos), 2int,
{
    if 0 <= pos < ts.len() {
        lemma_term_progress(src, ts, pos);
        match spec_p_term(src, ts, pos) {
            Err(_) => {},
            Ok((lhs, px)) => {
                lemma_binop_rest_progress(src, ts, lhs, adv(pos, px, ts.len() as int), min_prec);
            },
        }
    }
}

/// A successful argument-list parse moves the cursor forward and keeps it in
/// bounds.
pub proof fn lemma_args_progress(src: Seq<char>, ts: Seq<TokenG>, pos: int)
    ensures
        spec_p_args(src, ts, pos) matches Ok((args, p)) ==> pos < p <= ts.len(),
    decreases t_rem(ts, pos), 3int,
{
    let len = ts.len() as int;
    if 0 <= pos < len && ts[pos].kind != TokKind::RParen {
        lemma_expr_progress(src, ts, pos, 0);
        match spec_p_expr(src, ts, pos, 0) {
            Err(_) => {},
            Ok((e0, px)) => {
                let p = adv(pos, px, len);
                if 0 <= p < len && ts[p].kind == TokKind::Comma {
                    lemma_args_progress(src, ts, p + 1);
                }
            },
        }
    }
}

/// A successful statement parse moves the cursor forward and keeps it in
/// bounds.
pub proof fn lemma_stmt_progress(src: Seq<char>, ts: Seq<TokenG>, pos: int)
    ensures
        spec_p_stmt(src, ts, pos) matches Ok((st, p)) ==> pos < p <= ts.len(),
    decreases t_rem(ts, pos), 3int,
{
    let len = ts.len() as int;
    if 0 <= pos < len {
        if ts[pos].kind == TokKind::KwLet {
            lemma_expr_progress(src, ts, pos + 3, 0);
        } else {
            lemma_expr_progress(src, ts, pos, 0);
        }
    }
}

/// A successful statement-sequence parse moves the cursor forward and keeps
/// it in bounds.
pub proof fn lemma_stmts_progress(src: Seq<char>, ts: Seq<TokenG>, pos: int)
    ensures
        spec_p_stmts(src, ts, pos) matches Ok((sts, trailing, p)) ==> pos < p <= ts.len(),
    decreases t_rem(ts, pos), 4int,
{
    let len = ts.len() as int;
    if 0 <= pos < len {
        lemma_stmt_progress(src, ts, pos);
        match spec_p_stmt(src, ts, pos) {
            Err(_) => {},
            Ok((st, px)) => {
                let p = adv(pos, px, len);
                if 0 <= p < len && ts[p].kind == TokKind::Semi {
                    if !(p + 1 < len && ts[p + 1].kind == TokKind::RBrace) {
                        lemma_stmts_progress(src, ts, p + 1);
                    }
                }
            },
        }
    }
}

/// A successful block parse moves the cursor forward and keeps it in bounds.
pub proof fn lemma_block_progress(src: Seq<char>, ts: Seq<TokenG>, pos: int)
    ensures
        spec_p_block(src, ts, pos) matches Ok((e, p)) ==> pos < p <= ts.len(),
    decreases t_rem(ts, pos), 5int,
{
    let len = ts.len() as int;
    if 0 <= pos < len && ts[pos].kind != TokKind::RBrace && ts[pos].kind != TokKind::Semi {
        lemma_stmts_progress(src, ts, pos);
    }
}

/// A successful parameter-pair-list parse moves the cursor forward and keeps
/// it in bounds.
pub proof fn lemma_param_list_progress(src: Seq<char>, ts: Seq<TokenG>, pos: int)
    ensures
        spec_p_param_list(src, ts, pos) matches Ok((ps, p)) ==> pos < p <= ts.len(),
    decreases t_rem(ts, pos), 3int,
{
    let len = ts.len() as int;
    if 0 <= pos < len && ts[pos].kind == TokKind::Ident && pos + 1 < len && ts[pos + 1].kind
        == TokKind::Colon && pos + 2 < len && ts[pos + 2].kind == TokKind::Ident {
        if pos + 3 < len && ts[pos + 3].kind == TokKind::Comma {
            lemma_param_list_progress(src, ts, pos + 4);
        }
    }
}

/// A successful parameter-list parse keeps the cursor in bounds and never
/// moves it backwards.
pub proof fn lemma_params_progress(src: Seq<char>, ts: Seq<TokenG>, pos: int)
    ensures
        spec_p_params(src, ts, pos) matches Ok((ps, p)) ==> pos <= p <= ts.len(),
    decreases t_rem(ts, pos), 4int,
{
    if 0 <= pos < ts.len() && ts[pos].kind != TokKind::RParen {
        lemma_param_list_progress(src, ts, pos);
    }
}

/// A successful function parse moves the cursor forward and keeps it in
/// bounds.
pub proof fn lemma_function_progress(src: Seq<char>, ts: Seq<TokenG>, pos: int)
    ensures
        spec_p_function(src, ts, pos) matches Ok((f, p)) ==> pos < p <= ts.len(),
    decreases t_rem(ts, pos), 6int,
{
    let len = ts.len() as int;
    if 0 <= pos < len && ts[pos].kind == TokKind::KwFn && pos + 1 < len && ts[pos + 1].kind
        == TokKind::Ident && pos + 2 < len && ts[pos + 2].kind == TokKind::LParen {
        lemma_params_progress(src, ts, pos + 3);
        match spec_p_params(src, ts, pos + 3) {
            Err(_) => {},
            Ok((argument_list, px)) => {
                if 0 <= px < len && ts[px].kind == TokKind::RParen {
                    lemma_expr_progress(src, ts, adv(pos, px + 1, len), 0);
                }
            },
        }
    }
}

/// The block-termination rule, stated of the promotion step: a statement
/// sequence without a trailing `;` gives its last statement's expression to
/// the terminal slot — and that last statement must be an expression
/// statement, a binding there being a syntax error.
pub proof fn lemma_promote_no_trailing_semi(stmts: Seq<StmtV>, errpos: int)
    requires
        stmts.len() > 0,
    ensures
        stmts.last() matches StmtV::SExpr { value } ==> spec_promote(stmts, false, errpos)
            == Ok::<(Seq<StmtV>, Option<ExprV>), ErrV>((stmts.drop_last(), Some(value))),
        stmts.last() is SLet ==> spec_promote(stmts, false, errpos) == Err::<
            (Seq<StmtV>, Option<ExprV>),
            ErrV,
        >(ErrV { kind: ParseErrorKind::BlockEndsWithLet, pos: errpos }),
{
}

/// The block-termination rule, the other arm: with a trailing `;` every
/// statement stays in the sequence and the terminal is `None`.
pub proof fn lemma_promote_trailing_semi(stmts: Seq<StmtV>, errpos: int)
    ensures
        spec_promote(stmts, true, errpos) == Ok::<(Seq<StmtV>, Option<ExprV>), ErrV>(
            (stmts, None),
        ),
{
}

/// A parsed statement sequence holds at least one statement.
pub proof fn lemma_stmts_nonempty(src: Seq<char>, ts: Seq<TokenG>, pos: int)
    ensures
        spec_p_stmts(src, ts, pos) matches Ok((sts, trailing, p)) ==> sts.len() >= 1,
    decreases t_rem(ts, pos), 4int,
{
}

/// The block-termination rule, stated of the block parser itself: when the
/// statements of `{ .. }` parse and the `}` follows them, the block's shape
/// is decided by the trailing `;` exactly as `spec_promote` says — without
/// one, the last statement is promoted into the terminal (a `let` there is
/// the `BlockEndsWithLet` error); with one, the statements stand unchanged
/// and the terminal is `None`.
pub proof fn lemma_block_termination_rule(src: Seq<char>, ts: Seq<TokenG>, pos: int)
    requires
        0 <= pos < ts.len(),
        ts[pos].kind != TokKind::RBrace,
        ts[pos].kind != TokKind::Semi,
    ensures
        spec_p_stmts(src, ts, pos) matches Ok((stmts, trailing, p)) ==> (0 <= p < ts.len()
            && ts[p].kind == TokKind::RBrace) ==> {
            &&& !trailing && stmts.last() is SExpr ==> spec_p_block(src, ts, pos) == Ok::<
                (ExprV, int),
                ErrV,
            >(
                (
                    ExprV::Block {
                        stmts: stmts.drop_last(),
                        terminal: Some(Box::new(stmts.last()->SExpr_value)),
                    },
                    p + 1,
                ),
            )
            &&& !trailing && stmts.last() is SLet ==> spec_p_block(src, ts, pos) == Err::<
                (ExprV, int),
                ErrV,
            >(ErrV { kind: ParseErrorKind::BlockEndsWithLet, pos: ts[p].start })
            &&& trailing ==> spec_p_block(src, ts, pos) == Ok::<(ExprV, int), ErrV>(
                (ExprV::Block { stmts, terminal: None }, p + 1),
            )
        },
{
    lemma_stmts_nonempty(src, ts, pos);
}

/// Is the token stream an operator chain: identifier atoms at the even
/// positions, joined by single-character `+` or `*` operator tokens at the
/// odd positions?
pub open spec fn is_op_chain(src: Seq<char>, ts: Seq<TokenG>) -> bool {
    &&& ts.len() % 2 == 1
    &&& forall|i: int|
        0 <= i < ts.len() && i % 2 == 0 ==> (#[trigger] ts[i]).kind == TokKind::Ident
    &&& forall|i: int|
        0 <= i < ts.len() && i % 2 == 1 ==> (#[trigger] ts[i]).kind == TokKind::Op && (tok_text(
            src,
            ts,
            i,
        ) == seq!['+'] || tok_text(src, ts, i) == seq!['*'])
}

/// The identifier atom at token position `p` of a chain.
pub open spec fn chain_atom(src: Seq<char>, ts: Seq<TokenG>, p: int) -> ExprV {
    ExprV::Id { name: tok_text(src, ts, p) }
}

/// The left-associative fold of a maximal `*`-run into `lhs`: while the
/// operator at `j` is `*`, the atom after it joins the tree grown so far on
/// its left. Returns the tree and the position of the first operator that is
/// not `*` (or the end of the chain).
pub open spec fn chain_star_fold(src: Seq<char>, ts: Seq<TokenG>, lhs: ExprV, j: int) -> (
    ExprV,
    int,
)
    decreases t_rem(ts, j),
{
    if 0 <= j < ts.len() && ts[j].kind == TokKind::Op && tok_text(src, ts, j) == seq!['*'] {
        chain_star_fold(
            src,
            ts,
            ExprV::Op {
                lhs: Box::new(lhs),
                op: seq!['*'],
                rhs: Box::new(chain_atom(src, ts, j + 1)),
            },
            j + 2,
        )
    } else {
        (lhs, j)
    }
}

/// The tree an operator chain denotes, grown left to right onto `lhs` from
/// operator position `j`. A `*` joins the next atom into the subtree grown
/// so far — so runs of `*` group more tightly and associate to the left. A
/// `+` takes the whole maximal `*`-run after it as one subtree and joins it
/// on the left — so `+` associates to the left over those subtrees.
pub open spec fn chain_tree(src: Seq<char>, ts: Seq<TokenG>, lhs: ExprV, j: int) -> ExprV
    decreases t_rem(ts, j),
{
    let len = ts.len() as int;
    if 0 <= j < len && ts[j].kind == TokKind::Op && tok_text(src, ts, j) == seq!['*'] {
        chain_tree(
            src,
            ts,
            ExprV::Op {
                lhs: Box::new(lhs),
                op: seq!['*'],
                rhs: Box::new(chain_atom(src, ts, j + 1)),
            },
            j + 2,
        )
    } else if 0 <= j < len && ts[j].kind == TokKind::Op && tok_text(src, ts, j) == seq!['+'] {
        let folded = chain_star_fold(src, ts, chain_atom(src, ts, j + 1), j + 2);
        chain_tree(
            src,
            ts,
            ExprV::Op { lhs: Box::new(lhs), op: seq!['+'], rhs: Box::new(folded.0) },
            adv(j + 1, folded.1, len),
        )
    } else {
        lhs
    }
}

/// The two rows of the operator table, spelled out.
proof fn lemma_op_prec_table()
    ensures
        op_prec(seq!['+']) == Some(6int),
        op_prec(seq!['*']) == Some(7int),
{
    assert(seq!['+'][0] == '+');
    assert(seq!['*'][0] == '*');
    assert(seq!['*'] != seq!['+']);
}

/// In a chain, a term parse at an atom position yields that atom.
proof fn lemma_chain_term(src: Seq<char>, ts: Seq<TokenG>, p: int)
    requires
        is_op_chain(src, ts),
        0 <= p < ts.len(),
        p % 2 == 0,
    ensures
        spec_p_term(src, ts, p) == Ok::<(ExprV, int), ErrV>((chain_atom(src, ts, p), p + 1)),
{
    if p + 1 < ts.len() {
        assert(ts[p + 1].kind == TokKind::Op);
    }
}

/// In a chain, an expression parse at an atom position with a binding power
/// above the whole table consumes exactly that atom.
proof fn lemma_chain_atom_expr(src: Seq<char>, ts: Seq<TokenG>, p: int)
    requires
        is_op_chain(src, ts),
        0 <= p < ts.len(),
        p % 2 == 0,
    ensures
        spec_p_expr(src, ts, p, 8) == Ok::<(ExprV, int), ErrV>((chain_atom(src, ts, p), p + 1)),
{
    lemma_op_prec_table();
    lemma_chain_term(src, ts, p);
    let len = ts.len() as int;
    assert(adv(p, p + 1, len) == p + 1);
    if p + 1 < len {
        assert(ts[p + 1].kind == TokKind::Op);
        assert(op_prec(tok_text(src, ts, p + 1)) matches Some(pr) && pr < 8);
    }
}

/// In a chain, the operator loop at binding power 7 is exactly the
/// left-associative fold of the maximal `*`-run.
proof fn lemma_chain_star_run(src: Seq<char>, ts: Seq<TokenG>, lhs: ExprV, j: int)
    requires
        is_op_chain(src, ts),
        0 <= j <= ts.len(),
        j % 2 == 1 || j == ts.len(),
    ensures
        ({
            let folded = chain_star_fold(src, ts, lhs, j);
            &&& spec_p_binop_rest(src, ts, lhs, j, 7) == Ok::<(ExprV, int), ErrV>(folded)
            &&& j <= folded.1 <= ts.len()
            &&& (folded.1 % 2 == 1 || folded.1 == ts.len())
        }),
    decreases t_rem(ts, j),
{
    lemma_op_prec_table();
    let len = ts.len() as int;
    if 0 <= j < len {
        assert(ts[j].kind == TokKind::Op);
        if tok_text(src, ts, j) == seq!['*'] {
            assert(j + 1 < len);
            lemma_chain_atom_expr(src, ts, j + 1);
            assert(adv(j, j + 2, len) == j + 2);
            lemma_chain_star_run(
                src,
                ts,
                ExprV::Op {
                    lhs: Box::new(lhs),
                    op: seq!['*'],
                    rhs: Box::new(chain_atom(src, ts, j + 1)),
                },
                j + 2,
            );
        }
    }
}

/// In a chain, the whole operator loop at binding power 0 is exactly
/// `chain_tree` and consumes the chain to its end.
proof fn lemma_chain_loop(src: Seq<char>, ts: Seq<TokenG>, lhs: ExprV, j: int)
    requires
        is_op_chain(src, ts),
        0 <= j <= ts.len(),
        j % 2 == 1 || j == ts.len(),
    ensures
        spec_p_binop_rest(src, ts, lhs, j, 0) == Ok::<(ExprV, int), ErrV>(
            (chain_tree(src, ts, lhs, j), ts.len() as int),
        ),
    decreases t_rem(ts, j),
{
    lemma_op_prec_table();
    let len = ts.len() as int;
    if 0 <= j < len {
        assert(ts[j].kind == TokKind::Op);
        if tok_text(src, ts, j) == seq!['*'] {
            assert(j + 1 < len);
            lemma_chain_atom_expr(src, ts, j + 1);
            assert(adv(j, j + 2, len) == j + 2);
            lemma_chain_loop(
                src,
                ts,
                ExprV::Op {
                    lhs: Box::new(lhs),
                    op: seq!['*'],
                    rhs: Box::new(chain_atom(src, ts, j + 1)),
                },
                j + 2,
            );
        } else {
            assert(tok_text(src, ts, j) == seq!['+']);
            assert(j + 1 < len);
            // The right-hand side at binding power 7 is the maximal `*`-run.
            lemma_chain_term(src, ts, j + 1);
            assert(adv(j + 1, j + 2, len) == j + 2);
            lemma_chain_star_run(src, ts, chain_atom(src, ts, j + 1), j + 2);
            let folded = chain_star_fold(src, ts, chain_atom(src, ts, j + 1), j + 2);
            assert(spec_p_expr(src, ts, j + 1, 7) == Ok::<(ExprV, int), ErrV>(folded));
            assert(adv(j, folded.1, len) == folded.1);
            assert(adv(j + 1, folded.1, len) == folded.1);
            lemma_chain_loop(
                src,
                ts,
                ExprV::Op { lhs: Box::new(lhs), op: seq!['+'], rhs: Box::new(folded.0) },
                folded.1,
            );
        }
    }
}

/// The law of the precedence table: an operator chain of identifiers joined
/// by `+` and `*` parses to exactly `chain_tree` — every maximal `*`-run is
/// grouped into one subtree before `+` combines anything, and operators of
/// equal binding power associate to the left.
pub proof fn lemma_operator_chain(src: Seq<char>, ts: Seq<TokenG>)
    requires
        is_op_chain(src, ts),
        ts.len() >= 1,
    ensures
        spec_p_expr(src, ts, 0, 0) == Ok::<(ExprV, int), ErrV>(
            (chain_tree(src, ts, chain_atom(src, ts, 0), 1), ts.len() as int),
        ),
{
    lemma_op_prec_table();
    lemma_chain_term(src, ts, 0);
    assert(adv(0, 1, ts.len() as int) == 1);
    lemma_chain_loop(src, ts, chain_atom(src, ts, 0), 1);
}

/// Parsing is deterministic: the parse of a text is a function of that text
/// alone, so two parses of equal inputs yield structurally equal results.
/// Each executable parse function is proved to return exactly the
/// corresponding `spec_parse_*_text` value, so any two of its calls on equal
/// inputs agree.
pub proof fn lemma_parse_deterministic(s1: Seq<char>, s2: Seq<char>)
    requires
        s1 == s2,
    ensures
        spec_parse_expr_text(s1) == spec_parse_expr_text(s2),
        spec_parse_statement_text(s1) == spec_parse_statement_text(s2),
        spec_parse_function_text(s1) == spec_parse_function_text(s2),
{
}

/// The expression a whole text denotes: tokenize, parse, and require that
/// every token was consumed.
pub open spec fn spec_parse_expr_text(s: Seq<char>) -> Result<ExprV, ErrV> {
    match spec_tokenize(s, 0) {
        Err(e) => Err(e),
        Ok(ts) => match spec_p_expr(s, ts, 0, 0) {
            Err(e) => Err(e),
            Ok((e, p)) => {
                if p == ts.len() as int {
                    Ok(e)
                } else {
                    Err(ErrV { kind: ParseErrorKind::TrailingInput, pos: tok_pos(s, ts, p) })
                }
            },
        },
    }
}

/// The statement a whole text denotes.
pub open spec fn spec_parse_statement_text(s: Seq<char>) -> Result<StmtV, ErrV> {
    match spec_tokenize(s, 0) {
        Err(e) => Err(e),
        Ok(ts) => match spec_p_stmt(s, ts, 0) {
            Err(e) => Err(e),
            Ok((st, p)) => {
                if p == ts.len() as int {
                    Ok(st)
                } else {
                    Err(ErrV { kind: ParseErrorKind::TrailingInput, pos: tok_pos(s, ts, p) })
                }
            },
        },
    }
}

/// The function definition a whole text denotes.
pub open spec fn spec_parse_function_text(s: Seq<char>) -> Result<FunctionV, ErrV> {
    match spec_tokenize(s, 0) {
        Err(e) => Err(e),
        Ok(ts) => match spec_p_function(s, ts, 0) {
            Err(e) => Err(e),
            Ok((f, p)) => {
                if p == ts.len() as int {
                    Ok(f)
                } else {
                    Err(ErrV { kind: ParseErrorKind::TrailingInput, pos: tok_pos(s, ts, p) })
                }
            },
        },
    }
}

fn expect_error(src: &Vec<char>, toks: &Vec<Token>, pos: usize) -> (e: ParseError)
    ensures
        e.deep_view() == expect_err(src@, toks_g(toks@), pos as int),
{
    if pos < toks.len() {
        ParseError { kind: ParseErrorKind::UnexpectedToken, pos: toks[pos].start }
    } else {
        ParseError { kind: ParseErrorKind::UnexpectedEnd, pos: src.len() }
    }
}

/// Does the token's text consist of the one character `c`?
fn tok_is_char(src: &Vec<char>, t: &Token, c: char) -> (b: bool)
    requires
        tok_wf(src@, t@),
    ensures
        b == (src@.subrange(t@.start, t@.end) == seq![c]),
{
    if t.end - t.start == 1 {
        let b = src[t.start] == c;
        proof {
            if b {
                assert(src@.subrange(t@.start, t@.end) =~= seq![c]);
            } else {
                assert(seq![c][0] == c);
                assert(src@.subrange(t@.start, t@.end)[0] != c);
            }
        }
        b
    } else {
        proof {
            assert(src@.subrange(t@.start, t@.end).len() != 1);
            assert(seq![c].len() == 1);
        }
        false
    }
}

/// The binding power of an operator token, as `op_prec` gives it.
fn op_prec_of(src: &Vec<char>, t: &Token) -> (r: Option<u32>)
    requires
        tok_wf(src@, t@),
    ensures
        match r {
            Some(p) => op_prec(src@.subrange(t@.start, t@.end)) == Some(p as int),
            None => op_prec(src@.subrange(t@.start, t@.end)) is None,
        },
{
    if tok_is_char(src, t, '+') {
        Some(6)
    } else if tok_is_char(src, t, '*') {
        Some(7)
    } else {
        None
    }
}

fn p_term(src: &Vec<char>, toks: &Vec<Token>, pos: usize) -> (r: Result<(Expr, usize), ParseError>)
    requires
        pos <= toks@.len(),
        crate::lexer::toks_wf(src@, toks_g(toks@)),
    ensures
        ({
            let sr = spec_p_term(src@, toks_g(toks@), pos as int);
            match r {
                Ok((e, p)) => sr == Ok::<(ExprV, int), ErrV>((e.deep_view(), p as int)) && pos < p
                    <= toks@.len(),
                Err(er) => sr == Err::<(ExprV, int), ErrV>(er.deep_view()),
            }
        }),
    decreases toks@.len() - pos, 1int,
{
    let ghost ts = toks_g(toks@);
    if pos >= toks.len() {
        return Err(expect_error(src, toks, pos));
    }
    let t = toks[pos];
    proof {
        assert(ts[pos as int] == t@);
        assert(tok_wf(src@, ts[pos as int]));
    }
    match t.kind {
        TokKind::LBrace => p_block(src, toks, pos + 1),
        TokKind::Ident => {
            let name = substring(src, t.start, t.end);
            if pos + 1 < toks.len() && toks[pos + 1].kind == TokKind::LParen {
                proof {
                    assert(ts[pos as int + 1] == toks@[pos as int + 1]@);
                }
                match p_args(src, toks, pos + 2) {
                    Ok((args, p)) => Ok((Expr::FnCall { function: name, args }, p)),
                    Err(_) => Ok((Expr::Id(name), pos + 1)),
                }
            } else {
                Ok((Expr::Id(name), pos + 1))
            }
        },
        TokKind::KwIf => p_if(src, toks, pos),
        TokKind::KwTrue => Ok((Expr::BoolLit(true), pos + 1)),
        TokKind::KwFalse => Ok((Expr::BoolLit(false), pos + 1)),
        TokKind::Int(v) => Ok((Expr::IntLit(v), pos + 1)),
        TokKind::Str => {
            let body = unescape_string(src, t.start + 1, t.end - 1);
            Ok((Expr::StringLit(body), pos + 1))
        },
        _ => Err(ParseError { kind: ParseErrorKind::UnexpectedToken, pos: t.start }),
    }
}

fn p_if(src: &Vec<char>, toks: &Vec<Token>, pos: usize) -> (r: Result<(Expr, usize), ParseError>)
    requires
        pos <= toks@.len(),
        crate::lexer::toks_wf(src@, toks_g(toks@)),
    ensures
        ({
            let sr = spec_p_if(src@, toks_g(toks@), pos as int);
            match r {
                Ok((e, p)) => sr == Ok::<(ExprV, int), ErrV>((e.deep_view(), p as int)) && pos < p
                    <= toks@.len(),
                Err(er) => sr == Err::<(ExprV, int), ErrV>(er.deep_view()),
            }
        }),
    decreases toks@.len() - pos, 0int,
{
    let ghost ts = toks_g(toks@);
    if pos >= toks.len() {
        return Err(expect_error(src, toks, pos));
    }
    let t = toks[pos];
    proof {
        assert(ts[pos as int] == t@);
    }
    let (cond, p1) = match p_expr(src, toks, pos + 1, 0) {
        Ok(x) => x,
        Err(e) => {
            return Err(e);
        },
    };
    proof {
        assert(adv(pos as int, p1 as int, ts.len() as int) == p1 as int);
        if p1 < toks@.len() {
            assert(ts[p1 as int] == toks@[p1 as int]@);
        }
    }
    if !(p1 < toks.len() && toks[p1].kind == TokKind::LBrace) {
        return Err(expect_error(src, toks, p1));
    }
    let (then_branch, p2) = match p_expr(src, toks, p1, 0) {
        Ok(x) => x,
        Err(e) => {
            return Err(e);
        },
    };
    proof {
        assert(adv(p1 as int, p2 as int, ts.len() as int) == p2 as int);
        if p2 < toks@.len() {
            assert(ts[p2 as int] == toks@[p2 as int]@);
        }
    }
    if !(p2 < toks.len() && toks[p2].kind == TokKind::KwElse) {
        return Err(expect_error(src, toks, p2));
    }
    proof {
        if p2 + 1 < toks@.len() {
            assert(ts[p2 as int + 1] == toks@[p2 as int + 1]@);
        }
    }
    if !(p2 + 1 < toks.len() && toks[p2 + 1].kind == TokKind::LBrace) {
        return Err(expect_error(src, toks, p2 + 1));
    }
    let (else_branch, p3) = match p_expr(src, toks, p2 + 1, 0) {
        Ok(x) => x,
        Err(e) => {
            return Err(e);
        },
    };
    let then_is_block = matches!(then_branch, Expr::Block(..));
    let else_is_block = matches!(else_branch, Expr::Block(..));
    if then_is_block && else_is_block {
        Ok((Expr::If(Box::new(cond), Box::new(then_branch), Box::new(else_branch)), p3))
    } else {
        Err(ParseError { kind: ParseErrorKind::IfBranchNotBlock, pos: t.start })
    }
}

fn p_binop_rest(
    src: &Vec<char>,
    toks: &Vec<Token>,
    lhs: Expr,
    pos: usize,
    min_prec: u32,
) -> (r: Result<(Expr, usize), ParseError>)
    requires
        pos <= toks@.len(),
        crate::lexer::toks_wf(src@, toks_g(toks@)),
    ensures
        ({
            let sr = spec_p_binop_rest(
                src@,
                toks_g(toks@),
                lhs.deep_view(),
                pos as int,
                min_prec as int,
            );
            match r {
                Ok((e, p)) => sr == Ok::<(ExprV, int), ErrV>((e.deep_view(), p as int)) && pos <= p
                    <= toks@.len(),
                Err(er) => sr == Err::<(ExprV, int), ErrV>(er.deep_view()),
            }
        }),
    decreases toks@.len() - pos, 3int,
{
    let ghost ts = toks_g(toks@);
    if pos >= toks.len() {
        return Ok((lhs, pos));
    }
    let t = toks[pos];
    proof {
        assert(ts[pos as int] == t@);
        assert(tok_wf(src@, ts[pos as int]));
    }
    if !(t.kind == TokKind::Op) {
        return Ok((lhs, pos));
    }
    let prec = match op_prec_of(src, &t) {
        Some(p) => p,
        None => {
            return Ok((lhs, pos));
        },
    };
    if prec < min_prec {
        return Ok((lhs, pos));
    }
    let (rhs, p2) = match p_expr(src, toks, pos + 1, prec + 1) {
        Ok(x) => x,
        Err(e) => {
            return Err(e);
        },
    };
    proof {
        assert(adv(pos as int, p2 as int, ts.len() as int) == p2 as int);
    }
    let optext = substring(src, t.start, t.end);
    let newlhs = Expr::Op(Box::new(lhs), optext, Box::new(rhs));
    p_binop_rest(src, toks, newlhs, p2, min_prec)
}

fn p_expr(src: &Vec<char>, toks: &Vec<Token>, pos: usize, min_prec: u32) -> (r: Result<
    (Expr, usize),
    ParseError,
>)
    requires
        pos <= toks@.len(),
        crate::lexer::toks_wf(src@, toks_g(toks@)),
    ensures
        ({
            let sr = spec_p_expr(src@, toks_g(toks@), pos as int, min_prec as int);
            match r {
                Ok((e, p)) => sr == Ok::<(ExprV, int), ErrV>((e.deep_view(), p as int)) && pos < p
                    <= toks@.len(),
                Err(er) => sr == Err::<(ExprV, int), ErrV>(er.deep_view()),
            }
        }),
    decreases toks@.len() - pos, 2int,
{
    let ghost ts = toks_g(toks@);
    if pos >= toks.len() {
        return Err(expect_error(src, toks, pos));
    }
    let (lhs, p1) = match p_term(src, toks, pos) {
        Ok(x) => x,
        Err(e) => {
            return Err(e);
        },
    };
    proof {
        assert(adv(pos as int, p1 as int, ts.len() as int) == p1 as int);
    }
    p_binop_rest(src, toks, lhs, p1, min_prec)
}

fn p_args(src: &Vec<char>, toks: &Vec<Token>, pos: usize) -> (r: Result<
    (Vec<Expr>, usize),
    ParseError,
>)
    requires
        pos <= toks@.len(),
        crate::lexer::toks_wf(src@, toks_g(toks@)),
    ensures
        ({
            let sr = spec_p_args(src@, toks_g(toks@), pos as int);
            match r {
                Ok((args, p)) => sr == Ok::<(Seq<ExprV>, int), ErrV>(
                    (crate::ast::exprs_deep_view(args@), p as int),
                ) && pos < p <= toks@.len(),
                Err(er) => sr == Err::<(Seq<ExprV>, int), ErrV>(er.deep_view()),
            }
        }),
    decreases toks@.len() - pos, 3int,
{
    let ghost ts = toks_g(toks@);
    if pos >= toks.len() {
        return Err(expect_error(src, toks, pos));
    }
    proof {
        assert(ts[pos as int] == toks@[pos as int]@);
    }
    if toks[pos].kind == TokKind::RParen {
        let v: Vec<Expr> = Vec::new();
        proof {
            assert(crate::ast::exprs_deep_view(v@) =~= Seq::<ExprV>::empty());
        }
        return Ok((v, pos + 1));
    }
    let (e0, p) = match p_expr(src, toks, pos, 0) {
        Ok(x) => x,
        Err(e) => {
            return Err(e);
        },
    };
    proof {
        assert(adv(pos as int, p as int, ts.len() as int) == p as int);
        if p < toks@.len() {
            assert(ts[p as int] == toks@[p as int]@);
        }
    }
    if p < toks.len() && toks[p].kind == TokKind::Comma {
        match p_args(src, toks, p + 1) {
            Err(e) => Err(e),
            Ok((mut rest, p2)) => {
                let ghost r0 = rest@;
                rest.insert(0, e0);
                proof {
                    crate::ast::lemma_exprs_deep_view(r0);
                    crate::ast::lemma_exprs_deep_view(rest@);
                    assert(crate::ast::exprs_deep_view(rest@) =~= seq![e0.deep_view()]
                        + crate::ast::exprs_deep_view(r0));
                }
                Ok((rest, p2))
            },
        }
    } else if p < toks.len() && toks[p].kind == TokKind::RParen {
        let mut v: Vec<Expr> = Vec::new();
        v.push(e0);
        proof {
            crate::ast::lemma_exprs_deep_view(v@);
            assert(crate::ast::exprs_deep_view(v@) =~= seq![e0.deep_view()]);
        }
        Ok((v, p + 1))
    } else {
        Err(expect_error(src, toks, p))
    }
}

fn p_stmt(src: &Vec<char>, toks: &Vec<Token>, pos: usize) -> (r: Result<
    (Statement, usize),
    ParseError,
>)
    requires
        pos <= toks@.len(),
        crate::lexer::toks_wf(src@, toks_g(toks@)),
    ensures
        ({
            let sr = spec_p_stmt(src@, toks_g(toks@), pos as int);
            match r {
                Ok((st, p)) => sr == Ok::<(StmtV, int), ErrV>((st.deep_view(), p as int)) && pos
                    < p <= toks@.len(),
                Err(er) => sr == Err::<(StmtV, int), ErrV>(er.deep_view()),
            }
        }),
    decreases toks@.len() - pos, 3int,
{
    let ghost ts = toks_g(toks@);
    if pos >= toks.len() {
        return Err(expect_error(src, toks, pos));
    }
    proof {
        assert(ts[pos as int] == toks@[pos as int]@);
    }
    if toks[pos].kind == TokKind::KwLet {
        proof {
            if pos + 1 < toks@.len() {
                assert(ts[pos as int + 1] == toks@[pos as int + 1]@);
            }
        }
        if !(pos + 1 < toks.len() && toks[pos + 1].kind == TokKind::Ident) {
            return Err(expect_error(src, toks, pos + 1));
        }
        let nt = toks[pos + 1];
        proof {
            assert(tok_wf(src@, ts[pos as int + 1]));
            if pos + 2 < toks@.len() {
                assert(ts[pos as int + 2] == toks@[pos as int + 2]@);
                assert(tok_wf(src@, ts[pos as int + 2]));
            }
        }
        if !(pos + 2 < toks.len() && toks[pos + 2].kind == TokKind::Op && tok_is_char(
            src,
            &toks[pos + 2],
            '=',
        )) {
            return Err(expect_error(src, toks, pos + 2));
        }
        let (value, p) = match p_expr(src, toks, pos + 3, 0) {
            Ok(x) => x,
            Err(e) => {
                return Err(e);
            },
        };
        let name = substring(src, nt.start, nt.end);
        Ok((Statement::SLet(name, value), p))
    } else {
        let (value, p) = match p_expr(src, toks, pos, 0) {
            Ok(x) => x,
            Err(e) => {
                return Err(e);
            },
        };
        Ok((Statement::SExpr(value), p))
    }
}

fn p_stmts(src: &Vec<char>, toks: &Vec<Token>, pos: usize) -> (r: Result<
    (Vec<Statement>, bool, usize),
    ParseError,
>)
    requires
        pos <= toks@.len(),
        crate::lexer::toks_wf(src@, toks_g(toks@)),
    ensures
        ({
            let sr = spec_p_stmts(src@, toks_g(toks@), pos as int);
            match r {
                Ok((sts, trailing, p)) => sr == Ok::<(Seq<StmtV>, bool, int), ErrV>(
                    (crate::ast::stmts_deep_view(sts@), trailing, p as int),
                ) && pos < p <= toks@.len(),
                Err(er) => sr == Err::<(Seq<StmtV>, bool, int), ErrV>(er.deep_view()),
            }
        }),
    decreases toks@.len() - pos, 4int,
{
    let ghost ts = toks_g(toks@);
    if pos >= toks.len() {
        return Err(expect_error(src, toks, pos));
    }
    let (st, p) = match p_stmt(src, toks, pos) {
        Ok(x) => x,
        Err(e) => {
            return Err(e);
        },
    };
    proof {
        assert(adv(pos as int, p as int, ts.len() as int) == p as int);
        if p < toks@.len() {
            assert(ts[p as int] == toks@[p as int]@);
        }
        if p + 1 < toks@.len() {
            assert(ts[p as int + 1] == toks@[p as int + 1]@);
        }
    }
    if p < toks.len() && toks[p].kind == TokKind::Semi {
        if p + 1 < toks.len() && toks[p + 1].kind == TokKind::RBrace {
            let mut v: Vec<Statement> = Vec::new();
            v.push(st);
            proof {
                crate::ast::lemma_stmts_deep_view(v@);
                assert(crate::ast::stmts_deep_view(v@) =~= seq![st.deep_view()]);
            }
            Ok((v, true, p + 1))
        } else {
            match p_stmts(src, toks, p + 1) {
                Err(e) => Err(e),
                Ok((mut rest, trailing, p2)) => {
                    let ghost r0 = rest@;
                    rest.insert(0, st);
                    proof {
                        crate::ast::lemma_stmts_deep_view(r0);
                        crate::ast::lemma_stmts_deep_view(rest@);
                        assert(crate::ast::stmts_deep_view(rest@) =~= seq![st.deep_view()]
                            + crate::ast::stmts_deep_view(r0));
                    }
                    Ok((rest, trailing, p2))
                },
            }
        }
    } else {
        let mut v: Vec<Statement> = Vec::new();
        v.push(st);
        proof {
            crate::ast::lemma_stmts_deep_view(v@);
            assert(crate::ast::stmts_deep_view(v@) =~= seq![st.deep_view()]);
        }
        Ok((v, false, p))
    }
}

/// Apply the block-termination rule to a parsed statement sequence, as
/// `spec_promote` states it.
fn promote(stmts: Vec<Statement>, trailing: bool, errpos: usize) -> (r: Result<
    (Vec<Statement>, Option<Expr>),
    ParseError,
>)
    ensures
        ({
            let sr = spec_promote(
                crate::ast::stmts_deep_view(stmts@),
                trailing,
                errpos as int,
            );
            match r {
                Ok((ss, term)) => sr == Ok::<(Seq<StmtV>, Option<ExprV>), ErrV>(
                    (
                        crate::ast::stmts_deep_view(ss@),
                        match term {
                            Some(e) => Some(e.deep_view()),
                            None => None,
                        },
                    ),
                ),
                Err(er) => sr == Err::<(Seq<StmtV>, Option<ExprV>), ErrV>(er.deep_view()),
            }
        }),
{
    let ghost s0 = stmts@;
    let mut stmts = stmts;
    if trailing {
        return Ok((stmts, None));
    }
    if stmts.len() == 0 {
        return Ok((stmts, None));
    }
    proof {
        crate::ast::lemma_stmts_deep_view(s0);
    }
    let last = stmts.pop().unwrap();
    proof {
        assert(stmts@ =~= s0.drop_last());
        assert(last == s0.last());
        assert(crate::ast::stmts_deep_view(s0) == crate::ast::stmts_deep_view(
            s0.drop_last(),
        ).push(s0.last().deep_view()));
        assert(crate::ast::stmts_deep_view(s0).len() == s0.len());
        assert(crate::ast::stmts_deep_view(s0).last() == s0.last().deep_view());
        assert(crate::ast::stmts_deep_view(s0).drop_last() =~= crate::ast::stmts_deep_view(
            s0.drop_last(),
        ));
    }
    match last {
        Statement::SExpr(value) => Ok((stmts, Some(value))),
        Statement::SLet(name, value) => Err(
            ParseError { kind: ParseErrorKind::BlockEndsWithLet, pos: errpos },
        ),
    }
}

fn p_block(src: &Vec<char>, toks: &Vec<Token>, pos: usize) -> (r: Result<
    (Expr, usize),
    ParseError,
>)
    requires
        pos <= toks@.len(),
        crate::lexer::toks_wf(src@, toks_g(toks@)),
    ensures
        ({
            let sr = spec_p_block(src@, toks_g(toks@), pos as int);
            match r {
                Ok((e, p)) => sr == Ok::<(ExprV, int), ErrV>((e.deep_view(), p as int)) && pos < p
                    <= toks@.len(),
                Err(er) => sr == Err::<(ExprV, int), ErrV>(er.deep_view()),
            }
        }),
    decreases toks@.len() - pos, 5int,
{
    let ghost ts = toks_g(toks@);
    if pos >= toks.len() {
        return Err(expect_error(src, toks, pos));
    }
    proof {
        assert(ts[pos as int] == toks@[pos as int]@);
        if pos + 1 < toks@.len() {
            assert(ts[pos as int + 1] == toks@[pos as int + 1]@);
        }
    }
    if toks[pos].kind == TokKind::RBrace {
        let v: Vec<Statement> = Vec::new();
        proof {
            assert(crate::ast::stmts_deep_view(v@) =~= Seq::<StmtV>::empty());
            assert(Expr::Unit.deep_view() == ExprV::Unit);
        }
        return Ok((Expr::Block(v, Some(Box::new(Expr::Unit))), pos + 1));
    }
    if toks[pos].kind == TokKind::Semi {
        if pos + 1 < toks.len() && toks[pos + 1].kind == TokKind::RBrace {
            let v: Vec<Statement> = Vec::new();
            proof {
                assert(crate::ast::stmts_deep_view(v@) =~= Seq::<StmtV>::empty());
            }
            return Ok((Expr::Block(v, None), pos + 2));
        } else {
            return Err(expect_error(src, toks, pos + 1));
        }
    }
    let (stmts, trailing, p) = match p_stmts(src, toks, pos) {
        Ok(x) => x,
        Err(e) => {
            return Err(e);
        },
    };
    proof {
        if p < toks@.len() {
            assert(ts[p as int] == toks@[p as int]@);
        }
    }
    if !(p < toks.len() && toks[p].kind == TokKind::RBrace) {
        return Err(expect_error(src, toks, p));
    }
    let errpos = toks[p].start;
    match promote(stmts, trailing, errpos) {
        Err(e) => Err(e),
        Ok((ss, term)) => {
            let terminal = match term {
                Some(e) => Some(Box::new(e)),
                None => None,
            };
            Ok((Expr::Block(ss, terminal), p + 1))
        },
    }
}

fn p_param_list(src: &Vec<char>, toks: &Vec<Token>, pos: usize) -> (r: Result<
    (Vec<(String, String)>, usize),
    ParseError,
>)
    requires
        pos <= toks@.len(),
        crate::lexer::toks_wf(src@, toks_g(toks@)),
    ensures
        ({
            let sr = spec_p_param_list(src@, toks_g(toks@), pos as int);
            match r {
                Ok((ps, p)) => sr == Ok::<(Seq<(Seq<char>, Seq<char>)>, int), ErrV>(
                    (crate::ast::params_deep_view(ps@), p as int),
                ) && pos < p <= toks@.len(),
                Err(er) => sr == Err::<(Seq<(Seq<char>, Seq<char>)>, int), ErrV>(er.deep_view()),
            }
        }),
    decreases toks@.len() - pos, 3int,
{
    let ghost ts = toks_g(toks@);
    if pos >= toks.len() {
        return Err(expect_error(src, toks, pos));
    }
    proof {
        assert(ts[pos as int] == toks@[pos as int]@);
        assert(tok_wf(src@, ts[pos as int]));
        if pos + 1 < toks@.len() {
            assert(ts[pos as int + 1] == toks@[pos as int + 1]@);
        }
        if pos + 2 < toks@.len() {
            assert(ts[pos as int + 2] == toks@[pos as int + 2]@);
            assert(tok_wf(src@, ts[pos as int + 2]));
        }
        if pos + 3 < toks@.len() {
            assert(ts[pos as int + 3] == toks@[pos as int + 3]@);
        }
    }
    if !(toks[pos].kind == TokKind::Ident) {
        return Err(expect_error(src, toks, pos));
    }
    if !(pos + 1 < toks.len() && toks[pos + 1].kind == TokKind::Colon) {
        return Err(expect_error(src, toks, pos + 1));
    }
    if !(pos + 2 < toks.len() && toks[pos + 2].kind == TokKind::Ident) {
        return Err(expect_error(src, toks, pos + 2));
    }
    let nt = toks[pos];
    let tt = toks[pos + 2];
    let prm = (substring(src, nt.start, nt.end), substring(src, tt.start, tt.end));
    if pos + 3 < toks.len() && toks[pos + 3].kind == TokKind::Comma {
        match p_param_list(src, toks, pos + 4) {
            Err(e) => Err(e),
            Ok((mut rest, p2)) => {
                let ghost r0 = rest@;
                let ghost prm0 = prm;
                rest.insert(0, prm);
                proof {
                    assert(crate::ast::params_deep_view(rest@) =~= seq![(prm0.0@, prm0.1@)]
                        + crate::ast::params_deep_view(r0));
                }
                Ok((rest, p2))
            },
        }
    } else {
        let mut v: Vec<(String, String)> = Vec::new();
        let ghost prm0 = prm;
        v.push(prm);
        proof {
            assert(crate::ast::params_deep_view(v@) =~= seq![(prm0.0@, prm0.1@)]);
        }
        Ok((v, pos + 3))
    }
}

fn p_params(src: &Vec<char>, toks: &Vec<Token>, pos: usize) -> (r: Result<
    (Vec<(String, String)>, usize),
    ParseError,
>)
    requires
        pos <= toks@.len(),
        crate::lexer::toks_wf(src@, toks_g(toks@)),
    ensures
        ({
            let sr = spec_p_params(src@, toks_g(toks@), pos as int);
            match r {
                Ok((ps, p)) => sr == Ok::<(Seq<(Seq<char>, Seq<char>)>, int), ErrV>(
                    (crate::ast::params_deep_view(ps@), p as int),
                ) && pos <= p <= toks@.len(),
                Err(er) => sr == Err::<(Seq<(Seq<char>, Seq<char>)>, int), ErrV>(er.deep_view()),
            }
        }),
    decreases toks@.len() - pos, 4int,
{
    let ghost ts = toks_g(toks@);
    if pos >= toks.len() {
        return Err(expect_error(src, toks, pos));
    }
    proof {
        assert(ts[pos as int] == toks@[pos as int]@);
    }
    if toks[pos].kind == TokKind::RParen {
        let v: Vec<(String, String)> = Vec::new();
        proof {
            assert(crate::ast::params_deep_view(v@) =~= Seq::<(Seq<char>, Seq<char>)>::empty());
        }
        return Ok((v, pos));
    }
    p_param_list(src, toks, pos)
}

fn p_function(src: &Vec<char>, toks: &Vec<Token>, pos: usize) -> (r: Result<
    (Function, usize),
    ParseError,
>)
    requires
        pos <= toks@.len(),
        crate::lexer::toks_wf(src@, toks_g(toks@)),
    ensures
        ({
            let sr = spec_p_function(src@, toks_g(toks@), pos as int);
            match r {
                Ok((f, p)) => sr == Ok::<(FunctionV, int), ErrV>((f.deep_view(), p as int)) && pos
                    < p <= toks@.len(),
                Err(er) => sr == Err::<(FunctionV, int), ErrV>(er.deep_view()),
            }
        }),
    decreases toks@.len() - pos, 6int,
{
    let ghost ts = toks_g(toks@);
    if pos >= toks.len() {
        return Err(expect_error(src, toks, pos));
    }
    proof {
        assert(ts[pos as int] == toks@[pos as int]@);
        if pos + 1 < toks@.len() {
            assert(ts[pos as int + 1] == toks@[pos as int + 1]@);
            assert(tok_wf(src@, ts[pos as int + 1]));
        }
        if pos + 2 < toks@.len() {
            assert(ts[pos as int + 2] == toks@[pos as int + 2]@);
        }
    }
    if !(toks[pos].kind == TokKind::KwFn) {
        return Err(expect_error(src, toks, pos));
    }
    if !(pos + 1 < toks.len() && toks[pos + 1].kind == TokKind::Ident) {
        return Err(expect_error(src, toks, pos + 1));
    }
    if !(pos + 2 < toks.len() && toks[pos + 2].kind == TokKind::LParen) {
        return Err(expect_error(src, toks, pos + 2));
    }
    let nt = toks[pos + 1];
    let (argument_list, px) = match p_params(src, toks, pos + 3) {
        Ok(x) => x,
        Err(e) => {
            return Err(e);
        },
    };
    proof {
        if px < toks@.len() {
            assert(ts[px as int] == toks@[px as int]@);
        }
    }
    if !(px < toks.len() && toks[px].kind == TokKind::RParen) {
        return Err(expect_error(src, toks, px));
    }
    proof {
        assert(adv(pos as int, px as int + 1, ts.len() as int) == px as int + 1);
    }
    let (body, p2) = match p_expr(src, toks, px + 1, 0) {
        Ok(x) => x,
        Err(e) => {
            return Err(e);
        },
    };
    let name = substring(src, nt.start, nt.end);
    Ok((Function { name, argument_list, body }, p2))
}

/// Parse a whole text as one expression; source text left over after it is a
/// `TrailingInput` error. The result is exactly what `spec_parse_expr_text`
/// says, for every input.
pub fn parse_expr(source: &str) -> (r: Result<Expr, ParseError>)
    ensures
        match r {
            Ok(e) => spec_parse_expr_text(source@) == Ok::<ExprV, ErrV>(e.deep_view()),
            Err(er) => spec_parse_expr_text(source@) == Err::<ExprV, ErrV>(er.deep_view()),
        },
{
    let src = chars_of(source);
    let toks = match tokenize(&src) {
        Ok(t) => t,
        Err(e) => {
            return Err(e);
        },
    };
    proof {
        crate::lexer::lemma_tokenize_wf(src@, 0);
    }
    match p_expr(&src, &toks, 0, 0) {
        Err(e) => Err(e),
        Ok((e, p)) => {
            if p == toks.len() {
                Ok(e)
            } else {
                Err(ParseError { kind: ParseErrorKind::TrailingInput, pos: toks[p].start })
            }
        },
    }
}

/// Parse a whole text as one statement (`let <id> = <expr>` or a bare
/// expression); source text left over after it is a `TrailingInput` error.
pub fn parse_statement(source: &str) -> (r: Result<Statement, ParseError>)
    ensures
        match r {
            Ok(st) => spec_parse_statement_text(source@) == Ok::<StmtV, ErrV>(st.deep_view()),
            Err(er) => spec_parse_statement_text(source@) == Err::<StmtV, ErrV>(er.deep_view()),
        },
{
    let src = chars_of(source);
    let toks = match tokenize(&src) {
        Ok(t) => t,
        Err(e) => {
            return Err(e);
        },
    };
    proof {
        crate::lexer::lemma_tokenize_wf(src@, 0);
    }
    match p_stmt(&src, &toks, 0) {
        Err(e) => Err(e),
        Ok((st, p)) => {
            if p == toks.len() {
                Ok(st)
            } else {
                Err(ParseError { kind: ParseErrorKind::TrailingInput, pos: toks[p].start })
            }
        },
    }
}

/// Parse a whole text as one function definition; source text left over
/// after it is a `TrailingInput` error.
pub fn parse_function(source: &str) -> (r: Result<Function, ParseError>)
    ensures
        match r {
            Ok(f) => spec_parse_function_text(source@) == Ok::<FunctionV, ErrV>(f.deep_view()),
            Err(er) => spec_parse_function_text(source@) == Err::<FunctionV, ErrV>(
                er.deep_view(),
            ),
        },
{
    let src = chars_of(source);
    let toks = match tokenize(&src) {
        Ok(t) => t,
        Err(e) => {
            return Err(e);
        },
    };
    proof {
        crate::lexer::lemma_tokenize_wf(src@, 0);
    }
    match p_function(&src, &toks, 0) {
        Err(e) => Err(e),
        Ok((f, p)) => {
            if p == toks.len() {
                Ok(f)
            } else {
                Err(ParseError { kind: ParseErrorKind::TrailingInput, pos: toks[p].start })
            }
        },
    }
}

} // verus!

