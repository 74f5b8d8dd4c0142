//! The abstract syntax tree produced by the parser and consumed by the
//! translator, together with its spec-level model and the error taxonomy.
//!
//! The tree is immutable: the parser builds it once and the translator reads
//! it by structural recursion. The ghost mirrors (`ExprV`, `StmtV`,
//! `FunctionV`) carry the same structure over `Seq<char>` and `int`, so that
//! contracts can speak about the tree mathematically.

use vstd::prelude::*;

verus! {

/// One entry in a block's statement sequence.
#[derive(Debug, PartialEq)]
pub enum Statement {
    /// A binding `let <name> = <expr>`.
    SLet(String, Expr),
    /// A bare, probably side-effectful, expression statement.
    SExpr(Expr),
}

/// An expression of the source language.
#[derive(Debug, PartialEq)]
pub enum Expr {
    /// A variable reference.
    Id(String),
    /// The empty-tuple literal.
    Unit,
    /// An integer literal.
    IntLit(i64),
    /// A boolean literal.
    BoolLit(bool),
    /// A string literal; the field holds the unescaped text.
    StringLit(String),
    /// A binary operation; the operator text is kept verbatim.
    Op(Box<Expr>, String, Box<Expr>),
    /// `if <cond> { .. } else { .. }`; both branches are `Block`s, an
    /// invariant the parser enforces.
    If(Box<Expr>, Box<Expr>, Box<Expr>),
    /// A function call `f(a, b, ..)`.
    FnCall { function: String, args: Vec<Expr> },
    /// A lexical scope `{ stmt; ..; terminal }`; a `None` terminal means the
    /// block's value is `Unit`.
    Block(Vec<Statement>, Option<Box<Expr>>),
}

/// A function definition `fn <name> ( (<arg> : <type>),* ) <body>`.
#[derive(Debug, PartialEq)]
pub struct Function {
    pub name: String,
    pub argument_list: Vec<(String, String)>,
    pub body: Expr,
}

/// Spec-level mirror of `Statement`.
pub ghost enum StmtV {
    SLet { name: Seq<char>, value: ExprV },
    SExpr { value: ExprV },
}

/// Spec-level mirror of `Expr`.
#[allow(inconsistent_fields)]
pub ghost enum ExprV {
    Id { name: Seq<char> },
    Unit,
    IntLit { value: int },
    BoolLit { value: bool },
    StringLit { value: Seq<char> },
    Op { lhs: Box<ExprV>, op: Seq<char>, rhs: Box<ExprV> },
    If { cond: Box<ExprV>, then_branch: Box<ExprV>, else_branch: Box<ExprV> },
    FnCall { function: Seq<char>, args: Seq<ExprV> },
    Block { stmts: Seq<StmtV>, terminal: Option<Box<ExprV>> },
}

/// Spec-level mirror of `Function`.
pub ghost struct FunctionV {
    pub name: Seq<char>,
    pub argument_list: Seq<(Seq<char>, Seq<char>)>,
    pub body: ExprV,
}

/// The views of a sequence of expressions, element by element.
pub open spec fn exprs_deep_view(es: Seq<Expr>) -> Seq<ExprV>
    decreases es,
{
    if es.len() == 0 {
        Seq::empty()
    } else {
        exprs_deep_view(es.drop_last()).push(es.last().deep_view())
    }
}

/// The views of a sequence of statements, element by element.
pub open spec fn stmts_deep_view(ss: Seq<Statement>) -> Seq<StmtV>
    decreases ss,
{
    if ss.len() == 0 {
        Seq::empty()
    } else {
        stmts_deep_view(ss.drop_last()).push(ss.last().deep_view())
    }
}

impl DeepView for Expr {
    type V = ExprV;

    open spec fn deep_view(&self) -> ExprV
        decreases self,
    {
        match self {
            Expr::Id(name) => ExprV::Id { name: name@ },
            Expr::Unit => ExprV::Unit,
            Expr::IntLit(v) => ExprV::IntLit { value: *v as int },
            Expr::BoolLit(b) => ExprV::BoolLit { value: *b },
            Expr::StringLit(s) => ExprV::StringLit { value: s@ },
            Expr::Op(lhs, op, rhs) => ExprV::Op {
                lhs: Box::new((**lhs).deep_view()),
                op: op@,
                rhs: Box::new((**rhs).deep_view()),
            },
            Expr::If(c, t, e) => ExprV::If {
                cond: Box::new((**c).deep_view()),
                then_branch: Box::new((**t).deep_view()),
                else_branch: Box::new((**e).deep_view()),
            },
            Expr::FnCall { function, args } => ExprV::FnCall {
                function: function@,
                args: exprs_deep_view(args@),
            },
            Expr::Block(stmts, terminal) => ExprV::Block {
                stmts: stmts_deep_view(stmts@),
                terminal: match terminal {
                    Some(e) => Some(Box::new((**e).deep_view())),
                    None => None,
                },
            },
        }
    }
}

impl DeepView for Statement {
    type V = StmtV;

    open spec fn deep_view(&self) -> StmtV
        decreases self,
    {
        match self {
            Statement::SLet(name, value) => StmtV::SLet {
                name: name@,
                value: value.deep_view(),
            },
            Statement::SExpr(value) => StmtV::SExpr { value: value.deep_view() },
        }
    }
}

/// The views of an argument list, element by element.
pub open spec fn params_deep_view(ps: Seq<(String, String)>) -> Seq<(Seq<char>, Seq<char>)> {
    ps.map_values(|p: (String, String)| (p.0@, p.1@))
}

impl DeepView for Function {
    type V = FunctionV;

    open spec fn deep_view(&self) -> FunctionV {
        FunctionV {
            name: self.name@,
            argument_list: params_deep_view(self.argument_list@),
            body: self.body.deep_view(),
        }
    }
}

/// How element views relate to the whole-sequence view.
pub proof fn lemma_exprs_deep_view(es: Seq<Expr>)
    ensures
        exprs_deep_view(es).len() == es.len(),
        forall|i: int| 0 <= i < es.len() ==>
            #[trigger] exprs_deep_view(es)[i] == es[i].deep_view(),
    decreases es,
{
    if es.len() > 0 {
        lemma_exprs_deep_view(es.drop_last());
        assert(exprs_deep_view(es) == exprs_deep_view(es.drop_last()).push(es.last().deep_view()));
        assert forall|i: int| 0 <= i < es.len() implies #[trigger] exprs_deep_view(es)[i]
            == es[i].deep_view() by {
            if i < es.len() - 1 {
                assert(exprs_deep_view(es)[i] == exprs_deep_view(es.drop_last())[i]);
                assert(es.drop_last()[i] == es[i]);
            } else {
                assert(es[i] == es.last());
            }
        }
    }
}

/// How element views relate to the whole-sequence view.
pub proof fn lemma_stmts_deep_view(ss: Seq<Statement>)
    ensures
        stmts_deep_view(ss).len() == ss.len(),
        forall|i: int| 0 <= i < ss.len() ==>
            #[trigger] stmts_deep_view(ss)[i] == ss[i].deep_view(),
    decreases ss,
{
    if ss.len() > 0 {
        lemma_stmts_deep_view(ss.drop_last());
        assert(stmts_deep_view(ss) == stmts_deep_view(ss.drop_last()).push(ss.last().deep_view()));
        assert forall|i: int| 0 <= i < ss.len() implies #[trigger] stmts_deep_view(ss)[i]
            == ss[i].deep_view() by {
            if i < ss.len() - 1 {
                assert(stmts_deep_view(ss)[i] == stmts_deep_view(ss.drop_last())[i]);
                assert(ss.drop_last()[i] == ss[i]);
            } else {
                assert(ss[i] == ss.last());
            }
        }
    }
}

/// What went wrong while turning source text into a `Function` or `Expr`.
///
/// `Lex` covers every lexical failure: a character that begins no token, an
/// unterminated string literal or block comment, an escape sequence the
/// string-literal syntax does not know, and an integer literal that does not
/// fit in an `i64`. The remaining kinds are syntactic: a token (or the end of
/// input) where some construct was required, the two grammar rules that are
/// checked after a construct parses, and source text left over after a
/// complete parse.
#[derive(Debug, PartialEq, Eq, Structural, Clone, Copy)]
pub enum ParseErrorKind {
    /// No token can be read at this position.
    Lex,
    /// A construct was required and the token at this position does not begin it.
    UnexpectedToken,
    /// A construct was required and the input ended.
    UnexpectedEnd,
    /// A block without a trailing `;` ended in a `let` binding.
    BlockEndsWithLet,
    /// A branch of an `if` expression was not a block.
    IfBranchNotBlock,
    /// The parse succeeded without consuming all of the input.
    TrailingInput,
}

/// A position-tagged parse failure; `pos` is a character offset into the
/// source text (its length, when the input ended too early).
#[derive(Debug, PartialEq, Eq, Structural, Clone, Copy)]
pub struct ParseError {
    pub kind: ParseErrorKind,
    pub pos: usize,
}

/// Spec-level mirror of `ParseError`.
pub ghost struct ErrV {
    pub kind: ParseErrorKind,
    pub pos: int,
}

impl DeepView for ParseError {
    type V = ErrV;

    open spec fn deep_view(&self) -> ErrV {
        ErrV { kind: self.kind, pos: self.pos as int }
    }
}

} // verus!
