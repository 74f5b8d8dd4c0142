//! The translator: structural recursion from the tree to target-language
//! text. The rewriting rules are fixed for compatibility:
//!
//! - identifiers and integer and boolean literals render as their literal
//!   text; `Unit` renders as `()`;
//! - a string literal renders double-quoted with the escape table
//!   `\" \\ \n \t \r`;
//! - `Op(l, op, r)` renders as `<l><op><r>`, the operator text verbatim and
//!   no spaces inserted;
//! - a call renders as space-separated curried application, arguments not
//!   parenthesized (a known fidelity gap of the rewriting rules, kept as it
//!   is);
//! - a block with statements renders as `let\n<stmts>in <terminal>\nend`,
//!   each binding as `val <name> = (<expr>);\n` and each expression
//!   statement as `val _ = (<expr>);\n`; a block without statements renders
//!   as just its terminal; an absent terminal renders as `()`;
//! - `if` renders as `if <cond>\nthen\n<then>\nelse\n<else>`;
//! - a function renders as `fun <name> (<arg>: <type>) .. = <body>;`, with
//!   `()` for an empty argument list;
//! - the source `print` primitive is renamed to `TextIO.print`, every other
//!   function name passes through.
//!
//! `render_expr`, `render_stmt` and `render_function` define the exact text;
//! each `translate_*` function is proved to append exactly that text.

use vstd::prelude::*;

use crate::ast::Expr;
use crate::ast::ExprV;
use crate::ast::Function;
use crate::ast::FunctionV;
use crate::ast::Statement;
use crate::ast::StmtV;
use crate::ast::exprs_deep_view;
use crate::ast::lemma_exprs_deep_view;
use crate::ast::lemma_stmts_deep_view;
use crate::ast::params_deep_view;
use crate::ast::stmts_deep_view;
use crate::text::chars_of;
use crate::text::push_char;
use vstd::string::StringExecFns;

verus! {

/// The target-language name of a source function name: the `print` primitive
/// maps to the target's output routine, every other name passes through.
pub open spec fn map_fn_name(name: Seq<char>) -> Seq<char> {
    if name == "print"@ {
        "TextIO.print"@
    } else {
        name
    }
}

/// How one character appears inside a rendered string literal.
pub open spec fn escape_seq(c: char) -> Seq<char> {
    if c == '"' {
        seq!['\\', '"']
    } else if c == '\\' {
        seq!['\\', '\\']
    } else if c == '\n' {
        seq!['\\', 'n']
    } else if c == '\t' {
        seq!['\\', 't']
    } else if c == '\r' {
        seq!['\\', 'r']
    } else {
        seq![c]
    }
}

/// A string-literal body, escaped for the target language.
pub open spec fn escape_string(s: Seq<char>) -> Seq<char>
    decreases s.len(),
{
    if s.len() == 0 {
        Seq::empty()
    } else {
        escape_string(s.drop_last()) + escape_seq(s.last())
    }
}

/// The decimal digit character of `d`.
pub open spec fn digit_char(d: nat) -> char {
    (('0' as u8) + d) as char
}

/// The decimal digits of `n`, most significant first.
pub open spec fn dec_digits(n: nat) -> Seq<char>
    decreases n,
{
    if n < 10 {
        seq![digit_char(n)]
    } else {
        dec_digits(n / 10) + seq![digit_char(n % 10)]
    }
}

/// The decimal rendering of an integer, with a leading `-` when negative.
pub open spec fn render_int(v: int) -> Seq<char> {
    if v < 0 {
        seq!['-'] + dec_digits((-v) as nat)
    } else {
        dec_digits(v as nat)
    }
}

/// The rendering of a call's arguments: one space before each argument.
pub open spec fn render_args(args: Seq<ExprV>) -> Seq<char>
    decreases args,
{
    if args.len() == 0 {
        Seq::empty()
    } else {
        render_args(args.drop_last()) + seq![' '] + render_expr(args.last())
    }
}

/// The rendering of a block's statement sequence.
pub open spec fn render_stmts(ss: Seq<StmtV>) -> Seq<char>
    decreases ss,
{
    if ss.len() == 0 {
        Seq::empty()
    } else {
        render_stmts(ss.drop_last()) + render_stmt(ss.last())
    }
}

/// The rendering of one statement.
pub open spec fn render_stmt(s: StmtV) -> Seq<char>
    decreases s,
{
    match s {
        StmtV::SLet { name, value } => "val "@ + name + " = ("@ + render_expr(value) + ");\n"@,
        StmtV::SExpr { value } => "val _ = ("@ + render_expr(value) + ");\n"@,
    }
}

/// The rendering of one expression.
pub open spec fn render_expr(e: ExprV) -> Seq<char>
    decreases e,
{
    match e {
        ExprV::Id { name } => name,
        ExprV::Unit => "()"@,
        ExprV::IntLit { value } => render_int(value),
        ExprV::BoolLit { value } => if value {
            "true"@
        } else {
            "false"@
        },
        ExprV::StringLit { value } => seq!['"'] + escape_string(value) + seq!['"'],
        ExprV::Op { lhs, op, rhs } => render_expr(*lhs) + op + render_expr(*rhs),
        ExprV::If { cond, then_branch, else_branch } => "if "@ + render_expr(*cond) + "\nthen\n"@
            + render_expr(*then_branch) + "\nelse\n"@ + render_expr(*else_branch),
        ExprV::FnCall { function, args } => map_fn_name(function) + render_args(args),
        ExprV::Block { stmts, terminal } => {
            let term = match terminal {
                Some(t) => render_expr(*t),
                None => "()"@,
            };
            if stmts.len() == 0 {
                term
            } else {
                "let\n"@ + render_stmts(stmts) + "in "@ + term + "\nend"@
            }
        },
    }
}

/// The rendering of a function's argument list, one `(name: type) ` pair
/// after another.
pub open spec fn render_params(ps: Seq<(Seq<char>, Seq<char>)>) -> Seq<char>
    decreases ps,
{
    if ps.len() == 0 {
        Seq::empty()
    } else {
        render_params(ps.drop_last()) + "("@ + ps.last().0 + ": "@ + ps.last().1 + ") "@
    }
}

/// The rendering of a function definition.
pub open spec fn render_function(f: FunctionV) -> Seq<char> {
    "fun "@ + f.name + " "@ + (if f.argument_list.len() == 0 {
        "() "@
    } else {
        render_params(f.argument_list)
    }) + "= "@ + render_expr(f.body) + ";"@
}

/// A block whose terminal is absent translates exactly as one whose
/// terminal is `Unit`: a statement sequence ended by `;` denotes `Unit`.
pub proof fn lemma_none_terminal_renders_as_unit(stmts: Seq<StmtV>)
    ensures
        render_expr(ExprV::Block { stmts, terminal: None }) == render_expr(
            ExprV::Block { stmts, terminal: Some(Box::new(ExprV::Unit)) },
        ),
{
    assert(render_expr(ExprV::Unit) == "()"@);
}

fn vec_eq(a: &Vec<char>, b: &Vec<char>) -> (r: bool)
    ensures
        r == (a@ == b@),
{
    if a.len() != b.len() {
        return false;
    }
    let mut i: usize = 0;
    while i < a.len()
        invariant
            0 <= i <= a.len(),
            a@.len() == b@.len(),
            forall|k: int| 0 <= k < i ==> a@[k] == b@[k],
        decreases a@.len() - i,
    {
        if a[i] != b[i] {
            return false;
        }
        i = i + 1;
    }
    proof {
        assert(a@ =~= b@);
    }
    true
}

/// Convert a source function name to a target one: `print` becomes
/// `TextIO.print`, any other name is handed back unchanged.
pub fn translate_function_call(func_name: &str) -> (r: &str)
    ensures
        r@ == map_fn_name(func_name@),
{
    let a = chars_of(func_name);
    let b = chars_of("print");
    if vec_eq(&a, &b) {
        "TextIO.print"
    } else {
        func_name
    }
}

/// Append the decimal digits of `n`.
fn push_digits(out: &mut String, n: u64)
    ensures
        final(out)@ == old(out)@ + dec_digits(n as nat),
    decreases n,
{
    if n < 10 {
        let c = (('0' as u8) + (n as u8)) as char;
        push_char(out, c);
        proof {
            assert(old(out)@.push(c) =~= old(out)@ + seq![digit_char(n as nat)]);
        }
    } else {
        let ghost mid = old(out)@ + dec_digits((n / 10) as nat);
        push_digits(out, n / 10);
        let c = (('0' as u8) + ((n % 10) as u8)) as char;
        push_char(out, c);
        proof {
            assert(digit_char((n % 10) as nat) == c);
            assert(mid.push(c) =~= old(out)@ + (dec_digits((n / 10) as nat) + seq![c]));
            assert(dec_digits(n as nat) == dec_digits((n as nat) / 10) + seq![
                digit_char((n as nat) % 10),
            ]);
        }
    }
}

/// Append the decimal rendering of `v`.
fn push_int(out: &mut String, v: i64)
    ensures
        final(out)@ == old(out)@ + render_int(v as int),
{
    if v >= 0 {
        push_digits(out, v as u64);
    } else {
        push_char(out, '-');
        let ghost mid = old(out)@.push('-');
        let mag: u64 = if v == i64::MIN {
            9223372036854775808u64
        } else {
            (-v) as u64
        };
        proof {
            assert(mag as nat == (-(v as int)) as nat);
        }
        push_digits(out, mag);
        proof {
            assert(mid + dec_digits(mag as nat) =~= old(out)@ + (seq!['-'] + dec_digits(
                mag as nat,
            )));
        }
    }
}

/// Append one character of a string literal's body, escaped.
fn push_escape_char(out: &mut String, c: char)
    ensures
        final(out)@ == old(out)@ + escape_seq(c),
{
    if c == '"' || c == '\\' {
        push_char(out, '\\');
        push_char(out, c);
        proof {
            assert(old(out)@.push('\\').push(c) =~= old(out)@ + seq!['\\', c]);
        }
    } else if c == '\n' {
        push_char(out, '\\');
        push_char(out, 'n');
        proof {
            assert(old(out)@.push('\\').push('n') =~= old(out)@ + seq!['\\', 'n']);
        }
    } else if c == '\t' {
        push_char(out, '\\');
        push_char(out, 't');
        proof {
            assert(old(out)@.push('\\').push('t') =~= old(out)@ + seq!['\\', 't']);
        }
    } else if c == '\r' {
        push_char(out, '\\');
        push_char(out, 'r');
        proof {
            assert(old(out)@.push('\\').push('r') =~= old(out)@ + seq!['\\', 'r']);
        }
    } else {
        push_char(out, c);
        proof {
            assert(old(out)@.push(c) =~= old(out)@ + seq![c]);
        }
    }
}

/// Append a whole string-literal body, escaped.
fn push_escaped(out: &mut String, v: &Vec<char>)
    ensures
        final(out)@ == old(out)@ + escape_string(v@),
{
    let mut k: usize = 0;
    while k < v.len()
        invariant
            0 <= k <= v@.len(),
            out@ == old(out)@ + escape_string(v@.take(k as int)),
        decreases v@.len() - k,
    {
        let ghost before = out@;
        push_escape_char(out, v[k]);
        proof {
            assert(v@.take(k + 1).drop_last() =~= v@.take(k as int));
            assert(v@.take(k + 1).last() == v@[k as int]);
            assert(escape_string(v@.take(k + 1)) == escape_string(v@.take(k as int)) + escape_seq(
                v@[k as int],
            ));
            assert(before + escape_seq(v@[k as int]) =~= old(out)@ + escape_string(v@.take(k + 1)));
        }
        k = k + 1;
    }
    proof {
        assert(v@.take(v@.len() as int) =~= v@);
    }
}

/// Render one expression onto the end of `out`, exactly as `render_expr`
/// describes it.
#[verifier::loop_isolation(false)]
pub fn translate_expression(e: &Expr, out: &mut String)
    ensures
        final(out)@ == old(out)@ + render_expr(e.deep_view()),
    decreases e,
{
    match e {
        Expr::Id(name) => {
            out.append(name.as_str());
        },
        Expr::Unit => {
            out.append("()");
        },
        Expr::IntLit(v) => {
            push_int(out, *v);
        },
        Expr::BoolLit(b) => {
            if *b {
                out.append("true");
            } else {
                out.append("false");
            }
        },
        Expr::StringLit(s) => {
            push_char(out, '"');
            let ghost m1 = out@;
            let body = chars_of(s.as_str());
            push_escaped(out, &body);
            let ghost m2 = out@;
            push_char(out, '"');
            proof {
                assert(m2.push('"') =~= old(out)@ + (seq!['"'] + escape_string(s@) + seq!['"']));
            }
        },
        Expr::Op(lhs, op, rhs) => {
            translate_expression(lhs, out);
            let ghost m1 = out@;
            out.append(op.as_str());
            let ghost m2 = out@;
            translate_expression(rhs, out);
            proof {
                assert(m2 + render_expr(rhs.deep_view()) =~= old(out)@ + render_expr(
                    e.deep_view(),
                ));
            }
        },
        Expr::FnCall { function, args } => {
            let mapped = translate_function_call(function.as_str());
            out.append(mapped);
            let ghost base = out@;
            let ghost argsv = exprs_deep_view(args@);
            proof {
                lemma_exprs_deep_view(args@);
            }
            let mut k: usize = 0;
            while k < args.len()
                invariant
                    0 <= k <= args@.len(),
                    argsv == exprs_deep_view(args@),
                    argsv.len() == args@.len(),
                    forall|i: int| 0 <= i < args@.len() ==> #[trigger] argsv[i] == args@[
                        i
                    ].deep_view(),
                    out@ == base + render_args(argsv.take(k as int)),
                    base == old(out)@ + map_fn_name(function@),
                decreases args@.len() - k,
            {
                let ghost before = out@;
                push_char(out, ' ');
                proof {
                    assert(decreases_to!(*e => args@[k as int]));
                }
                translate_expression(&args[k], out);
                proof {
                    assert(argsv.take(k + 1).drop_last() =~= argsv.take(k as int));
                    assert(argsv.take(k + 1).last() == argsv[k as int]);
                    assert(render_args(argsv.take(k + 1)) == render_args(argsv.take(k as int))
                        + seq![' '] + render_expr(argsv[k as int]));
                    assert(before.push(' ') + render_expr(args@[k as int].deep_view()) =~= base
                        + render_args(argsv.take(k + 1)));
                }
                k = k + 1;
            }
            proof {
                assert(argsv.take(argsv.len() as int) =~= argsv);
                assert(out@ =~= old(out)@ + render_expr(e.deep_view()));
            }
        },
        Expr::Block(stmts, terminal) => {
            let ghost stmtsv = stmts_deep_view(stmts@);
            proof {
                lemma_stmts_deep_view(stmts@);
            }
            if stmts.len() > 0 {
                out.append("let\n");
            }
            let ghost base = out@;
            let mut k: usize = 0;
            while k < stmts.len()
                invariant
                    0 <= k <= stmts@.len(),
                    stmtsv == stmts_deep_view(stmts@),
                    stmtsv.len() == stmts@.len(),
                    forall|i: int| 0 <= i < stmts@.len() ==> #[trigger] stmtsv[i] == stmts@[
                        i
                    ].deep_view(),
                    out@ == base + render_stmts(stmtsv.take(k as int)),
                decreases stmts@.len() - k,
            {
                let ghost before = out@;
                proof {
                    assert(decreases_to!(*e => stmts@[k as int]));
                }
                translate_statement(&stmts[k], out);
                proof {
                    assert(stmtsv.take(k + 1).drop_last() =~= stmtsv.take(k as int));
                    assert(stmtsv.take(k + 1).last() == stmtsv[k as int]);
                    assert(render_stmts(stmtsv.take(k + 1)) == render_stmts(stmtsv.take(k as int))
                        + render_stmt(stmtsv[k as int]));
                    assert(before + render_stmt(stmts@[k as int].deep_view()) =~= base
                        + render_stmts(stmtsv.take(k + 1)));
                }
                k = k + 1;
            }
            proof {
                assert(stmtsv.take(stmtsv.len() as int) =~= stmtsv);
            }
            if stmts.len() > 0 {
                out.append("in ");
            }
            match terminal {
                Some(t) => {
                    translate_expression(t, out);
                },
                None => {
                    out.append("()");
                },
            }
            if stmts.len() > 0 {
                out.append("\nend");
            }
            proof {
                assert(out@ =~= old(out)@ + render_expr(e.deep_view()));
            }
        },
        Expr::If(cond, then_branch, else_branch) => {
            out.append("if ");
            translate_expression(cond, out);
            out.append("\nthen\n");
            translate_expression(then_branch, out);
            out.append("\nelse\n");
            translate_expression(else_branch, out);
            proof {
                assert(out@ =~= old(out)@ + render_expr(e.deep_view()));
            }
        },
    }
}

/// Render one statement onto the end of `out`, exactly as `render_stmt`
/// describes it.
pub fn translate_statement(s: &Statement, out: &mut String)
    ensures
        final(out)@ == old(out)@ + render_stmt(s.deep_view()),
    decreases s,
{
    match s {
        Statement::SLet(name, value) => {
            out.append("val ");
            out.append(name.as_str());
            out.append(" = (");
            translate_expression(value, out);
            out.append(");\n");
            proof {
                assert(out@ =~= old(out)@ + render_stmt(s.deep_view()));
            }
        },
        Statement::SExpr(value) => {
            out.append("val _ = (");
            translate_expression(value, out);
            out.append(");\n");
            proof {
                assert(out@ =~= old(out)@ + render_stmt(s.deep_view()));
            }
        },
    }
}

/// The rendering of one expression as a fresh string.
pub fn translate_expression_to_str(e: &Expr) -> (r: String)
    ensures
        r@ == render_expr(e.deep_view()),
{
    let mut out = String::new();
    translate_expression(e, &mut out);
    proof {
        assert(Seq::<char>::empty() + render_expr(e.deep_view()) =~= render_expr(e.deep_view()));
    }
    out
}

/// Render a function definition onto the end of `out`, exactly as
/// `render_function` describes it.
pub fn translate_function(f: &Function, out: &mut String)
    ensures
        final(out)@ == old(out)@ + render_function(f.deep_view()),
{
    out.append("fun ");
    out.append(f.name.as_str());
    out.append(" ");
    let ghost base = out@;
    let ghost paramsv = params_deep_view(f.argument_list@);
    if f.argument_list.len() == 0 {
        out.append("() ");
    } else {
        let mut k: usize = 0;
        while k < f.argument_list.len()
            invariant
                0 <= k <= f.argument_list@.len(),
                paramsv == params_deep_view(f.argument_list@),
                out@ == base + render_params(paramsv.take(k as int)),
            decreases f.argument_list@.len() - k,
        {
            let ghost before = out@;
            out.append("(");
            out.append(f.argument_list[k].0.as_str());
            out.append(": ");
            out.append(f.argument_list[k].1.as_str());
            out.append(") ");
            proof {
                assert(paramsv.take(k + 1).drop_last() =~= paramsv.take(k as int));
                assert(paramsv.take(k + 1).last() == paramsv[k as int]);
                assert(paramsv[k as int] == (f.argument_list@[k as int].0@, f.argument_list@[
                    k as int
                ].1@));
                assert(render_params(paramsv.take(k + 1)) == render_params(paramsv.take(k as int))
                    + "("@ + paramsv[k as int].0 + ": "@ + paramsv[k as int].1 + ") "@);
                assert(out@ =~= base + render_params(paramsv.take(k + 1)));
            }
            k = k + 1;
        }
        proof {
            assert(paramsv.take(paramsv.len() as int) =~= paramsv);
        }
    }
    out.append("= ");
    translate_expression(&f.body, out);
    out.append(";");
    proof {
        assert(out@ =~= old(out)@ + render_function(f.deep_view()));
    }
}

/// The rendering of a function definition as a fresh string.
pub fn translate_function_to_str(f: &Function) -> (r: String)
    ensures
        r@ == render_function(f.deep_view()),
{
    let mut out = String::new();
    translate_function(f, &mut out);
    proof {
        assert(Seq::<char>::empty() + render_function(f.deep_view()) =~= render_function(
            f.deep_view(),
        ));
    }
    out
}

} // verus!
