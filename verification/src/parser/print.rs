//! Expressions as text, fully parenthesised.

use super::ast::{exprs_view, lemma_call_view, Expr, ExprView, Lit, LitView};
use crate::format::{decimal_text, push_decimal};
use crate::lexer::token::kind_name;
use vstd::prelude::*;
use vstd::string::*;

verus! {

/// A literal as text: an integer in decimal, a boolean as `true` or
/// `false`, a string between double quotes.
pub open spec fn lit_text(lit: LitView) -> Seq<char> {
    match lit {
        LitView::Integer(i) => decimal_text(i as nat),
        LitView::Boolean(b) => if b {
            "true"@
        } else {
            "false"@
        },
        LitView::String(s) => seq!['"'] + s + seq!['"'],
    }
}

/// An expression as text. Every operator node stands in parentheses, with
/// the operator written by the name of its token; the arguments of a call
/// are each followed by a comma.
pub open spec fn expr_text(e: ExprView) -> Seq<char>
    decreases e, 0nat,
{
    match e {
        ExprView::Literal(lit) => lit_text(lit),
        ExprView::Ident(name) => name,
        ExprView::Call { name, args } => name + seq!['('] + args_text(args, 0) + seq![')'],
        ExprView::Prefix { op, expr } => seq!['('] + kind_name(op) + seq![' '] + expr_text(*expr)
            + seq![')'],
        ExprView::Infix { op, left, right } => seq!['('] + expr_text(*left) + seq![' ']
            + kind_name(op) + seq![' '] + expr_text(*right) + seq![')'],
        ExprView::Postfix { op, expr } => seq!['('] + expr_text(*expr) + seq![' '] + kind_name(op)
            + seq![')'],
    }
}

/// The arguments of a call from number `from` on as text, each followed by
/// a comma.
pub open spec fn args_text(args: Seq<ExprView>, from: nat) -> Seq<char>
    decreases args, args.len() - from,
{
    if from >= args.len() {
        Seq::empty()
    } else {
        expr_text(args[from as int]) + seq![','] + args_text(args, from + 1)
    }
}

impl Lit {
    /// Appends this literal as text to `out`.
    pub fn write_text(&self, out: &mut String)
        ensures
            final(out)@ == old(out)@ + lit_text(self@),
    {
        proof {
            reveal_strlit("\"");
        }
        match self {
            Lit::Integer(i) => {
                push_decimal(out, *i);
            },
            Lit::Boolean(b) => {
                if *b {
                    out.append("true");
                } else {
                    out.append("false");
                }
            },
            Lit::String(s) => {
                out.append("\"");
                out.append(s.as_str());
                out.append("\"");
            },
        }
    }

    /// This literal as text.
    pub fn to_text(&self) -> (text: String)
        ensures
            text@ == lit_text(self@),
    {
        let mut text = String::new();
        self.write_text(&mut text);
        text
    }
}

impl Expr {
    /// Appends this expression as text to `out`.
    pub fn write_text(&self, out: &mut String)
        ensures
            final(out)@ == old(out)@ + expr_text(self@),
        decreases self, 0nat,
    {
        proof {
            reveal_strlit("(");
            reveal_strlit(")");
            reveal_strlit(" ");
        }
        match self {
            Expr::Literal(lit) => {
                lit.write_text(out);
            },
            Expr::Ident(name) => {
                out.append(name.as_str());
            },
            Expr::Call { name, args } => {
                proof {
                    lemma_call_view(*name, *args);
                }
                out.append(name.as_str());
                out.append("(");
                write_args(args, out);
                out.append(")");
            },
            Expr::Prefix { op, expr } => {
                out.append("(");
                out.append(op.name());
                out.append(" ");
                expr.write_text(out);
                out.append(")");
            },
            Expr::Infix { op, left, right } => {
                out.append("(");
                left.write_text(out);
                out.append(" ");
                out.append(op.name());
                out.append(" ");
                right.write_text(out);
                out.append(")");
            },
            Expr::Postfix { op, expr } => {
                out.append("(");
                expr.write_text(out);
                out.append(" ");
                out.append(op.name());
                out.append(")");
            },
        }
    }

    /// This expression as text.
    pub fn to_text(&self) -> (text: String)
        ensures
            text@ == expr_text(self@),
    {
        let mut text = String::new();
        self.write_text(&mut text);
        text
    }
}

/// What is left of the arguments from number `from` on is the text of the
/// argument there, a comma, and the rest.
proof fn lemma_args_text_step(args: Seq<ExprView>, from: nat)
    requires
        from < args.len(),
    ensures
        args_text(args, from) == expr_text(args[from as int]) + seq![','] + args_text(
            args,
            from + 1,
        ),
{
}

/// Appends the arguments of a call as text to `out`, each followed by a
/// comma.
fn write_args(args: &Vec<Box<Expr>>, out: &mut String)
    ensures
        final(out)@ == old(out)@ + args_text(exprs_view(args@), 0),
    decreases args, 1nat,
{
    let ghost views = exprs_view(args@);
    let mut i: usize = 0;
    proof {
        reveal_strlit(",");
    }
    while i < args.len()
        invariant
            i <= args.len(),
            views == exprs_view(args@),
            ","@ == seq![','],
            out@ + args_text(views, i as nat) == old(out)@ + args_text(views, 0),
        decreases args.len() - i,
    {
        proof {
            lemma_args_text_step(views, i as nat);
        }
        args[i].write_text(out);
        out.append(",");
        i = i + 1;
    }
}

} // verus!
