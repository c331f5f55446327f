//! The abstract syntax tree, and its mathematical view.

use crate::lexer::token::TokenKind;
use vstd::prelude::*;

verus! {

/// A top-level declaration.
#[derive(Debug, PartialEq, Eq)]
#[allow(inconsistent_fields)]
pub enum Decl {
    Function { name: String, params: Vec<(String, Type)>, body: Stmt, rtyp: Option<Type> },
    Struct { name: Type, members: Vec<(String, Type)> },
}

/// A type: a name and its generic arguments.
#[derive(Debug, PartialEq, Eq)]
pub struct Type {
    pub name: String,
    pub generics: Vec<Type>,
}

#[derive(Debug, PartialEq, Eq)]
#[allow(inconsistent_fields)]
pub enum Stmt {
    Let { name: String, typ: Option<Type>, value: Box<Expr> },
    Assign { name: String, op: Option<TokenKind>, value: Box<Expr> },
    If { expr: Box<Expr>, body: Box<Stmt>, elze: Option<Box<Stmt>> },
    Block { body: Vec<Stmt> },
    Expr { value: Box<Expr> },
    Return { value: Option<Box<Expr>> },
}

#[derive(Debug, PartialEq, Eq)]
#[allow(inconsistent_fields)]
pub enum Expr {
    Literal(Lit),
    Ident(String),
    Call { name: String, args: Vec<Box<Expr>> },
    Prefix { op: TokenKind, expr: Box<Expr> },
    Infix { op: TokenKind, left: Box<Expr>, right: Box<Expr> },
    Postfix { op: TokenKind, expr: Box<Expr> },
}

#[derive(Debug, Clone, PartialEq, Eq)]
pub enum Lit {
    Integer(usize),
    String(String),
    Boolean(bool),
}

pub enum LitView {
    Integer(usize),
    String(Seq<char>),
    Boolean(bool),
}

pub enum ExprView {
    Literal(LitView),
    Ident(Seq<char>),
    Call { name: Seq<char>, args: Seq<ExprView> },
    Prefix { op: TokenKind, expr: Box<ExprView> },
    Infix { op: TokenKind, left: Box<ExprView>, right: Box<ExprView> },
    Postfix { op: TokenKind, expr: Box<ExprView> },
}

pub struct TypeView {
    pub name: Seq<char>,
    pub generics: Seq<TypeView>,
}

#[allow(inconsistent_fields)]
pub enum StmtView {
    Let { name: Seq<char>, typ: Option<TypeView>, value: ExprView },
    Assign { name: Seq<char>, op: Option<TokenKind>, value: ExprView },
    If { expr: ExprView, body: Box<StmtView>, elze: Option<Box<StmtView>> },
    Block { body: Seq<StmtView> },
    Expr { value: ExprView },
    Return { value: Option<ExprView> },
}

/// A named, typed slot: a parameter of a function or a member of a struct.
pub struct FieldView {
    pub name: Seq<char>,
    pub typ: TypeView,
}

#[allow(inconsistent_fields)]
pub enum DeclView {
    Function { name: Seq<char>, params: Seq<FieldView>, body: StmtView, rtyp: Option<TypeView> },
    Struct { name: TypeView, members: Seq<FieldView> },
}

impl View for Lit {
    type V = LitView;

    open spec fn view(&self) -> LitView {
        match self {
            Lit::Integer(i) => LitView::Integer(*i),
            Lit::String(s) => LitView::String(s@),
            Lit::Boolean(b) => LitView::Boolean(*b),
        }
    }
}

/// The view of an expression.
pub open spec fn expr_view(e: Expr) -> ExprView
    decreases e,
{
    match e {
        Expr::Literal(lit) => ExprView::Literal(lit@),
        Expr::Ident(name) => ExprView::Ident(name@),
        Expr::Call { name, args } => ExprView::Call {
            name: name@,
            args: Seq::new(
                args.len() as nat,
                |i: int|
                    if 0 <= i < args.len() {
                        expr_view(*args[i])
                    } else {
                        arbitrary()
                    },
            ),
        },
        Expr::Prefix { op, expr } => ExprView::Prefix { op, expr: Box::new(expr_view(*expr)) },
        Expr::Infix { op, left, right } => ExprView::Infix {
            op,
            left: Box::new(expr_view(*left)),
            right: Box::new(expr_view(*right)),
        },
        Expr::Postfix { op, expr } => ExprView::Postfix { op, expr: Box::new(expr_view(*expr)) },
    }
}

/// The views of a list of expressions.
pub open spec fn exprs_view(exprs: Seq<Box<Expr>>) -> Seq<ExprView> {
    Seq::new(exprs.len(), |i: int| expr_view(*exprs[i]))
}

/// The view of a call is made of the views of its arguments.
pub proof fn lemma_call_view(name: String, args: Vec<Box<Expr>>)
    ensures
        (Expr::Call { name, args })@ == (ExprView::Call { name: name@, args: exprs_view(args@) }),
{
    assert(expr_view(Expr::Call { name, args })->args =~= exprs_view(args@));
}

impl View for Expr {
    type V = ExprView;

    open spec fn view(&self) -> ExprView {
        expr_view(*self)
    }
}

/// The view of a type.
pub open spec fn type_view(t: Type) -> TypeView
    decreases t,
{
    TypeView {
        name: t.name@,
        generics: Seq::new(
            t.generics.len() as nat,
            |i: int|
                if 0 <= i < t.generics.len() {
                    type_view(t.generics[i])
                } else {
                    arbitrary()
                },
        ),
    }
}

/// The views of a list of types.
pub open spec fn types_view(types: Seq<Type>) -> Seq<TypeView> {
    Seq::new(types.len(), |i: int| type_view(types[i]))
}

/// The view of a type is made of the views of its generic arguments.
pub proof fn lemma_type_view(name: String, generics: Vec<Type>)
    ensures
        (Type { name, generics })@ == (TypeView { name: name@, generics: types_view(generics@) }),
{
    assert(type_view(Type { name, generics }).generics =~= types_view(generics@));
}

impl View for Type {
    type V = TypeView;

    open spec fn view(&self) -> TypeView {
        type_view(*self)
    }
}

/// The view of an optional type.
pub open spec fn opt_type_view(t: Option<Type>) -> Option<TypeView> {
    match t {
        Some(t) => Some(t@),
        None => None,
    }
}

/// The views of a list of parameters or members.
pub open spec fn fields_view(fields: Seq<(String, Type)>) -> Seq<FieldView> {
    Seq::new(fields.len(), |i: int| FieldView { name: fields[i].0@, typ: fields[i].1@ })
}

/// The view of a statement.
pub open spec fn stmt_view(s: Stmt) -> StmtView
    decreases s,
{
    match s {
        Stmt::Let { name, typ, value } => StmtView::Let {
            name: name@,
            typ: opt_type_view(typ),
            value: value@,
        },
        Stmt::Assign { name, op, value } => StmtView::Assign { name: name@, op, value: value@ },
        Stmt::If { expr, body, elze } => StmtView::If {
            expr: expr@,
            body: Box::new(stmt_view(*body)),
            elze: match elze {
                Some(s) => Some(Box::new(stmt_view(*s))),
                None => None,
            },
        },
        Stmt::Block { body } => StmtView::Block {
            body: Seq::new(
                body.len() as nat,
                |i: int|
                    if 0 <= i < body.len() {
                        stmt_view(body[i])
                    } else {
                        arbitrary()
                    },
            ),
        },
        Stmt::Expr { value } => StmtView::Expr { value: value@ },
        Stmt::Return { value } => StmtView::Return {
            value: match value {
                Some(e) => Some(e@),
                None => None,
            },
        },
    }
}

/// The views of a list of statements.
pub open spec fn stmts_view(stmts: Seq<Stmt>) -> Seq<StmtView> {
    Seq::new(stmts.len(), |i: int| stmt_view(stmts[i]))
}

/// The view of a block is made of the views of its statements.
pub proof fn lemma_block_view(body: Vec<Stmt>)
    ensures
        (Stmt::Block { body })@ == (StmtView::Block { body: stmts_view(body@) }),
{
    assert(stmt_view(Stmt::Block { body })->Block_body =~= stmts_view(body@));
}

impl View for Stmt {
    type V = StmtView;

    open spec fn view(&self) -> StmtView {
        stmt_view(*self)
    }
}

/// The views of a list of declarations.
pub open spec fn decls_view(decls: Seq<Decl>) -> Seq<DeclView> {
    Seq::new(decls.len(), |i: int| decls[i]@)
}

impl View for Decl {
    type V = DeclView;

    open spec fn view(&self) -> DeclView {
        match self {
            Decl::Function { name, params, body, rtyp } => DeclView::Function {
                name: name@,
                params: fields_view(params@),
                body: body@,
                rtyp: opt_type_view(*rtyp),
            },
            Decl::Struct { name, members } => DeclView::Struct {
                name: name@,
                members: fields_view(members@),
            },
        }
    }
}

} // verus!
