//! Declarations, types and statements, parsed by recursive descent.

use super::ast::{
    decls_view, fields_view, lemma_block_view, lemma_call_view, lemma_type_view, stmts_view,
    types_view, Decl, DeclView, Expr, FieldView, Stmt, StmtView, Type, TypeView,
};
use super::grammar::{
    expect_identifier, lemma_decl_advances, lemma_expr_advances, lemma_statement_advances,
    lemma_type_advances, parse_assign_or_call, parse_block, parse_block_items, parse_decl,
    parse_decls, parse_expr_semi, parse_fields, parse_function, parse_generics, parse_if,
    parse_let, parse_return, parse_statement, parse_struct, parse_type, ParseErrorKind,
};
use super::{ParseError, Parser};
use crate::lexer::token::TokenKind;
use vstd::prelude::*;
use vstd::string::*;

verus! {

impl<'a> Parser<'a> {
    /// Parses the declarations of the source text, to its end.
    pub fn parse(&mut self) -> (r: Result<Vec<Decl>, ParseError<'a>>)
        requires
            old(self).wf(),
        ensures
            final(self).wf(),
            final(self).tokens() == old(self).tokens(),
            final(self).file() == old(self).file(),
            match parse_decls(old(self).tokens(), old(self).pos(), Seq::empty()) {
                Ok(decls) => r matches Ok(v) && decls_view(v@) == decls,
                Err(err) => r matches Err(e) && e@ == err && e.loc.file == old(self).file(),
            },
    {
        let ghost ts = self.tokens();
        let ghost start = self.pos();
        let mut decls: Vec<Decl> = Vec::new();
        proof {
            self.lemma_in_range();
            assert(decls_view(decls@) =~= Seq::<DeclView>::empty());
        }
        while !self.at(TokenKind::Eof)
            invariant
                self.wf(),
                self.tokens() == ts,
                self.file() == old(self).file(),
                old(self).tokens() == ts,
                old(self).pos() == start,
                self.pos() <= ts.len(),
                parse_decls(ts, self.pos(), decls_view(decls@)) == parse_decls(
                    ts,
                    start,
                    Seq::empty(),
                ),
            decreases ts.len() - self.pos(),
        {
            let ghost before = decls_view(decls@);
            proof {
                lemma_decl_advances(ts, self.pos());
            }
            let decl = self.decl()?;
            decls.push(decl);
            proof {
                assert(decls_view(decls@) =~= before.push(decl@));
            }
        }
        Ok(decls)
    }

    /// Takes the next token, which must be an identifier, as a name.
    pub fn identifier(&mut self) -> (r: Result<String, ParseError<'a>>)
        requires
            old(self).wf(),
        ensures
            final(self).wf(),
            final(self).tokens() == old(self).tokens(),
            final(self).file() == old(self).file(),
            match expect_identifier(old(self).tokens(), old(self).pos()) {
                Ok(node) => r matches Ok(name) && name@ == node.value && final(self).pos()
                    == node.next,
                Err(err) => r matches Err(e) && e@ == err && e.loc.file == old(self).file(),
            },
    {
        proof {
            self.lemma_in_range();
        }
        if self.at_end() {
            Err(self.error(ParseErrorKind::UnexpectedEof))
        } else {
            let tok = self.current();
            if tok.kind != TokenKind::Identifier {
                Err(
                    self.error(
                        ParseErrorKind::Expected {
                            expected: TokenKind::Identifier,
                            found: tok.kind,
                        },
                    ),
                )
            } else {
                let name = String::from_str(self.text(tok));
                self.advance();
                Ok(name)
            }
        }
    }

    /// Parses the parameters of a function or the members of a struct, up
    /// to the token `close`, which stays.
    pub fn fields(&mut self, close: TokenKind) -> (r: Result<Vec<(String, Type)>, ParseError<'a>>)
        requires
            old(self).wf(),
        ensures
            final(self).wf(),
            final(self).tokens() == old(self).tokens(),
            final(self).file() == old(self).file(),
            match parse_fields(old(self).tokens(), old(self).pos(), close, Seq::empty()) {
                Ok(node) => r matches Ok(v) && fields_view(v@) == node.value && final(self).pos()
                    == node.next,
                Err(err) => r matches Err(e) && e@ == err && e.loc.file == old(self).file(),
            },
    {
        let ghost ts = self.tokens();
        let ghost start = self.pos();
        let mut fields: Vec<(String, Type)> = Vec::new();
        proof {
            self.lemma_in_range();
            assert(fields_view(fields@) =~= Seq::<FieldView>::empty());
        }
        while !self.at(close)
            invariant
                self.wf(),
                self.tokens() == ts,
                self.file() == old(self).file(),
                old(self).tokens() == ts,
                old(self).pos() == start,
                self.pos() <= ts.len(),
                parse_fields(ts, self.pos(), close, fields_view(fields@)) == parse_fields(
                    ts,
                    start,
                    close,
                    Seq::empty(),
                ),
            decreases ts.len() - self.pos(),
        {
            let ghost before = fields_view(fields@);
            let name = self.identifier()?;
            self.consume(TokenKind::Colon)?;
            proof {
                lemma_type_advances(ts, self.pos());
            }
            let typ = self.type_()?;
            proof {
                assert(fields_view(fields@.push((name, typ))) =~= before.push(
                    FieldView { name: name@, typ: typ@ },
                ));
            }
            fields.push((name, typ));
            if self.at(TokenKind::Comma) {
                self.advance();
            }
        }
        Ok(fields)
    }

    /// Parses a declaration: a function or a struct.
    pub fn decl(&mut self) -> (r: Result<Decl, ParseError<'a>>)
        requires
            old(self).wf(),
        ensures
            final(self).wf(),
            final(self).tokens() == old(self).tokens(),
            final(self).file() == old(self).file(),
            match parse_decl(old(self).tokens(), old(self).pos()) {
                Ok(node) => r matches Ok(d) && d@ == node.value && final(self).pos() == node.next,
                Err(err) => r matches Err(e) && e@ == err && e.loc.file == old(self).file(),
            },
    {
        proof {
            self.lemma_in_range();
        }
        match self.peek() {
            TokenKind::Function => {
                self.advance();
                self.function()
            },
            TokenKind::Struct => {
                self.advance();
                self.struct_()
            },
            found => Err(self.error(ParseErrorKind::UnknownDeclarationStart { found })),
        }
    }

    /// Parses a function behind its `fn`: name, parameters, an optional
    /// return type, and the body, which is a block.
    pub fn function(&mut self) -> (r: Result<Decl, ParseError<'a>>)
        requires
            old(self).wf(),
        ensures
            final(self).wf(),
            final(self).tokens() == old(self).tokens(),
            final(self).file() == old(self).file(),
            match parse_function(old(self).tokens(), old(self).pos()) {
                Ok(node) => r matches Ok(d) && d@ == node.value && final(self).pos() == node.next,
                Err(err) => r matches Err(e) && e@ == err && e.loc.file == old(self).file(),
            },
    {
        proof {
            self.lemma_in_range();
        }
        let name = self.identifier()?;
        self.consume(TokenKind::OpenParen)?;
        let params = self.fields(TokenKind::ClosedParen)?;
        self.consume(TokenKind::ClosedParen)?;
        let mut rtyp: Option<Type> = None;
        if self.peek() != TokenKind::OpenBrace {
            let typ = self.type_()?;
            rtyp = Some(typ);
        }
        let found = self.peek();
        if found != TokenKind::OpenBrace {
            return Err(self.error(ParseErrorKind::ExpectedBlock { found }));
        }
        let body = self.statement()?;
        Ok(Decl::Function { name, params, body, rtyp })
    }

    /// Parses a struct behind its `struct`: its type and its members.
    pub fn struct_(&mut self) -> (r: Result<Decl, ParseError<'a>>)
        requires
            old(self).wf(),
        ensures
            final(self).wf(),
            final(self).tokens() == old(self).tokens(),
            final(self).file() == old(self).file(),
            match parse_struct(old(self).tokens(), old(self).pos()) {
                Ok(node) => r matches Ok(d) && d@ == node.value && final(self).pos() == node.next,
                Err(err) => r matches Err(e) && e@ == err && e.loc.file == old(self).file(),
            },
    {
        proof {
            self.lemma_in_range();
        }
        let name = self.type_()?;
        self.consume(TokenKind::OpenBrace)?;
        let members = self.fields(TokenKind::ClosedBrace)?;
        self.consume(TokenKind::ClosedBrace)?;
        Ok(Decl::Struct { name, members })
    }

    /// Parses a type: a name and, between angle brackets, its generic
    /// arguments.
    pub fn type_(&mut self) -> (r: Result<Type, ParseError<'a>>)
        requires
            old(self).wf(),
        ensures
            final(self).wf(),
            final(self).tokens() == old(self).tokens(),
            final(self).file() == old(self).file(),
            match parse_type(old(self).tokens(), old(self).pos()) {
                Ok(node) => r matches Ok(t) && t@ == node.value && final(self).pos() == node.next,
                Err(err) => r matches Err(e) && e@ == err && e.loc.file == old(self).file(),
            },
        decreases old(self).tokens().len() - old(self).pos(), 1nat,
    {
        proof {
            self.lemma_in_range();
        }
        let name = self.identifier()?;
        if self.at(TokenKind::LessThan) {
            self.advance();
            let generics = self.generics()?;
            self.consume(TokenKind::GreaterThan)?;
            proof {
                lemma_type_view(name, generics);
            }
            Ok(Type { name, generics })
        } else {
            let generics: Vec<Type> = Vec::new();
            proof {
                assert(types_view(generics@) =~= Seq::<TypeView>::empty());
                lemma_type_view(name, generics);
            }
            Ok(Type { name, generics })
        }
    }

    /// Parses the generic arguments of a type, up to the closing angle
    /// bracket, which stays.
    pub fn generics(&mut self) -> (r: Result<Vec<Type>, ParseError<'a>>)
        requires
            old(self).wf(),
        ensures
            final(self).wf(),
            final(self).tokens() == old(self).tokens(),
            final(self).file() == old(self).file(),
            match parse_generics(old(self).tokens(), old(self).pos(), Seq::empty()) {
                Ok(node) => r matches Ok(v) && types_view(v@) == node.value && final(self).pos()
                    == node.next,
                Err(err) => r matches Err(e) && e@ == err && e.loc.file == old(self).file(),
            },
        decreases old(self).tokens().len() - old(self).pos(), 2nat,
    {
        let ghost ts = self.tokens();
        let ghost start = self.pos();
        let mut generics: Vec<Type> = Vec::new();
        proof {
            self.lemma_in_range();
            assert(types_view(generics@) =~= Seq::<TypeView>::empty());
        }
        while !self.at(TokenKind::GreaterThan)
            invariant
                self.wf(),
                self.tokens() == ts,
                self.file() == old(self).file(),
                old(self).tokens() == ts,
                old(self).pos() == start,
                start <= self.pos() <= ts.len(),
                parse_generics(ts, self.pos(), types_view(generics@)) == parse_generics(
                    ts,
                    start,
                    Seq::empty(),
                ),
            decreases ts.len() - self.pos(),
        {
            let ghost before = types_view(generics@);
            proof {
                lemma_type_advances(ts, self.pos());
            }
            let generic = self.type_()?;
            proof {
                assert(types_view(generics@.push(generic)) =~= before.push(generic@));
            }
            generics.push(generic);
            if self.at(TokenKind::Comma) {
                self.advance();
            }
        }
        Ok(generics)
    }

    /// Parses an expression and the semicolon behind it.
    fn expression_semi(&mut self) -> (r: Result<Expr, ParseError<'a>>)
        requires
            old(self).wf(),
        ensures
            final(self).wf(),
            final(self).tokens() == old(self).tokens(),
            final(self).file() == old(self).file(),
            match parse_expr_semi(old(self).tokens(), old(self).pos()) {
                Ok(node) => r matches Ok(e) && e@ == node.value && final(self).pos() == node.next,
                Err(err) => r matches Err(e) && e@ == err && e.loc.file == old(self).file(),
            },
    {
        let value = self.expression()?;
        self.consume(TokenKind::SemiColon)?;
        Ok(value)
    }

    /// Parses a statement, chosen by its first token.
    pub fn statement(&mut self) -> (r: Result<Stmt, ParseError<'a>>)
        requires
            old(self).wf(),
        ensures
            final(self).wf(),
            final(self).tokens() == old(self).tokens(),
            final(self).file() == old(self).file(),
            match parse_statement(old(self).tokens(), old(self).pos()) {
                Ok(node) => r matches Ok(s) && s@ == node.value && final(self).pos() == node.next,
                Err(err) => r matches Err(e) && e@ == err && e.loc.file == old(self).file(),
            },
        decreases old(self).tokens().len() - old(self).pos(), 1nat,
    {
        proof {
            self.lemma_in_range();
        }
        match self.peek() {
            TokenKind::Let => {
                self.advance();
                self.let_statement()
            },
            TokenKind::Identifier => self.assign_or_call(),
            TokenKind::Return => {
                self.advance();
                self.return_statement()
            },
            TokenKind::If => {
                self.advance();
                self.if_statement()
            },
            TokenKind::OpenBrace => {
                self.advance();
                self.block()
            },
            _ => {
                let expr = self.expression_semi()?;
                Ok(Stmt::Expr { value: Box::new(expr) })
            },
        }
    }

    /// Parses `NAME [: TYPE] = EXPR ;` behind a `let`.
    pub fn let_statement(&mut self) -> (r: Result<Stmt, ParseError<'a>>)
        requires
            old(self).wf(),
        ensures
            final(self).wf(),
            final(self).tokens() == old(self).tokens(),
            final(self).file() == old(self).file(),
            match parse_let(old(self).tokens(), old(self).pos()) {
                Ok(node) => r matches Ok(s) && s@ == node.value && final(self).pos() == node.next,
                Err(err) => r matches Err(e) && e@ == err && e.loc.file == old(self).file(),
            },
    {
        proof {
            self.lemma_in_range();
        }
        let name = self.identifier()?;
        let mut typ: Option<Type> = None;
        if self.at(TokenKind::Colon) {
            self.advance();
            let annotation = self.type_()?;
            typ = Some(annotation);
        }
        self.consume(TokenKind::Assign)?;
        let value = self.expression_semi()?;
        Ok(Stmt::Let { name, value: Box::new(value), typ })
    }

    /// Parses a statement that starts with an identifier: an assignment
    /// `NAME = EXPR ;` or a call `NAME ( ARGS ) ;`.
    pub fn assign_or_call(&mut self) -> (r: Result<Stmt, ParseError<'a>>)
        requires
            old(self).wf(),
            old(self).pos() < old(self).tokens().len(),
        ensures
            final(self).wf(),
            final(self).tokens() == old(self).tokens(),
            final(self).file() == old(self).file(),
            match parse_assign_or_call(old(self).tokens(), old(self).pos()) {
                Ok(node) => r matches Ok(s) && s@ == node.value && final(self).pos() == node.next,
                Err(err) => r matches Err(e) && e@ == err && e.loc.file == old(self).file(),
            },
    {
        let ident = self.current();
        let name = String::from_str(self.text(ident));
        self.advance();
        if self.at(TokenKind::Assign) {
            self.advance();
            let value = self.expression_semi()?;
            Ok(Stmt::Assign { name, op: None, value: Box::new(value) })
        } else {
            self.consume(TokenKind::OpenParen)?;
            let args = self.parse_arguments()?;
            self.consume(TokenKind::ClosedParen)?;
            self.consume(TokenKind::SemiColon)?;
            proof {
                lemma_call_view(name, args);
            }
            Ok(Stmt::Expr { value: Box::new(Expr::Call { name, args }) })
        }
    }

    /// Parses `;` or `EXPR ;` behind a `return`.
    pub fn return_statement(&mut self) -> (r: Result<Stmt, ParseError<'a>>)
        requires
            old(self).wf(),
        ensures
            final(self).wf(),
            final(self).tokens() == old(self).tokens(),
            final(self).file() == old(self).file(),
            match parse_return(old(self).tokens(), old(self).pos()) {
                Ok(node) => r matches Ok(s) && s@ == node.value && final(self).pos() == node.next,
                Err(err) => r matches Err(e) && e@ == err && e.loc.file == old(self).file(),
            },
    {
        proof {
            self.lemma_in_range();
        }
        if self.peek() == TokenKind::SemiColon {
            self.advance();
            Ok(Stmt::Return { value: None })
        } else {
            let expr = self.expression_semi()?;
            Ok(Stmt::Return { value: Some(Box::new(expr)) })
        }
    }

    /// Parses `EXPR STMT [else STMT]` behind an `if`.
    pub fn if_statement(&mut self) -> (r: Result<Stmt, ParseError<'a>>)
        requires
            old(self).wf(),
        ensures
            final(self).wf(),
            final(self).tokens() == old(self).tokens(),
            final(self).file() == old(self).file(),
            match parse_if(old(self).tokens(), old(self).pos()) {
                Ok(node) => r matches Ok(s) && s@ == node.value && final(self).pos() == node.next,
                Err(err) => r matches Err(e) && e@ == err && e.loc.file == old(self).file(),
            },
        decreases old(self).tokens().len() - old(self).pos(), 2nat,
    {
        let ghost ts = self.tokens();
        let ghost start = self.pos();
        proof {
            self.lemma_in_range();
            lemma_expr_advances(ts, start, 0);
        }
        let condition = self.expression()?;
        proof {
            lemma_statement_advances(ts, self.pos());
        }
        let body = self.statement()?;
        if self.at(TokenKind::Else) {
            self.advance();
            let found = self.peek();
            if found != TokenKind::If && found != TokenKind::OpenBrace {
                return Err(self.error(ParseErrorKind::ExpectedBlockOrIf { found }));
            }
            let alternative = self.statement()?;
            Ok(
                Stmt::If {
                    expr: Box::new(condition),
                    body: Box::new(body),
                    elze: Some(Box::new(alternative)),
                },
            )
        } else {
            Ok(Stmt::If { expr: Box::new(condition), body: Box::new(body), elze: None })
        }
    }

    /// Parses the statements and the closing brace of a block, behind its
    /// opening brace.
    pub fn block(&mut self) -> (r: Result<Stmt, ParseError<'a>>)
        requires
            old(self).wf(),
        ensures
            final(self).wf(),
            final(self).tokens() == old(self).tokens(),
            final(self).file() == old(self).file(),
            match parse_block(old(self).tokens(), old(self).pos()) {
                Ok(node) => r matches Ok(s) && s@ == node.value && final(self).pos() == node.next,
                Err(err) => r matches Err(e) && e@ == err && e.loc.file == old(self).file(),
            },
        decreases old(self).tokens().len() - old(self).pos(), 3nat,
    {
        let ghost ts = self.tokens();
        let ghost start = self.pos();
        let mut body: Vec<Stmt> = Vec::new();
        proof {
            self.lemma_in_range();
            assert(stmts_view(body@) =~= Seq::<StmtView>::empty());
        }
        while !self.at(TokenKind::ClosedBrace)
            invariant
                self.wf(),
                self.tokens() == ts,
                self.file() == old(self).file(),
                old(self).tokens() == ts,
                old(self).pos() == start,
                start <= self.pos() <= ts.len(),
                parse_block_items(ts, self.pos(), stmts_view(body@)) == parse_block_items(
                    ts,
                    start,
                    Seq::empty(),
                ),
            decreases ts.len() - self.pos(),
        {
            let ghost before = stmts_view(body@);
            proof {
                lemma_statement_advances(ts, self.pos());
            }
            let stmt = self.statement()?;
            proof {
                assert(stmts_view(body@.push(stmt)) =~= before.push(stmt@));
            }
            body.push(stmt);
        }
        self.consume(TokenKind::ClosedBrace)?;
        proof {
            lemma_block_view(body);
        }
        Ok(Stmt::Block { body })
    }
}

} // verus!
