//! The code generator: syntax tree to intermediate representation.

pub mod ir;
pub mod lower;
pub mod wellformed;

use crate::lexer::token::TokenKind;
use crate::lexer::utf8::utf8_len;
use crate::lexer::{start_cursor, token_stream};
use crate::parser::ast::{
    decls_view, exprs_view, fields_view, lemma_block_view, lemma_call_view, stmts_view, Decl, Expr,
    Lit, Stmt, Type,
};
use crate::parser::grammar::{parse_program, ParseErrorView};
use crate::parser::{same_text, ParseError, Parser};
use ir::{insts_view, BinaryOp, BlockLabel, Inst, InstView, IrType, Predicate, Value};
use lower::{
    bind, branch_if_open, emit, infix_inst, initial_state, lookup, lower_args, lower_decl,
    lower_decls, lower_expr, lower_param_types, lower_stmt, lower_stmts, lower_type, next_id,
    open_function, prefix_inst, primitive, spill_params, CodegenError, Entry, GenState,
};
use vstd::prelude::*;
use vstd::string::*;
use wellformed::{
    lemma_decl_ok, lemma_decls_ok, lemma_expr_ok, lemma_initial_state_ok, lemma_stmt_ok,
    lemma_stmts_ok, state_ok,
};

verus! {

/// Why compilation stopped.
#[derive(Debug, Copy, Clone)]
pub enum CompileError<'a> {
    /// The source text is no program.
    Parse(ParseError<'a>),
    /// The program cannot be lowered.
    Codegen(CodegenError),
}

pub enum CompileErrorView {
    Parse(ParseErrorView),
    Codegen(CodegenError),
}

impl<'a> View for CompileError<'a> {
    type V = CompileErrorView;

    open spec fn view(&self) -> CompileErrorView {
        match self {
            CompileError::Parse(e) => CompileErrorView::Parse(e@),
            CompileError::Codegen(e) => CompileErrorView::Codegen(*e),
        }
    }
}

/// The entries of a table of names.
pub open spec fn entries_view(table: Seq<(String, usize)>) -> Seq<Entry> {
    Seq::new(table.len(), |i: int| Entry { name: table[i].0@, id: table[i].1 })
}

/// Finds the number under which `name` was entered last.
pub fn find(table: &Vec<(String, usize)>, name: &str) -> (id: Option<usize>)
    ensures
        id == lookup(entries_view(table@), name@),
{
    let ghost entries = entries_view(table@);
    let mut i: usize = table.len();
    proof {
        assert(entries.subrange(0, i as int) =~= entries);
    }
    while i > 0
        invariant
            i <= table.len(),
            entries == entries_view(table@),
            lookup(entries, name@) == lookup(entries.subrange(0, i as int), name@),
        decreases i,
    {
        let ghost upto = entries.subrange(0, i as int);
        proof {
            assert(upto.drop_last() =~= entries.subrange(0, i - 1));
        }
        i = i - 1;
        if same_text(table[i].0.as_str(), name) {
            return Some(table[i].1);
        }
    }
    None
}

/// The instruction for the infix operator `op` on `lhs` and `rhs`.
pub fn infix_instruction(op: TokenKind, lhs: Value, rhs: Value) -> (r: Result<Inst, CodegenError>)
    ensures
        match infix_inst(op, lhs, rhs) {
            Ok(inst) => r matches Ok(i) && i@ == inst,
            Err(e) => r matches Err(err) && err == e,
        },
{
    match op {
        TokenKind::Plus => Ok(Inst::Binary { op: BinaryOp::Add, lhs, rhs }),
        TokenKind::Minus => Ok(Inst::Binary { op: BinaryOp::Sub, lhs, rhs }),
        TokenKind::Asterisk => Ok(Inst::Binary { op: BinaryOp::Mul, lhs, rhs }),
        TokenKind::Slash => Ok(Inst::Binary { op: BinaryOp::SDiv, lhs, rhs }),
        TokenKind::Percent => Ok(Inst::Binary { op: BinaryOp::SRem, lhs, rhs }),
        TokenKind::And => Ok(Inst::Binary { op: BinaryOp::And, lhs, rhs }),
        TokenKind::Pipe => Ok(Inst::Binary { op: BinaryOp::Or, lhs, rhs }),
        TokenKind::Caret => Ok(Inst::Binary { op: BinaryOp::Xor, lhs, rhs }),
        TokenKind::Equal => Ok(Inst::Compare { pred: Predicate::Eq, lhs, rhs }),
        TokenKind::UnEqual => Ok(Inst::Compare { pred: Predicate::Ne, lhs, rhs }),
        TokenKind::LessThan => Ok(Inst::Compare { pred: Predicate::Slt, lhs, rhs }),
        TokenKind::LessEqual => Ok(Inst::Compare { pred: Predicate::Sle, lhs, rhs }),
        TokenKind::GreaterThan => Ok(Inst::Compare { pred: Predicate::Sgt, lhs, rhs }),
        TokenKind::GreaterEqual => Ok(Inst::Compare { pred: Predicate::Sge, lhs, rhs }),
        _ => Err(CodegenError::InvalidInfixOperator),
    }
}

/// The instruction for the prefix operator `op` on `operand`.
pub fn prefix_instruction(op: TokenKind, operand: Value) -> (r: Result<Inst, CodegenError>)
    ensures
        match prefix_inst(op, operand) {
            Ok(inst) => r matches Ok(i) && i@ == inst,
            Err(e) => r matches Err(err) && err == e,
        },
{
    match op {
        TokenKind::Minus => Ok(Inst::Neg { operand }),
        TokenKind::Bang => Ok(Inst::Not { operand }),
        _ => Err(CodegenError::InvalidPrefixOperator),
    }
}

/// The code generator for one source text. It owns the module it builds,
/// the stack slots of the locals of the function being lowered, and the
/// functions registered so far.
pub struct Compiler<'a> {
    file: &'a str,
    input: &'a str,
    module: Vec<Inst>,
    named_values: Vec<(String, usize)>,
    functions: Vec<(String, usize)>,
}

impl<'a> View for Compiler<'a> {
    type V = GenState;

    closed spec fn view(&self) -> GenState {
        GenState {
            insts: insts_view(self.module@),
            symbols: entries_view(self.named_values@),
            functions: entries_view(self.functions@),
        }
    }
}

impl<'a> Compiler<'a> {
    /// The source text.
    pub closed spec fn source(&self) -> Seq<char> {
        self.input@
    }

    /// The name of the source file.
    pub closed spec fn file(&self) -> &'a str {
        self.file
    }

    /// A code generator for `input` that has emitted nothing yet.
    pub fn new(file: &'a str, input: &'a str) -> (compiler: Self)
        ensures
            compiler@ == initial_state(),
            state_ok(compiler@),
            compiler.source() == input@,
            compiler.file() == file,
    {
        let compiler = Self {
            file,
            input,
            module: Vec::new(),
            named_values: Vec::new(),
            functions: Vec::new(),
        };
        proof {
            assert(compiler@.insts =~= Seq::<InstView>::empty());
            assert(compiler@.functions =~= Seq::<Entry>::empty());
            lemma_initial_state_ok();
        }
        compiler
    }

    /// The instructions of the module built so far.
    pub fn instructions(&self) -> (insts: &Vec<Inst>)
        ensures
            insts_view(insts@) == self@.insts,
    {
        &self.module
    }

    /// The instructions of a module can be numbered in a machine word.
    proof fn lemma_fits(&self)
        ensures
            self@.insts.len() <= usize::MAX,
    {
        assert(self@.insts.len() == self.module.len());
    }

    /// Appends `inst` to the module and gives its number.
    fn emit(&mut self, inst: Inst) -> (id: usize)
        ensures
            final(self)@ == emit(old(self)@, inst@),
            final(self)@.insts.len() <= usize::MAX,
            id == next_id(old(self)@),
            final(self).source() == old(self).source(),
            final(self).file() == old(self).file(),
    {
        let id = self.module.len();
        self.module.push(inst);
        proof {
            assert(insts_view(self.module@) =~= insts_view(old(self).module@).push(inst@));
            self.lemma_fits();
        }
        id
    }

    /// Binds `name` to stack slot `id`.
    fn bind(&mut self, name: String, id: usize)
        ensures
            final(self)@ == bind(old(self)@, name@, id),
            final(self).source() == old(self).source(),
            final(self).file() == old(self).file(),
    {
        self.named_values.push((name, id));
        proof {
            assert(entries_view(self.named_values@) =~= entries_view(old(self).named_values@).push(
                Entry { name: name@, id },
            ));
        }
    }

    /// Closes the current block with a branch to `target`, unless it has
    /// its terminator already.
    fn branch_if_open(&mut self, target: usize)
        ensures
            final(self)@ == branch_if_open(old(self)@, target),
            final(self).source() == old(self).source(),
            final(self).file() == old(self).file(),
    {
        let n = self.module.len();
        let closed = n > 0 && self.module[n - 1].is_terminator();
        if !closed {
            self.emit(Inst::Br { target });
        }
    }

    /// The primitive type that `typ` names.
    pub fn get_type(&self, typ: &Type) -> (r: Result<IrType, CodegenError>)
        ensures
            r == lower_type(typ@),
    {
        let name = typ.name.as_str();
        if same_text(name, "i128") {
            Ok(IrType::I128)
        } else if same_text(name, "i64") {
            Ok(IrType::I64)
        } else if same_text(name, "i32") {
            Ok(IrType::I32)
        } else if same_text(name, "i16") {
            Ok(IrType::I16)
        } else if same_text(name, "i8") {
            Ok(IrType::I8)
        } else if same_text(name, "bool") {
            Ok(IrType::I1)
        } else {
            Err(CodegenError::UnknownType)
        }
    }

    /// Lowers an expression and gives its value.
    pub fn compile_expr(&mut self, expr: &Expr) -> (r: Result<Value, CodegenError>)
        ensures
            final(self).source() == old(self).source(),
            final(self).file() == old(self).file(),
            match lower_expr(old(self)@, expr@) {
                Ok(emitted) => r == Ok::<_, CodegenError>(emitted.value) && final(self)@
                    == emitted.state,
                Err(e) => r == Err::<Value, _>(e),
            },
            r is Ok && state_ok(old(self)@) ==> state_ok(final(self)@),
        decreases expr, 0nat,
    {
        proof {
            self.lemma_fits();
            lemma_expr_ok(self@, expr@);
        }
        match expr {
            Expr::Literal(l) => match l {
                Lit::Integer(i) => Ok(Value::Const { ty: IrType::I64, value: *i as u64 }),
                Lit::Boolean(b) => Ok(
                    Value::Const {
                        ty: IrType::I1,
                        value: if *b {
                            1
                        } else {
                            0
                        },
                    },
                ),
                Lit::String(_) => Err(CodegenError::UnsupportedExpression),
            },
            Expr::Call { name, args } => {
                proof {
                    lemma_call_view(*name, *args);
                }
                let func_args = self.compile_args(args)?;
                let callee = match find(&self.functions, name.as_str()) {
                    Some(f) => f,
                    None => {
                        return Err(CodegenError::UnknownFunction);
                    },
                };
                let id = self.emit(Inst::Call { callee, args: func_args });
                Ok(Value::Inst { id })
            },
            Expr::Prefix { op, expr } => {
                let x = self.compile_expr(expr)?;
                let inst = prefix_instruction(*op, x)?;
                let id = self.emit(inst);
                Ok(Value::Inst { id })
            },
            Expr::Infix { op, left, right } => {
                let lhs = self.compile_expr(left)?;
                let rhs = self.compile_expr(right)?;
                let inst = infix_instruction(*op, lhs, rhs)?;
                let id = self.emit(inst);
                Ok(Value::Inst { id })
            },
            Expr::Ident(name) => {
                let slot = match find(&self.named_values, name.as_str()) {
                    Some(s) => s,
                    None => {
                        return Err(CodegenError::UnboundIdentifier);
                    },
                };
                let id = self.emit(Inst::Load { ptr: Value::Inst { id: slot } });
                Ok(Value::Inst { id })
            },
            Expr::Postfix { .. } => Err(CodegenError::UnsupportedExpression),
        }
    }

    /// Lowers the arguments of a call, in order, and gives their values.
    fn compile_args(&mut self, args: &Vec<Box<Expr>>) -> (r: Result<Vec<Value>, CodegenError>)
        ensures
            final(self).source() == old(self).source(),
            final(self).file() == old(self).file(),
            match lower_args(old(self)@, exprs_view(args@), 0, Seq::empty()) {
                Ok(lowered) => r matches Ok(values) && values@ == lowered.values && final(self)@
                    == lowered.state,
                Err(e) => r matches Err(err) && err == e,
            },
        decreases args, 1nat,
    {
        let ghost exprs = exprs_view(args@);
        let mut values: Vec<Value> = Vec::new();
        let mut i: usize = 0;
        while i < args.len()
            invariant
                i <= args.len(),
                exprs == exprs_view(args@),
                self.source() == old(self).source(),
                self.file() == old(self).file(),
                lower_args(self@, exprs, i as nat, values@) == lower_args(
                    old(self)@,
                    exprs,
                    0,
                    Seq::empty(),
                ),
            decreases args.len() - i,
        {
            let value = self.compile_expr(&args[i])?;
            values.push(value);
            i = i + 1;
        }
        Ok(values)
    }
    /// Lowers a statement.
    pub fn compile_stmt(&mut self, stmt: &Stmt) -> (r: Result<(), CodegenError>)
        ensures
            final(self).source() == old(self).source(),
            final(self).file() == old(self).file(),
            match lower_stmt(old(self)@, stmt@) {
                Ok(st) => r is Ok && final(self)@ == st,
                Err(e) => r == Err::<(), _>(e),
            },
            r is Ok && state_ok(old(self)@) ==> state_ok(final(self)@),
        decreases stmt, 0nat,
    {
        let ghost before = self@;
        proof {
            assert(lower_stmt(before, stmt@) matches Ok(after) ==> (state_ok(before)
                && after.insts.len() <= usize::MAX ==> state_ok(after))) by {
                lemma_stmt_ok(before, stmt@);
            }
        }
        match stmt {
            Stmt::Block { body } => {
                proof {
                    lemma_block_view(*body);
                }
                self.compile_block(body)
            },
            Stmt::Let { name, typ, value } => {
                let variable_type = match typ {
                    Some(t) => self.get_type(t)?,
                    None => {
                        return Err(CodegenError::MissingTypeAnnotation);
                    },
                };
                let variable = self.emit(Inst::Alloca { ty: variable_type, name: name.clone() });
                self.bind(name.clone(), variable);
                let val = self.compile_expr(value)?;
                self.emit(Inst::Store { value: val, ptr: Value::Inst { id: variable } });
                Ok(())
            },
            Stmt::If { expr, body, elze } => {
                let cond = self.compile_expr(expr)?;
                let cons_block = self.emit(Inst::Block { label: BlockLabel::Cons });
                let alter_block = self.emit(Inst::Block { label: BlockLabel::Alter });
                let merge_block = self.emit(Inst::Block { label: BlockLabel::Merge });
                self.emit(Inst::CondBr { cond, then_block: cons_block, else_block: alter_block });
                self.emit(Inst::Position { block: cons_block });
                self.compile_stmt(body)?;
                self.branch_if_open(merge_block);
                self.emit(Inst::Position { block: alter_block });
                match elze {
                    Some(alternative) => {
                        self.compile_stmt(alternative)?;
                    },
                    None => {},
                }
                self.branch_if_open(merge_block);
                self.emit(Inst::Position { block: merge_block });
                Ok(())
            },
            Stmt::Assign { name, op: _, value } => {
                let ptr = match find(&self.named_values, name.as_str()) {
                    Some(p) => p,
                    None => {
                        return Err(CodegenError::UnboundIdentifier);
                    },
                };
                let val = self.compile_expr(value)?;
                self.emit(Inst::Store { value: val, ptr: Value::Inst { id: ptr } });
                Ok(())
            },
            Stmt::Return { value } => match value {
                Some(val) => {
                    let val = self.compile_expr(val)?;
                    self.emit(Inst::Ret { value: val });
                    Ok(())
                },
                None => {
                    self.emit(Inst::RetVoid);
                    Ok(())
                },
            },
            Stmt::Expr { .. } => Err(CodegenError::UnsupportedStatement),
        }
    }

    /// Lowers the statements of a block, in order.
    fn compile_block(&mut self, body: &Vec<Stmt>) -> (r: Result<(), CodegenError>)
        ensures
            final(self).source() == old(self).source(),
            final(self).file() == old(self).file(),
            match lower_stmts(old(self)@, stmts_view(body@), 0) {
                Ok(st) => r is Ok && final(self)@ == st,
                Err(e) => r == Err::<(), _>(e),
            },
            r is Ok && state_ok(old(self)@) ==> state_ok(final(self)@),
        decreases body, 1nat,
    {
        let ghost stmts = stmts_view(body@);
        let mut i: usize = 0;
        while i < body.len()
            invariant
                i <= body.len(),
                stmts == stmts_view(body@),
                self.source() == old(self).source(),
                self.file() == old(self).file(),
                lower_stmts(self@, stmts, i as nat) == lower_stmts(old(self)@, stmts, 0),
            decreases body.len() - i,
        {
            self.compile_stmt(&body[i])?;
            i = i + 1;
        }
        proof {
            self.lemma_fits();
            lemma_stmts_ok(old(self)@, stmts, 0);
        }
        Ok(())
    }

    /// The types of the parameters of a function.
    fn param_types(&self, params: &Vec<(String, Type)>) -> (r: Result<Vec<IrType>, CodegenError>)
        ensures
            match lower_param_types(fields_view(params@), 0, Seq::empty()) {
                Ok(types) => r matches Ok(v) && v@ == types && types.len() == params.len(),
                Err(e) => r matches Err(err) && err == e,
            },
    {
        let ghost fields = fields_view(params@);
        let mut types: Vec<IrType> = Vec::new();
        let mut i: usize = 0;
        while i < params.len()
            invariant
                i <= params.len(),
                fields == fields_view(params@),
                types.len() == i,
                lower_param_types(fields, i as nat, types@) == lower_param_types(
                    fields,
                    0,
                    Seq::empty(),
                ),
            decreases params.len() - i,
        {
            let ty = self.get_type(&params[i].1)?;
            types.push(ty);
            i = i + 1;
        }
        Ok(types)
    }

    /// Gives each parameter its stack slot and stores the incoming
    /// argument to it.
    fn spill_params(&mut self, params: &Vec<(String, Type)>, types: &Vec<IrType>)
        requires
            types.len() == params.len(),
        ensures
            final(self).source() == old(self).source(),
            final(self).file() == old(self).file(),
            final(self)@ == spill_params(old(self)@, fields_view(params@), types@, 0),
    {
        let ghost fields = fields_view(params@);
        let mut idx: usize = 0;
        while idx < params.len()
            invariant
                idx <= params.len(),
                types.len() == params.len(),
                fields == fields_view(params@),
                self.source() == old(self).source(),
                self.file() == old(self).file(),
                spill_params(self@, fields, types@, idx as nat) == spill_params(
                    old(self)@,
                    fields,
                    types@,
                    0,
                ),
            decreases params.len() - idx,
        {
            let param_at = self.emit(
                Inst::Alloca { ty: types[idx], name: String::from_str("param") },
            );
            self.emit(
                Inst::Store {
                    value: Value::Param { index: idx },
                    ptr: Value::Inst { id: param_at },
                },
            );
            self.bind(params[idx].0.clone(), param_at);
            idx = idx + 1;
        }
    }

    /// Registers function `name` and opens its entry block.
    fn open_function(&mut self, name: &String, params: Vec<IrType>, ret: IrType)
        ensures
            final(self).source() == old(self).source(),
            final(self).file() == old(self).file(),
            final(self)@ == open_function(old(self)@, name@, params@, ret),
    {
        let ghost before = self@;
        self.named_values = Vec::new();
        let id = self.module.len();
        self.functions.push((name.clone(), id));
        proof {
            assert(entries_view(self.named_values@) =~= Seq::<Entry>::empty());
            assert(entries_view(self.functions@) =~= before.functions.push(
                Entry { name: name@, id },
            ));
        }
        self.emit(Inst::Function { name: name.clone(), params, ret });
        let entry_block = self.emit(Inst::Block { label: BlockLabel::Entry });
        self.emit(Inst::Position { block: entry_block });
    }

    /// Lowers a declaration.
    pub fn compile_decl(&mut self, decl: &Decl) -> (r: Result<(), CodegenError>)
        ensures
            final(self).source() == old(self).source(),
            final(self).file() == old(self).file(),
            match lower_decl(old(self)@, decl@) {
                Ok(st) => r is Ok && final(self)@ == st,
                Err(e) => r == Err::<(), _>(e),
            },
            r is Ok && state_ok(old(self)@) ==> state_ok(final(self)@),
    {
        match decl {
            Decl::Function { name, params, body, rtyp } => {
                let types = self.param_types(params)?;
                let return_type = match rtyp {
                    Some(t) => self.get_type(t)?,
                    None => IrType::Void,
                };
                let slots = types.clone();
                self.open_function(name, types, return_type);
                self.spill_params(params, &slots);
                let lowered = self.compile_stmt(body);
                proof {
                    self.lemma_fits();
                    lemma_decl_ok(old(self)@, decl@);
                }
                lowered
            },
            Decl::Struct { .. } => Err(CodegenError::UnsupportedDeclaration),
        }
    }

    /// Compiles the source text: reads its tokens, parses them, and lowers
    /// each declaration in order into the module.
    pub fn compile(&mut self) -> (r: Result<(), CompileError<'a>>)
        requires
            utf8_len(old(self).source()) < usize::MAX,
        ensures
            final(self).source() == old(self).source(),
            final(self).file() == old(self).file(),
            match compiled(old(self)@, old(self).source()) {
                Ok(st) => r is Ok && final(self)@ == st,
                Err(e) => r matches Err(err) && err@ == e,
            },
            r is Ok && state_ok(old(self)@) ==> state_ok(final(self)@),
    {
        let mut parser = Parser::new(self.file, self.input);
        let ast = match parser.parse() {
            Ok(decls) => decls,
            Err(e) => {
                return Err(CompileError::Parse(e));
            },
        };
        let ghost decls = decls_view(ast@);
        let mut i: usize = 0;
        while i < ast.len()
            invariant
                i <= ast.len(),
                decls == decls_view(ast@),
                parse_program(token_stream(start_cursor(old(self).source()))) matches Ok(d) && d
                    == decls,
                self.source() == old(self).source(),
                self.file() == old(self).file(),
                lower_decls(self@, decls, i as nat) == lower_decls(old(self)@, decls, 0),
            decreases ast.len() - i,
        {
            match self.compile_decl(&ast[i]) {
                Ok(()) => {},
                Err(e) => {
                    return Err(CompileError::Codegen(e));
                },
            }
            i = i + 1;
        }
        proof {
            self.lemma_fits();
            lemma_decls_ok(old(self)@, decls, 0);
        }
        Ok(())
    }
}

/// What compiling `source` does to state `st`: the state after every
/// declaration of the program is lowered, or the first error of parsing or
/// of lowering.
pub open spec fn compiled(st: GenState, source: Seq<char>) -> Result<GenState, CompileErrorView> {
    match parse_program(token_stream(start_cursor(source))) {
        Ok(decls) => match lower_decls(st, decls, 0) {
            Ok(after) => Ok(after),
            Err(e) => Err(CompileErrorView::Codegen(e)),
        },
        Err(e) => Err(CompileErrorView::Parse(e)),
    }
}

} // verus!
