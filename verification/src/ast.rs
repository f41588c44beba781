//! Syntax tree of Bxen v0.1 programs.

use vstd::prelude::*;
use crate::text::{int_text, push_int, push_str, push_string};

verus! {

/// The value types of the language.
#[derive(Debug, Clone, Copy, PartialEq, Eq, Structural)]
pub enum ValueType {
    I64,
    F64,
}

/// A floating literal after conversion by the host's `f64` routines: its
/// IEEE-754 bit pattern, and the texts `f64`'s `Display` and `Debug` write
/// for it.
#[derive(Debug, Clone, PartialEq)]
pub struct FloatValue {
    pub bits: u64,
    pub display: String,
    pub debug: String,
}

/// The value of a literal.
#[derive(Debug, Clone, PartialEq)]
pub enum LiteralValue {
    Int(i64),
    Float(FloatValue),
    String(String),
}

/// A literal with its value type.
#[derive(Debug, Clone, PartialEq)]
pub struct Literal {
    pub value: LiteralValue,
    pub ty: ValueType,
}

/// A named, typed parameter (function parameter or module input).
#[derive(Debug, Clone, PartialEq)]
pub struct Parameter {
    pub name: String,
    pub ty: ValueType,
}

/// Binary operators.
#[derive(Debug, Clone, Copy, PartialEq, Eq, Structural)]
pub enum BinaryOp {
    Add,
    Sub,
    Mul,
    Div,
    Mod,
    BitAnd,
    BitOr,
    BitXor,
    Shl,
    Shr,
    Eq,
    Ne,
    Lt,
    Le,
    Gt,
    Ge,
}

/// Prefix operators.
#[derive(Debug, Clone, Copy, PartialEq, Eq, Structural)]
pub enum UnaryOp {
    Pos,
    Negate,
    Not,
    BitNot,
}

/// A variable reference.
#[derive(Debug, Clone, PartialEq)]
pub struct Variable {
    pub name: String,
}

/// Expressions.
#[derive(Debug, PartialEq)]
pub enum Expression {
    Literal(Literal),
    Variable(Variable),
    Binary { op: BinaryOp, left: Box<Expression>, right: Box<Expression> },
    Unary { op: UnaryOp, operand: Box<Expression> },
    Call { name: String, args: Vec<Expression> },
}

/// `name: value`.
#[derive(Debug, PartialEq)]
pub struct Assignment {
    pub name: String,
    pub value: Expression,
}

/// `name(args).sink`.
#[derive(Debug, PartialEq)]
pub struct SinkCall {
    pub name: String,
    pub args: Vec<Expression>,
    pub sink_name: Option<String>,
}

/// `return [value]`.
#[derive(Debug, PartialEq)]
pub struct Return {
    pub value: Option<Expression>,
}

/// Statements.
#[derive(Debug, PartialEq)]
pub enum Statement {
    Assignment(Assignment),
    Expression(Expression),
    Sink(SinkCall),
    Return(Return),
    If { condition: Expression, then_branch: Vec<Statement>, else_branch: Option<Vec<Statement>> },
    While { condition: Expression, body: Vec<Statement> },
}

/// `header { key: value ... }`.
#[derive(Debug, Clone, PartialEq)]
pub struct HeaderBlock {
    pub items: Vec<(String, String)>,
}

/// `module name: { ... }`.
#[derive(Debug, PartialEq)]
pub struct ModuleBlock {
    pub name: String,
    pub statements: Vec<Statement>,
    pub functions: Vec<FunctionBlock>,
    pub inputs: Vec<Parameter>,
}

/// `func name(params) -> type { body }`.
#[derive(Debug, PartialEq)]
pub struct FunctionBlock {
    pub name: String,
    pub params: Vec<Parameter>,
    pub return_type: ValueType,
    pub body: Vec<Statement>,
}

/// `input { name: type ... }`.
#[derive(Debug, Clone, PartialEq)]
pub struct InputBlock {
    pub items: Vec<(String, String)>,
}

/// A whole program.
#[derive(Debug, PartialEq)]
pub struct Program {
    pub header: Option<HeaderBlock>,
    pub inputs: Option<InputBlock>,
    pub modules: Vec<ModuleBlock>,
}

// ---------------------------------------------------------------------------
// Text forms
// ---------------------------------------------------------------------------

/// The name of a value type.
pub open spec fn value_type_text(t: ValueType) -> Seq<char> {
    match t {
        ValueType::I64 => "i64"@,
        ValueType::F64 => "f64"@,
    }
}

/// The source symbol of a binary operator.
pub open spec fn binary_op_text(op: BinaryOp) -> Seq<char> {
    match op {
        BinaryOp::Add => "+"@,
        BinaryOp::Sub => "-"@,
        BinaryOp::Mul => "*"@,
        BinaryOp::Div => "/"@,
        BinaryOp::Mod => "%"@,
        BinaryOp::BitAnd => "&"@,
        BinaryOp::BitOr => "|"@,
        BinaryOp::BitXor => "^"@,
        BinaryOp::Shl => "<<"@,
        BinaryOp::Shr => ">>"@,
        BinaryOp::Eq => "=="@,
        BinaryOp::Ne => "!="@,
        BinaryOp::Lt => "<"@,
        BinaryOp::Le => "<="@,
        BinaryOp::Gt => ">"@,
        BinaryOp::Ge => ">="@,
    }
}

/// The source symbol of a prefix operator.
pub open spec fn unary_op_text(op: UnaryOp) -> Seq<char> {
    match op {
        UnaryOp::Pos => "+"@,
        UnaryOp::Negate => "-"@,
        UnaryOp::Not => "!"@,
        UnaryOp::BitNot => "~"@,
    }
}

/// The text of a literal value: integers in decimal, floats as `f64`
/// displays them, strings between double quotes (unescaped).
pub open spec fn literal_value_text(v: LiteralValue) -> Seq<char> {
    match v {
        LiteralValue::Int(i) => int_text(i as int),
        LiteralValue::Float(f) => f.display@,
        LiteralValue::String(s) => "\""@ + s@ + "\""@,
    }
}

impl ValueType {
    /// `i64` or `f64`.
    pub fn to_text(&self) -> (r: &'static str)
        ensures
            r@ == value_type_text(*self),
    {
        match self {
            ValueType::I64 => "i64",
            ValueType::F64 => "f64",
        }
    }
}

impl BinaryOp {
    /// The operator's source symbol.
    pub fn to_text(&self) -> (r: &'static str)
        ensures
            r@ == binary_op_text(*self),
    {
        match self {
            BinaryOp::Add => "+",
            BinaryOp::Sub => "-",
            BinaryOp::Mul => "*",
            BinaryOp::Div => "/",
            BinaryOp::Mod => "%",
            BinaryOp::BitAnd => "&",
            BinaryOp::BitOr => "|",
            BinaryOp::BitXor => "^",
            BinaryOp::Shl => "<<",
            BinaryOp::Shr => ">>",
            BinaryOp::Eq => "==",
            BinaryOp::Ne => "!=",
            BinaryOp::Lt => "<",
            BinaryOp::Le => "<=",
            BinaryOp::Gt => ">",
            BinaryOp::Ge => ">=",
        }
    }
}

impl UnaryOp {
    /// The operator's source symbol.
    pub fn to_text(&self) -> (r: &'static str)
        ensures
            r@ == unary_op_text(*self),
    {
        match self {
            UnaryOp::Pos => "+",
            UnaryOp::Negate => "-",
            UnaryOp::Not => "!",
            UnaryOp::BitNot => "~",
        }
    }
}

impl LiteralValue {
    /// The literal's text.
    pub fn to_text(&self) -> (r: String)
        ensures
            r@ == literal_value_text(*self),
    {
        let mut s = String::new();
        match self {
            LiteralValue::Int(v) => push_int(&mut s, *v),
            LiteralValue::Float(f) => push_string(&mut s, &f.display),
            LiteralValue::String(v) => {
                push_str(&mut s, "\"");
                push_string(&mut s, v);
                push_str(&mut s, "\"");
            },
        }
        assert(s@ =~= literal_value_text(*self));
        s
    }
}

impl Parameter {
    /// `name: type`.
    pub fn to_text(&self) -> (r: String)
        ensures
            r@ == self.name@ + ": "@ + value_type_text(self.ty),
    {
        let mut s = String::new();
        push_string(&mut s, &self.name);
        push_str(&mut s, ": ");
        push_str(&mut s, self.ty.to_text());
        assert(s@ =~= self.name@ + ": "@ + value_type_text(self.ty));
        s
    }
}

impl SinkCall {
    /// `name.sink`, where a missing sink name reads `out`.
    pub fn to_text(&self) -> (r: String)
        ensures
            r@ == self.name@ + "."@ + (match self.sink_name {
                Some(n) => n@,
                None => "out"@,
            }),
    {
        let mut s = String::new();
        push_string(&mut s, &self.name);
        push_str(&mut s, ".");
        match &self.sink_name {
            Some(n) => push_string(&mut s, n),
            None => push_str(&mut s, "out"),
        }
        assert(s@ =~= self.name@ + "."@ + (match self.sink_name {
            Some(n) => n@,
            None => "out"@,
        }));
        s
    }
}

// ---------------------------------------------------------------------------
// Views
// ---------------------------------------------------------------------------

/// A literal value with its text as a character sequence; a float by its
/// bits and display text.
pub enum LitV {
    Int(i64),
    Float(u64, Seq<char>),
    Str(Seq<char>),
}

/// An expression with its names as character sequences.
pub enum ExprV {
    Lit(LitV, ValueType),
    Var(Seq<char>),
    Binary(BinaryOp, Box<ExprV>, Box<ExprV>),
    Unary(UnaryOp, Box<ExprV>),
    Call(Seq<char>, Seq<ExprV>),
}

/// A statement with its names as character sequences.
pub enum StmtV {
    Assign(Seq<char>, ExprV),
    Expr(ExprV),
    Sink(Seq<char>, Seq<ExprV>, Option<Seq<char>>),
    Return(Option<ExprV>),
    If(ExprV, Seq<StmtV>, Option<Seq<StmtV>>),
    While(ExprV, Seq<StmtV>),
}

/// A function with its names as character sequences.
pub struct FuncV {
    pub name: Seq<char>,
    pub params: Seq<(Seq<char>, ValueType)>,
    pub ret: ValueType,
    pub body: Seq<StmtV>,
}

/// A module with its names as character sequences.
pub struct ModuleV {
    pub name: Seq<char>,
    pub statements: Seq<StmtV>,
    pub functions: Seq<FuncV>,
    pub inputs: Seq<(Seq<char>, ValueType)>,
}

/// A program with its names as character sequences; the header and input
/// blocks by their items.
pub struct ProgramV {
    pub header: Option<Seq<(Seq<char>, Seq<char>)>>,
    pub inputs: Option<Seq<(Seq<char>, Seq<char>)>>,
    pub modules: Seq<ModuleV>,
}

/// The view of a literal value.
pub open spec fn lit_v(v: LiteralValue) -> LitV {
    match v {
        LiteralValue::Int(i) => LitV::Int(i),
        LiteralValue::Float(f) => LitV::Float(f.bits, f.display@),
        LiteralValue::String(s) => LitV::Str(s@),
    }
}

/// The view of an expression.
pub open spec fn expr_v(e: Expression) -> ExprV
    decreases e,
{
    match e {
        Expression::Literal(l) => ExprV::Lit(lit_v(l.value), l.ty),
        Expression::Variable(v) => ExprV::Var(v.name@),
        Expression::Binary { op, left, right } => ExprV::Binary(op, Box::new(expr_v(*left)), Box::new(expr_v(*right))),
        Expression::Unary { op, operand } => ExprV::Unary(op, Box::new(expr_v(*operand))),
        Expression::Call { name, args } => ExprV::Call(name@, exprs_v(args@)),
    }
}

/// The views of a sequence of expressions.
pub open spec fn exprs_v(es: Seq<Expression>) -> Seq<ExprV>
    decreases es,
{
    if es.len() == 0 {
        Seq::empty()
    } else {
        exprs_v(es.subrange(0, es.len() - 1)).push(expr_v(es[es.len() - 1]))
    }
}

/// The pairs of names and types of parameters.
pub open spec fn params_v(ps: Seq<Parameter>) -> Seq<(Seq<char>, ValueType)> {
    ps.map_values(|p: Parameter| (p.name@, p.ty))
}

/// The view of a statement.
pub open spec fn stmt_v(s: Statement) -> StmtV
    decreases s,
{
    match s {
        Statement::Assignment(a) => StmtV::Assign(a.name@, expr_v(a.value)),
        Statement::Expression(e) => StmtV::Expr(expr_v(e)),
        Statement::Sink(k) => StmtV::Sink(k.name@, exprs_v(k.args@), match k.sink_name {
            Some(n) => Some(n@),
            None => None,
        }),
        Statement::Return(r) => StmtV::Return(match r.value {
            Some(e) => Some(expr_v(e)),
            None => None,
        }),
        Statement::If { condition, then_branch, else_branch } => StmtV::If(expr_v(condition),
            stmts_v(then_branch@), match else_branch {
                Some(b) => Some(stmts_v(b@)),
                None => None,
            }),
        Statement::While { condition, body } => StmtV::While(expr_v(condition), stmts_v(body@)),
    }
}

/// The views of a sequence of statements.
pub open spec fn stmts_v(ss: Seq<Statement>) -> Seq<StmtV>
    decreases ss,
{
    if ss.len() == 0 {
        Seq::empty()
    } else {
        stmts_v(ss.subrange(0, ss.len() - 1)).push(stmt_v(ss[ss.len() - 1]))
    }
}

/// The view of a function.
pub open spec fn func_v(f: FunctionBlock) -> FuncV {
    FuncV { name: f.name@, params: params_v(f.params@), ret: f.return_type, body: stmts_v(f.body@) }
}

/// The pairs of texts of a header or input block.
pub open spec fn items_v(items: Seq<(String, String)>) -> Seq<(Seq<char>, Seq<char>)> {
    items.map_values(|p: (String, String)| (p.0@, p.1@))
}

/// The view of a module.
pub open spec fn module_v(m: ModuleBlock) -> ModuleV {
    ModuleV {
        name: m.name@,
        statements: stmts_v(m.statements@),
        functions: m.functions@.map_values(|f: FunctionBlock| func_v(f)),
        inputs: params_v(m.inputs@),
    }
}

/// The view of a program.
pub open spec fn program_v(p: Program) -> ProgramV {
    ProgramV {
        header: match p.header {
            Some(h) => Some(items_v(h.items@)),
            None => None,
        },
        inputs: match p.inputs {
            Some(ib) => Some(items_v(ib.items@)),
            None => None,
        },
        modules: p.modules@.map_values(|m: ModuleBlock| module_v(m)),
    }
}

} // verus!
