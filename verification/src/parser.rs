//! The parser: tokens to a program, by recursive descent with precedence
//! climbing for binary operators.

use vstd::prelude::*;
use crate::ast::{binary_op_text, unary_op_text, Assignment, FloatValue, BinaryOp, ExprV, Expression, FuncV, FunctionBlock, HeaderBlock, InputBlock, LitV, Literal,
    LiteralValue, ModuleBlock, ModuleV, Parameter, Program, ProgramV, Return, SinkCall, Statement, StmtV, UnaryOp, ValueType,
    Variable, expr_v, exprs_v, func_v, items_v, module_v, params_v, program_v, stmt_v, stmts_v};
use crate::lexer::{FloatLit, Pos, Token, TokenType, TokenTypeV, TokenV, at_text, scan_token_spec, tokens_view};
use crate::text::{int_text, int_to_string, push_char, push_int, push_str, push_string, string_of};

verus! {

// ---------------------------------------------------------------------------
// Token texts for messages
// ---------------------------------------------------------------------------

/// What `{:?}` writes for a string: the text between double quotes, with
/// escapes.
pub uninterp spec fn str_debug(s: Seq<char>) -> Seq<char>;

/// `{:?}` of a string (std's `Debug` for `str`).
#[verifier::external_body]
fn debug_string(s: &String) -> (r: String)
    ensures
        r@ == str_debug(s@),
{
    format!("{:?}", s)
}

/// What `{:?}` writes for a token kind.
pub open spec fn token_debug(t: TokenTypeV) -> Seq<char> {
    match t {
        TokenTypeV::IntLiteral(v) => "IntLiteral("@ + int_text(v as int) + ")"@,
        TokenTypeV::FloatLiteral(text, value) => "FloatLiteral("@ + (match value {
            Some(v) => v.2,
            None => text,
        }) + ")"@,
        TokenTypeV::StringLiteral(s) => "StringLiteral("@ + str_debug(s) + ")"@,
        TokenTypeV::Identifier(s) => "Identifier("@ + str_debug(s) + ")"@,
        TokenTypeV::Plus => "Plus"@,
        TokenTypeV::Minus => "Minus"@,
        TokenTypeV::Star => "Star"@,
        TokenTypeV::Slash => "Slash"@,
        TokenTypeV::Percent => "Percent"@,
        TokenTypeV::Ampersand => "Ampersand"@,
        TokenTypeV::Pipe => "Pipe"@,
        TokenTypeV::Caret => "Caret"@,
        TokenTypeV::LessLess => "LessLess"@,
        TokenTypeV::GreaterGreater => "GreaterGreater"@,
        TokenTypeV::EqualEqual => "EqualEqual"@,
        TokenTypeV::BangEqual => "BangEqual"@,
        TokenTypeV::Less => "Less"@,
        TokenTypeV::LessEqual => "LessEqual"@,
        TokenTypeV::Greater => "Greater"@,
        TokenTypeV::GreaterEqual => "GreaterEqual"@,
        TokenTypeV::Bang => "Bang"@,
        TokenTypeV::Tilde => "Tilde"@,
        TokenTypeV::LBrace => "LBrace"@,
        TokenTypeV::RBrace => "RBrace"@,
        TokenTypeV::LParen => "LParen"@,
        TokenTypeV::RParen => "RParen"@,
        TokenTypeV::Dot => "Dot"@,
        TokenTypeV::DotDot => "DotDot"@,
        TokenTypeV::Colon => "Colon"@,
        TokenTypeV::Comma => "Comma"@,
        TokenTypeV::Header => "Header"@,
        TokenTypeV::Input => "Input"@,
        TokenTypeV::Module => "Module"@,
        TokenTypeV::If => "If"@,
        TokenTypeV::Else => "Else"@,
        TokenTypeV::While => "While"@,
        TokenTypeV::Func => "Func"@,
        TokenTypeV::Return => "Return"@,
        TokenTypeV::Newline => "Newline"@,
        TokenTypeV::Eof => "Eof"@,
    }
}

// ---------------------------------------------------------------------------
// Reading tokens
// ---------------------------------------------------------------------------

/// The parser can read token `i`: the tokens end with `Eof`.
pub open spec fn well_ended(ts: Seq<TokenV>) -> bool {
    ts.len() > 0 && ts.last().ty is Eof
}

/// Whether the parser at `i` is at the end.
pub open spec fn at_end(ts: Seq<TokenV>, i: int) -> bool {
    i >= ts.len() || ts[i].ty is Eof
}

/// Whether token `i` is of kind `k` (a kind without payload).
pub open spec fn check(ts: Seq<TokenV>, i: int, k: TokenTypeV) -> bool {
    0 <= i < ts.len() && ts[i].ty == k
}

/// Past the line breaks at `i`.
pub open spec fn skip_nl(ts: Seq<TokenV>, i: int) -> int
    decreases ts.len() - i,
{
    if 0 <= i && check(ts, i, TokenTypeV::Newline) { skip_nl(ts, i + 1) } else { i }
}

/// ` at line <l>, column <c>` of token `i`.
pub open spec fn at_token(ts: Seq<TokenV>, i: int) -> Seq<char> {
    at_text(ts[i].line, ts[i].column)
}

/// Token `i` must be of kind `k`: the position after it, or the error.
pub open spec fn expect(ts: Seq<TokenV>, i: int, k: TokenTypeV) -> Result<int, Seq<char>> {
    if ts[i].ty == k {
        Ok(i + 1)
    } else {
        Err("Expected "@ + token_debug(k) + " but found "@ + token_debug(ts[i].ty) + at_token(ts, i))
    }
}

/// Token `i` must be an identifier: its name and the position after it.
pub open spec fn expect_ident(ts: Seq<TokenV>, i: int) -> Result<(Seq<char>, int), Seq<char>> {
    match ts[i].ty {
        TokenTypeV::Identifier(s) => Ok((s, i + 1)),
        _ => Err("Expected identifier"@ + at_token(ts, i)),
    }
}

/// Token `i` must be a type name.
pub open spec fn expect_type(ts: Seq<TokenV>, i: int) -> Result<(Seq<char>, int), Seq<char>> {
    match ts[i].ty {
        TokenTypeV::Identifier(s) => Ok((s, i + 1)),
        _ => Err("Expected type"@ + at_token(ts, i)),
    }
}

/// The value of a header item: a name, an integer or a float, as text.
pub open spec fn header_value(ts: Seq<TokenV>, i: int) -> Result<(Seq<char>, int), Seq<char>> {
    match ts[i].ty {
        TokenTypeV::Identifier(s) => Ok((s, i + 1)),
        TokenTypeV::IntLiteral(v) => Ok((int_text(v as int), i + 1)),
        TokenTypeV::FloatLiteral(text, value) => Ok((match value {
            Some(v) => v.1,
            None => text,
        }, i + 1)),
        _ => Err("Expected header value"@ + at_token(ts, i)),
    }
}

/// The type a type name denotes, if any.
pub open spec fn type_of_name(t: Seq<char>) -> Option<ValueType> {
    if t == "i64"@ {
        Some(ValueType::I64)
    } else if t == "f64"@ {
        Some(ValueType::F64)
    } else {
        None
    }
}

// ---------------------------------------------------------------------------
// Expressions
// ---------------------------------------------------------------------------

/// The binding strength of a binary operator token; 0 for any other token.
pub open spec fn op_prec(t: TokenTypeV) -> int {
    match t {
        TokenTypeV::EqualEqual | TokenTypeV::BangEqual => 10,
        TokenTypeV::Less | TokenTypeV::LessEqual | TokenTypeV::Greater | TokenTypeV::GreaterEqual => 11,
        TokenTypeV::LessLess | TokenTypeV::GreaterGreater => 12,
        TokenTypeV::Ampersand => 13,
        TokenTypeV::Caret => 14,
        TokenTypeV::Pipe => 15,
        TokenTypeV::Plus | TokenTypeV::Minus => 16,
        TokenTypeV::Star | TokenTypeV::Slash | TokenTypeV::Percent => 17,
        _ => 0,
    }
}

/// The binary operator of an operator token.
pub open spec fn binop_of(t: TokenTypeV) -> BinaryOp {
    match t {
        TokenTypeV::Plus => BinaryOp::Add,
        TokenTypeV::Minus => BinaryOp::Sub,
        TokenTypeV::Star => BinaryOp::Mul,
        TokenTypeV::Slash => BinaryOp::Div,
        TokenTypeV::Percent => BinaryOp::Mod,
        TokenTypeV::Ampersand => BinaryOp::BitAnd,
        TokenTypeV::Pipe => BinaryOp::BitOr,
        TokenTypeV::Caret => BinaryOp::BitXor,
        TokenTypeV::LessLess => BinaryOp::Shl,
        TokenTypeV::GreaterGreater => BinaryOp::Shr,
        TokenTypeV::EqualEqual => BinaryOp::Eq,
        TokenTypeV::BangEqual => BinaryOp::Ne,
        TokenTypeV::Less => BinaryOp::Lt,
        TokenTypeV::LessEqual => BinaryOp::Le,
        TokenTypeV::Greater => BinaryOp::Gt,
        _ => BinaryOp::Ge,
    }
}

/// `op`'s spelling followed by a space, as the lexer reads it from the
/// start of a text: one token over the whole spelling.
pub open spec fn read_operator(op: BinaryOp) -> Result<(TokenV, Pos), Seq<char>> {
    scan_token_spec(binary_op_text(op) + seq![' '], Pos { pos: 0, line: 1, col: 1 })
}

/// Law: every binary operator, spelled as the language writes it, is read
/// by the lexer as one token that spans the spelling and that the parser
/// takes for that same operator: `<` is `Lt` and `<=` is `Le`, `<<` is
/// `Shl`, and so on for each of them.
pub proof fn lemma_operator_spelling(op: BinaryOp)
    ensures
        read_operator(op) matches Ok((t, e))
            && op_prec(t.ty) > 0
            && binop_of(t.ty) == op
            && e.pos == binary_op_text(op).len(),
{
    match op {
        BinaryOp::Add => { reveal_strlit("+"); },
        BinaryOp::Sub => { reveal_strlit("-"); },
        BinaryOp::Mul => { reveal_strlit("*"); },
        BinaryOp::Div => { reveal_strlit("/"); },
        BinaryOp::Mod => { reveal_strlit("%"); },
        BinaryOp::BitAnd => { reveal_strlit("&"); },
        BinaryOp::BitOr => { reveal_strlit("|"); },
        BinaryOp::BitXor => { reveal_strlit("^"); },
        BinaryOp::Shl => { reveal_strlit("<<"); },
        BinaryOp::Shr => { reveal_strlit(">>"); },
        BinaryOp::Eq => { reveal_strlit("=="); },
        BinaryOp::Ne => { reveal_strlit("!="); },
        BinaryOp::Lt => { reveal_strlit("<"); },
        BinaryOp::Le => { reveal_strlit("<="); },
        BinaryOp::Gt => { reveal_strlit(">"); },
        BinaryOp::Ge => { reveal_strlit(">="); },
    }
    let s = binary_op_text(op) + seq![' '];
    assert(s.len() == binary_op_text(op).len() + 1);
    assert(s[0] == binary_op_text(op)[0]);
    assert(binary_op_text(op).len() == 2 ==> s[1] == binary_op_text(op)[1]);
    assert(s[binary_op_text(op).len() as int] == ' ');
}

/// The prefix operator of a token, if it is one.
pub open spec fn unop_of(t: TokenTypeV) -> Option<UnaryOp> {
    match t {
        TokenTypeV::Plus => Some(UnaryOp::Pos),
        TokenTypeV::Minus => Some(UnaryOp::Negate),
        TokenTypeV::Bang => Some(UnaryOp::Not),
        TokenTypeV::Tilde => Some(UnaryOp::BitNot),
        _ => None,
    }
}

/// Law: every prefix operator, spelled as the language writes it, is read
/// by the lexer as one token that the parser takes for that same prefix
/// operator.
pub proof fn lemma_prefix_spelling(op: UnaryOp)
    ensures
        scan_token_spec(unary_op_text(op) + seq![' '], Pos { pos: 0, line: 1, col: 1 }) matches Ok((t, e))
            && unop_of(t.ty) == Some(op)
            && e.pos == 1,
{
    match op {
        UnaryOp::Pos => { reveal_strlit("+"); },
        UnaryOp::Negate => { reveal_strlit("-"); },
        UnaryOp::Not => { reveal_strlit("!"); },
        UnaryOp::BitNot => { reveal_strlit("~"); },
    }
    let s = unary_op_text(op) + seq![' '];
    assert(s[0] == unary_op_text(op)[0]);
    assert(s[1] == ' ');
}

/// A primary expression at `i`: a literal, a variable, a call, a
/// parenthesized expression, or a prefix operator applied to a primary.
pub open spec fn p_primary(ts: Seq<TokenV>, i: int) -> Result<(ExprV, int), Seq<char>>
    decreases ts.len() - i, 0int,
{
    if !(0 <= i < ts.len()) {
        arbitrary()
    } else {
        match ts[i].ty {
            TokenTypeV::IntLiteral(v) => Ok((ExprV::Lit(LitV::Int(v), ValueType::I64), i + 1)),
            TokenTypeV::FloatLiteral(_, value) =>
                Ok((ExprV::Lit(LitV::Float(value->Some_0.0, value->Some_0.1), ValueType::F64), i + 1)),
            TokenTypeV::StringLiteral(s) => Ok((ExprV::Lit(LitV::Str(s), ValueType::I64), i + 1)),
            TokenTypeV::Identifier(name) => if check(ts, i + 1, TokenTypeV::LParen) {
                if check(ts, i + 2, TokenTypeV::RParen) {
                    Ok((ExprV::Call(name, Seq::empty()), i + 3))
                } else {
                    match p_args(ts, i + 2, Seq::empty()) {
                        Ok((args, j)) => match expect(ts, j, TokenTypeV::RParen) {
                            Ok(k) => Ok((ExprV::Call(name, args), k)),
                            Err(m) => Err(m),
                        },
                        Err(m) => Err(m),
                    }
                }
            } else {
                Ok((ExprV::Var(name), i + 1))
            },
            TokenTypeV::LParen => match p_expr(ts, i + 1) {
                Ok((e, j)) => match expect(ts, j, TokenTypeV::RParen) {
                    Ok(k) => Ok((e, k)),
                    Err(m) => Err(m),
                },
                Err(m) => Err(m),
            },
            _ => match unop_of(ts[i].ty) {
                Some(op) => match p_primary(ts, i + 1) {
                    Ok((e, j)) => Ok((ExprV::Unary(op, Box::new(e)), j)),
                    Err(m) => Err(m),
                },
                None => Err("Unexpected token in expression: "@ + token_debug(ts[i].ty) + at_token(ts, i)),
            },
        }
    }
}

/// Binary operators binding at least `min` after `left`, which ends at `i`.
pub open spec fn p_climb(ts: Seq<TokenV>, left: ExprV, i: int, min: int) -> Result<(ExprV, int), Seq<char>>
    decreases ts.len() - i, 1int,
{
    if !(0 <= i < ts.len()) || at_end(ts, i) || op_prec(ts[i].ty) == 0 || op_prec(ts[i].ty) < min {
        Ok((left, i))
    } else {
        let prec = op_prec(ts[i].ty);
        // The right operand takes only operators that bind tighter: an
        // operator is left-associative with those of its own level.
        let right_prec = prec + 1;
        match p_prec(ts, i + 1, right_prec) {
            Ok((right, j)) => if i < j <= ts.len() {
                p_climb(ts, ExprV::Binary(binop_of(ts[i].ty), Box::new(left), Box::new(right)), j, min)
            } else {
                arbitrary()
            },
            Err(m) => Err(m),
        }
    }
}

/// An expression at `i` whose binary operators bind at least `min`.
pub open spec fn p_prec(ts: Seq<TokenV>, i: int, min: int) -> Result<(ExprV, int), Seq<char>>
    decreases ts.len() - i, 2int,
{
    match p_primary(ts, i) {
        Ok((left, j)) => if i < j <= ts.len() { p_climb(ts, left, j, min) } else { arbitrary() },
        Err(m) => Err(m),
    }
}

/// An expression at `i`.
pub open spec fn p_expr(ts: Seq<TokenV>, i: int) -> Result<(ExprV, int), Seq<char>>
    decreases ts.len() - i, 3int,
{
    p_prec(ts, i, 0)
}

/// Comma-separated arguments at `i`, after `acc`.
pub open spec fn p_args(ts: Seq<TokenV>, i: int, acc: Seq<ExprV>) -> Result<(Seq<ExprV>, int), Seq<char>>
    decreases ts.len() - i, 4int,
{
    match p_expr(ts, i) {
        Ok((e, j)) => if check(ts, j, TokenTypeV::Comma) {
            if i <= j < ts.len() { p_args(ts, j + 1, acc.push(e)) } else { arbitrary() }
        } else {
            Ok((acc.push(e), j))
        },
        Err(m) => Err(m),
    }
}

// ---------------------------------------------------------------------------
// Progress of expression parsing
// ---------------------------------------------------------------------------

pub proof fn lemma_expect(ts: Seq<TokenV>, j: int, k: TokenTypeV)
    requires
        well_ended(ts),
        0 <= j < ts.len(),
        !(k is Eof),
    ensures
        expect(ts, j, k) matches Ok(n) ==> n == j + 1 && n < ts.len(),
{
}

/// A parsed primary expression takes at least one token, and stops before
/// the `Eof`.
pub proof fn lemma_primary_progress(ts: Seq<TokenV>, i: int)
    requires
        well_ended(ts),
        0 <= i < ts.len(),
    ensures
        p_primary(ts, i) matches Ok((_, j)) ==> i < j < ts.len(),
    decreases ts.len() - i, 0int,
{
    if !(ts[i].ty is Eof) {
        match ts[i].ty {
            TokenTypeV::Identifier(_) => {
                if check(ts, i + 1, TokenTypeV::LParen) && !check(ts, i + 2, TokenTypeV::RParen) {
                    lemma_args_progress(ts, i + 2, Seq::empty());
                    if let Ok((_, j)) = p_args(ts, i + 2, Seq::empty()) {
                        lemma_expect(ts, j, TokenTypeV::RParen);
                    }
                }
            },
            TokenTypeV::LParen => {
                lemma_prec_progress(ts, i + 1, 0);
                if let Ok((_, j)) = p_expr(ts, i + 1) {
                    lemma_expect(ts, j, TokenTypeV::RParen);
                }
            },
            _ => {
                if unop_of(ts[i].ty) is Some {
                    lemma_primary_progress(ts, i + 1);
                }
            },
        }
    }
}

/// Climbing stops at or after where it starts, before the `Eof`.
pub proof fn lemma_climb_progress(ts: Seq<TokenV>, left: ExprV, i: int, min: int)
    requires
        well_ended(ts),
        0 <= i < ts.len(),
    ensures
        p_climb(ts, left, i, min) matches Ok((_, j)) ==> i <= j < ts.len(),
    decreases ts.len() - i, 1int,
{
    if !(at_end(ts, i) || op_prec(ts[i].ty) == 0 || op_prec(ts[i].ty) < min) {
        let prec = op_prec(ts[i].ty);
        let right_prec = prec + 1;
        lemma_prec_progress(ts, i + 1, right_prec);
        if let Ok((right, j)) = p_prec(ts, i + 1, right_prec) {
            lemma_climb_progress(ts, ExprV::Binary(binop_of(ts[i].ty), Box::new(left), Box::new(right)), j, min);
        }
    }
}

/// A parsed expression takes at least one token, and stops before the
/// `Eof`.
pub proof fn lemma_prec_progress(ts: Seq<TokenV>, i: int, min: int)
    requires
        well_ended(ts),
        0 <= i < ts.len(),
    ensures
        p_prec(ts, i, min) matches Ok((_, j)) ==> i < j < ts.len(),
    decreases ts.len() - i, 2int,
{
    lemma_primary_progress(ts, i);
    if let Ok((left, j)) = p_primary(ts, i) {
        lemma_climb_progress(ts, left, j, min);
    }
}

/// Parsed arguments take at least one token, and stop before the `Eof`.
pub proof fn lemma_args_progress(ts: Seq<TokenV>, i: int, acc: Seq<ExprV>)
    requires
        well_ended(ts),
        0 <= i < ts.len(),
    ensures
        p_args(ts, i, acc) matches Ok((_, j)) ==> i < j < ts.len(),
    decreases ts.len() - i, 4int,
{
    lemma_prec_progress(ts, i, 0);
    if let Ok((e, j)) = p_expr(ts, i) {
        if check(ts, j, TokenTypeV::Comma) {
            lemma_args_progress(ts, j + 1, acc.push(e));
        }
    }
}

// ---------------------------------------------------------------------------
// Statements
// ---------------------------------------------------------------------------

/// Past the line breaks, within the tokens.
pub proof fn lemma_skip_nl(ts: Seq<TokenV>, i: int)
    requires
        0 <= i <= ts.len(),
    ensures
        i <= skip_nl(ts, i) <= ts.len(),
        well_ended(ts) && i < ts.len() ==> skip_nl(ts, i) < ts.len(),
    decreases ts.len() - i,
{
    if check(ts, i, TokenTypeV::Newline) {
        lemma_skip_nl(ts, i + 1);
    }
}

/// `( expression )` at `i`.
pub open spec fn p_paren(ts: Seq<TokenV>, i: int) -> Result<(ExprV, int), Seq<char>> {
    match expect(ts, i, TokenTypeV::LParen) {
        Ok(i1) => match p_expr(ts, i1) {
            Ok((e, j)) => match expect(ts, j, TokenTypeV::RParen) {
                Ok(k) => Ok((e, k)),
                Err(m) => Err(m),
            },
            Err(m) => Err(m),
        },
        Err(m) => Err(m),
    }
}

pub proof fn lemma_paren_progress(ts: Seq<TokenV>, i: int)
    requires
        well_ended(ts),
        0 <= i < ts.len(),
    ensures
        p_paren(ts, i) matches Ok((_, j)) ==> i < j < ts.len(),
{
    lemma_expect(ts, i, TokenTypeV::LParen);
    if let Ok(i1) = expect(ts, i, TokenTypeV::LParen) {
        lemma_prec_progress(ts, i1, 0);
        if let Ok((_, j)) = p_expr(ts, i1) {
            lemma_expect(ts, j, TokenTypeV::RParen);
        }
    }
}

/// `return [expression]` at `i`: no value before `}`, a line break or the
/// end.
pub open spec fn p_return(ts: Seq<TokenV>, i: int) -> Result<(StmtV, int), Seq<char>> {
    match expect(ts, i, TokenTypeV::Return) {
        Ok(i1) => if check(ts, i1, TokenTypeV::RBrace) || check(ts, i1, TokenTypeV::Newline) || at_end(ts, i1) {
            Ok((StmtV::Return(None), i1))
        } else {
            match p_expr(ts, i1) {
                Ok((e, j)) => Ok((StmtV::Return(Some(e)), j)),
                Err(m) => Err(m),
            }
        },
        Err(m) => Err(m),
    }
}

/// `name: expression` at `i` (token `i` an identifier).
pub open spec fn p_assignment(ts: Seq<TokenV>, i: int) -> Result<(StmtV, int), Seq<char>> {
    match expect(ts, i + 1, TokenTypeV::Colon) {
        Ok(i2) => match p_expr(ts, i2) {
            Ok((e, j)) => Ok((StmtV::Assign(ts[i].ty->Identifier_0, e), j)),
            Err(m) => Err(m),
        },
        Err(m) => Err(m),
    }
}

/// An expression at `i`, or a call with a sink: `call(args).name`, or
/// `call(args).` before `}` or the end.
pub open spec fn p_expr_or_sink(ts: Seq<TokenV>, i: int) -> Result<(StmtV, int), Seq<char>> {
    match p_expr(ts, i) {
        Ok((e, j)) => if check(ts, j, TokenTypeV::Dot) {
            let k = j + 1;
            let sink = match ts[k].ty {
                TokenTypeV::Identifier(n) => Ok((Some(n), k + 1)),
                _ => if check(ts, k, TokenTypeV::RBrace) || at_end(ts, k) {
                    Ok((None, k))
                } else {
                    Err("Expected sink name or '}' after '.'"@ + at_token(ts, k))
                },
            };
            match sink {
                Ok((name, n)) => match e {
                    ExprV::Call(f, args) => Ok((StmtV::Sink(f, args, name), n)),
                    _ => Err("Only function calls can have sinks, got expression"@ + at_token(ts, n)),
                },
                Err(m) => Err(m),
            }
        } else {
            Ok((StmtV::Expr(e), j))
        },
        Err(m) => Err(m),
    }
}

/// `if (cond) { ... }` with an optional `else { ... }` or `else if ...`
/// (an `else if` is an `else` block holding the inner `if`).
pub open spec fn p_if(ts: Seq<TokenV>, i: int) -> Result<(StmtV, int), Seq<char>>
    decreases ts.len() - i, 0int,
{
    if !(well_ended(ts) && 0 <= i < ts.len()) {
        arbitrary()
    } else {
        match expect(ts, i, TokenTypeV::If) {
            Ok(i1) => {
                proof {
                    lemma_paren_progress(ts, i1);
                }
                match p_paren(ts, i1) {
                    Ok((c, j)) => match p_block(ts, j) {
                        Ok((then_b, k)) => if check(ts, k, TokenTypeV::Else) && i < k {
                            if check(ts, k + 1, TokenTypeV::If) {
                                match p_if(ts, k + 1) {
                                    Ok((inner, n)) => Ok((StmtV::If(c, then_b, Some(seq![inner])), n)),
                                    Err(m) => Err(m),
                                }
                            } else {
                                match p_block(ts, k + 1) {
                                    Ok((else_b, n)) => Ok((StmtV::If(c, then_b, Some(else_b)), n)),
                                    Err(m) => Err(m),
                                }
                            }
                        } else if check(ts, k, TokenTypeV::Else) {
                            arbitrary()
                        } else {
                            Ok((StmtV::If(c, then_b, None), k))
                        },
                        Err(m) => Err(m),
                    },
                    Err(m) => Err(m),
                }
            },
            Err(m) => Err(m),
        }
    }
}

/// `while (cond) { ... }`.
pub open spec fn p_while(ts: Seq<TokenV>, i: int) -> Result<(StmtV, int), Seq<char>>
    decreases ts.len() - i, 0int,
{
    if !(well_ended(ts) && 0 <= i < ts.len()) {
        arbitrary()
    } else {
        match expect(ts, i, TokenTypeV::While) {
            Ok(i1) => {
                proof {
                    lemma_paren_progress(ts, i1);
                }
                match p_paren(ts, i1) {
                    Ok((c, j)) => match p_block(ts, j) {
                        Ok((body, k)) => Ok((StmtV::While(c, body), k)),
                        Err(m) => Err(m),
                    },
                    Err(m) => Err(m),
                }
            },
            Err(m) => Err(m),
        }
    }
}

/// A statement at `i`.
pub open spec fn p_statement(ts: Seq<TokenV>, i: int) -> Result<(StmtV, int), Seq<char>>
    decreases ts.len() - i, 1int,
{
    if !(0 <= i < ts.len()) {
        arbitrary()
    } else {
        match ts[i].ty {
            TokenTypeV::If => p_if(ts, i),
            TokenTypeV::While => p_while(ts, i),
            TokenTypeV::Return => p_return(ts, i),
            TokenTypeV::Identifier(_) => if check(ts, i + 1, TokenTypeV::Colon) {
                p_assignment(ts, i)
            } else {
                p_expr_or_sink(ts, i)
            },
            _ => p_expr_or_sink(ts, i),
        }
    }
}

/// Statements at `i` up to `}` or the end, each followed by line breaks,
/// after `acc`.
pub open spec fn p_stmts(ts: Seq<TokenV>, i: int, acc: Seq<StmtV>) -> Result<(Seq<StmtV>, int), Seq<char>>
    decreases ts.len() - i, 2int,
{
    if !(0 <= i < ts.len()) || check(ts, i, TokenTypeV::RBrace) || at_end(ts, i) {
        Ok((acc, i))
    } else {
        match p_statement(ts, i) {
            Ok((st, j)) => if i < j <= ts.len() {
                proof {
                    lemma_skip_nl(ts, j);
                }
                p_stmts(ts, skip_nl(ts, j), acc.push(st))
            } else {
                arbitrary()
            },
            Err(m) => Err(m),
        }
    }
}

/// `{ statements }` at `i`.
pub open spec fn p_block(ts: Seq<TokenV>, i: int) -> Result<(Seq<StmtV>, int), Seq<char>>
    decreases ts.len() - i, 3int,
{
    if !(0 <= i < ts.len()) {
        arbitrary()
    } else {
        match expect(ts, i, TokenTypeV::LBrace) {
            Ok(i1) => {
                proof {
                    lemma_skip_nl(ts, i1);
                }
                match p_stmts(ts, skip_nl(ts, i1), Seq::empty()) {
                    Ok((ss, j)) => match expect(ts, j, TokenTypeV::RBrace) {
                        Ok(k) => Ok((ss, k)),
                        Err(m) => Err(m),
                    },
                    Err(m) => Err(m),
                }
            },
            Err(m) => Err(m),
        }
    }
}

// ---------------------------------------------------------------------------
// Progress of statement parsing
// ---------------------------------------------------------------------------

proof fn lemma_simple_stmt_progress(ts: Seq<TokenV>, i: int)
    requires
        well_ended(ts),
        0 <= i < ts.len(),
    ensures
        p_return(ts, i) matches Ok((_, j)) ==> i < j < ts.len(),
        ts[i].ty is Identifier ==> (p_assignment(ts, i) matches Ok((_, j)) ==> i < j < ts.len()),
        p_expr_or_sink(ts, i) matches Ok((_, j)) ==> i < j < ts.len(),
{
    lemma_expect(ts, i, TokenTypeV::Return);
    if let Ok(i1) = expect(ts, i, TokenTypeV::Return) {
        if !(check(ts, i1, TokenTypeV::RBrace) || check(ts, i1, TokenTypeV::Newline) || at_end(ts, i1)) {
            lemma_prec_progress(ts, i1, 0);
        }
    }
    if ts[i].ty is Identifier {
        lemma_expect(ts, i + 1, TokenTypeV::Colon);
        if let Ok(i2) = expect(ts, i + 1, TokenTypeV::Colon) {
            lemma_prec_progress(ts, i2, 0);
        }
    }
    lemma_prec_progress(ts, i, 0);
}

/// A parsed `if` takes at least one token and stops before the `Eof`.
pub proof fn lemma_if_progress(ts: Seq<TokenV>, i: int)
    requires
        well_ended(ts),
        0 <= i < ts.len(),
    ensures
        p_if(ts, i) matches Ok((_, j)) ==> i < j < ts.len(),
        p_while(ts, i) matches Ok((_, j)) ==> i < j < ts.len(),
    decreases ts.len() - i, 0int,
{
    lemma_expect(ts, i, TokenTypeV::If);
    if let Ok(i1) = expect(ts, i, TokenTypeV::If) {
        lemma_paren_progress(ts, i1);
        if let Ok((_, j)) = p_paren(ts, i1) {
            lemma_block_progress(ts, j);
            if let Ok((_, k)) = p_block(ts, j) {
                if check(ts, k, TokenTypeV::Else) {
                    if check(ts, k + 1, TokenTypeV::If) {
                        lemma_if_progress(ts, k + 1);
                    } else {
                        lemma_block_progress(ts, k + 1);
                    }
                }
            }
        }
    }
    lemma_expect(ts, i, TokenTypeV::While);
    if let Ok(i1) = expect(ts, i, TokenTypeV::While) {
        lemma_paren_progress(ts, i1);
        if let Ok((_, j)) = p_paren(ts, i1) {
            lemma_block_progress(ts, j);
        }
    }
}

/// A parsed statement takes at least one token and stops before the `Eof`.
pub proof fn lemma_statement_progress(ts: Seq<TokenV>, i: int)
    requires
        well_ended(ts),
        0 <= i < ts.len(),
    ensures
        p_statement(ts, i) matches Ok((_, j)) ==> i < j < ts.len(),
    decreases ts.len() - i, 1int,
{
    lemma_if_progress(ts, i);
    lemma_simple_stmt_progress(ts, i);
}

/// Statements stop at or after where they start, before the `Eof`.
pub proof fn lemma_stmts_progress(ts: Seq<TokenV>, i: int, acc: Seq<StmtV>)
    requires
        well_ended(ts),
        0 <= i < ts.len(),
    ensures
        p_stmts(ts, i, acc) matches Ok((_, j)) ==> i <= j < ts.len(),
    decreases ts.len() - i, 2int,
{
    if !(check(ts, i, TokenTypeV::RBrace) || at_end(ts, i)) {
        lemma_statement_progress(ts, i);
        if let Ok((st, j)) = p_statement(ts, i) {
            lemma_skip_nl(ts, j);
            lemma_stmts_progress(ts, skip_nl(ts, j), acc.push(st));
        }
    }
}

/// A parsed block takes at least one token and stops before the `Eof`.
pub proof fn lemma_block_progress(ts: Seq<TokenV>, i: int)
    requires
        well_ended(ts),
        0 <= i < ts.len(),
    ensures
        p_block(ts, i) matches Ok((_, j)) ==> i < j < ts.len(),
    decreases ts.len() - i, 3int,
{
    lemma_expect(ts, i, TokenTypeV::LBrace);
    if let Ok(i1) = expect(ts, i, TokenTypeV::LBrace) {
        lemma_skip_nl(ts, i1);
        lemma_stmts_progress(ts, skip_nl(ts, i1), Seq::empty());
        if let Ok((_, j)) = p_stmts(ts, skip_nl(ts, i1), Seq::empty()) {
            lemma_expect(ts, j, TokenTypeV::RBrace);
        }
    }
}

// ---------------------------------------------------------------------------
// Functions, blocks of items, modules, programs
// ---------------------------------------------------------------------------

/// Parameters `name: type` separated by commas at `i`, after `acc`.
pub open spec fn p_params(ts: Seq<TokenV>, i: int, acc: Seq<(Seq<char>, ValueType)>)
    -> Result<(Seq<(Seq<char>, ValueType)>, int), Seq<char>>
    decreases ts.len() - i,
{
    if !(0 <= i < ts.len()) {
        arbitrary()
    } else {
        match expect_ident(ts, i) {
            Ok((name, i1)) => match expect(ts, i1, TokenTypeV::Colon) {
                Ok(i2) => if i2 < ts.len() {
                    match expect_type(ts, i2) {
                        Ok((ty, i3)) => match type_of_name(ty) {
                            Some(t) => if check(ts, i3, TokenTypeV::Comma) {
                                p_params(ts, i3 + 1, acc.push((name, t)))
                            } else {
                                Ok((acc.push((name, t)), i3))
                            },
                            None => Err("Unknown type '"@ + ty + "' in function parameter"@),
                        },
                        Err(m) => Err(m),
                    }
                } else {
                    arbitrary()
                },
                Err(m) => Err(m),
            },
            Err(m) => Err(m),
        }
    }
}

/// `func name(params) -> type { body }` at `i`.
pub open spec fn p_function(ts: Seq<TokenV>, i: int) -> Result<(FuncV, int), Seq<char>> {
    match expect(ts, i, TokenTypeV::Func) {
        Ok(i1) => match expect_ident(ts, i1) {
            Ok((name, i2)) => match expect(ts, i2, TokenTypeV::LParen) {
                Ok(i3) => {
                    let params = if check(ts, i3, TokenTypeV::RParen) {
                        Ok((Seq::empty(), i3))
                    } else {
                        p_params(ts, i3, Seq::empty())
                    };
                    match params {
                        Ok((ps, i4)) => match expect(ts, i4, TokenTypeV::RParen) {
                            Ok(i5) => match expect(ts, i5, TokenTypeV::Minus) {
                                Ok(i6) => match expect(ts, i6, TokenTypeV::Greater) {
                                    Ok(i7) => match expect_type(ts, i7) {
                                        Ok((rt, i8)) => match type_of_name(rt) {
                                            Some(ret) => match p_block(ts, i8) {
                                                Ok((body, j)) => Ok((FuncV { name, params: ps, ret, body }, j)),
                                                Err(m) => Err(m),
                                            },
                                            None => Err("Unknown return type '"@ + rt + "'"@),
                                        },
                                        Err(m) => Err(m),
                                    },
                                    Err(m) => Err(m),
                                },
                                Err(m) => Err(m),
                            },
                            Err(m) => Err(m),
                        },
                        Err(m) => Err(m),
                    }
                },
                Err(m) => Err(m),
            },
            Err(m) => Err(m),
        },
        Err(m) => Err(m),
    }
}

/// The items `key: value` of a header (`header`) or input block at `i` up
/// to `}` or the end, after `acc`; line breaks around items are skipped.
pub open spec fn p_items(ts: Seq<TokenV>, i: int, header: bool, acc: Seq<(Seq<char>, Seq<char>)>)
    -> Result<(Seq<(Seq<char>, Seq<char>)>, int), Seq<char>>
    decreases ts.len() - i,
{
    if !(0 <= i < ts.len()) || check(ts, i, TokenTypeV::RBrace) || at_end(ts, i) {
        Ok((acc, i))
    } else {
        let i1 = skip_nl(ts, i);
        if !(i1 < ts.len()) {
            arbitrary()
        } else if check(ts, i1, TokenTypeV::RBrace) {
            Ok((acc, i1))
        } else {
            match expect_ident(ts, i1) {
                Ok((key, i2)) => match expect(ts, i2, TokenTypeV::Colon) {
                    Ok(i3) => if i3 < ts.len() {
                        match (if header { header_value(ts, i3) } else { expect_type(ts, i3) }) {
                            Ok((value, i4)) => if i4 <= ts.len() {
                                proof {
                                    lemma_skip_nl(ts, i);
                                    lemma_skip_nl(ts, i4);
                                }
                                p_items(ts, skip_nl(ts, i4), header, acc.push((key, value)))
                            } else {
                                arbitrary()
                            },
                            Err(m) => Err(m),
                        }
                    } else {
                        arbitrary()
                    },
                    Err(m) => Err(m),
                },
                Err(m) => Err(m),
            }
        }
    }
}

/// A header block (`header`) or an input block at `i`.
pub open spec fn p_item_block(ts: Seq<TokenV>, i: int, header: bool) -> Result<(Seq<(Seq<char>, Seq<char>)>, int), Seq<char>> {
    match expect(ts, i, if header { TokenTypeV::Header } else { TokenTypeV::Input }) {
        Ok(i1) => match expect(ts, i1, TokenTypeV::LBrace) {
            Ok(i2) => match p_items(ts, i2, header, Seq::empty()) {
                Ok((items, j)) => match expect(ts, j, TokenTypeV::RBrace) {
                    Ok(k) => Ok((items, k)),
                    Err(m) => Err(m),
                },
                Err(m) => Err(m),
            },
            Err(m) => Err(m),
        },
        Err(m) => Err(m),
    }
}

/// The parameters of a module's input items: each type must name a type.
pub open spec fn input_params(items: Seq<(Seq<char>, Seq<char>)>, k: int) -> Result<Seq<(Seq<char>, ValueType)>, Seq<char>>
    decreases k,
{
    if k <= 0 || k > items.len() {
        Ok(Seq::empty())
    } else {
        match input_params(items, k - 1) {
            Ok(ps) => match type_of_name(items[k - 1].1) {
                Some(t) => Ok(ps.push((items[k - 1].0, t))),
                None => Err("Unknown type '"@ + items[k - 1].1 + "' in input block"@),
            },
            Err(m) => Err(m),
        }
    }
}

proof fn lemma_params_progress(ts: Seq<TokenV>, i: int, acc: Seq<(Seq<char>, ValueType)>)
    requires
        well_ended(ts),
        0 <= i < ts.len(),
    ensures
        p_params(ts, i, acc) matches Ok((_, j)) ==> i < j < ts.len(),
    decreases ts.len() - i,
{
    if let Ok((name, i1)) = expect_ident(ts, i) {
        lemma_expect(ts, i1, TokenTypeV::Colon);
        if let Ok(i2) = expect(ts, i1, TokenTypeV::Colon) {
            if let Ok((ty, i3)) = expect_type(ts, i2) {
                if let Some(t) = type_of_name(ty) {
                    if check(ts, i3, TokenTypeV::Comma) {
                        lemma_params_progress(ts, i3 + 1, acc.push((name, t)));
                    }
                }
            }
        }
    }
}

/// A parsed function takes at least one token and stops before the `Eof`.
#[verifier::spinoff_prover]
#[verifier::rlimit(60)]
pub proof fn lemma_function_progress(ts: Seq<TokenV>, i: int)
    requires
        well_ended(ts),
        0 <= i < ts.len(),
    ensures
        p_function(ts, i) matches Ok((_, j)) ==> i < j < ts.len(),
{
    lemma_expect(ts, i, TokenTypeV::Func);
    if let Ok(i1) = expect(ts, i, TokenTypeV::Func) {
        if let Ok((_, i2)) = expect_ident(ts, i1) {
            lemma_expect(ts, i2, TokenTypeV::LParen);
            if let Ok(i3) = expect(ts, i2, TokenTypeV::LParen) {
                if !check(ts, i3, TokenTypeV::RParen) {
                    lemma_params_progress(ts, i3, Seq::empty());
                }
                let params = if check(ts, i3, TokenTypeV::RParen) {
                    Ok::<(Seq<(Seq<char>, ValueType)>, int), Seq<char>>((Seq::empty(), i3))
                } else {
                    p_params(ts, i3, Seq::empty())
                };
                if let Ok((_, i4)) = params {
                    lemma_expect(ts, i4, TokenTypeV::RParen);
                    if let Ok(i5) = expect(ts, i4, TokenTypeV::RParen) {
                        lemma_expect(ts, i5, TokenTypeV::Minus);
                        if let Ok(i6) = expect(ts, i5, TokenTypeV::Minus) {
                            lemma_expect(ts, i6, TokenTypeV::Greater);
                            if let Ok(i7) = expect(ts, i6, TokenTypeV::Greater) {
                                if let Ok((_, i8)) = expect_type(ts, i7) {
                                    lemma_block_progress(ts, i8);
                                }
                            }
                        }
                    }
                }
            }
        }
    }
}

proof fn lemma_items_progress(ts: Seq<TokenV>, i: int, header: bool, acc: Seq<(Seq<char>, Seq<char>)>)
    requires
        well_ended(ts),
        0 <= i < ts.len(),
    ensures
        p_items(ts, i, header, acc) matches Ok((_, j)) ==> i <= j < ts.len(),
    decreases ts.len() - i,
{
    if !(check(ts, i, TokenTypeV::RBrace) || at_end(ts, i)) {
        lemma_skip_nl(ts, i);
        let i1 = skip_nl(ts, i);
        if !check(ts, i1, TokenTypeV::RBrace) {
            if let Ok((key, i2)) = expect_ident(ts, i1) {
                lemma_expect(ts, i2, TokenTypeV::Colon);
                if let Ok(i3) = expect(ts, i2, TokenTypeV::Colon) {
                    if let Ok((value, i4)) = (if header { header_value(ts, i3) } else { expect_type(ts, i3) }) {
                        lemma_skip_nl(ts, i4);
                        lemma_items_progress(ts, skip_nl(ts, i4), header, acc.push((key, value)));
                    }
                }
            }
        }
    }
}

/// A parsed header or input block takes at least one token and stops
/// before the `Eof`.
pub proof fn lemma_item_block_progress(ts: Seq<TokenV>, i: int, header: bool)
    requires
        well_ended(ts),
        0 <= i < ts.len(),
    ensures
        p_item_block(ts, i, header) matches Ok((_, j)) ==> i < j < ts.len(),
{
    lemma_expect(ts, i, if header { TokenTypeV::Header } else { TokenTypeV::Input });
    if let Ok(i1) = expect(ts, i, if header { TokenTypeV::Header } else { TokenTypeV::Input }) {
        lemma_expect(ts, i1, TokenTypeV::LBrace);
        if let Ok(i2) = expect(ts, i1, TokenTypeV::LBrace) {
            lemma_items_progress(ts, i2, header, Seq::empty());
            if let Ok((_, j)) = p_items(ts, i2, header, Seq::empty()) {
                lemma_expect(ts, j, TokenTypeV::RBrace);
            }
        }
    }
}

/// A module's body so far: its statements, functions and inputs.
pub type ModuleParts = (Seq<StmtV>, Seq<FuncV>, Seq<(Seq<char>, ValueType)>);

/// One item of a module's body at `i`, added to `acc`: an input block, a
/// function or a statement.
#[verifier::opaque]
pub open spec fn p_module_item(ts: Seq<TokenV>, i: int, acc: ModuleParts) -> Result<(ModuleParts, int), Seq<char>> {
    if check(ts, i, TokenTypeV::Input) {
        match p_item_block(ts, i, false) {
            Ok((items, j)) => match input_params(items, items.len() as int) {
                Ok(ps) => Ok(((acc.0, acc.1, acc.2 + ps), j)),
                Err(m) => Err(m),
            },
            Err(m) => Err(m),
        }
    } else if check(ts, i, TokenTypeV::Func) {
        match p_function(ts, i) {
            Ok((f, j)) => Ok(((acc.0, acc.1.push(f), acc.2), j)),
            Err(m) => Err(m),
        }
    } else {
        match p_statement(ts, i) {
            Ok((st, j)) => Ok(((acc.0.push(st), acc.1, acc.2), j)),
            Err(m) => Err(m),
        }
    }
}

/// A parsed module item takes at least one token and stops before the
/// `Eof`.
pub proof fn lemma_module_item_progress(ts: Seq<TokenV>, i: int, acc: ModuleParts)
    requires
        well_ended(ts),
        0 <= i < ts.len(),
    ensures
        p_module_item(ts, i, acc) matches Ok((_, j)) ==> i < j < ts.len(),
{
    reveal(p_module_item);
    lemma_item_block_progress(ts, i, false);
    lemma_function_progress(ts, i);
    lemma_statement_progress(ts, i);
}

/// The body of a module at `i` up to `}` or the end, after `acc`: input
/// blocks, functions and statements, with line breaks between them.
pub open spec fn p_module_items(ts: Seq<TokenV>, i: int, acc: ModuleParts) -> Result<(ModuleParts, int), Seq<char>>
    decreases ts.len() - i,
{
    if !(0 <= i < ts.len()) || check(ts, i, TokenTypeV::RBrace) || at_end(ts, i) {
        Ok((acc, i))
    } else {
        let i1 = skip_nl(ts, i);
        if check(ts, i1, TokenTypeV::RBrace) {
            Ok((acc, i1))
        } else {
            match p_module_item(ts, i1, acc) {
                Ok((parts, j)) => if i <= i1 < j <= ts.len() {
                    proof {
                        lemma_skip_nl(ts, j);
                    }
                    p_module_items(ts, skip_nl(ts, j), parts)
                } else {
                    arbitrary()
                },
                Err(m) => Err(m),
            }
        }
    }
}

/// `module name: { ... }` at `i`.
pub open spec fn p_module(ts: Seq<TokenV>, i: int) -> Result<(ModuleV, int), Seq<char>> {
    match expect(ts, i, TokenTypeV::Module) {
        Ok(i1) => match expect_ident(ts, i1) {
            Ok((name, i2)) => match expect(ts, i2, TokenTypeV::Colon) {
                Ok(i3) => match expect(ts, i3, TokenTypeV::LBrace) {
                    Ok(i4) => match p_module_items(ts, skip_nl(ts, i4), (Seq::empty(), Seq::empty(), Seq::empty())) {
                        Ok((parts, j)) => match expect(ts, j, TokenTypeV::RBrace) {
                            Ok(k) => Ok((ModuleV { name, statements: parts.0, functions: parts.1, inputs: parts.2 }, k)),
                            Err(m) => Err(m),
                        },
                        Err(m) => Err(m),
                    },
                    Err(m) => Err(m),
                },
                Err(m) => Err(m),
            },
            Err(m) => Err(m),
        },
        Err(m) => Err(m),
    }
}

proof fn lemma_module_items_progress(ts: Seq<TokenV>, i: int, acc: ModuleParts)
    requires
        well_ended(ts),
        0 <= i < ts.len(),
    ensures
        p_module_items(ts, i, acc) matches Ok((_, j)) ==> i <= j < ts.len(),
    decreases ts.len() - i,
{
    if !(check(ts, i, TokenTypeV::RBrace) || at_end(ts, i)) {
        lemma_skip_nl(ts, i);
        let i1 = skip_nl(ts, i);
        if !check(ts, i1, TokenTypeV::RBrace) {
            lemma_module_item_progress(ts, i1, acc);
            if let Ok((parts, j)) = p_module_item(ts, i1, acc) {
                lemma_skip_nl(ts, j);
                lemma_module_items_progress(ts, skip_nl(ts, j), parts);
            }
        }
    }
}

/// A parsed module takes at least one token and stops before the `Eof`.
pub proof fn lemma_module_progress(ts: Seq<TokenV>, i: int)
    requires
        well_ended(ts),
        0 <= i < ts.len(),
    ensures
        p_module(ts, i) matches Ok((_, j)) ==> i < j < ts.len(),
{
    lemma_expect(ts, i, TokenTypeV::Module);
    if let Ok(i1) = expect(ts, i, TokenTypeV::Module) {
        if let Ok((_, i2)) = expect_ident(ts, i1) {
            lemma_expect(ts, i2, TokenTypeV::Colon);
            if let Ok(i3) = expect(ts, i2, TokenTypeV::Colon) {
                lemma_expect(ts, i3, TokenTypeV::LBrace);
                if let Ok(i4) = expect(ts, i3, TokenTypeV::LBrace) {
                    lemma_skip_nl(ts, i4);
                    let e = (Seq::<StmtV>::empty(), Seq::<FuncV>::empty(), Seq::<(Seq<char>, ValueType)>::empty());
                    lemma_module_items_progress(ts, skip_nl(ts, i4), e);
                    if let Ok((_, j)) = p_module_items(ts, skip_nl(ts, i4), e) {
                        lemma_expect(ts, j, TokenTypeV::RBrace);
                    }
                }
            }
        }
    }
}

/// The top level at `i`, after `acc`: header and input blocks (a later one
/// replaces an earlier one), modules, stray `}` and line breaks, up to the
/// `Eof`.
pub open spec fn p_top(ts: Seq<TokenV>, i: int, acc: ProgramV) -> Result<ProgramV, Seq<char>>
    decreases ts.len() - i,
{
    if !(well_ended(ts) && 0 <= i < ts.len()) {
        arbitrary()
    } else {
        match ts[i].ty {
            TokenTypeV::Header => {
                proof {
                    lemma_item_block_progress(ts, i, true);
                }
                match p_item_block(ts, i, true) {
                    Ok((items, j)) => {
                        proof {
                            lemma_skip_nl(ts, j);
                        }
                        p_top(ts, skip_nl(ts, j), ProgramV { header: Some(items), ..acc })
                    },
                    Err(m) => Err(m),
                }
            },
            TokenTypeV::Input => {
                proof {
                    lemma_item_block_progress(ts, i, false);
                }
                match p_item_block(ts, i, false) {
                    Ok((items, j)) => {
                        proof {
                            lemma_skip_nl(ts, j);
                        }
                        p_top(ts, skip_nl(ts, j), ProgramV { inputs: Some(items), ..acc })
                    },
                    Err(m) => Err(m),
                }
            },
            TokenTypeV::Module => {
                proof {
                    lemma_module_progress(ts, i);
                }
                match p_module(ts, i) {
                    Ok((m, j)) => {
                        proof {
                            lemma_skip_nl(ts, j);
                        }
                        p_top(ts, skip_nl(ts, j), ProgramV { modules: acc.modules.push(m), ..acc })
                    },
                    Err(e) => Err(e),
                }
            },
            TokenTypeV::Eof => Ok(acc),
            TokenTypeV::RBrace | TokenTypeV::Newline => p_top(ts, i + 1, acc),
            _ => Err("Unexpected token at top level: "@ + token_debug(ts[i].ty) + at_token(ts, i)),
        }
    }
}

/// The program the tokens spell.
pub open spec fn p_program(ts: Seq<TokenV>) -> Result<ProgramV, Seq<char>> {
    p_top(ts, skip_nl(ts, 0), ProgramV { header: None, inputs: None, modules: Seq::empty() })
}

// ---------------------------------------------------------------------------
// The parser
// ---------------------------------------------------------------------------

/// Every floating literal has been given its value.
pub open spec fn floats_resolved(ts: Seq<Token>) -> bool {
    forall|i: int| 0 <= i < ts.len() ==> (#[trigger] ts[i].token_type matches TokenType::FloatLiteral(f)
        ==> f.value is Some)
}

/// A token kind without payload.
pub open spec fn is_plain(t: TokenTypeV) -> bool {
    !(t is IntLiteral || t is FloatLiteral || t is StringLiteral || t is Identifier)
}

/// A number for each token kind.
fn kind_code(t: &TokenType) -> (r: u8)
    ensures
        forall|u: TokenType| is_plain(u@) && #[trigger] kind_code_spec(u@) == r ==> (t@ == u@),
        r == kind_code_spec(t@),
{
    match t {
        TokenType::IntLiteral(_) => 0,
        TokenType::FloatLiteral(_) => 1,
        TokenType::StringLiteral(_) => 2,
        TokenType::Identifier(_) => 3,
        TokenType::Plus => 4,
        TokenType::Minus => 5,
        TokenType::Star => 6,
        TokenType::Slash => 7,
        TokenType::Percent => 8,
        TokenType::Ampersand => 9,
        TokenType::Pipe => 10,
        TokenType::Caret => 11,
        TokenType::LessLess => 12,
        TokenType::GreaterGreater => 13,
        TokenType::EqualEqual => 14,
        TokenType::BangEqual => 15,
        TokenType::Less => 16,
        TokenType::LessEqual => 17,
        TokenType::Greater => 18,
        TokenType::GreaterEqual => 19,
        TokenType::Bang => 20,
        TokenType::Tilde => 21,
        TokenType::LBrace => 22,
        TokenType::RBrace => 23,
        TokenType::LParen => 24,
        TokenType::RParen => 25,
        TokenType::Dot => 26,
        TokenType::DotDot => 27,
        TokenType::Colon => 28,
        TokenType::Comma => 29,
        TokenType::Header => 30,
        TokenType::Input => 31,
        TokenType::Module => 32,
        TokenType::If => 33,
        TokenType::Else => 34,
        TokenType::While => 35,
        TokenType::Func => 36,
        TokenType::Return => 37,
        TokenType::Newline => 38,
        TokenType::Eof => 39,
    }
}

/// The number of a token kind.
pub open spec fn kind_code_spec(t: TokenTypeV) -> u8 {
    match t {
        TokenTypeV::IntLiteral(_) => 0,
        TokenTypeV::FloatLiteral(_, _) => 1,
        TokenTypeV::StringLiteral(_) => 2,
        TokenTypeV::Identifier(_) => 3,
        TokenTypeV::Plus => 4,
        TokenTypeV::Minus => 5,
        TokenTypeV::Star => 6,
        TokenTypeV::Slash => 7,
        TokenTypeV::Percent => 8,
        TokenTypeV::Ampersand => 9,
        TokenTypeV::Pipe => 10,
        TokenTypeV::Caret => 11,
        TokenTypeV::LessLess => 12,
        TokenTypeV::GreaterGreater => 13,
        TokenTypeV::EqualEqual => 14,
        TokenTypeV::BangEqual => 15,
        TokenTypeV::Less => 16,
        TokenTypeV::LessEqual => 17,
        TokenTypeV::Greater => 18,
        TokenTypeV::GreaterEqual => 19,
        TokenTypeV::Bang => 20,
        TokenTypeV::Tilde => 21,
        TokenTypeV::LBrace => 22,
        TokenTypeV::RBrace => 23,
        TokenTypeV::LParen => 24,
        TokenTypeV::RParen => 25,
        TokenTypeV::Dot => 26,
        TokenTypeV::DotDot => 27,
        TokenTypeV::Colon => 28,
        TokenTypeV::Comma => 29,
        TokenTypeV::Header => 30,
        TokenTypeV::Input => 31,
        TokenTypeV::Module => 32,
        TokenTypeV::If => 33,
        TokenTypeV::Else => 34,
        TokenTypeV::While => 35,
        TokenTypeV::Func => 36,
        TokenTypeV::Return => 37,
        TokenTypeV::Newline => 38,
        TokenTypeV::Eof => 39,
    }
}

/// Appends what `{:?}` writes for a token kind.
fn push_token_debug(s: &mut String, t: &TokenType)
    ensures
        final(s)@ == old(s)@ + token_debug(t@),
{
    match t {
        TokenType::IntLiteral(v) => {
            push_str(s, "IntLiteral(");
            push_int(s, *v);
            push_str(s, ")");
        },
        TokenType::FloatLiteral(f) => {
            push_str(s, "FloatLiteral(");
            match &f.value {
                Some(v) => push_string(s, &v.debug),
                None => push_string(s, &f.text),
            }
            push_str(s, ")");
        },
        TokenType::StringLiteral(v) => {
            push_str(s, "StringLiteral(");
            push_string(s, &debug_string(v));
            push_str(s, ")");
        },
        TokenType::Identifier(v) => {
            push_str(s, "Identifier(");
            push_string(s, &debug_string(v));
            push_str(s, ")");
        },
        TokenType::Plus => push_str(s, "Plus"),
        TokenType::Minus => push_str(s, "Minus"),
        TokenType::Star => push_str(s, "Star"),
        TokenType::Slash => push_str(s, "Slash"),
        TokenType::Percent => push_str(s, "Percent"),
        TokenType::Ampersand => push_str(s, "Ampersand"),
        TokenType::Pipe => push_str(s, "Pipe"),
        TokenType::Caret => push_str(s, "Caret"),
        TokenType::LessLess => push_str(s, "LessLess"),
        TokenType::GreaterGreater => push_str(s, "GreaterGreater"),
        TokenType::EqualEqual => push_str(s, "EqualEqual"),
        TokenType::BangEqual => push_str(s, "BangEqual"),
        TokenType::Less => push_str(s, "Less"),
        TokenType::LessEqual => push_str(s, "LessEqual"),
        TokenType::Greater => push_str(s, "Greater"),
        TokenType::GreaterEqual => push_str(s, "GreaterEqual"),
        TokenType::Bang => push_str(s, "Bang"),
        TokenType::Tilde => push_str(s, "Tilde"),
        TokenType::LBrace => push_str(s, "LBrace"),
        TokenType::RBrace => push_str(s, "RBrace"),
        TokenType::LParen => push_str(s, "LParen"),
        TokenType::RParen => push_str(s, "RParen"),
        TokenType::Dot => push_str(s, "Dot"),
        TokenType::DotDot => push_str(s, "DotDot"),
        TokenType::Colon => push_str(s, "Colon"),
        TokenType::Comma => push_str(s, "Comma"),
        TokenType::Header => push_str(s, "Header"),
        TokenType::Input => push_str(s, "Input"),
        TokenType::Module => push_str(s, "Module"),
        TokenType::If => push_str(s, "If"),
        TokenType::Else => push_str(s, "Else"),
        TokenType::While => push_str(s, "While"),
        TokenType::Func => push_str(s, "Func"),
        TokenType::Return => push_str(s, "Return"),
        TokenType::Newline => push_str(s, "Newline"),
        TokenType::Eof => push_str(s, "Eof"),
    }
    assert(s@ =~= old(s)@ + token_debug(t@));
}

/// Appends ` at line <line>, column <column>` of a token.
fn push_at_token(s: &mut String, t: &Token)
    ensures
        final(s)@ == old(s)@ + at_text(t@.line, t@.column),
{
    push_str(s, " at line ");
    crate::text::push_nat(s, t.line as u64);
    push_str(s, ", column ");
    crate::text::push_nat(s, t.column as u64);
    assert(s@ =~= old(s)@ + at_text(t@.line, t@.column));
}

/// The type a type name denotes, if any.
fn type_from_name(t: &String) -> (r: Option<ValueType>)
    ensures
        r == type_of_name(t@),
{
    if *t == string_of("i64") {
        Some(ValueType::I64)
    } else if *t == string_of("f64") {
        Some(ValueType::F64)
    } else {
        None
    }
}

/// A recursive-descent parser over tokens that end with `Eof`.
pub struct Parser {
    tokens: Vec<Token>,
    current: usize,
}

impl Parser {
    /// The tokens' views.
    pub closed spec fn toks(&self) -> Seq<TokenV> {
        tokens_view(self.tokens@)
    }

    /// The index of the next token.
    pub closed spec fn pos(&self) -> int {
        self.current as int
    }

    /// The parser stands on a token of tokens that end with `Eof`, all of
    /// whose floating literals have values.
    pub closed spec fn wf(&self) -> bool {
        &&& well_ended(self.toks())
        &&& self.current < self.tokens@.len()
        &&& floats_resolved(self.tokens@)
    }

    /// A parser at the first token.
    pub fn new(tokens: Vec<Token>) -> (r: Self)
        requires
            tokens@.len() > 0,
            tokens@.last().token_type is Eof,
            floats_resolved(tokens@),
        ensures
            r.wf(),
            r.toks() == tokens_view(tokens@),
            r.pos() == 0,
    {
        let r = Parser { tokens, current: 0 };
        assert(r.toks().last() == r.tokens@.last()@);
        r
    }

    fn peek(&self) -> (t: &Token)
        requires
            self.wf(),
        ensures
            *t == self.tokens@[self.pos()],
            t@ == self.toks()[self.pos()],
    {
        &self.tokens[self.current]
    }

    fn advance(&mut self)
        requires
            old(self).wf(),
            !(old(self).toks()[old(self).pos()].ty is Eof),
        ensures
            final(self).wf(),
            final(self).tokens@ == old(self).tokens@,
            final(self).pos() == old(self).pos() + 1,
    {
        let n = self.tokens.len();
        assert(self.current + 1 < n) by {
            if self.current + 1 == n {
                assert(self.toks()[self.pos()] == self.toks().last());
            }
        }
        self.current = self.current + 1;
    }

    fn check(&self, expected: &TokenType) -> (r: bool)
        requires
            self.wf(),
            is_plain(expected@),
        ensures
            r == check(self.toks(), self.pos(), expected@),
    {
        self.current < self.tokens.len() && kind_code(&self.tokens[self.current].token_type) == kind_code(expected)
    }

    /// Whether the token after the current one is of kind `expected`.
    fn check_next(&self, expected: &TokenType) -> (r: bool)
        requires
            self.wf(),
            is_plain(expected@),
        ensures
            r == check(self.toks(), self.pos() + 1, expected@),
    {
        let n = self.tokens.len();
        self.current + 1 < n && kind_code(&self.tokens[self.current + 1].token_type) == kind_code(expected)
    }

    fn is_at_end(&self) -> (r: bool)
        requires
            self.wf(),
        ensures
            r == at_end(self.toks(), self.pos()),
    {
        self.current >= self.tokens.len() || kind_code(&self.tokens[self.current].token_type) == 39
    }

    fn expect(&mut self, expected: TokenType) -> (r: Result<(), String>)
        requires
            old(self).wf(),
            is_plain(expected@),
            !(expected@ is Eof),
        ensures
            final(self).wf(),
            final(self).tokens@ == old(self).tokens@,
            match expect(old(self).toks(), old(self).pos(), expected@) {
                Ok(j) => r is Ok && final(self).pos() == j,
                Err(m) => r matches Err(x) && x@ == m,
            },
    {
        let token = self.peek();
        if kind_code(&token.token_type) == kind_code(&expected) {
            self.advance();
            Ok(())
        } else {
            let mut msg = string_of("Expected ");
            push_token_debug(&mut msg, &expected);
            push_str(&mut msg, " but found ");
            push_token_debug(&mut msg, &token.token_type);
            push_at_token(&mut msg, token);
            Err(msg)
        }
    }

    fn expect_identifier(&mut self) -> (r: Result<String, String>)
        requires
            old(self).wf(),
        ensures
            final(self).wf(),
            final(self).tokens@ == old(self).tokens@,
            match expect_ident(old(self).toks(), old(self).pos()) {
                Ok((name, j)) => r matches Ok(x) && x@ == name && final(self).pos() == j,
                Err(m) => r matches Err(x) && x@ == m,
            },
    {
        let token = self.peek();
        match &token.token_type {
            TokenType::Identifier(s) => {
                let name = s.clone();
                self.advance();
                Ok(name)
            },
            _ => {
                let mut msg = string_of("Expected identifier");
                push_at_token(&mut msg, token);
                Err(msg)
            },
        }
    }

    fn expect_type(&mut self) -> (r: Result<String, String>)
        requires
            old(self).wf(),
        ensures
            final(self).wf(),
            final(self).tokens@ == old(self).tokens@,
            match expect_type(old(self).toks(), old(self).pos()) {
                Ok((name, j)) => r matches Ok(x) && x@ == name && final(self).pos() == j,
                Err(m) => r matches Err(x) && x@ == m,
            },
    {
        let token = self.peek();
        match &token.token_type {
            TokenType::Identifier(s) => {
                let name = s.clone();
                self.advance();
                Ok(name)
            },
            _ => {
                let mut msg = string_of("Expected type");
                push_at_token(&mut msg, token);
                Err(msg)
            },
        }
    }

    fn expect_header_value(&mut self) -> (r: Result<String, String>)
        requires
            old(self).wf(),
        ensures
            final(self).wf(),
            final(self).tokens@ == old(self).tokens@,
            match header_value(old(self).toks(), old(self).pos()) {
                Ok((v, j)) => r matches Ok(x) && x@ == v && final(self).pos() == j,
                Err(m) => r matches Err(x) && x@ == m,
            },
    {
        let token = self.peek();
        match &token.token_type {
            TokenType::Identifier(s) => {
                let v = s.clone();
                self.advance();
                Ok(v)
            },
            TokenType::IntLiteral(v) => {
                let t = int_to_string(*v);
                self.advance();
                Ok(t)
            },
            TokenType::FloatLiteral(f) => {
                let t = match &f.value {
                    Some(v) => v.display.clone(),
                    None => f.text.clone(),
                };
                self.advance();
                Ok(t)
            },
            _ => {
                let mut msg = string_of("Expected header value");
                push_at_token(&mut msg, token);
                Err(msg)
            },
        }
    }

    fn skip_newlines(&mut self)
        requires
            old(self).wf(),
        ensures
            final(self).wf(),
            final(self).tokens@ == old(self).tokens@,
            final(self).pos() == skip_nl(old(self).toks(), old(self).pos()),
    {
        while self.check(&TokenType::Newline)
            invariant
                self.wf(),
                self.tokens@ == old(self).tokens@,
                skip_nl(self.toks(), self.pos()) == skip_nl(old(self).toks(), old(self).pos()),
            decreases self.toks().len() - self.pos(),
        {
            self.advance();
        }
    }
}

impl Parser {
    /// The binding strength of the next token as a binary operator.
    fn get_prefix_precedence(&self) -> (r: u8)
        requires
            self.wf(),
        ensures
            r as int == op_prec(self.toks()[self.pos()].ty),
    {
        match self.peek().token_type {
            TokenType::EqualEqual | TokenType::BangEqual => 10,
            TokenType::Less | TokenType::LessEqual | TokenType::Greater | TokenType::GreaterEqual => 11,
            TokenType::LessLess | TokenType::GreaterGreater => 12,
            TokenType::Ampersand => 13,
            TokenType::Caret => 14,
            TokenType::Pipe => 15,
            TokenType::Plus | TokenType::Minus => 16,
            TokenType::Star | TokenType::Slash | TokenType::Percent => 17,
            _ => 0,
        }
    }

    /// The binary operator of an operator token.
    fn token_to_binary_op(&self, token_type: &TokenType) -> (r: Result<BinaryOp, String>)
        ensures
            op_prec(token_type@) > 0 ==> r == Ok::<BinaryOp, String>(binop_of(token_type@)),
    {
        match token_type {
            TokenType::Plus => Ok(BinaryOp::Add),
            TokenType::Minus => Ok(BinaryOp::Sub),
            TokenType::Star => Ok(BinaryOp::Mul),
            TokenType::Slash => Ok(BinaryOp::Div),
            TokenType::Percent => Ok(BinaryOp::Mod),
            TokenType::Ampersand => Ok(BinaryOp::BitAnd),
            TokenType::Pipe => Ok(BinaryOp::BitOr),
            TokenType::Caret => Ok(BinaryOp::BitXor),
            TokenType::LessLess => Ok(BinaryOp::Shl),
            TokenType::GreaterGreater => Ok(BinaryOp::Shr),
            TokenType::EqualEqual => Ok(BinaryOp::Eq),
            TokenType::BangEqual => Ok(BinaryOp::Ne),
            TokenType::Less => Ok(BinaryOp::Lt),
            TokenType::LessEqual => Ok(BinaryOp::Le),
            TokenType::Greater => Ok(BinaryOp::Gt),
            TokenType::GreaterEqual => Ok(BinaryOp::Ge),
            _ => {
                let mut msg = string_of("Not a binary operator: ");
                push_token_debug(&mut msg, token_type);
                Err(msg)
            },
        }
    }

    /// An expression.
    fn parse_expression(&mut self) -> (r: Result<Expression, String>)
        requires
            old(self).wf(),
        ensures
            final(self).wf(),
            final(self).tokens@ == old(self).tokens@,
            match p_expr(old(self).toks(), old(self).pos()) {
                Ok((e, j)) => r matches Ok(x) && expr_v(x) == e && final(self).pos() == j,
                Err(m) => r matches Err(x) && x@ == m,
            },
        decreases old(self).toks().len() - old(self).pos(), 3int,
    {
        self.parse_precedence(0)
    }

    /// An expression whose binary operators bind at least `min_precedence`;
    /// operators are applied left to right.
    fn parse_precedence(&mut self, min_precedence: u8) -> (r: Result<Expression, String>)
        requires
            old(self).wf(),
        ensures
            final(self).wf(),
            final(self).tokens@ == old(self).tokens@,
            match p_prec(old(self).toks(), old(self).pos(), min_precedence as int) {
                Ok((e, j)) => r matches Ok(x) && expr_v(x) == e && final(self).pos() == j,
                Err(m) => r matches Err(x) && x@ == m,
            },
        decreases old(self).toks().len() - old(self).pos(), 2int,
    {
        let ghost ts = self.toks();
        let ghost i0 = self.pos();
        let ghost res = p_prec(ts, i0, min_precedence as int);
        proof {
            lemma_primary_progress(ts, i0);
        }
        let mut left = match self.parse_primary() {
            Ok(e) => e,
            Err(m) => return Err(m),
        };
        loop
            invariant
                self.wf(),
                self.toks() == ts,
                self.tokens@ == old(self).tokens@,
                ts == old(self).toks(),
                res == p_prec(old(self).toks(), old(self).pos(), min_precedence as int),
                i0 == old(self).pos(),
                i0 < self.pos(),
                p_climb(ts, expr_v(left), self.pos(), min_precedence as int) == res,
            decreases ts.len() - self.pos(),
        {
            if self.is_at_end() {
                return Ok(left);
            }
            let op_prec = self.get_prefix_precedence();
            if op_prec == 0 || op_prec < min_precedence {
                return Ok(left);
            }
            let ghost i = self.pos();
            let op = match self.token_to_binary_op(&self.peek().token_type) {
                Ok(o) => o,
                Err(m) => return Err(m),
            };
            self.advance();
            let right_prec = op_prec + 1;
            proof {
                lemma_prec_progress(ts, i + 1, right_prec as int);
            }
            let right = match self.parse_precedence(right_prec) {
                Ok(e) => e,
                Err(m) => return Err(m),
            };
            left = Expression::Binary { op, left: Box::new(left), right: Box::new(right) };
        }
    }

    /// A primary expression.
    #[verifier::rlimit(60)]
    fn parse_primary(&mut self) -> (r: Result<Expression, String>)
        requires
            old(self).wf(),
        ensures
            final(self).wf(),
            final(self).tokens@ == old(self).tokens@,
            match p_primary(old(self).toks(), old(self).pos()) {
                Ok((e, j)) => r matches Ok(x) && expr_v(x) == e && final(self).pos() == j,
                Err(m) => r matches Err(x) && x@ == m,
            },
        decreases old(self).toks().len() - old(self).pos(), 0int,
    {
        let ghost ts = self.toks();
        let ghost i = self.pos();
        let token = self.peek();
        match &token.token_type {
            TokenType::IntLiteral(value) => {
                let v = *value;
                self.advance();
                Ok(Expression::Literal(Literal { value: LiteralValue::Int(v), ty: ValueType::I64 }))
            },
            TokenType::FloatLiteral(f) => {
                assert(self.tokens@[i].token_type matches TokenType::FloatLiteral(g) ==> g.value is Some);
                let v = match &f.value {
                    Some(v) => v,
                    None => vstd::pervasive::unreached(),
                };
                let value = FloatValue { bits: v.bits, display: v.display.clone(), debug: v.debug.clone() };
                self.advance();
                Ok(Expression::Literal(Literal { value: LiteralValue::Float(value), ty: ValueType::F64 }))
            },
            TokenType::StringLiteral(value) => {
                let v = value.clone();
                self.advance();
                Ok(Expression::Literal(Literal { value: LiteralValue::String(v), ty: ValueType::I64 }))
            },
            TokenType::Identifier(n) => {
                let name = n.clone();
                self.advance();
                if self.check(&TokenType::LParen) {
                    self.advance();
                    let mut args: Vec<Expression> = Vec::new();
                    if !self.check(&TokenType::RParen) {
                        let ghost i2 = self.pos();
                        let ghost res = p_args(ts, i2, Seq::empty());
                        assert(exprs_v(args@) =~= Seq::<ExprV>::empty());
                        let mut more = true;
                        while more
                            invariant
                                self.wf(),
                                self.toks() == ts,
                                self.tokens@ == old(self).tokens@,
                                ts == old(self).toks(),
                                i2 == i + 2,
                                i == old(self).pos(),
                                0 <= i < ts.len(),
                                ts[i].ty == TokenTypeV::Identifier(name@),
                                check(ts, i + 1, TokenTypeV::LParen),
                                !check(ts, i + 2, TokenTypeV::RParen),
                                i2 <= self.pos(),
                                res == p_args(ts, i2, Seq::empty()),
                                more ==> p_args(ts, self.pos(), exprs_v(args@)) == res,
                                !more ==> res == Ok::<(Seq<ExprV>, int), Seq<char>>((exprs_v(args@), self.pos())),
                            decreases ts.len() - self.pos(),
                        {
                            let ghost k = self.pos();
                            proof {
                                lemma_prec_progress(ts, k, 0);
                            }
                            let e = match self.parse_expression() {
                                Ok(e) => e,
                                Err(m) => return Err(m),
                            };
                            let ghost before = args@;
                            args.push(e);
                            proof {
                                assert(args@.subrange(0, before.len() as int) =~= before);
                                assert(exprs_v(args@) =~= exprs_v(before).push(expr_v(e)));
                            }
                            if self.check(&TokenType::Comma) {
                                self.advance();
                            } else {
                                more = false;
                            }
                        }
                    }
                    match self.expect(TokenType::RParen) {
                        Ok(()) => {},
                        Err(m) => return Err(m),
                    }
                    Ok(Expression::Call { name, args })
                } else {
                    Ok(Expression::Variable(Variable { name }))
                }
            },
            TokenType::LParen => {
                self.advance();
                let expr = match self.parse_expression() {
                    Ok(e) => e,
                    Err(m) => return Err(m),
                };
                match self.expect(TokenType::RParen) {
                    Ok(()) => {},
                    Err(m) => return Err(m),
                }
                Ok(expr)
            },
            TokenType::Plus | TokenType::Minus | TokenType::Bang | TokenType::Tilde => {
                let op = match &token.token_type {
                    TokenType::Plus => UnaryOp::Pos,
                    TokenType::Minus => UnaryOp::Negate,
                    TokenType::Bang => UnaryOp::Not,
                    _ => UnaryOp::BitNot,
                };
                self.advance();
                let operand = match self.parse_primary() {
                    Ok(e) => e,
                    Err(m) => return Err(m),
                };
                Ok(Expression::Unary { op, operand: Box::new(operand) })
            },
            _ => {
                let mut msg = string_of("Unexpected token in expression: ");
                push_token_debug(&mut msg, &token.token_type);
                push_at_token(&mut msg, token);
                Err(msg)
            },
        }
    }
}

impl Parser {
    /// `( expression )`.
    fn parse_parenthesized_expression(&mut self) -> (r: Result<Expression, String>)
        requires
            old(self).wf(),
        ensures
            final(self).wf(),
            final(self).tokens@ == old(self).tokens@,
            match p_paren(old(self).toks(), old(self).pos()) {
                Ok((e, j)) => r matches Ok(x) && expr_v(x) == e && final(self).pos() == j,
                Err(m) => r matches Err(x) && x@ == m,
            },
    {
        match self.expect(TokenType::LParen) {
            Ok(()) => {},
            Err(m) => return Err(m),
        }
        let expr = match self.parse_expression() {
            Ok(e) => e,
            Err(m) => return Err(m),
        };
        match self.expect(TokenType::RParen) {
            Ok(()) => {},
            Err(m) => return Err(m),
        }
        Ok(expr)
    }

    /// `return [expression]`.
    fn parse_return(&mut self) -> (r: Result<Statement, String>)
        requires
            old(self).wf(),
        ensures
            final(self).wf(),
            final(self).tokens@ == old(self).tokens@,
            match p_return(old(self).toks(), old(self).pos()) {
                Ok((st, j)) => r matches Ok(x) && stmt_v(x) == st && final(self).pos() == j,
                Err(m) => r matches Err(x) && x@ == m,
            },
    {
        match self.expect(TokenType::Return) {
            Ok(()) => {},
            Err(m) => return Err(m),
        }
        let value = if self.check(&TokenType::RBrace) || self.check(&TokenType::Newline) || self.is_at_end() {
            None
        } else {
            match self.parse_expression() {
                Ok(e) => Some(e),
                Err(m) => return Err(m),
            }
        };
        Ok(Statement::Return(Return { value }))
    }

    /// `name: expression`, at an identifier.
    fn parse_assignment(&mut self) -> (r: Result<Assignment, String>)
        requires
            old(self).wf(),
            old(self).toks()[old(self).pos()].ty is Identifier,
        ensures
            final(self).wf(),
            final(self).tokens@ == old(self).tokens@,
            match p_assignment(old(self).toks(), old(self).pos()) {
                Ok((st, j)) => r matches Ok(a) && stmt_v(Statement::Assignment(a)) == st && final(self).pos() == j,
                Err(m) => r matches Err(x) && x@ == m,
            },
    {
        let name = match &self.peek().token_type {
            TokenType::Identifier(s) => s.clone(),
            _ => vstd::pervasive::unreached(),
        };
        self.advance();
        match self.expect(TokenType::Colon) {
            Ok(()) => {},
            Err(m) => return Err(m),
        }
        let expr = match self.parse_expression() {
            Ok(e) => e,
            Err(m) => return Err(m),
        };
        Ok(Assignment { name, value: expr })
    }

    /// An expression statement, or a call with a sink.
    fn parse_expression_or_sink(&mut self) -> (r: Result<Statement, String>)
        requires
            old(self).wf(),
        ensures
            final(self).wf(),
            final(self).tokens@ == old(self).tokens@,
            match p_expr_or_sink(old(self).toks(), old(self).pos()) {
                Ok((st, j)) => r matches Ok(x) && stmt_v(x) == st && final(self).pos() == j,
                Err(m) => r matches Err(x) && x@ == m,
            },
    {
        let ghost ts = self.toks();
        let expr = match self.parse_expression() {
            Ok(e) => e,
            Err(m) => return Err(m),
        };
        if self.check(&TokenType::Dot) {
            self.advance();
            let sink_name = match &self.peek().token_type {
                TokenType::Identifier(s) => {
                    let n = s.clone();
                    self.advance();
                    Some(n)
                },
                _ => {
                    if self.check(&TokenType::RBrace) || self.is_at_end() {
                        None
                    } else {
                        let mut msg = string_of("Expected sink name or '}' after '.'");
                        push_at_token(&mut msg, self.peek());
                        return Err(msg);
                    }
                },
            };
            match expr {
                Expression::Call { name, args } => {
                    return Ok(Statement::Sink(SinkCall { name, args, sink_name }));
                },
                _ => {
                    let mut msg = string_of("Only function calls can have sinks, got expression");
                    push_at_token(&mut msg, self.peek());
                    return Err(msg);
                },
            }
        }
        Ok(Statement::Expression(expr))
    }

    /// A statement.
    #[verifier::rlimit(100)]
    fn parse_statement(&mut self) -> (r: Result<Statement, String>)
        requires
            old(self).wf(),
        ensures
            final(self).wf(),
            final(self).tokens@ == old(self).tokens@,
            match p_statement(old(self).toks(), old(self).pos()) {
                Ok((st, j)) => r matches Ok(x) && stmt_v(x) == st && final(self).pos() == j,
                Err(m) => r matches Err(x) && x@ == m,
            },
        decreases old(self).toks().len() - old(self).pos(), 1int,
    {
        // Control-flow keywords dispatch to their own parsers before a name
        // is considered.
        match self.peek().token_type {
            TokenType::If => return self.parse_if(),
            TokenType::While => return self.parse_while(),
            TokenType::Return => return self.parse_return(),
            _ => {},
        }
        if let TokenType::Identifier(_) = self.peek().token_type {
            if self.check_next(&TokenType::Colon) {
                return match self.parse_assignment() {
                    Ok(a) => Ok(Statement::Assignment(a)),
                    Err(m) => Err(m),
                };
            }
        }
        self.parse_expression_or_sink()
    }

    /// `if (cond) { ... }` with an optional `else { ... }` or `else if`.
    #[verifier::rlimit(100)]
    fn parse_if(&mut self) -> (r: Result<Statement, String>)
        requires
            old(self).wf(),
        ensures
            final(self).wf(),
            final(self).tokens@ == old(self).tokens@,
            match p_if(old(self).toks(), old(self).pos()) {
                Ok((st, j)) => r matches Ok(x) && stmt_v(x) == st && final(self).pos() == j,
                Err(m) => r matches Err(x) && x@ == m,
            },
        decreases old(self).toks().len() - old(self).pos(), 0int,
    {
        let ghost ts = self.toks();
        let ghost i = self.pos();
        match self.expect(TokenType::If) {
            Ok(()) => {},
            Err(m) => return Err(m),
        }
        proof {
            lemma_paren_progress(ts, i + 1);
        }
        let condition = match self.parse_parenthesized_expression() {
            Ok(e) => e,
            Err(m) => return Err(m),
        };
        let ghost j = self.pos();
        proof {
            lemma_block_progress(ts, j);
        }
        let then_branch = match self.parse_block() {
            Ok(b) => b,
            Err(m) => return Err(m),
        };
        let else_branch = if self.check(&TokenType::Else) {
            self.advance();
            if self.check(&TokenType::If) {
                let inner = match self.parse_if() {
                    Ok(s) => s,
                    Err(m) => return Err(m),
                };
                let mut v: Vec<Statement> = Vec::new();
                v.push(inner);
                proof {
                    assert(v@.subrange(0, 0) =~= Seq::<Statement>::empty());
                    assert(stmts_v(Seq::<Statement>::empty()) =~= Seq::<StmtV>::empty());
                    assert(stmts_v(v@) == stmts_v(v@.subrange(0, 0)).push(stmt_v(v@[0])));
                    assert(stmts_v(v@) =~= seq![stmt_v(inner)]);
                }
                Some(v)
            } else {
                match self.parse_block() {
                    Ok(b) => Some(b),
                    Err(m) => return Err(m),
                }
            }
        } else {
            None
        };
        Ok(Statement::If { condition, then_branch, else_branch })
    }

    /// `while (cond) { ... }`.
    fn parse_while(&mut self) -> (r: Result<Statement, String>)
        requires
            old(self).wf(),
        ensures
            final(self).wf(),
            final(self).tokens@ == old(self).tokens@,
            match p_while(old(self).toks(), old(self).pos()) {
                Ok((st, j)) => r matches Ok(x) && stmt_v(x) == st && final(self).pos() == j,
                Err(m) => r matches Err(x) && x@ == m,
            },
        decreases old(self).toks().len() - old(self).pos(), 0int,
    {
        let ghost ts = self.toks();
        let ghost i = self.pos();
        match self.expect(TokenType::While) {
            Ok(()) => {},
            Err(m) => return Err(m),
        }
        proof {
            lemma_paren_progress(ts, i + 1);
        }
        let condition = match self.parse_parenthesized_expression() {
            Ok(e) => e,
            Err(m) => return Err(m),
        };
        proof {
            lemma_block_progress(ts, self.pos());
        }
        let body = match self.parse_block() {
            Ok(b) => b,
            Err(m) => return Err(m),
        };
        Ok(Statement::While { condition, body })
    }

    /// `{ statements }`, line breaks allowed between them.
    #[verifier::rlimit(100)]
    fn parse_block(&mut self) -> (r: Result<Vec<Statement>, String>)
        requires
            old(self).wf(),
        ensures
            final(self).wf(),
            final(self).tokens@ == old(self).tokens@,
            match p_block(old(self).toks(), old(self).pos()) {
                Ok((ss, j)) => r matches Ok(x) && stmts_v(x@) == ss && final(self).pos() == j,
                Err(m) => r matches Err(x) && x@ == m,
            },
        decreases old(self).toks().len() - old(self).pos(), 3int,
    {
        let ghost ts = self.toks();
        let ghost i = self.pos();
        match self.expect(TokenType::LBrace) {
            Ok(()) => {},
            Err(m) => return Err(m),
        }
        let mut stmts: Vec<Statement> = Vec::new();
        self.skip_newlines();
        proof {
            lemma_skip_nl(ts, i + 1);
        }
        let ghost res = p_stmts(ts, self.pos(), Seq::empty());
        assert(stmts_v(stmts@) =~= Seq::<StmtV>::empty());
        assert(p_block(ts, i) == match res {
            Ok((ss, j)) => match expect(ts, j, TokenTypeV::RBrace) {
                Ok(k) => Ok((ss, k)),
                Err(m) => Err(m),
            },
            Err(m) => Err(m),
        });
        while !self.check(&TokenType::RBrace) && !self.is_at_end()
            invariant
                self.wf(),
                self.toks() == ts,
                self.tokens@ == old(self).tokens@,
                ts == old(self).toks(),
                i == old(self).pos(),
                i < self.pos(),
                p_stmts(ts, self.pos(), stmts_v(stmts@)) == res,
                p_block(ts, i) == match res {
                    Ok((ss, j)) => match expect(ts, j, TokenTypeV::RBrace) {
                        Ok(k) => Ok((ss, k)),
                        Err(m) => Err(m),
                    },
                    Err(m) => Err(m),
                },
            decreases ts.len() - self.pos(),
        {
            let ghost k = self.pos();
            proof {
                lemma_statement_progress(ts, k);
            }
            let st = match self.parse_statement() {
                Ok(s) => s,
                Err(m) => return Err(m),
            };
            let ghost before = stmts@;
            stmts.push(st);
            proof {
                assert(stmts@.subrange(0, before.len() as int) =~= before);
                assert(stmts_v(stmts@) =~= stmts_v(before).push(stmt_v(st)));
                lemma_skip_nl(ts, self.pos());
            }
            self.skip_newlines();
        }
        match self.expect(TokenType::RBrace) {
            Ok(()) => {},
            Err(m) => return Err(m),
        }
        Ok(stmts)
    }
}

impl Parser {
    /// `pre` + `t` + `post`, as a message.
    fn message_with(pre: &str, t: &String, post: &str) -> (r: String)
        ensures
            r@ == pre@ + t@ + post@,
    {
        let mut msg = string_of(pre);
        push_string(&mut msg, t);
        push_str(&mut msg, post);
        msg
    }

    /// Parameters `name: type` separated by commas.
    fn parse_params(&mut self) -> (r: Result<Vec<Parameter>, String>)
        requires
            old(self).wf(),
        ensures
            final(self).wf(),
            final(self).tokens@ == old(self).tokens@,
            match p_params(old(self).toks(), old(self).pos(), Seq::empty()) {
                Ok((ps, j)) => r matches Ok(x) && params_v(x@) == ps && final(self).pos() == j,
                Err(m) => r matches Err(x) && x@ == m,
            },
    {
        let ghost ts = self.toks();
        let ghost res = p_params(ts, self.pos(), Seq::empty());
        let mut params: Vec<Parameter> = Vec::new();
        assert(params_v(params@) =~= Seq::<(Seq<char>, ValueType)>::empty());
        loop
            invariant
                self.wf(),
                self.toks() == ts,
                self.tokens@ == old(self).tokens@,
                ts == old(self).toks(),
                res == p_params(ts, old(self).pos(), Seq::empty()),
                p_params(ts, self.pos(), params_v(params@)) == res,
            decreases ts.len() - self.pos(),
        {
            let ghost k = self.pos();
            let name = match self.expect_identifier() {
                Ok(n) => n,
                Err(m) => return Err(m),
            };
            match self.expect(TokenType::Colon) {
                Ok(()) => {},
                Err(m) => return Err(m),
            }
            let ty = match self.expect_type() {
                Ok(t) => t,
                Err(m) => return Err(m),
            };
            let t = match type_from_name(&ty) {
                Some(t) => t,
                None => return Err(Self::message_with("Unknown type '", &ty, "' in function parameter")),
            };
            let ghost before = params@;
            params.push(Parameter { name, ty: t });
            assert(params_v(params@) =~= params_v(before).push((name@, t)));
            if self.check(&TokenType::Comma) {
                self.advance();
            } else {
                return Ok(params);
            }
        }
    }

    /// `func name(params) -> type { body }`.
    fn parse_function(&mut self) -> (r: Result<FunctionBlock, String>)
        requires
            old(self).wf(),
        ensures
            final(self).wf(),
            final(self).tokens@ == old(self).tokens@,
            match p_function(old(self).toks(), old(self).pos()) {
                Ok((f, j)) => r matches Ok(x) && func_v(x) == f && final(self).pos() == j,
                Err(m) => r matches Err(x) && x@ == m,
            },
    {
        match self.expect(TokenType::Func) {
            Ok(()) => {},
            Err(m) => return Err(m),
        }
        let name = match self.expect_identifier() {
            Ok(n) => n,
            Err(m) => return Err(m),
        };
        match self.expect(TokenType::LParen) {
            Ok(()) => {},
            Err(m) => return Err(m),
        }
        let params = if self.check(&TokenType::RParen) {
            let v: Vec<Parameter> = Vec::new();
            assert(params_v(v@) =~= Seq::<(Seq<char>, ValueType)>::empty());
            v
        } else {
            match self.parse_params() {
                Ok(ps) => ps,
                Err(m) => return Err(m),
            }
        };
        match self.expect(TokenType::RParen) {
            Ok(()) => {},
            Err(m) => return Err(m),
        }
        match self.expect(TokenType::Minus) {
            Ok(()) => {},
            Err(m) => return Err(m),
        }
        match self.expect(TokenType::Greater) {
            Ok(()) => {},
            Err(m) => return Err(m),
        }
        let rt = match self.expect_type() {
            Ok(t) => t,
            Err(m) => return Err(m),
        };
        let return_type = match type_from_name(&rt) {
            Some(t) => t,
            None => return Err(Self::message_with("Unknown return type '", &rt, "'")),
        };
        let body = match self.parse_block() {
            Ok(b) => b,
            Err(m) => return Err(m),
        };
        Ok(FunctionBlock { name, params, return_type, body })
    }
}

impl Parser {
    /// The items of a header (`header`) or input block up to `}` or the end.
    fn parse_items(&mut self, header: bool) -> (r: Result<Vec<(String, String)>, String>)
        requires
            old(self).wf(),
        ensures
            final(self).wf(),
            final(self).tokens@ == old(self).tokens@,
            match p_items(old(self).toks(), old(self).pos(), header, Seq::empty()) {
                Ok((items, j)) => r matches Ok(x) && items_v(x@) == items && final(self).pos() == j,
                Err(m) => r matches Err(x) && x@ == m,
            },
    {
        let ghost ts = self.toks();
        let ghost res = p_items(ts, self.pos(), header, Seq::empty());
        let mut items: Vec<(String, String)> = Vec::new();
        assert(items_v(items@) =~= Seq::<(Seq<char>, Seq<char>)>::empty());
        while !self.check(&TokenType::RBrace) && !self.is_at_end()
            invariant
                self.wf(),
                self.toks() == ts,
                self.tokens@ == old(self).tokens@,
                ts == old(self).toks(),
                res == p_items(ts, old(self).pos(), header, Seq::empty()),
                p_items(ts, self.pos(), header, items_v(items@)) == res,
            ensures
                self.wf(),
                self.toks() == ts,
                self.tokens@ == old(self).tokens@,
                res == Ok::<(Seq<(Seq<char>, Seq<char>)>, int), Seq<char>>((items_v(items@), self.pos())),
            decreases ts.len() - self.pos(),
        {
            let ghost k = self.pos();
            self.skip_newlines();
            if self.check(&TokenType::RBrace) {
                break;
            }
            let key = match self.expect_identifier() {
                Ok(n) => n,
                Err(m) => return Err(m),
            };
            match self.expect(TokenType::Colon) {
                Ok(()) => {},
                Err(m) => return Err(m),
            }
            let value = if header {
                match self.expect_header_value() {
                    Ok(v) => v,
                    Err(m) => return Err(m),
                }
            } else {
                match self.expect_type() {
                    Ok(v) => v,
                    Err(m) => return Err(m),
                }
            };
            let ghost before = items@;
            items.push((key, value));
            assert(items_v(items@) =~= items_v(before).push((key@, value@)));
            proof {
                lemma_skip_nl(ts, k);
                lemma_skip_nl(ts, self.pos());
            }
            self.skip_newlines();
        }
        Ok(items)
    }

    /// `header { key: value ... }`.
    fn parse_header(&mut self) -> (r: Result<HeaderBlock, String>)
        requires
            old(self).wf(),
        ensures
            final(self).wf(),
            final(self).tokens@ == old(self).tokens@,
            match p_item_block(old(self).toks(), old(self).pos(), true) {
                Ok((items, j)) => r matches Ok(x) && items_v(x.items@) == items && final(self).pos() == j,
                Err(m) => r matches Err(x) && x@ == m,
            },
    {
        match self.expect(TokenType::Header) {
            Ok(()) => {},
            Err(m) => return Err(m),
        }
        match self.expect(TokenType::LBrace) {
            Ok(()) => {},
            Err(m) => return Err(m),
        }
        let items = match self.parse_items(true) {
            Ok(v) => v,
            Err(m) => return Err(m),
        };
        match self.expect(TokenType::RBrace) {
            Ok(()) => {},
            Err(m) => return Err(m),
        }
        Ok(HeaderBlock { items })
    }

    /// `input { name: type ... }`.
    fn parse_input_block(&mut self) -> (r: Result<InputBlock, String>)
        requires
            old(self).wf(),
        ensures
            final(self).wf(),
            final(self).tokens@ == old(self).tokens@,
            match p_item_block(old(self).toks(), old(self).pos(), false) {
                Ok((items, j)) => r matches Ok(x) && items_v(x.items@) == items && final(self).pos() == j,
                Err(m) => r matches Err(x) && x@ == m,
            },
    {
        match self.expect(TokenType::Input) {
            Ok(()) => {},
            Err(m) => return Err(m),
        }
        match self.expect(TokenType::LBrace) {
            Ok(()) => {},
            Err(m) => return Err(m),
        }
        let items = match self.parse_items(false) {
            Ok(v) => v,
            Err(m) => return Err(m),
        };
        match self.expect(TokenType::RBrace) {
            Ok(()) => {},
            Err(m) => return Err(m),
        }
        Ok(InputBlock { items })
    }
}

/// Once the conversion of a block's input items fails, it fails with the
/// same message however many items follow.
proof fn lemma_input_params_err(items: Seq<(Seq<char>, Seq<char>)>, k: int, n: int)
    requires
        0 <= k <= n <= items.len(),
        input_params(items, k) is Err,
    ensures
        input_params(items, n) == input_params(items, k),
    decreases n - k,
{
    if n > k {
        lemma_input_params_err(items, k, n - 1);
    }
}

/// The parts of a module parsed so far.
pub open spec fn parts_v(statements: Seq<Statement>, functions: Seq<FunctionBlock>, inputs: Seq<Parameter>) -> ModuleParts {
    (stmts_v(statements), functions.map_values(|f: FunctionBlock| func_v(f)), params_v(inputs))
}

impl Parser {
    /// The parameters of an input block's items, appended to `inputs`.
    fn push_input_params(items: &Vec<(String, String)>, inputs: &mut Vec<Parameter>) -> (r: Result<(), String>)
        ensures
            match input_params(items_v(items@), items@.len() as int) {
                Ok(ps) => r is Ok && params_v(final(inputs)@) == params_v(old(inputs)@) + ps,
                Err(m) => r matches Err(x) && x@ == m,
            },
    {
        let ghost iv = items_v(items@);
        let n = items.len();
        let mut idx: usize = 0;
        assert(params_v(inputs@) =~= params_v(old(inputs)@) + Seq::<(Seq<char>, ValueType)>::empty());
        while idx < n
            invariant
                0 <= idx <= n,
                n == items@.len(),
                iv == items_v(items@),
                input_params(iv, idx as int) matches Ok(ps) && params_v(inputs@) == params_v(old(inputs)@) + ps,
            decreases n - idx,
        {
            let ghost ps = input_params(iv, idx as int)->Ok_0;
            match type_from_name(&items[idx].1) {
                Some(t) => {
                    let ghost before = inputs@;
                    inputs.push(Parameter { name: items[idx].0.clone(), ty: t });
                    assert(params_v(inputs@) =~= params_v(before).push((items@[idx as int].0@, t)));
                    assert(params_v(inputs@) =~= params_v(old(inputs)@) + ps.push((iv[idx as int].0, t)));
                },
                None => {
                    proof {
                        lemma_input_params_err(iv, idx + 1, n as int);
                    }
                    return Err(Self::message_with("Unknown type '", &items[idx].1, "' in input block"));
                },
            }
            idx = idx + 1;
        }
        Ok(())
    }

    /// One item of a module's body: an input block, a function or a
    /// statement, added to the parts parsed so far.
    fn parse_module_item(
        &mut self,
        statements: &mut Vec<Statement>,
        functions: &mut Vec<FunctionBlock>,
        inputs: &mut Vec<Parameter>,
    ) -> (r: Result<(), String>)
        requires
            old(self).wf(),
        ensures
            final(self).wf(),
            final(self).tokens@ == old(self).tokens@,
            match p_module_item(old(self).toks(), old(self).pos(), parts_v(old(statements)@, old(functions)@, old(inputs)@)) {
                Ok((parts, j)) => r is Ok && parts_v(final(statements)@, final(functions)@, final(inputs)@) == parts
                    && final(self).pos() == j,
                Err(m) => r matches Err(x) && x@ == m,
            },
    {
        reveal(p_module_item);
        if self.check(&TokenType::Input) {
            let block = match self.parse_input_block() {
                Ok(b) => b,
                Err(m) => return Err(m),
            };
            Self::push_input_params(&block.items, inputs)
        } else if self.check(&TokenType::Func) {
            let f = match self.parse_function() {
                Ok(f) => f,
                Err(m) => return Err(m),
            };
            let ghost before = functions@;
            functions.push(f);
            assert(functions@.map_values(|f: FunctionBlock| func_v(f)) =~= before.map_values(
                |f: FunctionBlock| func_v(f),
            ).push(func_v(f)));
            Ok(())
        } else {
            let st = match self.parse_statement() {
                Ok(s) => s,
                Err(m) => return Err(m),
            };
            let ghost before = statements@;
            statements.push(st);
            assert(statements@.subrange(0, before.len() as int) =~= before);
            assert(stmts_v(statements@) =~= stmts_v(before).push(stmt_v(st)));
            Ok(())
        }
    }

    /// `module name: { ... }`: input blocks, functions and statements.
    fn parse_module(&mut self) -> (r: Result<ModuleBlock, String>)
        requires
            old(self).wf(),
        ensures
            final(self).wf(),
            final(self).tokens@ == old(self).tokens@,
            match p_module(old(self).toks(), old(self).pos()) {
                Ok((m, j)) => r matches Ok(x) && module_v(x) == m && final(self).pos() == j,
                Err(m) => r matches Err(x) && x@ == m,
            },
    {
        let ghost ts = self.toks();
        match self.expect(TokenType::Module) {
            Ok(()) => {},
            Err(m) => return Err(m),
        }
        let name = match self.expect_identifier() {
            Ok(n) => n,
            Err(m) => return Err(m),
        };
        match self.expect(TokenType::Colon) {
            Ok(()) => {},
            Err(m) => return Err(m),
        }
        match self.expect(TokenType::LBrace) {
            Ok(()) => {},
            Err(m) => return Err(m),
        }
        let mut statements: Vec<Statement> = Vec::new();
        let mut functions: Vec<FunctionBlock> = Vec::new();
        let mut inputs: Vec<Parameter> = Vec::new();
        self.skip_newlines();
        let ghost start = self.pos();
        let ghost res = p_module_items(ts, start, (Seq::empty(), Seq::empty(), Seq::empty()));
        assert(parts_v(statements@, functions@, inputs@) =~= (Seq::<StmtV>::empty(), Seq::<FuncV>::empty(), Seq::<(Seq<char>, ValueType)>::empty()));
        let ghost whole = match res {
            Ok((parts, j)) => match expect(ts, j, TokenTypeV::RBrace) {
                Ok(k) => Ok((ModuleV { name: name@, statements: parts.0, functions: parts.1, inputs: parts.2 }, k)),
                Err(m) => Err(m),
            },
            Err(m) => Err(m),
        };
        assert(p_module(ts, old(self).pos()) == whole);
        while !self.check(&TokenType::RBrace) && !self.is_at_end()
            invariant
                self.wf(),
                self.toks() == ts,
                self.tokens@ == old(self).tokens@,
                ts == old(self).toks(),
                res == p_module_items(ts, start, (Seq::empty(), Seq::empty(), Seq::empty())),
                p_module(ts, old(self).pos()) == whole,
                whole == match res {
                    Ok((parts, j)) => match expect(ts, j, TokenTypeV::RBrace) {
                        Ok(k) => Ok((ModuleV { name: name@, statements: parts.0, functions: parts.1, inputs: parts.2 }, k)),
                        Err(m) => Err(m),
                    },
                    Err(m) => Err(m),
                },
                p_module_items(ts, self.pos(), parts_v(statements@, functions@, inputs@)) == res,
            ensures
                self.wf(),
                self.toks() == ts,
                self.tokens@ == old(self).tokens@,
                res == Ok::<(ModuleParts, int), Seq<char>>((parts_v(statements@, functions@, inputs@), self.pos())),
            decreases ts.len() - self.pos(),
        {
            let ghost k = self.pos();
            proof {
                lemma_skip_nl(ts, k);
            }
            self.skip_newlines();
            if self.check(&TokenType::RBrace) {
                break;
            }
            proof {
                lemma_module_item_progress(ts, self.pos(), parts_v(statements@, functions@, inputs@));
            }
            match self.parse_module_item(&mut statements, &mut functions, &mut inputs) {
                Ok(()) => {},
                Err(m) => return Err(m),
            }
            proof {
                lemma_skip_nl(ts, self.pos());
            }
            self.skip_newlines();
        }
        match self.expect(TokenType::RBrace) {
            Ok(()) => {},
            Err(m) => return Err(m),
        }
        Ok(ModuleBlock { name, statements, functions, inputs })
    }
}

/// The program parsed so far.
pub open spec fn program_parts_v(header: Option<HeaderBlock>, inputs: Option<InputBlock>, modules: Seq<ModuleBlock>) -> ProgramV {
    ProgramV {
        header: match header {
            Some(h) => Some(items_v(h.items@)),
            None => None,
        },
        inputs: match inputs {
            Some(ib) => Some(items_v(ib.items@)),
            None => None,
        },
        modules: modules.map_values(|m: ModuleBlock| module_v(m)),
    }
}

impl Parser {
    /// The top level: header and input blocks and modules up to the `Eof`.
    fn parse_program(&mut self) -> (r: Result<Program, String>)
        requires
            old(self).wf(),
        ensures
            match p_top(old(self).toks(), skip_nl(old(self).toks(), old(self).pos()),
                ProgramV { header: None, inputs: None, modules: Seq::empty() }) {
                Ok(p) => r matches Ok(x) && program_v(x) == p,
                Err(m) => r matches Err(x) && x@ == m,
            },
    {
        let ghost ts = self.toks();
        let mut header: Option<HeaderBlock> = None;
        let mut inputs: Option<InputBlock> = None;
        let mut modules: Vec<ModuleBlock> = Vec::new();
        self.skip_newlines();
        let ghost res = p_top(ts, self.pos(), ProgramV { header: None, inputs: None, modules: Seq::empty() });
        assert(program_parts_v(header, inputs, modules@).modules =~= Seq::<ModuleV>::empty());
        assert(program_parts_v(header, inputs, modules@) == ProgramV { header: None, inputs: None, modules: Seq::empty() });
        loop
            invariant
                self.wf(),
                self.toks() == ts,
                ts == old(self).toks(),
                res == p_top(ts, skip_nl(ts, old(self).pos()), ProgramV { header: None, inputs: None, modules: Seq::empty() }),
                p_top(ts, self.pos(), program_parts_v(header, inputs, modules@)) == res,
            decreases ts.len() - self.pos(),
        {
            let ghost k = self.pos();
            match self.peek().token_type {
                TokenType::Header => {
                    proof {
                        lemma_item_block_progress(ts, k, true);
                    }
                    match self.parse_header() {
                        Ok(h) => header = Some(h),
                        Err(m) => return Err(m),
                    }
                    proof {
                        lemma_skip_nl(ts, self.pos());
                    }
                    self.skip_newlines();
                },
                TokenType::Input => {
                    proof {
                        lemma_item_block_progress(ts, k, false);
                    }
                    match self.parse_input_block() {
                        Ok(b) => inputs = Some(b),
                        Err(m) => return Err(m),
                    }
                    proof {
                        lemma_skip_nl(ts, self.pos());
                    }
                    self.skip_newlines();
                },
                TokenType::Module => {
                    proof {
                        lemma_module_progress(ts, k);
                    }
                    let m = match self.parse_module() {
                        Ok(m) => m,
                        Err(e) => return Err(e),
                    };
                    let ghost before = modules@;
                    modules.push(m);
                    assert(modules@.map_values(|m: ModuleBlock| module_v(m)) =~= before.map_values(
                        |m: ModuleBlock| module_v(m),
                    ).push(module_v(m)));
                    proof {
                        lemma_skip_nl(ts, self.pos());
                    }
                    self.skip_newlines();
                },
                TokenType::Eof => {
                    return Ok(Program { header, inputs, modules });
                },
                TokenType::RBrace | TokenType::Newline => {
                    self.advance();
                },
                _ => {
                    let token = self.peek();
                    let mut msg = string_of("Unexpected token at top level: ");
                    push_token_debug(&mut msg, &token.token_type);
                    push_at_token(&mut msg, token);
                    return Err(msg);
                },
            }
        }
    }

    /// The program that `tokens` spell, up to the first `Eof` (the parser
    /// reads nothing after it); the floating literals before it must have
    /// their values.
    pub fn parse(tokens: Vec<Token>) -> (r: Result<Program, String>)
        requires
            exists|i: int| 0 <= i < tokens@.len() && #[trigger] tokens@[i].token_type is Eof,
            forall|i: int| #[trigger] first_eof_at(tokens@, i) ==> floats_resolved(tokens@.take(i + 1)),
        ensures
            forall|i: int| #[trigger] first_eof_at(tokens@, i) ==> match p_program(tokens_view(tokens@.take(i + 1))) {
                Ok(p) => r matches Ok(x) && program_v(x) == p,
                Err(m) => r matches Err(x) && x@ == m,
            },
    {
        let ghost ts = tokens@;
        let mut tokens = tokens;
        let mut e: usize = 0;
        while e < tokens.len() && !is_eof(&tokens[e])
            invariant
                e <= tokens@.len(),
                tokens@ == ts,
                forall|j: int| 0 <= j < e ==> !(#[trigger] ts[j].token_type is Eof),
            decreases tokens@.len() - e,
        {
            e = e + 1;
        }
        assert(e < ts.len()) by {
            if e >= ts.len() {
                let i = choose|i: int| 0 <= i < ts.len() && #[trigger] ts[i].token_type is Eof;
                assert(!(ts[i].token_type is Eof));
            }
        }
        assert(first_eof_at(ts, e as int));
        assert forall|i: int| #[trigger] first_eof_at(ts, i) implies i == e by {
            if i < e {
                assert(!(ts[i].token_type is Eof));
            } else if i > e {
                assert(!(ts[e as int].token_type is Eof));
            }
        }
        tokens.truncate(e + 1);
        assert(tokens@ =~= ts.take(e + 1));
        let mut parser = Parser::new(tokens);
        parser.parse_program()
    }
}

/// Whether a token is the end marker.
fn is_eof(t: &Token) -> (r: bool)
    ensures
        r == (t.token_type is Eof),
{
    match t.token_type {
        TokenType::Eof => true,
        _ => false,
    }
}

/// Token `i` is the first `Eof`.
pub open spec fn first_eof_at(ts: Seq<Token>, i: int) -> bool {
    &&& 0 <= i < ts.len()
    &&& ts[i].token_type is Eof
    &&& forall|j: int| 0 <= j < i ==> !(#[trigger] ts[j].token_type is Eof)
}

} // verus!
