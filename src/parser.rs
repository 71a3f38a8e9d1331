use vstd::prelude::*;
use vstd::string::*;

use crate::ast::{
    Arithmetic, Assignment, Compare, Comparator, Expression, ExprStatement, Float, For, FuncDef,
    FuncImpl, FunctionCall, If, Int, Let, Not, OpType, Program, Return, Statement, StructCtor,
    StructDef, TypedArg, UnaryMinus, Variable, While,
};
use crate::lexer::{all_digits, decimal_value, idents_ok, ints_ok, is_identifier, tokenize, ParseError, Token};

verus! {

/// The punctuation the grammar expects at fixed places.
#[derive(Clone, Copy)]
enum Punct {
    LParen,
    RParen,
    LBrace,
    RBrace,
    Semi,
    Colon,
    Assign,
}

fn is_punct(tok: &Token, k: Punct) -> bool {
    match (tok, k) {
        (Token::LParen, Punct::LParen) => true,
        (Token::RParen, Punct::RParen) => true,
        (Token::LBrace, Punct::LBrace) => true,
        (Token::RBrace, Punct::RBrace) => true,
        (Token::Semi, Punct::Semi) => true,
        (Token::Colon, Punct::Colon) => true,
        (Token::Assign, Punct::Assign) => true,
        _ => false,
    }
}

fn peek(t: &Vec<Token>, pos: usize, k: Punct) -> (r: bool)
    ensures
        r ==> pos < t@.len(),
{
    pos < t.len() && is_punct(&t[pos], k)
}

fn expect(t: &Vec<Token>, pos: usize, k: Punct) -> (r: Result<usize, ParseError>)
    requires
        t@.len() < usize::MAX,
    ensures
        r matches Ok(p) ==> pos < t@.len() && p == pos + 1,
{
    if peek(t, pos, k) {
        Ok(pos + 1)
    } else {
        Err(ParseError { position: pos })
    }
}

fn ident_at(t: &Vec<Token>, pos: usize) -> (r: Result<(String, usize), ParseError>)
    requires
        idents_ok(t@),
        t@.len() < usize::MAX,
    ensures
        r matches Ok((w, p)) ==> pos < t@.len() && p == pos + 1 && is_identifier(w@),
{
    if pos < t.len() {
        match &t[pos] {
            Token::Ident(w) => {
                return Ok((w.clone(), pos + 1));
            },
            _ => {},
        }
    }
    Err(ParseError { position: pos })
}

fn boxed(e: Expression) -> (r: Box<Expression>)
    ensures
        *r == e,
{
    Box::new(e)
}

/// A primary expression: a literal, a parenthesised expression, a call, a
/// struct constructor or a variable with its field path.
fn primary_at(t: &Vec<Token>, pos: usize) -> (r: Result<(Expression, usize), ParseError>)
    requires
        idents_ok(t@),
        t@.len() < usize::MAX,
    ensures
        r matches Ok((_, p)) ==> pos < p <= t@.len(),
    decreases t@.len() - pos, 0int,
{
    if pos >= t.len() {
        return Err(ParseError { position: pos });
    }
    match &t[pos] {
        Token::Int(v) => Ok((Expression::Int(Int { val: *v }), pos + 1)),
        Token::Float(s) => Ok((Expression::Float(Float { text: s.clone() }), pos + 1)),
        Token::LParen => {
            let (e, p) = match expr_at(t, pos + 1) {
                Ok(x) => x,
                Err(err) => {
                    return Err(err);
                },
            };
            let p = match expect(t, p, Punct::RParen) {
                Ok(p) => p,
                Err(err) => {
                    return Err(err);
                },
            };
            Ok((e, p))
        },
        Token::Ident(name) => {
            if peek(t, pos + 1, Punct::LParen) {
                let mut args: Vec<Expression> = Vec::new();
                let mut p = pos + 2;
                if peek(t, p, Punct::RParen) {
                    return Ok((Expression::FunctionCall(FunctionCall { name: name.clone(), args }), p + 1));
                }
                loop
                    invariant
                        idents_ok(t@),
                        t@.len() < usize::MAX,
                        pos < p <= t@.len(),
                    decreases t@.len() - p,
                {
                    let (a, q) = match expr_at(t, p) {
                        Ok(x) => x,
                        Err(err) => {
                            return Err(err);
                        },
                    };
                    args.push(a);
                    if q < t.len() && matches!(t[q], Token::Comma) {
                        p = q + 1;
                    } else {
                        let q = match expect(t, q, Punct::RParen) {
                            Ok(q) => q,
                            Err(err) => {
                                return Err(err);
                            },
                        };
                        return Ok((Expression::FunctionCall(FunctionCall { name: name.clone(), args }), q));
                    }
                }
            } else if peek(t, pos + 1, Punct::LBrace) && peek(t, pos + 2, Punct::RBrace) {
                Ok((Expression::StructCtor(StructCtor { name: name.clone() }), pos + 3))
            } else {
                let (v, p) = match variable_at(t, pos) {
                    Ok(x) => x,
                    Err(err) => {
                        return Err(err);
                    },
                };
                Ok((Expression::Variable(v), p))
            }
        },
        _ => Err(ParseError { position: pos }),
    }
}

/// A variable and its field path: `a.b.c`.
fn variable_at(t: &Vec<Token>, pos: usize) -> (r: Result<(Variable, usize), ParseError>)
    requires
        idents_ok(t@),
        t@.len() < usize::MAX,
    ensures
        r matches Ok((v, p)) ==> pos < p <= t@.len() && is_identifier(v.name@),
{
    let (name, mut p) = match ident_at(t, pos) {
        Ok(x) => x,
        Err(err) => {
            return Err(err);
        },
    };
    let mut fields: Vec<String> = Vec::new();
    while p + 1 < t.len() && matches!(t[p], Token::Dot)
        invariant
            idents_ok(t@),
            t@.len() < usize::MAX,
            pos < p <= t@.len(),
        decreases t@.len() - p,
    {
        let (f, q) = match ident_at(t, p + 1) {
            Ok(x) => x,
            Err(err) => {
                return Err(err);
            },
        };
        fields.push(f);
        p = q;
    }
    Ok((Variable { name, fields }, p))
}

/// A unary expression: `-e`, `!e`, or a primary one.
fn unary_at(t: &Vec<Token>, pos: usize) -> (r: Result<(Expression, usize), ParseError>)
    requires
        idents_ok(t@),
        t@.len() < usize::MAX,
    ensures
        r matches Ok((_, p)) ==> pos < p <= t@.len(),
    decreases t@.len() - pos, 1int,
{
    if pos < t.len() && matches!(t[pos], Token::Minus) {
        let (e, p) = match unary_at(t, pos + 1) {
            Ok(x) => x,
            Err(err) => {
                return Err(err);
            },
        };
        Ok((Expression::UnaryMinus(UnaryMinus { expr: boxed(e) }), p))
    } else if pos < t.len() && matches!(t[pos], Token::Bang) {
        let (e, p) = match unary_at(t, pos + 1) {
            Ok(x) => x,
            Err(err) => {
                return Err(err);
            },
        };
        Ok((Expression::Not(Not { expr: boxed(e) }), p))
    } else {
        primary_at(t, pos)
    }
}

fn mul_op(t: &Vec<Token>, p: usize) -> (r: Option<OpType>)
    ensures
        r is Some ==> p < t@.len(),
{
    if p < t.len() {
        match &t[p] {
            Token::Star => Some(OpType::Mul),
            Token::Slash => Some(OpType::Div),
            _ => None,
        }
    } else {
        None
    }
}

fn add_op(t: &Vec<Token>, p: usize) -> (r: Option<OpType>)
    ensures
        r is Some ==> p < t@.len(),
{
    if p < t.len() {
        match &t[p] {
            Token::Plus => Some(OpType::Add),
            Token::Minus => Some(OpType::Sub),
            _ => None,
        }
    } else {
        None
    }
}

fn cmp_op(t: &Vec<Token>, p: usize) -> (r: Option<Comparator>)
    ensures
        r is Some ==> p < t@.len(),
{
    if p < t.len() {
        match &t[p] {
            Token::Le => Some(Comparator::LE),
            Token::Ge => Some(Comparator::GE),
            Token::Lt => Some(Comparator::LT),
            Token::Gt => Some(Comparator::GT),
            Token::EqEq => Some(Comparator::EQ),
            Token::Ne => Some(Comparator::NE),
            _ => None,
        }
    } else {
        None
    }
}

/// Products and quotients, left-associative.
fn term_at(t: &Vec<Token>, pos: usize) -> (r: Result<(Expression, usize), ParseError>)
    requires
        idents_ok(t@),
        t@.len() < usize::MAX,
    ensures
        r matches Ok((_, p)) ==> pos < p <= t@.len(),
    decreases t@.len() - pos, 2int,
{
    let (mut lhs, mut p) = match unary_at(t, pos) {
        Ok(x) => x,
        Err(err) => {
            return Err(err);
        },
    };
    loop
        invariant
            idents_ok(t@),
            t@.len() < usize::MAX,
            pos < p <= t@.len(),
        decreases t@.len() - p,
    {
        match mul_op(t, p) {
            Some(op) => {
                let (rhs, q) = match unary_at(t, p + 1) {
                    Ok(x) => x,
                    Err(err) => {
                        return Err(err);
                    },
                };
                lhs = Expression::Arithmetic(Arithmetic { lhs: boxed(lhs), op, rhs: boxed(rhs) });
                p = q;
            },
            None => {
                return Ok((lhs, p));
            },
        }
    }
}

/// Sums and differences, left-associative.
fn additive_at(t: &Vec<Token>, pos: usize) -> (r: Result<(Expression, usize), ParseError>)
    requires
        idents_ok(t@),
        t@.len() < usize::MAX,
    ensures
        r matches Ok((_, p)) ==> pos < p <= t@.len(),
    decreases t@.len() - pos, 3int,
{
    let (mut lhs, mut p) = match term_at(t, pos) {
        Ok(x) => x,
        Err(err) => {
            return Err(err);
        },
    };
    loop
        invariant
            idents_ok(t@),
            t@.len() < usize::MAX,
            pos < p <= t@.len(),
        decreases t@.len() - p,
    {
        match add_op(t, p) {
            Some(op) => {
                let (rhs, q) = match term_at(t, p + 1) {
                    Ok(x) => x,
                    Err(err) => {
                        return Err(err);
                    },
                };
                lhs = Expression::Arithmetic(Arithmetic { lhs: boxed(lhs), op, rhs: boxed(rhs) });
                p = q;
            },
            None => {
                return Ok((lhs, p));
            },
        }
    }
}

/// An expression: comparisons (the loosest operators), left-associative.
fn expr_at(t: &Vec<Token>, pos: usize) -> (r: Result<(Expression, usize), ParseError>)
    requires
        idents_ok(t@),
        t@.len() < usize::MAX,
    ensures
        r matches Ok((_, p)) ==> pos < p <= t@.len(),
    decreases t@.len() - pos, 4int,
{
    let (mut lhs, mut p) = match additive_at(t, pos) {
        Ok(x) => x,
        Err(err) => {
            return Err(err);
        },
    };
    loop
        invariant
            idents_ok(t@),
            t@.len() < usize::MAX,
            pos < p <= t@.len(),
        decreases t@.len() - p,
    {
        match cmp_op(t, p) {
            Some(cmp) => {
                let (rhs, q) = match additive_at(t, p + 1) {
                    Ok(x) => x,
                    Err(err) => {
                        return Err(err);
                    },
                };
                lhs = Expression::Compare(Compare { lhs: boxed(lhs), cmp, rhs: boxed(rhs) });
                p = q;
            },
            None => {
                return Ok((lhs, p));
            },
        }
    }
}

} // verus!

verus! {

/// A statement without its closing semicolon: `let`, an assignment, or an
/// expression.
fn simple_at(t: &Vec<Token>, pos: usize) -> (r: Result<(Statement, usize), ParseError>)
    requires
        idents_ok(t@),
        t@.len() < usize::MAX,
    ensures
        r matches Ok((_, p)) ==> pos < p <= t@.len(),
{
    if pos < t.len() && matches!(t[pos], Token::Let) {
        let (var, p) = match ident_at(t, pos + 1) {
            Ok(x) => x,
            Err(err) => {
                return Err(err);
            },
        };
        let (tp, p) = if peek(t, p, Punct::Colon) {
            match ident_at(t, p + 1) {
                Ok((ty, q)) => (Some(ty), q),
                Err(err) => {
                    return Err(err);
                },
            }
        } else {
            (None, p)
        };
        let p = match expect(t, p, Punct::Assign) {
            Ok(p) => p,
            Err(err) => {
                return Err(err);
            },
        };
        let (expr, p) = match expr_at(t, p) {
            Ok(x) => x,
            Err(err) => {
                return Err(err);
            },
        };
        return Ok((Statement::Let(Let { var, tp, expr }), p));
    }
    if is_assignment(t, pos) {
        let (var, p) = match variable_at(t, pos) {
            Ok(x) => x,
            Err(err) => {
                return Err(err);
            },
        };
        let p = match expect(t, p, Punct::Assign) {
            Ok(p) => p,
            Err(err) => {
                return Err(err);
            },
        };
        let (expr, p) = match expr_at(t, p) {
            Ok(x) => x,
            Err(err) => {
                return Err(err);
            },
        };
        return Ok((Statement::Assignment(Assignment { var, expr }), p));
    }
    let (expr, p) = match expr_at(t, pos) {
        Ok(x) => x,
        Err(err) => {
            return Err(err);
        },
    };
    Ok((Statement::ExprStatement(ExprStatement { expr }), p))
}

/// The tokens at `pos` read `ID (. ID)* =`.
fn is_assignment(t: &Vec<Token>, pos: usize) -> bool
    requires
        t@.len() < usize::MAX,
{
    if !(pos < t.len() && matches!(t[pos], Token::Ident(_))) {
        return false;
    }
    let mut p = pos + 1;
    while p + 1 < t.len() && matches!(t[p], Token::Dot) && matches!(t[p + 1], Token::Ident(_))
        invariant
            t@.len() < usize::MAX,
            p <= t@.len(),
        decreases t@.len() - p,
    {
        p = p + 2;
    }
    peek(t, p, Punct::Assign)
}

/// A block of statements in braces.
fn block_at(t: &Vec<Token>, pos: usize) -> (r: Result<(Vec<Statement>, usize), ParseError>)
    requires
        idents_ok(t@),
        t@.len() < usize::MAX,
    ensures
        r matches Ok((_, p)) ==> pos < p <= t@.len(),
    decreases t@.len() - pos, 0int,
{
    let mut p = match expect(t, pos, Punct::LBrace) {
        Ok(p) => p,
        Err(err) => {
            return Err(err);
        },
    };
    let mut body: Vec<Statement> = Vec::new();
    while !peek(t, p, Punct::RBrace)
        invariant
            idents_ok(t@),
            t@.len() < usize::MAX,
            pos < p <= t@.len(),
        decreases t@.len() - p,
    {
        let (s, q) = match statement_at(t, p) {
            Ok(x) => x,
            Err(err) => {
                return Err(err);
            },
        };
        body.push(s);
        p = q;
    }
    Ok((body, p + 1))
}

/// A statement of a function body.
fn statement_at(t: &Vec<Token>, pos: usize) -> (r: Result<(Statement, usize), ParseError>)
    requires
        idents_ok(t@),
        t@.len() < usize::MAX,
    ensures
        r matches Ok((_, p)) ==> pos < p <= t@.len(),
    decreases t@.len() - pos, 1int,
{
    if pos >= t.len() {
        return Err(ParseError { position: pos });
    }
    match &t[pos] {
        Token::If => {
            let p = match expect(t, pos + 1, Punct::LParen) {
                Ok(p) => p,
                Err(err) => {
                    return Err(err);
                },
            };
            let (check, p) = match expr_at(t, p) {
                Ok(x) => x,
                Err(err) => {
                    return Err(err);
                },
            };
            let p = match expect(t, p, Punct::RParen) {
                Ok(p) => p,
                Err(err) => {
                    return Err(err);
                },
            };
            let (true_body, p) = match block_at(t, p) {
                Ok(x) => x,
                Err(err) => {
                    return Err(err);
                },
            };
            if p < t.len() && matches!(t[p], Token::Else) {
                let (else_body, q) = match block_at(t, p + 1) {
                    Ok(x) => x,
                    Err(err) => {
                        return Err(err);
                    },
                };
                Ok((Statement::If(If { check, true_body, else_body: Some(else_body) }), q))
            } else {
                Ok((Statement::If(If { check, true_body, else_body: None }), p))
            }
        },
        Token::While => {
            let p = match expect(t, pos + 1, Punct::LParen) {
                Ok(p) => p,
                Err(err) => {
                    return Err(err);
                },
            };
            let (cond, p) = match expr_at(t, p) {
                Ok(x) => x,
                Err(err) => {
                    return Err(err);
                },
            };
            let p = match expect(t, p, Punct::RParen) {
                Ok(p) => p,
                Err(err) => {
                    return Err(err);
                },
            };
            let (body, p) = match block_at(t, p) {
                Ok(x) => x,
                Err(err) => {
                    return Err(err);
                },
            };
            Ok((Statement::While(While { cond, body }), p))
        },
        Token::For => {
            let p = match expect(t, pos + 1, Punct::LParen) {
                Ok(p) => p,
                Err(err) => {
                    return Err(err);
                },
            };
            let (start, p) = match simple_at(t, p) {
                Ok(x) => x,
                Err(err) => {
                    return Err(err);
                },
            };
            let p = match expect(t, p, Punct::Semi) {
                Ok(p) => p,
                Err(err) => {
                    return Err(err);
                },
            };
            let (check, p) = match expr_at(t, p) {
                Ok(x) => x,
                Err(err) => {
                    return Err(err);
                },
            };
            let p = match expect(t, p, Punct::Semi) {
                Ok(p) => p,
                Err(err) => {
                    return Err(err);
                },
            };
            let (step, p) = match simple_at(t, p) {
                Ok(x) => x,
                Err(err) => {
                    return Err(err);
                },
            };
            let p = match expect(t, p, Punct::RParen) {
                Ok(p) => p,
                Err(err) => {
                    return Err(err);
                },
            };
            let (body, p) = match block_at(t, p) {
                Ok(x) => x,
                Err(err) => {
                    return Err(err);
                },
            };
            Ok((Statement::For(For { start: Box::new(start), check, step: Box::new(step), body }), p))
        },
        Token::Return => {
            if peek(t, pos + 1, Punct::Semi) {
                return Ok((Statement::Return(Return { expr: None }), pos + 2));
            }
            let (e, p) = match expr_at(t, pos + 1) {
                Ok(x) => x,
                Err(err) => {
                    return Err(err);
                },
            };
            let p = match expect(t, p, Punct::Semi) {
                Ok(p) => p,
                Err(err) => {
                    return Err(err);
                },
            };
            Ok((Statement::Return(Return { expr: Some(e) }), p))
        },
        _ => {
            let (s, p) = match simple_at(t, pos) {
                Ok(x) => x,
                Err(err) => {
                    return Err(err);
                },
            };
            let p = match expect(t, p, Punct::Semi) {
                Ok(p) => p,
                Err(err) => {
                    return Err(err);
                },
            };
            Ok((s, p))
        },
    }
}

/// Named and typed entries, `name: type`, separated by commas (a trailing
/// comma is allowed), up to the closing token `close`.
fn typed_args_at(t: &Vec<Token>, pos: usize, close: Punct) -> (r: Result<(Vec<TypedArg>, usize), ParseError>)
    requires
        pos <= t@.len(),
        idents_ok(t@),
        t@.len() < usize::MAX,
    ensures
        r matches Ok((_, p)) ==> pos < p <= t@.len(),
{
    let mut args: Vec<TypedArg> = Vec::new();
    let mut p = pos;
    loop
        invariant
            idents_ok(t@),
            t@.len() < usize::MAX,
            pos <= p <= t@.len(),
        decreases t@.len() - p,
    {
        if peek(t, p, close) {
            return Ok((args, p + 1));
        }
        let (name, q) = match ident_at(t, p) {
            Ok(x) => x,
            Err(err) => {
                return Err(err);
            },
        };
        let q = match expect(t, q, Punct::Colon) {
            Ok(q) => q,
            Err(err) => {
                return Err(err);
            },
        };
        let (tp, q) = match ident_at(t, q) {
            Ok(x) => x,
            Err(err) => {
                return Err(err);
            },
        };
        args.push(TypedArg { name, tp });
        if q < t.len() && matches!(t[q], Token::Comma) {
            p = q + 1;
        } else {
            let q = match expect(t, q, close) {
                Ok(q) => q,
                Err(err) => {
                    return Err(err);
                },
            };
            return Ok((args, q));
        }
    }
}

/// A top-level block: a function declaration or implementation, or a struct.
fn program_block_at(t: &Vec<Token>, pos: usize) -> (r: Result<(Statement, usize), ParseError>)
    requires
        idents_ok(t@),
        t@.len() < usize::MAX,
    ensures
        r matches Ok((_, p)) ==> pos < p <= t@.len(),
{
    if pos < t.len() && matches!(t[pos], Token::Struct) {
        let (name, p) = match ident_at(t, pos + 1) {
            Ok(x) => x,
            Err(err) => {
                return Err(err);
            },
        };
        let p = match expect(t, p, Punct::LBrace) {
            Ok(p) => p,
            Err(err) => {
                return Err(err);
            },
        };
        let (fields, p) = match typed_args_at(t, p, Punct::RBrace) {
            Ok(x) => x,
            Err(err) => {
                return Err(err);
            },
        };
        return Ok((Statement::StructDef(StructDef { name, fields }), p));
    }
    if !(pos < t.len() && matches!(t[pos], Token::Fn)) {
        return Err(ParseError { position: pos });
    }
    let (name, p) = match ident_at(t, pos + 1) {
        Ok(x) => x,
        Err(err) => {
            return Err(err);
        },
    };
    let p = match expect(t, p, Punct::LParen) {
        Ok(p) => p,
        Err(err) => {
            return Err(err);
        },
    };
    let (args, p) = match typed_args_at(t, p, Punct::RParen) {
        Ok(x) => x,
        Err(err) => {
            return Err(err);
        },
    };
    let (rettype, p) = if p < t.len() && matches!(t[p], Token::Arrow) {
        match ident_at(t, p + 1) {
            Ok(x) => x,
            Err(err) => {
                return Err(err);
            },
        }
    } else {
        (String::from_str("void"), p)
    };
    if peek(t, p, Punct::Semi) {
        return Ok((Statement::FuncDef(FuncDef { name, args, rettype }), p + 1));
    }
    let (body, p) = match block_at(t, p) {
        Ok(x) => x,
        Err(err) => {
            return Err(err);
        },
    };
    Ok((Statement::FuncImpl(FuncImpl { name, args, rettype, body }), p))
}

fn tokens_of(src: &str) -> (r: Result<Vec<Token>, ParseError>)
    ensures
        r matches Ok(t) ==> idents_ok(t@) && ints_ok(t@, src@) && t@.len() < usize::MAX,
{
    let t = match tokenize(src) {
        Ok(t) => t,
        Err(e) => {
            return Err(e);
        },
    };
    if t.len() == usize::MAX {
        return Err(ParseError { position: 0 });
    }
    Ok(t)
}

/// Reads a whole program: its top-level blocks in order.
pub fn parse_program(src: &str) -> (r: Result<Program, ParseError>) {
    let t = match tokens_of(src) {
        Ok(t) => t,
        Err(e) => {
            return Err(e);
        },
    };
    let mut blocks: Vec<Statement> = Vec::new();
    let mut p: usize = 0;
    while p < t.len()
        invariant
            idents_ok(t@),
            t@.len() < usize::MAX,
            p <= t@.len(),
        decreases t@.len() - p,
    {
        let (b, q) = match program_block_at(&t, p) {
            Ok(x) => x,
            Err(e) => {
                return Err(e);
            },
        };
        blocks.push(b);
        p = q;
    }
    Ok(Program { blocks })
}

/// Reads one top-level block, and nothing after it.
pub fn parse_program_block(src: &str) -> (r: Result<Statement, ParseError>) {
    let t = match tokens_of(src) {
        Ok(t) => t,
        Err(e) => {
            return Err(e);
        },
    };
    match program_block_at(&t, 0) {
        Ok((b, p)) => if p == t.len() {
            Ok(b)
        } else {
            Err(ParseError { position: p })
        },
        Err(e) => Err(e),
    }
}

/// Reads one statement, and nothing after it.
pub fn parse_statement(src: &str) -> (r: Result<Statement, ParseError>) {
    let t = match tokens_of(src) {
        Ok(t) => t,
        Err(e) => {
            return Err(e);
        },
    };
    match statement_at(&t, 0) {
        Ok((s, p)) => if p == t.len() {
            Ok(s)
        } else {
            Err(ParseError { position: p })
        },
        Err(e) => Err(e),
    }
}

/// Reads one expression, and nothing after it.
pub fn parse_expr(src: &str) -> (r: Result<Expression, ParseError>) {
    let t = match tokens_of(src) {
        Ok(t) => t,
        Err(e) => {
            return Err(e);
        },
    };
    match expr_at(&t, 0) {
        Ok((e, p)) => if p == t.len() {
            Ok(e)
        } else {
            Err(ParseError { position: p })
        },
        Err(e) => Err(e),
    }
}

/// Reads an identifier.
pub fn parse_id(src: &str) -> (r: Result<String, ParseError>)
    ensures
        r matches Ok(w) ==> is_identifier(w@),
{
    let t = match tokens_of(src) {
        Ok(t) => t,
        Err(e) => {
            return Err(e);
        },
    };
    match ident_at(&t, 0) {
        Ok((w, p)) => if p == t.len() {
            Ok(w)
        } else {
            Err(ParseError { position: p })
        },
        Err(e) => Err(e),
    }
}

/// Reads an integer literal: the value of a run of decimal digits of the text.
pub fn parse_int(src: &str) -> (r: Result<u64, ParseError>)
    ensures
        r matches Ok(v) ==> exists|a: int, b: int|
            0 <= a <= b <= src@.len() && all_digits(#[trigger] src@.subrange(a, b))
                && decimal_value(src@.subrange(a, b)) == v as nat,
{
    let t = match tokens_of(src) {
        Ok(t) => t,
        Err(e) => {
            return Err(e);
        },
    };
    if t.len() == 1 {
        match &t[0] {
            Token::Int(v) => {
                return Ok(*v);
            },
            _ => {},
        }
    }
    Err(ParseError { position: 0 })
}

/// Reads a float literal; gives it as written.
pub fn parse_float(src: &str) -> (r: Result<String, ParseError>) {
    let t = match tokens_of(src) {
        Ok(t) => t,
        Err(e) => {
            return Err(e);
        },
    };
    if t.len() == 1 {
        match &t[0] {
            Token::Float(s) => {
                return Ok(s.clone());
            },
            _ => {},
        }
    }
    Err(ParseError { position: 0 })
}

} // verus!
