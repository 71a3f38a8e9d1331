use nyacc::ast::{
    Arithmetic, Assignment, Comparator, Compare, ExprStatement, Expression, For, FuncDef, FuncImpl,
    FunctionCall, If, Int, Let, Not, OpType, Return, Statement, StructCtor, StructDef, TypedArg,
    UnaryMinus, Variable, While,
};
use nyacc::parser;
use nyacc::parser::{
    parse_expr, parse_float, parse_int, parse_program, parse_program_block, parse_statement,
};

fn lit(v: u64) -> Expression {
    Expression::Int(Int { val: v })
}

fn var(name: &str) -> Expression {
    Expression::Variable(Variable { name: name.into(), fields: vec![] })
}

fn var_path(name: &str, fields: &[&str]) -> Expression {
    Expression::Variable(Variable {
        name: name.into(),
        fields: fields.iter().map(|f| f.to_string()).collect(),
    })
}

fn lvalue(name: &str) -> Variable {
    Variable { name: name.into(), fields: vec![] }
}

fn arith(lhs: Expression, op: OpType, rhs: Expression) -> Expression {
    Expression::Arithmetic(Arithmetic { lhs: Box::new(lhs), op, rhs: Box::new(rhs) })
}

fn cmp(lhs: Expression, c: Comparator, rhs: Expression) -> Expression {
    Expression::Compare(Compare { lhs: Box::new(lhs), cmp: c, rhs: Box::new(rhs) })
}

fn not(e: Expression) -> Expression {
    Expression::Not(Not { expr: Box::new(e) })
}

fn neg(e: Expression) -> Expression {
    Expression::UnaryMinus(UnaryMinus { expr: Box::new(e) })
}

fn call(name: &str, args: Vec<Expression>) -> Expression {
    Expression::FunctionCall(FunctionCall { name: name.into(), args })
}

fn assign(name: &str, e: Expression) -> Statement {
    Statement::Assignment(Assignment { var: lvalue(name), expr: e })
}

fn expr_st(e: Expression) -> Statement {
    Statement::ExprStatement(ExprStatement { expr: e })
}

fn targ(name: &str, tp: &str) -> TypedArg {
    TypedArg::new(name.into(), tp.into())
}

#[test]
fn int_as_expr() {
    assert_eq!(parse_expr("12"), Ok(lit(12)));
}

#[test]
fn arithmetic_simple_expressions() {
    assert_eq!(parse_expr("12"), Ok(lit(12)));
    assert_eq!(parse_expr("12 + 3"), Ok(arith(lit(12), OpType::Add, lit(3))));
}

#[test]
fn arithmetic_brackets() {
    assert_eq!(parse_expr("(1)"), Ok(lit(1)));
    assert_eq!(
        parse_expr("(1 + (a * 2) / 4)"),
        Ok(arith(
            lit(1),
            OpType::Add,
            arith(arith(var("a"), OpType::Mul, lit(2)), OpType::Div, lit(4))
        ))
    );
}

#[test]
fn order_of_eval() {
    assert_eq!(
        parse_expr("1 + 2 + 3"),
        Ok(arith(arith(lit(1), OpType::Add, lit(2)), OpType::Add, lit(3)))
    );
    assert_eq!(
        parse_expr("1 + 2 * 3"),
        Ok(arith(lit(1), OpType::Add, arith(lit(2), OpType::Mul, lit(3))))
    );
}

#[test]
fn compare_simple_expressions() {
    assert_eq!(parse_expr("12"), Ok(lit(12)));
    assert_eq!(parse_expr("12 > 3"), Ok(cmp(lit(12), Comparator::GT, lit(3))));
    assert_eq!(parse_expr("12 < 3"), Ok(cmp(lit(12), Comparator::LT, lit(3))));
    assert_eq!(
        parse_expr("12 == (3 + 4)"),
        Ok(cmp(lit(12), Comparator::EQ, arith(lit(3), OpType::Add, lit(4))))
    );
}

#[test]
fn compare_brackets() {
    assert_eq!(parse_expr("12"), Ok(lit(12)));
    assert_eq!(
        parse_expr("(12 < 4) == (3 + 4)"),
        Ok(cmp(
            cmp(lit(12), Comparator::LT, lit(4)),
            Comparator::EQ,
            arith(lit(3), OpType::Add, lit(4))
        ))
    );
}

#[test]
fn parse_id() {
    assert_eq!(parser::parse_id("abc"), Ok("abc".to_string()));
    assert_eq!(parser::parse_id("s2"), Ok("s2".to_string()));
    assert_eq!(parser::parse_id("under_score"), Ok("under_score".to_string()));
    assert!(parser::parse_id("2ba").is_err());
    assert!(parser::parse_id("@@a").is_err());
}

#[test]
fn parse_numeric() {
    assert_eq!(parse_int("3"), Ok(3));
    assert_eq!(parse_int("1000"), Ok(1000));
    assert_eq!(parse_int("12"), Ok(12));
    assert_eq!(parse_float("3.0").unwrap().parse::<f64>().unwrap(), 3.0);
    assert_eq!(parse_float("1.99").unwrap().parse::<f64>().unwrap(), 1.99);
    assert_eq!(parse_float("12.").unwrap().parse::<f64>().unwrap(), 12.);
}

#[test]
fn function_call_simple_expressions() {
    assert_eq!(parse_expr("func()"), Ok(call("func", vec![])));
    assert_eq!(
        parse_expr("func(a, b, c)"),
        Ok(call("func", vec![var("a"), var("b"), var("c")]))
    );
}

#[test]
fn complex_expr_in_args() {
    assert_eq!(
        parse_expr("func(a.field, b.field, c.delta.delta.strikh)"),
        Ok(call(
            "func",
            vec![
                var_path("a", &["field"]),
                var_path("b", &["field"]),
                var_path("c", &["delta", "delta", "strikh"]),
            ]
        ))
    );
    assert_eq!(
        parse_expr("func(1 + 2, 3 * 4, 1 != 3)"),
        Ok(call(
            "func",
            vec![
                arith(lit(1), OpType::Add, lit(2)),
                arith(lit(3), OpType::Mul, lit(4)),
                cmp(lit(1), Comparator::NE, lit(3)),
            ]
        ))
    );
}

#[test]
fn not_simple_expressions() {
    assert_eq!(parse_expr("!2"), Ok(not(lit(2))));
    assert_eq!(parse_expr("!(1 + 2)"), Ok(not(arith(lit(1), OpType::Add, lit(2)))));
}

#[test]
fn not_eval_order() {
    assert_eq!(parse_expr("!2 > 3"), Ok(cmp(not(lit(2)), Comparator::GT, lit(3))));
    assert_eq!(parse_expr("!2 + 3"), Ok(arith(not(lit(2)), OpType::Add, lit(3))));
}

#[test]
fn struct_ctor_simple_expressions() {
    assert_eq!(parse_expr("S {}"), Ok(Expression::StructCtor(StructCtor { name: "S".into() })));
}

#[test]
fn complex_args() {
    assert_eq!(parse_expr("S {}"), Ok(Expression::StructCtor(StructCtor { name: "S".into() })));
}

#[test]
fn unary_minus_simple_expressions() {
    assert_eq!(parse_expr("-2"), Ok(neg(lit(2))));
    assert_eq!(parse_expr("-(1 + 2)"), Ok(neg(arith(lit(1), OpType::Add, lit(2)))));
}

#[test]
fn unary_minus_eval_order() {
    assert_eq!(parse_expr("-2 + 3"), Ok(arith(neg(lit(2)), OpType::Add, lit(3))));
    assert_eq!(parse_expr("3 + -2"), Ok(arith(lit(3), OpType::Add, neg(lit(2)))));
}

#[test]
fn variable_simple() {
    assert_eq!(parse_expr("a"), Ok(var("a")));
    assert_eq!(parse_expr("a12"), Ok(var("a12")));
    assert_eq!(parse_expr("a12_lol"), Ok(var("a12_lol")));
}

#[test]
fn fields() {
    assert_eq!(parse_expr("a.b"), Ok(var_path("a", &["b"])));
    assert_eq!(parse_expr("a.b.c.d"), Ok(var_path("a", &["b", "c", "d"])));
    assert_eq!(parse_expr("a12.s5"), Ok(var_path("a12", &["s5"])));
}

#[test]
fn assignment_simple() {
    assert_eq!(parse_statement("a = 12;"), Ok(assign("a", lit(12))));
    assert_eq!(parse_statement("a = b;"), Ok(assign("a", var("b"))));
}

#[test]
fn complex() {
    assert_eq!(
        parse_statement("a = b == c;"),
        Ok(assign("a", cmp(var("b"), Comparator::EQ, var("c"))))
    );
}

#[test]
fn variable() {
    assert_eq!(parse_statement("a;"), Ok(expr_st(var("a"))));
}

#[test]
fn arithmetic() {
    assert_eq!(
        parse_statement("1 / 2;"),
        Ok(expr_st(arith(lit(1), OpType::Div, lit(2))))
    );
}

fn doubling_loop(start: Statement, body: Vec<Statement>) -> Statement {
    Statement::For(For {
        start: Box::new(start),
        check: cmp(var("a"), Comparator::LT, lit(100)),
        step: Box::new(assign("a", arith(var("a"), OpType::Mul, lit(2)))),
        body,
    })
}

#[test]
fn existing_val_empty() {
    assert_eq!(
        parse_statement("for (a = 3; a < 100; a = a * 2) {}"),
        Ok(doubling_loop(assign("a", lit(3)), vec![]))
    );
}

#[test]
fn existing_val_body() {
    assert_eq!(
        parse_statement("for (a = 3; a < 100; a = a * 2) {a = 3; a = 7;}"),
        Ok(doubling_loop(assign("a", lit(3)), vec![assign("a", lit(3)), assign("a", lit(7))]))
    );
}

#[test]
fn new_val() {
    let start = Statement::Let(Let { var: "a".into(), tp: Some("u8".into()), expr: lit(3) });
    assert_eq!(
        parse_statement("for (let a: u8 = 3; a < 100; a = a * 2) {a = 3; a = 7;}"),
        Ok(doubling_loop(start, vec![assign("a", lit(3)), assign("a", lit(7))]))
    );
}

#[test]
fn func_def_with_args() {
    assert_eq!(
        parse_program_block("fn foo(a: type1, b:type2);"),
        Ok(Statement::FuncDef(FuncDef {
            name: "foo".into(),
            args: vec![targ("a", "type1"), targ("b", "type2")],
            rettype: "void".into(),
        }))
    );
}

#[test]
fn func_def_empty() {
    assert_eq!(
        parse_program_block("fn foo();"),
        Ok(Statement::FuncDef(FuncDef { name: "foo".into(), args: vec![], rettype: "void".into() }))
    );
}

#[test]
fn func_def_nonvoid_ret() {
    assert_eq!(
        parse_program_block("fn foo() -> S;"),
        Ok(Statement::FuncDef(FuncDef { name: "foo".into(), args: vec![], rettype: "S".into() }))
    );
}

#[test]
fn func_impl_with_args() {
    assert_eq!(
        parse_program_block("fn foo(a: type1, b:type2) {a;}"),
        Ok(Statement::FuncImpl(FuncImpl {
            name: "foo".into(),
            args: vec![targ("a", "type1"), targ("b", "type2")],
            rettype: "void".into(),
            body: vec![expr_st(var("a"))],
        }))
    );
}

#[test]
fn func_impl_empty() {
    assert_eq!(
        parse_program_block("fn foo() {}"),
        Ok(Statement::FuncImpl(FuncImpl {
            name: "foo".into(),
            args: vec![],
            rettype: "void".into(),
            body: vec![],
        }))
    );
}

#[test]
fn func_impl_nonvoid_ret() {
    assert_eq!(
        parse_program_block("fn foo() -> S {}"),
        Ok(Statement::FuncImpl(FuncImpl {
            name: "foo".into(),
            args: vec![],
            rettype: "S".into(),
            body: vec![],
        }))
    );
}

#[test]
fn only_if() {
    assert_eq!(
        parse_statement("if ((2 > 3) + 3) {1;}"),
        Ok(Statement::If(If {
            check: arith(cmp(lit(2), Comparator::GT, lit(3)), OpType::Add, lit(3)),
            true_body: vec![expr_st(lit(1))],
            else_body: None,
        }))
    );
    assert_eq!(
        parse_statement("if (1) {}"),
        Ok(Statement::If(If { check: lit(1), true_body: vec![], else_body: None }))
    );
}

#[test]
fn if_else() {
    assert_eq!(
        parse_statement("if (1) {} else {}"),
        Ok(Statement::If(If { check: lit(1), true_body: vec![], else_body: Some(vec![]) }))
    );
}

#[test]
fn no_type() {
    assert_eq!(
        parse_statement("let a = 1;"),
        Ok(Statement::Let(Let { var: "a".into(), tp: None, expr: lit(1) }))
    );
}

#[test]
fn with_type() {
    assert_eq!(
        parse_statement("let a: u8 = 1;"),
        Ok(Statement::Let(Let { var: "a".into(), tp: Some("u8".into()), expr: lit(1) }))
    );
}

#[test]
fn retval() {
    assert_eq!(
        parse_statement("return 1;"),
        Ok(Statement::Return(Return { expr: Some(lit(1)) }))
    );
}

#[test]
fn retvoid() {
    assert_eq!(parse_statement("return ;"), Ok(Statement::Return(Return { expr: None })));
}

#[test]
fn empty_type() {
    assert_eq!(
        parse_program_block("struct S {}"),
        Ok(Statement::StructDef(StructDef { name: "S".into(), fields: vec![] }))
    );
}

#[test]
fn normal() {
    assert_eq!(
        parse_program_block("struct S {a : t1, b : t2}"),
        Ok(Statement::StructDef(StructDef {
            name: "S".into(),
            fields: vec![targ("a", "t1"), targ("b", "t2")],
        }))
    );
}

#[test]
fn trailing_comma() {
    assert_eq!(
        parse_program_block("struct S {a : t1, b : t2 ,}"),
        Ok(Statement::StructDef(StructDef {
            name: "S".into(),
            fields: vec![targ("a", "t1"), targ("b", "t2")],
        }))
    );
}

#[test]
fn while_st_simple() {
    assert_eq!(
        parse_statement("while ((1 + 2) > 3) {1;}"),
        Ok(Statement::While(While {
            cond: cmp(arith(lit(1), OpType::Add, lit(2)), Comparator::GT, lit(3)),
            body: vec![expr_st(lit(1))],
        }))
    );
}

#[test]
fn whole_program_in_order() {
    let p = parse_program("struct W { value: i64 } fn f() -> i32; fn g() {}").unwrap();
    assert_eq!(p.blocks.len(), 3);
    assert!(matches!(p.blocks[0], Statement::StructDef(_)));
    assert!(matches!(p.blocks[1], Statement::FuncDef(_)));
    assert!(matches!(p.blocks[2], Statement::FuncImpl(_)));
}

#[test]
fn rejects_trailing_tokens_and_bad_input() {
    assert!(parse_expr("1 2").is_err());
    assert!(parse_statement("let = 1;").is_err());
    assert!(parse_expr("18446744073709551616").is_err());
    assert_eq!(parse_int("18446744073709551615"), Ok(u64::MAX));
    assert!(parse_program("let a = 1;").is_err());
    assert!(parser::parse_id("fn").is_err());
}
