use std::rc::Rc;

use nyacc::ast::{FuncDef, FuncImpl, StructDef, TypedArg};
use nyacc::codegen::compile;
use nyacc::context::{TypedValue, VisibilityContext};
use nyacc::definitions::ProgramDefinitions;
use nyacc::error::{CompileError, ErrorKind};
use nyacc::ir::{Inst, IrType, Module, Operand};
use nyacc::parser::parse_program;
use nyacc::printer::print_ast;
use nyacc::types::{CustomType, FloatType, IntType, Type};

fn compile_src(src: &str) -> Result<Module, CompileError> {
    let prog = parse_program(src).expect("the program parses");
    compile(&prog)
}

fn failure_of(src: &str) -> CompileError {
    match compile_src(src) {
        Ok(_) => panic!("compilation should fail"),
        Err(e) => e,
    }
}

fn int_ty(size: u8) -> Type {
    Type::Int(IntType { bitwidth: size })
}

fn float(size: u8) -> Type {
    Type::Float(FloatType { bitwidth: size })
}

fn common(l: Type, r: Type) -> Result<Rc<Type>, CompileError> {
    Type::common_type(&Rc::new(l), &Rc::new(r))
}

fn body_insts<'a>(m: &'a Module, name: &str) -> Vec<&'a Inst> {
    let f = m.functions.iter().find(|f| f.name == name).expect("function declared");
    let body = f.body.as_ref().expect("function implemented");
    body.insts.iter().map(|(_, i)| i).collect()
}

#[test]
fn main_signature() {
    let e = failure_of("fn main(a: i8) -> void {}");
    assert!(e.message.contains("Incorrect args for main function, should be none"));
    assert_eq!(e.kind, ErrorKind::MainSignature);

    let e = failure_of("fn main() -> i64 {}");
    assert!(e.message.contains("Incorrect return type for main function, should be none"));
    assert_eq!(e.kind, ErrorKind::MainSignature);
}

#[test]
fn double_func_def() {
    let e = failure_of(
        "fn foo(a: i8) -> i32 {}
         fn foo(a: i8) -> i32 {}
        ",
    );
    assert!(e.message.contains("Redefenition of func foo"));
}

#[test]
fn double_func_def_diff_arg() {
    let e = failure_of(
        "fn foo(a: i32) -> i32 {}
         fn foo(a: i8) -> i32 {}
        ",
    );
    assert!(e.message.contains("Redefenition of func foo"));
}

#[test]
fn double_type_def() {
    let e = failure_of(
        "struct A {}
         struct A {}
        ",
    );
    assert!(e.message.contains("Redefinition of A type"));
}

#[test]
fn test_type_order() {
    let e = failure_of(
        "
        struct B {a: A}
        struct A {a: i64}

        fn test() -> i32 {
            let b = B {};
            b.a.a = 1;
            return b.a.a;
        }
    ",
    );
    assert!(e.message.contains("Unknown type A in definition of B"));
}

#[test]
fn context_simple() {
    let mut vis = VisibilityContext::new();
    let put = |vis: &mut VisibilityContext, name: &str, v: usize| {
        vis.add_variable(name.into(), TypedValue { value: Operand::Slot(v), ty: Rc::new(Type::Void()) });
    };
    let get = |vis: &VisibilityContext, name: &str| vis.get_variable(&name.to_string()).map(|t| t.value);
    assert_eq!(get(&vis, "a"), None);
    vis.enter_layer();
    assert_eq!(get(&vis, "a"), None);
    put(&mut vis, "a", 3);
    assert_eq!(get(&vis, "a"), Some(Operand::Slot(3)));
    vis.enter_layer();
    assert_eq!(get(&vis, "a"), Some(Operand::Slot(3)));
    put(&mut vis, "a", 4);
    assert_eq!(get(&vis, "a"), Some(Operand::Slot(4)));
    vis.exit_layer();
    assert_eq!(get(&vis, "a"), Some(Operand::Slot(3)));
    vis.exit_layer();
    assert_eq!(get(&vis, "a"), None);
}

#[test]
fn common_type() {
    // All ints
    assert_eq!(*common(int_ty(2), int_ty(2)).unwrap(), int_ty(2));
    assert_eq!(*common(int_ty(1), int_ty(8)).unwrap(), int_ty(8));
    assert_eq!(*common(int_ty(8), int_ty(1)).unwrap(), int_ty(8));

    // With float
    assert_eq!(*common(int_ty(1), float(1)).unwrap(), float(1));
    assert_eq!(*common(int_ty(8), float(1)).unwrap(), float(1));
    assert_eq!(*common(float(8), int_ty(7)).unwrap(), float(8));

    // Can't negotiate with void
    assert!(common(int_ty(1), Type::Void()).is_err());
    assert!(common(float(1), Type::Void()).is_err());
    assert!(common(Type::Void(), Type::Void()).is_err());
    assert!(common(Type::Void(), int_ty(1)).is_err());
    assert!(common(Type::Void(), float(1)).is_err());

    // Can't negotiate with Custom Type
    let custom = || Type::Custom(CustomType::test_sample());
    assert!(common(custom(), float(1)).is_err());
    assert!(common(custom(), int_ty(1)).is_err());
    assert!(common(custom(), Type::Void()).is_err());
    assert!(common(float(1), custom()).is_err());
    assert!(common(int_ty(1), custom()).is_err());
    assert!(common(Type::Void(), custom()).is_err());
}

#[test]
fn common_type_examples_and_symmetry() {
    assert_eq!(*common(int_ty(8), int_ty(64)).unwrap(), int_ty(64));
    assert_eq!(*common(int_ty(32), float(32)).unwrap(), float(32));
    assert_eq!(*common(float(32), float(64)).unwrap(), float(64));
    assert_eq!(common(int_ty(32), Type::Void()).unwrap_err().kind, ErrorKind::TypeError);
    let all = [int_ty(1), int_ty(8), int_ty(16), int_ty(32), int_ty(64), float(32), float(64)];
    for a in all.iter() {
        for b in all.iter() {
            assert_eq!(*common(a.clone(), b.clone()).unwrap(), *common(b.clone(), a.clone()).unwrap());
        }
    }
}

#[test]
fn signature_mismatch_between_declarations() {
    let e = failure_of("fn foo(a: i8) -> i32; fn foo(a: i32) -> i32;");
    assert_eq!(e.kind, ErrorKind::SignatureMismatch);
    let e = failure_of("fn foo(a: i8) -> i32; fn foo(a: i8) -> i64;");
    assert_eq!(e.kind, ErrorKind::SignatureMismatch);
}

#[test]
fn error_kinds_of_the_definition_pass() {
    assert_eq!(failure_of("fn main(a: i8) -> void {}").kind, ErrorKind::MainSignature);
    assert_eq!(failure_of("fn main() -> i64 {}").kind, ErrorKind::MainSignature);
    assert_eq!(failure_of("struct A{} struct A{}").kind, ErrorKind::Redefinition);
    assert_eq!(failure_of("struct B { a: A } struct A { a: i64 }").kind, ErrorKind::UnknownType);
    assert_eq!(failure_of("fn f(a: q) {}").kind, ErrorKind::UnknownType);
    assert_eq!(failure_of("fn f() -> q {}").kind, ErrorKind::UnknownType);
}

#[test]
fn error_kinds_of_code_generation() {
    assert_eq!(failure_of("fn f() -> i32 { return x; }").kind, ErrorKind::UnknownVariable);
    assert_eq!(
        failure_of("struct W { v: i64 } fn f() -> i64 { let w = W {}; return w.u; }").kind,
        ErrorKind::UnknownField
    );
    assert_eq!(failure_of("fn f() -> i64 { let a = 1; return a.b; }").kind, ErrorKind::TypeError);
    assert_eq!(failure_of("fn f() -> i32 { return g(); }").kind, ErrorKind::UnknownFunction);
    assert_eq!(
        failure_of("struct W { v: i64 } fn f() -> i64 { let w = W {}; return w + 1; }").kind,
        ErrorKind::TypeError
    );
    assert_eq!(failure_of("fn f() -> i32 { let a: q = 1; return 0; }").kind, ErrorKind::UnknownType);
    assert_eq!(failure_of("fn f() -> i32 { return Q {}; }").kind, ErrorKind::UnknownType);
    assert_eq!(failure_of("fn f() {} fn f() {}").kind, ErrorKind::DoubleImpl);
    assert_eq!(failure_of("fn f(a: i32) -> i32 { return f(); }").kind, ErrorKind::TypeError);
}

#[test]
fn definitions_are_collected_in_order() {
    let prog = parse_program("struct W { value: i64, other: f32 } fn f(a: i32) -> W; fn g() {}").unwrap();
    let defs = ProgramDefinitions::collect(&prog).unwrap();
    assert_eq!(defs.function_names(), vec!["f".to_string(), "g".to_string()]);
    let w = defs.get_type(&"W".to_string()).unwrap();
    match &*w {
        Type::Custom(c) => {
            assert_eq!(c.field(&"value".to_string()).map(|(i, t)| (i, (*t).clone())), Some((0, int_ty(64))));
            assert_eq!(c.field(&"other".to_string()).map(|(i, t)| (i, (*t).clone())), Some((1, float(32))));
            assert!(c.field(&"none".to_string()).is_none());
        }
        _ => panic!("W is a user type"),
    }
    assert_eq!(*defs.get_type(&"bool".to_string()).unwrap(), int_ty(1));
    assert_eq!(*defs.get_type(&"f64".to_string()).unwrap(), float(64));
    assert!(defs.get_type(&"u8".to_string()).is_none());
    let sig = defs.get_func(&"f".to_string()).unwrap();
    assert_eq!(sig.args.len(), 1);
    assert_eq!(*sig.args[0], int_ty(32));
}

#[test]
fn definition_pass_twice_gives_the_same_tables() {
    let prog = parse_program("struct W { value: i64 } fn f(a: i32) -> W; fn g() {}").unwrap();
    let a = ProgramDefinitions::collect(&prog).unwrap();
    let b = ProgramDefinitions::collect(&prog).unwrap();
    assert_eq!(a.function_names(), b.function_names());
    for name in ["void", "bool", "i8", "i16", "i32", "i64", "f32", "f64", "W"] {
        assert_eq!(a.get_type(&name.to_string()), b.get_type(&name.to_string()));
    }
}

#[test]
fn sum_lowers_to_one_add() {
    let m = compile_src("fn sum(a: i32, b: i32) -> i32 { return a + b; }").unwrap();
    let insts = body_insts(&m, "sum");
    assert!(insts.iter().any(|i| matches!(i, Inst::Binary { op: nyacc::ir::BinOp::Add, .. })));
    assert!(insts.iter().any(|i| matches!(i, Inst::Ret { .. })));
    let f = m.functions.iter().find(|f| f.name == "sum").unwrap();
    assert_eq!(f.params, vec![IrType::Int(32), IrType::Int(32)]);
    assert_eq!(f.ret, IrType::Int(32));
}

#[test]
fn compare_is_one_bit_and_branches() {
    let m = compile_src("fn max(a: i32, b: i32) -> i32 { if (a > b) { return a; } else { return b; } }").unwrap();
    let insts = body_insts(&m, "max");
    assert!(insts.iter().any(|i| matches!(i, Inst::ICmp { pred: nyacc::ir::IntPredicate::SGT, .. })));
    assert!(insts.iter().any(|i| matches!(i, Inst::CondBr { .. })));
}

#[test]
fn recursion_calls_a_declared_function() {
    let m = compile_src(
        "fn fib(n: i32) -> i32 { if (n == 0) { return 1; } if (n == 1) { return 1; } return fib(n-1) + fib(n-2); }",
    )
    .unwrap();
    let calls: Vec<_> = body_insts(&m, "fib")
        .into_iter()
        .filter_map(|i| match i {
            Inst::Call { callee, .. } => Some(callee.clone()),
            _ => None,
        })
        .collect();
    assert_eq!(calls, vec!["fib".to_string(), "fib".to_string()]);
}

#[test]
fn narrow_variable_gets_truncating_casts() {
    let m = compile_src(
        "fn test() -> i32 { let x: i8 = 0; for (let n = 0; n < 256; n = n + 1) { x = x + 1; } return x; }",
    )
    .unwrap();
    let insts = body_insts(&m, "test");
    assert!(insts.iter().any(|i| matches!(i, Inst::Cast { to: IrType::Int(8), .. })));
    assert!(insts.iter().any(|i| matches!(i, Inst::Br { .. })));
}

#[test]
fn struct_fields_use_field_paths() {
    let m = compile_src(
        "struct W { value: i64 } fn f(a: i32, b: i32) -> i32 { let x = W {}; let y = W {}; x.value = a; y.value = b; if (x.value > y.value) { return x.value; } else { return y.value; } }",
    )
    .unwrap();
    assert_eq!(m.structs.len(), 1);
    assert_eq!(m.structs[0].fields, vec![IrType::Int(64)]);
    let insts = body_insts(&m, "f");
    assert!(insts.iter().any(|i| matches!(i, Inst::Gep { indices, .. } if indices == &vec![0usize])));
    assert!(insts.iter().any(|i| matches!(i, Inst::ZeroFill { .. })));
}

#[test]
fn every_block_ends_once_and_slots_stay_in_entry() {
    let m = compile_src(
        "fn test() -> i32 { let x = 1; if (x) { let x = 0; } return x; return 1; }
         fn nothing() -> void { return; }
         fn empty() {}
         fn loop_it(end: i32) -> i32 { let accum: i64 = 0; let i: i8 = 0; while (i < end) { accum = accum + i; i = i + 1; } return accum; }",
    )
    .unwrap();
    for f in &m.functions {
        let body = f.body.as_ref().unwrap();
        for b in 0..body.blocks.len() {
            let insts: Vec<&Inst> = body.insts.iter().filter(|(k, _)| *k == b).map(|(_, i)| i).collect();
            let terms = insts
                .iter()
                .filter(|i| {
                    matches!(i, Inst::Br { .. } | Inst::CondBr { .. } | Inst::Ret { .. } | Inst::RetVoid | Inst::Unreachable)
                })
                .count();
            assert_eq!(terms, 1, "block {} of {}", b, f.name);
            assert!(matches!(
                insts.last().unwrap(),
                Inst::Br { .. } | Inst::CondBr { .. } | Inst::Ret { .. } | Inst::RetVoid | Inst::Unreachable
            ));
        }
    }
    let test = m.functions.iter().find(|f| f.name == "test").unwrap().body.as_ref().unwrap();
    assert_eq!(test.slots.len(), 2);
}

#[test]
fn identical_types_need_no_cast() {
    let m = compile_src("fn id(a: i64) -> i64 { return a; }").unwrap();
    assert!(!body_insts(&m, "id").iter().any(|i| matches!(i, Inst::Cast { .. })));
    let m = compile_src("fn id(a: i32) -> i64 { return a; }").unwrap();
    assert!(body_insts(&m, "id").iter().any(|i| matches!(i, Inst::Cast { .. })));
}

#[test]
fn printer_writes_an_indented_tree() {
    let prog = parse_program("fn sum(a: i32, b: i32) -> i32 { return a + b; }").unwrap();
    let text = print_ast(&prog);
    let expected = "Program\n- Blocks:\n   FuncImpl of fn sum -> i32\n   - Args:\n      a: i32\n      b: i32\n   - Body:\n      Return val\n      - Val:\n         Arithmetic node (sign: +)\n         - LHS:\n            Variable a\n         - RHS:\n            Variable b\n";
    assert_eq!(text, expected);
}

#[test]
fn printer_shows_literals_and_paths() {
    let prog = parse_program("struct P { x: i64 } fn f() { let p: P = P {}; p.x = 12; }").unwrap();
    let text = print_ast(&prog);
    assert!(text.contains("StructDef of type P\n"));
    assert!(text.contains("Let to var p of type Some(\"P\")\n"));
    assert!(text.contains("Assignment to var p.x\n"));
    assert!(text.contains("Int 12\n"));
    assert!(text.contains("Struct Ctor of type P\n"));
}

#[test]
fn jit_programs_compile_to_closed_blocks() {
    let programs = [
        "fn sum(a: i32, b: i32) -> i32 { return a + b; }",
        "fn mul(a: i32, b: i32) -> i32 { return a * b; }",
        "fn test_id(a: i32) -> i32; fn mul(a: i32, b: i32) -> i32 { return test_id(a) * b; }",
        "fn id(a: i32) -> i32 { return a; } fn mul(a: i32, b: i32) -> i32 { return id(a) * b; }",
        "fn test(end: i32) -> i32 { let accum: i64 = 0; for (let i = 0; i < end; i = i + 1) { accum = accum + i; } return accum; }",
        "fn test(end: i32) -> i32 { let accum: i64 = 0; let i = 100; for (i = 0; i < end; i = i + 1) { accum = accum + i; } return accum; }",
        "fn fib(n: i32) -> i32 { if (n == 0) { return 1; } if (n == 1) { return 1; } return fib(n-1) + fib(n-2); }",
        "fn test(end: i32) -> i32 { let accum: i64 = 0; let i: i8 = 0; while (i < end) { accum = accum + i; i = i + 1; } return accum; }",
        "fn test() -> i32 { let overflowed: i8 = 0; for (let normal = 0; normal < 256; normal = normal + 1) { overflowed = overflowed + 1; } return overflowed; }",
        "fn nothing() -> void { return; } fn nothing_empty() -> void {} fn test() -> i32 { nothing(); nothing_empty(); return 0; }",
        "fn test() -> i32 { return 0; return 1; return 2; return 3; }",
        "fn max(a: i32, b: i32) -> i32 { if (a > b) { return a; } else { return b; } }",
        "struct WrappedInt { value: i64 } fn max_wrapped(a: WrappedInt, b: WrappedInt) -> i32 { if (a.value > b.value) { return a.value; } else { return b.value; } } fn max(a_in: i32, b_in: i32) -> i32 { let a: WrappedInt = WrappedInt {}; let b = WrappedInt {}; a.value = a_in; b.value = b_in; return max_wrapped(a, b); }",
        "struct PairI64 {first: i64, second: i64} fn test(x: i32) -> PairI64 { let a = PairI64 {}; a.first = x; a.second = x; return a; }",
        "struct PairI32 {first: i32, second: i32} fn test(x: i32) -> PairI32 { let a = PairI32 {}; a.first = x; a.second = x; return a; }",
        "fn test() -> i32 { let x = 1; if (x) { let x = 0; } return x; }",
    ];
    for src in programs.iter() {
        let m = compile_src(src).unwrap_or_else(|e| panic!("{} fails: {}", src, e.message));
        for f in &m.functions {
            if let Some(body) = &f.body {
                for b in 0..body.blocks.len() {
                    let last = body.insts.iter().filter(|(k, _)| *k == b).last().map(|(_, i)| i);
                    assert!(matches!(
                        last,
                        Some(Inst::Br { .. } | Inst::CondBr { .. } | Inst::Ret { .. } | Inst::RetVoid | Inst::Unreachable)
                    ));
                }
            }
        }
    }
}

#[test]
fn failed_registrations_leave_the_table_unchanged() {
    let mut d = ProgramDefinitions::new();
    let arg = |tp: &str| vec![TypedArg::new("a".into(), tp.into())];
    assert!(d.visit_funcdef(&FuncDef { name: "foo".into(), args: arg("i8"), rettype: "i32".into() }).is_ok());
    let e = d.visit_funcdef(&FuncDef { name: "foo".into(), args: arg("i32"), rettype: "i32".into() }).unwrap_err();
    assert_eq!(e.kind, ErrorKind::SignatureMismatch);
    let sig = d.get_func(&"foo".to_string()).unwrap();
    assert_eq!(*sig.args[0], int_ty(8));

    let e = d.visit_funcimpl(&FuncImpl { name: "main".into(), args: arg("i8"), rettype: "void".into(), body: vec![] }).unwrap_err();
    assert_eq!(e.kind, ErrorKind::MainSignature);
    assert!(e.message.contains("Incorrect args for main function, should be none"));
    assert!(d.get_func(&"main".to_string()).is_none());
    let e = d.visit_funcimpl(&FuncImpl { name: "main".into(), args: vec![], rettype: "i64".into(), body: vec![] }).unwrap_err();
    assert_eq!(e.kind, ErrorKind::MainSignature);
    assert!(d.get_func(&"main".to_string()).is_none());

    assert!(d.visit_structdef(&StructDef { name: "A".into(), fields: vec![] }).is_ok());
    let t = d.get_type(&"A".to_string()).unwrap();
    let e = d.visit_structdef(&StructDef { name: "A".into(), fields: arg("i64") }).unwrap_err();
    assert_eq!(e.kind, ErrorKind::Redefinition);
    assert!(Rc::ptr_eq(&d.get_type(&"A".to_string()).unwrap(), &t));
}

#[test]
fn parameters_are_stored_and_void_bodies_return() {
    let m = compile_src("fn f(a: i32, b: i8) -> void { a = b; }").unwrap();
    let body = m.functions[0].body.as_ref().unwrap();
    assert_eq!(body.insts[0], (0, Inst::Store { value: Operand::Param(0), ptr: Operand::Slot(0) }));
    assert_eq!(body.insts[1], (0, Inst::Store { value: Operand::Param(1), ptr: Operand::Slot(1) }));
    assert_eq!(body.slots[..2], [IrType::Int(32), IrType::Int(8)]);
    assert!(body.insts.iter().any(|(_, i)| *i == Inst::RetVoid));
}
