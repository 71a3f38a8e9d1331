use std::rc::Rc;
use vstd::prelude::*;
use vstd::string::*;

use crate::ast::{
    Arithmetic, Assignment, Comparator, Compare, ExprStatement, Expression, Float, For, FuncDef,
    FuncImpl, FunctionCall, If, Int, Let, Not, OpType, Program, Return, Statement, StructCtor,
    StructDef, TypedArg, UnaryMinus, Variable, While,
};
use crate::context::{
    scope_lookup, ir_type, lemma_type_lookup, lowers_to, type_layer, type_layers, type_lookup, TypeCache,
    TypedValue, VisibilityContext,
};
use crate::definitions::{lookup, spec_definitions, DefinitionsView, ProgramDefinitions};
use crate::error::{message, CompileError, ErrorKind};
use crate::ir::{
    is_closed, is_empty_block, terminators_last, BinOp, CastOp, FunctionBody, Inst, IntPredicate,
    IrFunction, IrStruct, IrType, Module, Operand, RealPredicate,
};
use crate::types::{
    lemma_field_index_bounds, share, spec_common_value, spec_field_index, Type, TypeView,
};

verus! {

/// A value of type `from` can be brought to type `to`: it already has that
/// type, or both are arithmetic.
pub open spec fn castable(from: TypeView, to: TypeView) -> bool {
    from == to || (from.is_arithmetic() && to.is_arithmetic())
}

/// The type reached by following a field path from a value of type `t`.
pub open spec fn spec_field_path(t: Type, fields: Seq<String>) -> Result<Type, ErrorKind>
    decreases fields.len(),
{
    if fields.len() == 0 {
        Ok(t)
    } else {
        match t {
            Type::Custom(c) => match spec_field_index(c.fields@, fields[0]@) {
                Some(i) => spec_field_path(*c.fields@[i].ty, fields.drop_first()),
                None => Err(ErrorKind::UnknownField),
            },
            _ => Err(ErrorKind::TypeError),
        }
    }
}

/// The field ordinals along a field path from a value of type `t`.
pub open spec fn spec_field_ordinals(t: Type, fields: Seq<String>) -> Seq<usize>
    decreases fields.len(),
{
    if fields.len() == 0 {
        Seq::empty()
    } else {
        match t {
            Type::Custom(c) => match spec_field_index(c.fields@, fields[0]@) {
                Some(i) => seq![i as usize] + spec_field_ordinals(*c.fields@[i].ty, fields.drop_first()),
                None => Seq::empty(),
            },
            _ => Seq::empty(),
        }
    }
}

/// The type of a variable with its field path, in the given typed scopes.
pub open spec fn spec_variable(layers: Seq<Seq<(Seq<char>, Type)>>, v: Variable) -> Result<
    Type,
    ErrorKind,
> {
    match type_lookup(layers, v.name@) {
        None => Err(ErrorKind::UnknownVariable),
        Some(t) => spec_field_path(t, v.fields@),
    }
}

pub open spec fn int_type(bits: u8) -> Type {
    Type::Int(crate::types::IntType { bitwidth: bits })
}

/// The type of an expression in the given typed scopes, or the failure that
/// lowering it meets first.
pub open spec fn spec_expr(
    layers: Seq<Seq<(Seq<char>, Type)>>,
    defs: ProgramDefinitions,
    e: Expression,
) -> Result<Type, ErrorKind>
    decreases e, 0int,
{
    match e {
        Expression::Int(_) => Ok(int_type(64)),
        Expression::Float(_) => Ok(Type::Float(crate::types::FloatType { bitwidth: 64 })),
        Expression::Variable(v) => spec_variable(layers, v),
        Expression::UnaryMinus(u) => match spec_expr(layers, defs, *u.expr) {
            Ok(t) => if t@.is_arithmetic() {
                Ok(t)
            } else {
                Err(ErrorKind::TypeError)
            },
            Err(k) => Err(k),
        },
        Expression::Not(n) => match spec_expr(layers, defs, *n.expr) {
            Ok(t) => if castable(t@, TypeView::Int(1)) {
                Ok(int_type(1))
            } else {
                Err(ErrorKind::TypeError)
            },
            Err(k) => Err(k),
        },
        Expression::Arithmetic(a) => match spec_expr(layers, defs, *a.lhs) {
            Err(k) => Err(k),
            Ok(l) => match spec_expr(layers, defs, *a.rhs) {
                Err(k) => Err(k),
                Ok(r) => match spec_common_value(l, r) {
                    Some(c) => Ok(c),
                    None => Err(ErrorKind::TypeError),
                },
            },
        },
        Expression::Compare(c) => match spec_expr(layers, defs, *c.lhs) {
            Err(k) => Err(k),
            Ok(l) => match spec_expr(layers, defs, *c.rhs) {
                Err(k) => Err(k),
                Ok(r) => match spec_common_value(l, r) {
                    Some(_) => Ok(int_type(1)),
                    None => Err(ErrorKind::TypeError),
                },
            },
        },
        Expression::FunctionCall(f) => match defs.func_value(f.name@) {
            None => Err(ErrorKind::UnknownFunction),
            Some(sig) => if f.args@.len() != sig.args@.len() {
                Err(ErrorKind::TypeError)
            } else {
                match spec_args(layers, defs, f, crate::definitions::views_of(sig.args@), f.args@.len() as int) {
                    Ok(()) => Ok(*sig.ret),
                    Err(k) => Err(k),
                }
            },
        },
        Expression::StructCtor(s) => match defs.type_value(s.name@) {
            None => Err(ErrorKind::UnknownType),
            Some(t) => if t@ is Void {
                Err(ErrorKind::TypeError)
            } else {
                Ok(t)
            },
        },
    }
}

/// The first `n` arguments of a call lower and can be brought to their
/// parameter types, or the failure met first.
pub open spec fn spec_args(
    layers: Seq<Seq<(Seq<char>, Type)>>,
    defs: ProgramDefinitions,
    f: FunctionCall,
    params: Seq<TypeView>,
    n: int,
) -> Result<(), ErrorKind>
    decreases f, n,
{
    if n <= 0 || n > f.args@.len() {
        Ok(())
    } else {
        match spec_args(layers, defs, f, params, n - 1) {
            Err(k) => Err(k),
            Ok(()) => match spec_expr(layers, defs, f.args@[n - 1]) {
                Err(k) => Err(k),
                Ok(t) => if castable(t@, params[n - 1]) {
                    Ok(())
                } else {
                    Err(ErrorKind::TypeError)
                },
            },
        }
    }
}

} // verus!

verus! {

/// Every call in the instructions names a function that the module declares.
pub open spec fn calls_declared(insts: Seq<(usize, Inst)>, module: Module) -> bool {
    forall|i: int|
        0 <= i < insts.len() ==> (#[trigger] insts[i].1 matches Inst::Call { callee, .. } ==> exists|
            j: int,
        | 0 <= j < module.functions@.len() && #[trigger] module.functions@[j].name@ == callee@)
}

pub proof fn lemma_calls_declared_push(insts: Seq<(usize, Inst)>, module: Module, x: (usize, Inst))
    requires
        calls_declared(insts, module),
        x.1 matches Inst::Call { callee, .. } ==> exists|j: int|
            0 <= j < module.functions@.len() && #[trigger] module.functions@[j].name@ == callee@,
    ensures
        calls_declared(insts.push(x), module),
{
    assert forall|i: int| 0 <= i < insts.push(x).len() implies (#[trigger] insts.push(x)[i].1 matches Inst::Call { callee, .. } ==> exists|j: int|
            0 <= j < module.functions@.len() && #[trigger] module.functions@[j].name@ == callee@) by {
        if i < insts.len() {
            assert(insts.push(x)[i] == insts[i]);
            assert(insts[i].1 matches Inst::Call { callee, .. } ==> exists|j: int|
            0 <= j < module.functions@.len() && #[trigger] module.functions@[j].name@ == callee@);
        }
    }
}

/// The module declares exactly the functions of the definition table, in its order.
pub open spec fn decls_match(defs: DefinitionsView, module: Module) -> bool {
    &&& module.functions@.len() == defs.funcs.len()
    &&& forall|i: int|
        0 <= i < defs.funcs.len() ==> #[trigger] module.functions@[i].name@ == defs.funcs[i].0
    &&& forall|i: int|
        0 <= i < defs.funcs.len() ==> declares_sig(#[trigger] module.functions@[i], lookup(defs.funcs, defs.funcs[i].0)->Some_0)
}

/// Each IR type lowers from the source type at its position.
pub open spec fn lowers_all(ts: Seq<TypeView>, irs: Seq<IrType>) -> bool {
    &&& ts.len() == irs.len()
    &&& forall|k: int| 0 <= k < ts.len() ==> lowers_to(ts[k], #[trigger] irs[k])
}

/// The declaration's IR parameter and return types lower from the signature.
pub open spec fn declares_sig(f: IrFunction, sig: (Seq<TypeView>, TypeView)) -> bool {
    lowers_all(sig.0, f.params@) && lowers_to(sig.1, f.ret)
}

pub open spec fn operand_rank(o: Operand) -> int {
    match o {
        Operand::Value(k) => k as int + 1,
        _ => 0,
    }
}

/// The value `o` of a function body has the IR type that source type `t`
/// lowers to: a constant of that width, or the result of an instruction of
/// that type (casts, loads and calls by their declared type, arithmetic by
/// its operands, comparisons and `not` as one bit).
pub open spec fn has_type(insts: Seq<(usize, Inst)>, m: Module, o: Operand, t: TypeView) -> bool
    decreases operand_rank(o),
{
    match o {
        Operand::Const { bits, .. } => t == TypeView::Int(bits),
        Operand::Value(k) => k < insts.len() && match insts[k as int].1 {
            Inst::FloatConst { .. } => t == TypeView::Float(64),
            Inst::Load { ty, .. } => lowers_to(t, ty),
            Inst::Cast { to, .. } => lowers_to(t, to),
            Inst::Binary { lhs, rhs, .. } => operand_rank(lhs) <= k && operand_rank(rhs) <= k
                && has_type(insts, m, lhs, t) && has_type(insts, m, rhs, t),
            Inst::Neg { value } => operand_rank(value) <= k && has_type(insts, m, value, t),
            Inst::FNeg { value } => operand_rank(value) <= k && has_type(insts, m, value, t),
            Inst::ICmp { .. } => t == TypeView::Int(1),
            Inst::FCmp { .. } => t == TypeView::Int(1),
            Inst::Not { .. } => t == TypeView::Int(1),
            Inst::Call { callee, .. } => exists|j: int|
                0 <= j < m.functions@.len() && #[trigger] m.functions@[j].name@ == callee@ && lowers_to(
                    t,
                    m.functions@[j].ret,
                ),
            _ => false,
        },
        _ => false,
    }
}

/// A typed value stays typed when instructions are appended.
pub proof fn lemma_has_type_prefix(a: Seq<(usize, Inst)>, b: Seq<(usize, Inst)>, m: Module, o: Operand, t: TypeView)
    requires
        has_type(a, m, o, t),
        a.len() <= b.len(),
        b.subrange(0, a.len() as int) == a,
    ensures
        has_type(b, m, o, t),
    decreases operand_rank(o),
{
    if let Operand::Value(k) = o {
        assert(b.subrange(0, a.len() as int)[k as int] == b[k as int]);
        match a[k as int].1 {
            Inst::Binary { lhs, rhs, .. } => {
                lemma_has_type_prefix(a, b, m, lhs, t);
                lemma_has_type_prefix(a, b, m, rhs, t);
            },
            Inst::Neg { value } => {
                lemma_has_type_prefix(a, b, m, value, t);
            },
            Inst::FNeg { value } => {
                lemma_has_type_prefix(a, b, m, value, t);
            },
            _ => {},
        }
    }
}

/// A value typed before an expression or statement is lowered stays typed.
pub proof fn lemma_has_type_frame(a: CodegenContext, b: CodegenContext, o: Operand, t: TypeView)
    requires
        has_type(a.body.insts@, a.module, o, t),
        ir_frame(a, b),
    ensures
        has_type(b.body.insts@, b.module, o, t),
{
    lemma_has_type_prefix(a.body.insts@, b.body.insts@, a.module, o, t);
}

/// The cast that brings a value of one arithmetic type to another.
pub open spec fn spec_cast_op(from: TypeView, to: TypeView) -> CastOp {
    match (from, to) {
        (TypeView::Float(_), TypeView::Float(_)) => CastOp::FpCast,
        (TypeView::Int(_), TypeView::Float(_)) => CastOp::SiToFp,
        (TypeView::Float(_), TypeView::Int(_)) => CastOp::FpToSi,
        _ => CastOp::IntCast,
    }
}

/// The state of code generation: the frozen definition table, the scopes,
/// the module being filled, the body of the function being lowered, and the
/// block that instructions go to.
pub struct CodegenContext {
    pub definitions: ProgramDefinitions,
    pub vislayers: VisibilityContext,
    pub type_cache: TypeCache,
    pub module: Module,
    pub body: FunctionBody,
    pub cursor: usize,
}

impl CodegenContext {
    /// Instructions can be appended at the cursor: it names a block without a
    /// terminator, no block holds an instruction after its terminator, and
    /// every call names a declared function.
    pub open spec fn inv(&self) -> bool {
        &&& self.wf()
        &&& self.cursor < self.body.blocks@.len()
        &&& !is_closed(self.body.insts@, self.cursor)
    }

    /// The function body is well formed so far, whatever the cursor.
    pub open spec fn wf(&self) -> bool {
        &&& terminators_last(self.body.insts@)
        &&& forall|i: int|
            0 <= i < self.body.insts@.len() ==> #[trigger] self.body.insts@[i].0
                < self.body.blocks@.len()
        &&& calls_declared(self.body.insts@, self.module)
        &&& decls_match(self.definitions@, self.module)
    }

    pub open spec fn layers(&self) -> Seq<Seq<(Seq<char>, TypedValue)>> {
        self.vislayers.layers()
    }
}

/// What lowering an expression may change: it appends instructions, none a
/// terminator, to the block at the cursor, and may add stack slots.
pub open spec fn expr_frame(a: CodegenContext, b: CodegenContext) -> bool {
    &&& b.inv()
    &&& b.cursor == a.cursor
    &&& b.body.blocks == a.body.blocks
    &&& a.body.slots@.len() <= b.body.slots@.len()
    &&& b.body.slots@.subrange(0, a.body.slots@.len() as int) == a.body.slots@
    &&& a.body.insts@.len() <= b.body.insts@.len()
    &&& b.body.insts@.subrange(0, a.body.insts@.len() as int) == a.body.insts@
    &&& forall|i: int|
        a.body.insts@.len() <= i < b.body.insts@.len() ==> (#[trigger] b.body.insts@[i]).0
            == a.cursor && !b.body.insts@[i].1.is_terminator()
    &&& b.vislayers == a.vislayers
    &&& b.definitions == a.definitions
    &&& b.module == a.module
    &&& b.type_cache == a.type_cache
}

pub proof fn lemma_expr_frame_refl(a: CodegenContext)
    requires
        a.inv(),
    ensures
        expr_frame(a, a),
{
    assert(a.body.slots@.subrange(0, a.body.slots@.len() as int) =~= a.body.slots@);
    assert(a.body.insts@.subrange(0, a.body.insts@.len() as int) =~= a.body.insts@);
}

pub proof fn lemma_expr_frame_trans(a: CodegenContext, b: CodegenContext, c: CodegenContext)
    requires
        expr_frame(a, b),
        expr_frame(b, c),
    ensures
        expr_frame(a, c),
{
    assert(c.body.slots@.subrange(0, a.body.slots@.len() as int) =~= c.body.slots@.subrange(
        0,
        b.body.slots@.len() as int,
    ).subrange(0, a.body.slots@.len() as int));
    assert(c.body.insts@.subrange(0, a.body.insts@.len() as int) =~= c.body.insts@.subrange(
        0,
        b.body.insts@.len() as int,
    ).subrange(0, a.body.insts@.len() as int));
    assert forall|i: int| a.body.insts@.len() <= i < c.body.insts@.len() implies (
    #[trigger] c.body.insts@[i]).0 == a.cursor && !c.body.insts@[i].1.is_terminator() by {
        if i < b.body.insts@.len() {
            assert(c.body.insts@.subrange(0, b.body.insts@.len() as int)[i] == c.body.insts@[i]);
        }
    }
}

impl CodegenContext {
    /// Appends an instruction that is no terminator and no call at the cursor.
    fn emit(&mut self, inst: Inst) -> (r: Operand)
        requires
            old(self).inv(),
            !inst.is_terminator(),
            !(inst is Call),
        ensures
            expr_frame(*old(self), *final(self)),
            final(self).body.insts@ == old(self).body.insts@.push((old(self).cursor, inst)),
            final(self).body.slots == old(self).body.slots,
            r == Operand::Value(old(self).body.insts@.len() as usize),
            r matches Operand::Value(k) && k == old(self).body.insts@.len(),
    {
        let n = self.body.insts.len();
        let ghost before = *self;
        self.body.insts.push((self.cursor, inst));
        proof {
            assert(self.body.slots@.subrange(0, before.body.slots@.len() as int) =~= self.body.slots@);
            assert(self.body.insts@.subrange(0, n as int) =~= before.body.insts@);
            lemma_calls_declared_push(before.body.insts@, self.module, (before.cursor, inst));
            assert forall|i: int, j: int| 0 <= i < j < self.body.insts@.len() && #[trigger] self.body.insts@[i].0 == #[trigger] self.body.insts@[j].0 implies !self.body.insts@[i].1.is_terminator() by {
                if j == n {
                    if self.body.insts@[i].1.is_terminator() {
                        assert(before.body.insts@[i] == self.body.insts@[i]);
                        assert(is_closed(before.body.insts@, before.cursor));
                    }
                } else {
                    assert(before.body.insts@[i] == self.body.insts@[i]);
                    assert(before.body.insts@[j] == self.body.insts@[j]);
                }
            }
            assert(!is_closed(self.body.insts@, self.cursor)) by {
                if is_closed(self.body.insts@, self.cursor) {
                    let i = choose|i: int| 0 <= i < self.body.insts@.len() && #[trigger] self.body.insts@[i].0 == self.cursor && self.body.insts@[i].1.is_terminator();
                    assert(i < n);
                    assert(before.body.insts@[i] == self.body.insts@[i]);
                }
            }
        }
        Operand::Value(n)
    }

    /// A new stack slot in the entry block.
    fn alloca(&mut self, ty: IrType) -> (r: Operand)
        requires
            old(self).inv(),
        ensures
            expr_frame(*old(self), *final(self)),
            final(self).body.insts == old(self).body.insts,
            final(self).body.slots@ == old(self).body.slots@.push(ty),
            r == Operand::Slot(old(self).body.slots@.len() as usize),
            r matches Operand::Slot(k) && k == old(self).body.slots@.len(),
    {
        let n = self.body.slots.len();
        let ghost before = *self;
        self.body.slots.push(ty);
        proof {
            assert(self.body.slots@.subrange(0, n as int) =~= before.body.slots@);
            assert(self.body.insts@.subrange(0, before.body.insts@.len() as int) =~= before.body.insts@);
        }
        Operand::Slot(n)
    }
}

/// Brings a value of type `from` to type `to`; the value itself when the
/// types are the same.
pub fn cast(cxt: &mut CodegenContext, from: &Type, to: &Type, val: Operand) -> (r: Operand)
    requires
        old(cxt).inv(),
        castable(from@, to@),
        has_type(old(cxt).body.insts@, old(cxt).module, val, from@),
    ensures
        expr_frame(*old(cxt), *final(cxt)),
        has_type(final(cxt).body.insts@, final(cxt).module, r, to@),
        coerced(final(cxt).body.insts@, val, r, from@, to@),
        from@ == to@ ==> r == val && final(cxt).body.insts == old(cxt).body.insts,
        from@ != to@ ==> r == Operand::Value(old(cxt).body.insts@.len() as usize)
            && final(cxt).body.insts@.len() == old(cxt).body.insts@.len() + 1
            && (final(cxt).body.insts@.last().1 matches Inst::Cast { op, value, to: t }
                && op == spec_cast_op(from@, to@) && value == val && lowers_to(to@, t)),
{
    if from.same(to) {
        proof {
            lemma_expr_frame_refl(*cxt);
        }
        return val;
    }
    let op = match (from, to) {
        (Type::Float(_), Type::Float(_)) => CastOp::FpCast,
        (Type::Int(_), Type::Float(_)) => CastOp::SiToFp,
        (Type::Float(_), Type::Int(_)) => CastOp::FpToSi,
        _ => CastOp::IntCast,
    };
    let n = cxt.body.insts.len();
    let t = ir_type(to);
    let ghost tg = t;
    let r = cxt.emit(Inst::Cast { op, value: val, to: t });
    proof {
        assert(cxt.body.insts@[n as int] == cxt.body.insts@.last());
        assert(cxt.body.insts@[n as int].1 == Inst::Cast { op, value: val, to: tg });
        assert(lowers_to(to@, tg));
        assert(r == Operand::Value(n));
    }
    r
}

/// Checks that a value of type `from` can be brought to type `to`.
fn check_cast(from: &Type, to: &Type) -> (r: Result<(), CompileError>)
    ensures
        r is Ok <==> castable(from@, to@),
        r matches Err(e) ==> e.kind == ErrorKind::TypeError,
{
    if from.same(to) || (from.arithmetic() && to.arithmetic()) {
        Ok(())
    } else {
        Err(CompileError::new(ErrorKind::TypeError, String::from_str("Cast between incompatible types")))
    }
}

/// The built-in `bool` type.
fn bool_type() -> (r: Rc<Type>)
    ensures
        *r == int_type(1),
{
    Rc::new(Type::Int(crate::types::IntType { bitwidth: 1 }))
}

/// A one-bit IR value as a `bool`.
pub fn bool_from_llvm(val: Operand) -> (r: TypedValue)
    ensures
        r.value == val,
        *r.ty == int_type(1),
{
    TypedValue { value: val, ty: bool_type() }
}

/// Brings a value to `bool`.
pub fn bool_from_value(cxt: &mut CodegenContext, val: &TypedValue) -> (r: Result<TypedValue, CompileError>)
    requires
        old(cxt).inv(),
        has_type(old(cxt).body.insts@, old(cxt).module, val.value, (*val.ty)@),
    ensures
        r matches Ok(b) ==> has_type(final(cxt).body.insts@, final(cxt).module, b.value, TypeView::Int(1)),
        r is Err ==> *final(cxt) == *old(cxt),
        r matches Ok(b) ==> coerced(final(cxt).body.insts@, val.value, b.value, (*val.ty)@, TypeView::Int(1)),
        r is Ok <==> castable((*val.ty)@, TypeView::Int(1)),
        r matches Err(e) ==> e.kind == ErrorKind::TypeError,
        r is Ok ==> expr_frame(*old(cxt), *final(cxt)),
        r matches Ok(b) ==> *b.ty == int_type(1),
{
    let target = bool_type();
    match check_cast(&val.ty, &target) {
        Ok(()) => {},
        Err(e) => {
            return Err(e);
        },
    }
    let value = cast(cxt, &val.ty, &target, val.value);
    Ok(TypedValue { value, ty: target })
}

} // verus!

verus! {

proof fn lemma_lookup_some_index<V>(s: Seq<(Seq<char>, V)>, k: Seq<char>)
    requires
        lookup(s, k) is Some,
    ensures
        exists|j: int| 0 <= j < s.len() && #[trigger] s[j].0 == k,
    decreases s.len(),
{
    if s.last().0 != k {
        lemma_lookup_some_index(s.drop_last(), k);
        let j = choose|j: int| 0 <= j < s.drop_last().len() && #[trigger] s.drop_last()[j].0 == k;
        assert(s[j] == s.drop_last()[j]);
    }
}

impl CodegenContext {
    /// Appends a call of a declared function at the cursor.
    fn emit_call(&mut self, callee: String, args: Vec<Operand>) -> (r: Operand)
        requires
            old(self).inv(),
            exists|j: int| 0 <= j < old(self).module.functions@.len() && #[trigger] old(self).module.functions@[j].name@ == callee@,
        ensures
            expr_frame(*old(self), *final(self)),
            final(self).body.insts@ == old(self).body.insts@.push((old(self).cursor, Inst::Call { callee, args })),
            final(self).body.slots == old(self).body.slots,
            r == Operand::Value(old(self).body.insts@.len() as usize),
            r matches Operand::Value(k) && k == old(self).body.insts@.len(),
    {
        let n = self.body.insts.len();
        let ghost before = *self;
        let ghost name = callee@;
        self.body.insts.push((self.cursor, Inst::Call { callee, args }));
        proof {
            lemma_calls_declared_push(before.body.insts@, self.module, self.body.insts@.last());
            assert(self.body.slots@.subrange(0, before.body.slots@.len() as int) =~= self.body.slots@);
            assert(self.body.insts@.subrange(0, n as int) =~= before.body.insts@);
            assert forall|i: int, j: int| 0 <= i < j < self.body.insts@.len() && #[trigger] self.body.insts@[i].0 == #[trigger] self.body.insts@[j].0 implies !self.body.insts@[i].1.is_terminator() by {
                if j == n {
                    if self.body.insts@[i].1.is_terminator() {
                        assert(before.body.insts@[i] == self.body.insts@[i]);
                        assert(is_closed(before.body.insts@, before.cursor));
                    }
                } else {
                    assert(before.body.insts@[i] == self.body.insts@[i]);
                    assert(before.body.insts@[j] == self.body.insts@[j]);
                }
            }
            assert(!is_closed(self.body.insts@, self.cursor)) by {
                if is_closed(self.body.insts@, self.cursor) {
                    let i = choose|i: int| 0 <= i < self.body.insts@.len() && #[trigger] self.body.insts@[i].0 == self.cursor && self.body.insts@[i].1.is_terminator();
                    assert(i < n);
                    assert(before.body.insts@[i] == self.body.insts@[i]);
                }
            }
        }
        Operand::Value(n)
    }
}

impl Int {
    /// A 64-bit integer constant.
    pub fn codegen(&self, cxt: &mut CodegenContext) -> (r: Result<TypedValue, CompileError>)
        requires
            old(cxt).inv(),
        ensures
            r matches Ok(v) && *v.ty == int_type(64) && v.value == (Operand::Const {
                bits: 64,
                value: self.val,
            }),
            expr_frame(*old(cxt), *final(cxt)),
            lowered(*old(cxt), *final(cxt), Expression::Int(*self), r),
    {
        proof {
            lemma_expr_frame_refl(*cxt);
        }
        Ok(
            TypedValue {
                value: Operand::Const { bits: 64, value: self.val },
                ty: Rc::new(Type::Int(crate::types::IntType { bitwidth: 64 })),
            },
        )
    }
}

impl Float {
    /// A double constant.
    pub fn codegen(&self, cxt: &mut CodegenContext) -> (r: Result<TypedValue, CompileError>)
        requires
            old(cxt).inv(),
        ensures
            r matches Ok(v) && *v.ty == Type::Float(crate::types::FloatType { bitwidth: 64 }),
            expr_frame(*old(cxt), *final(cxt)),
            lowered(*old(cxt), *final(cxt), Expression::Float(*self), r),
            final(cxt).body.insts@ == old(cxt).body.insts@.push(
                (old(cxt).cursor, Inst::FloatConst { text: self.text }),
            ),
    {
        let value = cxt.emit(Inst::FloatConst { text: self.text.clone() });
        Ok(TypedValue { value, ty: Rc::new(Type::Float(crate::types::FloatType { bitwidth: 64 })) })
    }
}

impl Variable {
    /// The address of the variable, or of the field its path names, with the
    /// type found there.
    pub fn codegen_gep(&self, cxt: &mut CodegenContext) -> (r: Result<TypedValue, CompileError>)
        requires
            old(cxt).inv(),
        ensures
            match spec_variable(type_layers(old(cxt).layers()), *self) {
                Ok(t) => r matches Ok(v) && *v.ty == t && expr_frame(*old(cxt), *final(cxt)),
                Err(k) => r matches Err(e) && e.kind == k,
            },
            final(cxt).vislayers == old(cxt).vislayers,
            r is Err ==> *final(cxt) == *old(cxt),
            r matches Ok(v) ==> final(cxt).body.insts@.len() == old(cxt).body.insts@.len() + 1
                && v.value == Operand::Value(old(cxt).body.insts@.len() as usize)
                && (final(cxt).body.insts@.last() matches (b, Inst::Gep { base, ptr, indices })
                && b == old(cxt).cursor
                && lowers_to((*scope_lookup(old(cxt).layers(), self.name@)->Some_0.ty)@, base)
                && ptr == scope_lookup(old(cxt).layers(), self.name@)->Some_0.value
                && indices@ == spec_field_ordinals(*scope_lookup(old(cxt).layers(), self.name@)->Some_0.ty, self.fields@)),
    {
        proof {
            lemma_type_lookup(cxt.layers(), self.name@);
        }
        let var = match cxt.vislayers.get_variable(&self.name) {
            Some(v) => v,
            None => {
                return Err(
                    CompileError::new(
                        ErrorKind::UnknownVariable,
                        message(&["Unknown variable ", self.name.as_str()]),
                    ),
                );
            },
        };
        let mut ty = share(&var.ty);
        let mut indices: Vec<usize> = Vec::new();
        let mut i: usize = 0;
        proof {
            assert(self.fields@.subrange(0, self.fields@.len() as int) =~= self.fields@);
        }
        while i < self.fields.len()
            invariant
                i <= self.fields@.len(),
                spec_variable(type_layers(cxt.layers()), *self) == spec_field_path(
                    *ty,
                    self.fields@.subrange(i as int, self.fields@.len() as int),
                ),
                indices@ + spec_field_ordinals(*ty, self.fields@.subrange(i as int, self.fields@.len() as int))
                    == spec_field_ordinals(*var.ty, self.fields@),
            decreases self.fields@.len() - i,
        {
            let ghost rest = self.fields@.subrange(i as int, self.fields@.len() as int);
            proof {
                assert(rest[0] == self.fields@[i as int]);
                assert(rest.drop_first() =~= self.fields@.subrange(i + 1, self.fields@.len() as int));
            }
            let next = match &*ty {
                Type::Custom(c) => match c.field(&self.fields[i]) {
                    Some((idx, ft)) => {
                        proof {
                            lemma_field_index_bounds(c.fields@, self.fields@[i as int]@);
                        }
                        let ghost before = indices@;
                        indices.push(idx);
                        proof {
                            assert(spec_field_ordinals(*ty, rest) == seq![idx] + spec_field_ordinals(*ft, rest.drop_first()));
                            assert(indices@ + spec_field_ordinals(*ft, rest.drop_first()) =~= before + spec_field_ordinals(*ty, rest));
                        }
                        ft
                    },
                    None => {
                        return Err(
                            CompileError::new(
                                ErrorKind::UnknownField,
                                message(&["Unknown field ", self.fields[i].as_str(), " of variable ", self.name.as_str()]),
                            ),
                        );
                    },
                },
                _ => {
                    return Err(
                        CompileError::new(
                            ErrorKind::TypeError,
                            message(&["Field ", self.fields[i].as_str(), " of variable ", self.name.as_str(), " of a primitive type"]),
                        ),
                    );
                },
            };
            ty = next;
            i = i + 1;
        }
        proof {
            assert(self.fields@.subrange(i as int, self.fields@.len() as int).len() == 0);
            assert(indices@ + Seq::<usize>::empty() =~= indices@);
        }
        let value = cxt.emit(Inst::Gep { base: ir_type(&var.ty), ptr: var.value, indices });
        Ok(TypedValue { value, ty })
    }

    /// The value of the variable, or of the field its path names: a load
    /// from the address that `codegen_gep` gives.
    pub fn codegen(&self, cxt: &mut CodegenContext) -> (r: Result<TypedValue, CompileError>)
        requires
            old(cxt).inv(),
        ensures
            lowered(*old(cxt), *final(cxt), Expression::Variable(*self), r),
            r matches Ok(v) ==> final(cxt).body.insts@.len() == old(cxt).body.insts@.len() + 2
                && final(cxt).body.insts@[old(cxt).body.insts@.len() as int].1 is Gep
                && (final(cxt).body.insts@.last().1 matches Inst::Load { ty, ptr }
                && ptr == Operand::Value(old(cxt).body.insts@.len() as usize) && lowers_to((*v.ty)@, ty)),
    {
        let var = match self.codegen_gep(cxt) {
            Ok(v) => v,
            Err(e) => {
                proof {
                    lemma_expr_frame_refl(*cxt);
                }
                return Err(e);
            },
        };
        let ghost mid = *cxt;
        let ghost n = cxt.body.insts@.len();
        let value = cxt.emit(Inst::Load { ty: ir_type(&var.ty), ptr: var.value });
        proof {
            lemma_expr_frame_trans(*old(cxt), mid, *cxt);
            assert(cxt.body.insts@[n as int] == cxt.body.insts@.last());
            assert(cxt.body.insts@[n - 1] == mid.body.insts@[n - 1]);
        }
        Ok(TypedValue { value, ty: var.ty })
    }
}

/// The postcondition of lowering an expression: the result has the type
/// that `spec_expr` gives, as a source type and as the IR type of its value,
/// or the failure is the one it names.
pub open spec fn lowered(
    old_cxt: CodegenContext,
    new_cxt: CodegenContext,
    e: Expression,
    r: Result<TypedValue, CompileError>,
) -> bool {
    match spec_expr(type_layers(old_cxt.layers()), old_cxt.definitions, e) {
        Ok(t) => r matches Ok(v) && *v.ty == t && expr_frame(old_cxt, new_cxt) && has_type(
            new_cxt.body.insts@,
            new_cxt.module,
            v.value,
            t@,
        ) && v.value == value_at(e, new_cxt.body.insts@.len() as int)
            && (e is Int || old_cxt.body.insts@.len() < new_cxt.body.insts@.len()),
        Err(k) => r matches Err(err) && err.kind == k && expr_frame(old_cxt, new_cxt),
    }
}

/// The value an expression lowers to, when its instructions end at `n`: the
/// constant of an integer literal, else the last instruction emitted.
pub open spec fn value_at(e: Expression, n: int) -> Operand {
    match e {
        Expression::Int(i) => Operand::Const { bits: 64, value: i.val },
        _ => Operand::Value((n - 1) as usize),
    }
}

/// The operands `l` and `r` of an instruction appended last are the values
/// that `lhs` and `rhs` lowered to (in that order, `lhs` first), each brought
/// to type `t`.
pub open spec fn operands_of(
    a: CodegenContext,
    insts: Seq<(usize, Inst)>,
    lhs: Expression,
    rhs: Expression,
    l: Operand,
    r: Operand,
    t: TypeView,
) -> bool {
    let lt = spec_expr(type_layers(a.layers()), a.definitions, lhs)->Ok_0@;
    let rt = spec_expr(type_layers(a.layers()), a.definitions, rhs)->Ok_0@;
    exists|n1: int, n2: int|
        #![trigger value_at(lhs, n1), value_at(rhs, n2)]
        a.body.insts@.len() <= n1 <= n2 < insts.len() && (rhs is Int || n1 < n2)
            && coerced(insts, value_at(lhs, n1), l, lt, t) && coerced(insts, value_at(rhs, n2), r, rt, t)
}

/// `o` is the value that `e` lowered to (after context `a`), brought to type `to`.
#[verifier::opaque]
pub open spec fn from_expr(a: CodegenContext, insts: Seq<(usize, Inst)>, e: Expression, o: Operand, to: TypeView) -> bool {
    let et = spec_expr(type_layers(a.layers()), a.definitions, e)->Ok_0@;
    exists|n: int|
        #![trigger value_at(e, n)]
        a.body.insts@.len() <= n <= insts.len() && coerced(insts, value_at(e, n), o, et, to)
}

/// The call operands `args` are the values that the arguments of `f`
/// lowered to, in order (argument `k`'s instructions end at `ns[k]`), each
/// brought to its parameter type.
pub open spec fn call_args_from(
    a: CodegenContext,
    insts: Seq<(usize, Inst)>,
    f: FunctionCall,
    args: Seq<Operand>,
    params: Seq<TypeView>,
    ns: Seq<int>,
) -> bool {
    &&& ns.len() == f.args@.len()
    &&& args.len() == f.args@.len()
    &&& forall|k: int| 0 <= k < ns.len() ==> a.body.insts@.len() <= #[trigger] ns[k] <= insts.len() && coerced(
        insts,
        value_at(f.args@[k], ns[k]),
        args[k],
        spec_expr(type_layers(a.layers()), a.definitions, f.args@[k])->Ok_0@,
        params[k],
    )
    &&& forall|k: int| 0 < k < ns.len() ==> ns[k - 1] <= #[trigger] ns[k] && (f.args@[k] is Int || ns[k - 1] < ns[k])
}

pub proof fn lemma_from_expr_prefix(a: CodegenContext, x: Seq<(usize, Inst)>, y: Seq<(usize, Inst)>, e: Expression, o: Operand, t: TypeView)
    requires
        from_expr(a, x, e, o, t),
        x.len() <= y.len(),
        y.subrange(0, x.len() as int) == x,
    ensures
        from_expr(a, y, e, o, t),
{
    reveal(from_expr);
    let et = spec_expr(type_layers(a.layers()), a.definitions, e)->Ok_0@;
    let n = choose|n: int| a.body.insts@.len() <= n <= x.len() && coerced(x, value_at(e, n), o, et, t);
    lemma_coerced_prefix(x, y, value_at(e, n), o, et, t);
}

/// `o` is the value `src` of type `from` brought to type `to`: `src` itself
/// when the types are the same, else a cast of it.
pub open spec fn coerced(insts: Seq<(usize, Inst)>, src: Operand, o: Operand, from: TypeView, to: TypeView) -> bool {
    if from == to {
        o == src
    } else {
        o matches Operand::Value(k) && k < insts.len() && (insts[k as int].1 matches Inst::Cast { op, value, to: t }
            && op == spec_cast_op(from, to) && value == src && lowers_to(to, t))
    }
}

pub proof fn lemma_coerced_prefix(a: Seq<(usize, Inst)>, b: Seq<(usize, Inst)>, src: Operand, o: Operand, from: TypeView, to: TypeView)
    requires
        coerced(a, src, o, from, to),
        a.len() <= b.len(),
        b.subrange(0, a.len() as int) == a,
    ensures
        coerced(b, src, o, from, to),
{
    if let Operand::Value(k) = o {
        if k < a.len() {
            assert(b.subrange(0, a.len() as int)[k as int] == b[k as int]);
        }
    }
}

impl Expression {
    /// Lowers an expression at the cursor and gives its value with its type.
    pub fn codegen(&self, cxt: &mut CodegenContext) -> (r: Result<TypedValue, CompileError>)
        requires
            old(cxt).inv(),
        ensures
            lowered(*old(cxt), *final(cxt), *self, r),
        decreases self, 0int,
    {
        match self {
            Expression::Int(n) => n.codegen(cxt),
            Expression::Float(f) => f.codegen(cxt),
            Expression::Variable(v) => v.codegen(cxt),
            Expression::UnaryMinus(u) => u.codegen(cxt),
            Expression::Not(n) => n.codegen(cxt),
            Expression::Arithmetic(a) => a.codegen(cxt),
            Expression::Compare(c) => c.codegen(cxt),
            Expression::FunctionCall(f) => f.codegen(cxt),
            Expression::StructCtor(s) => s.codegen(cxt),
        }
    }
}

/// The IR operation for an arithmetic operator on operands of type `t`.
pub open spec fn spec_bin_op(op: OpType, t: TypeView) -> BinOp {
    if t is Float {
        match op {
            OpType::Add => BinOp::FAdd,
            OpType::Sub => BinOp::FSub,
            OpType::Mul => BinOp::FMul,
            OpType::Div => BinOp::FDiv,
        }
    } else {
        match op {
            OpType::Add => BinOp::Add,
            OpType::Sub => BinOp::Sub,
            OpType::Mul => BinOp::Mul,
            OpType::Div => BinOp::SDiv,
        }
    }
}

/// The signed integer predicate of a comparator.
pub open spec fn spec_int_pred(c: Comparator) -> IntPredicate {
    match c {
        Comparator::LE => IntPredicate::SLE,
        Comparator::GE => IntPredicate::SGE,
        Comparator::LT => IntPredicate::SLT,
        Comparator::GT => IntPredicate::SGT,
        Comparator::EQ => IntPredicate::EQ,
        Comparator::NE => IntPredicate::NE,
    }
}

/// The ordered float predicate of a comparator.
pub open spec fn spec_real_pred(c: Comparator) -> RealPredicate {
    match c {
        Comparator::LE => RealPredicate::OLE,
        Comparator::GE => RealPredicate::OGE,
        Comparator::LT => RealPredicate::OLT,
        Comparator::GT => RealPredicate::OGT,
        Comparator::EQ => RealPredicate::OEQ,
        Comparator::NE => RealPredicate::ONE,
    }
}

impl UnaryMinus {
    /// Negates the value: `fneg` for a float, `neg` for an integer.
    pub fn codegen(&self, cxt: &mut CodegenContext) -> (r: Result<TypedValue, CompileError>)
        requires
            old(cxt).inv(),
        ensures
            lowered(*old(cxt), *final(cxt), Expression::UnaryMinus(*self), r),
            r matches Ok(v) ==> v.value == Operand::Value((final(cxt).body.insts@.len() - 1) as usize)
                && if (*v.ty)@ is Float {
                    final(cxt).body.insts@.last().1 is FNeg
                } else {
                    final(cxt).body.insts@.last().1 is Neg
                }
                && match final(cxt).body.insts@.last().1 {
                    Inst::Neg { value } => value == value_at(*self.expr, final(cxt).body.insts@.len() - 1),
                    Inst::FNeg { value } => value == value_at(*self.expr, final(cxt).body.insts@.len() - 1),
                    _ => false,
                },
        decreases self, 0int,
    {
        let e = match self.expr.codegen(cxt) {
            Ok(v) => v,
            Err(err) => {
                return Err(err);
            },
        };
        let ghost mid = *cxt;
        let n = cxt.body.insts.len();
        let value = match &*e.ty {
            Type::Float(_) => cxt.emit(Inst::FNeg { value: e.value }),
            Type::Int(_) => cxt.emit(Inst::Neg { value: e.value }),
            _ => {
                return Err(
                    CompileError::new(
                        ErrorKind::TypeError,
                        String::from_str("Unary minus on a non-arithmetic type"),
                    ),
                );
            },
        };
        proof {
            lemma_expr_frame_trans(*old(cxt), mid, *cxt);
            lemma_ir_frame_of_expr(mid, *cxt);
            lemma_has_type_frame(mid, *cxt, e.value, (*e.ty)@);
            assert(cxt.body.insts@[n as int] == cxt.body.insts@.last());
        }
        Ok(TypedValue { value, ty: e.ty })
    }
}

impl Not {
    /// Brings the value to `bool` and inverts its bit.
    pub fn codegen(&self, cxt: &mut CodegenContext) -> (r: Result<TypedValue, CompileError>)
        requires
            old(cxt).inv(),
        ensures
            lowered(*old(cxt), *final(cxt), Expression::Not(*self), r),
            r matches Ok(v) ==> v.value == Operand::Value((final(cxt).body.insts@.len() - 1) as usize)
                && (final(cxt).body.insts@.last().1 matches Inst::Not { value }
                && has_type(final(cxt).body.insts@, final(cxt).module, value, TypeView::Int(1))
                && from_expr(*old(cxt), final(cxt).body.insts@, *self.expr, value, TypeView::Int(1))),
        decreases self, 0int,
    {
        let e = match self.expr.codegen(cxt) {
            Ok(v) => v,
            Err(err) => {
                return Err(err);
            },
        };
        let ghost mid = *cxt;
        let b = match bool_from_value(cxt, &e) {
            Ok(b) => b,
            Err(err) => {
                return Err(err);
            },
        };
        let ghost mid2 = *cxt;
        let n = cxt.body.insts.len();
        let value = cxt.emit(Inst::Not { value: b.value });
        proof {
            lemma_expr_frame_trans(*old(cxt), mid, mid2);
            lemma_expr_frame_trans(*old(cxt), mid2, *cxt);
            lemma_ir_frame_of_expr(mid2, *cxt);
            lemma_has_type_frame(mid2, *cxt, b.value, TypeView::Int(1));
            assert(cxt.body.insts@[n as int] == cxt.body.insts@.last());
            lemma_coerced_prefix(mid2.body.insts@, cxt.body.insts@, e.value, b.value, (*e.ty)@, TypeView::Int(1));
            let n0 = mid.body.insts@.len() as int;
            assert(e.value == value_at(*self.expr, n0));
            reveal(from_expr);
            assert(coerced(cxt.body.insts@, value_at(*self.expr, n0), b.value, (*e.ty)@, TypeView::Int(1)));
        }
        Ok(bool_from_llvm(value))
    }
}

impl Arithmetic {
    /// Both operands are brought to their common type, then combined by the
    /// integer or float form of the operation.
    #[verifier::rlimit(100)]
    #[verifier::spinoff_prover]
    pub fn codegen(&self, cxt: &mut CodegenContext) -> (r: Result<TypedValue, CompileError>)
        requires
            old(cxt).inv(),
        ensures
            lowered(*old(cxt), *final(cxt), Expression::Arithmetic(*self), r),
            r matches Ok(v) ==> v.value == Operand::Value((final(cxt).body.insts@.len() - 1) as usize)
                && (final(cxt).body.insts@.last().1 matches Inst::Binary { op, lhs, rhs }
                && op == spec_bin_op(self.op, (*v.ty)@)
                && has_type(final(cxt).body.insts@, final(cxt).module, lhs, (*v.ty)@)
                && has_type(final(cxt).body.insts@, final(cxt).module, rhs, (*v.ty)@)
                && operands_of(*old(cxt), final(cxt).body.insts@, *self.lhs, *self.rhs, lhs, rhs, (*v.ty)@)),
        decreases self, 0int,
    {
        let lhs = match self.lhs.codegen(cxt) {
            Ok(v) => v,
            Err(err) => {
                return Err(err);
            },
        };
        let ghost c1 = *cxt;
        let rhs = match self.rhs.codegen(cxt) {
            Ok(v) => v,
            Err(err) => {
                proof {
                    lemma_expr_frame_trans(*old(cxt), c1, *cxt);
                }
                return Err(err);
            },
        };
        let ghost c2 = *cxt;
        proof {
            lemma_expr_frame_trans(*old(cxt), c1, c2);
        }
        if !lhs.ty.arithmetic() || !rhs.ty.arithmetic() {
            return Err(
                CompileError::new(ErrorKind::TypeError, String::from_str("Arithmetic on incompatible types")),
            );
        }
        let common = match Type::common_type(&lhs.ty, &rhs.ty) {
            Ok(t) => t,
            Err(err) => {
                return Err(err);
            },
        };
        proof {
            lemma_ir_frame_of_expr(c1, c2);
            lemma_has_type_frame(c1, c2, lhs.value, (*lhs.ty)@);
        }
        let l = cast(cxt, &lhs.ty, &common, lhs.value);
        let ghost c3 = *cxt;
        proof {
            lemma_ir_frame_of_expr(c2, c3);
            lemma_has_type_frame(c2, c3, rhs.value, (*rhs.ty)@);
        }
        let r = cast(cxt, &rhs.ty, &common, rhs.value);
        let ghost c4 = *cxt;
        proof {
            lemma_ir_frame_of_expr(c3, c4);
            lemma_has_type_frame(c3, c4, l, (*common)@);
        }
        let is_float = match &*common {
            Type::Float(_) => true,
            _ => false,
        };
        let op = match (self.op, is_float) {
            (OpType::Add, true) => BinOp::FAdd,
            (OpType::Sub, true) => BinOp::FSub,
            (OpType::Mul, true) => BinOp::FMul,
            (OpType::Div, true) => BinOp::FDiv,
            (OpType::Add, false) => BinOp::Add,
            (OpType::Sub, false) => BinOp::Sub,
            (OpType::Mul, false) => BinOp::Mul,
            (OpType::Div, false) => BinOp::SDiv,
        };
        let n = cxt.body.insts.len();
        let value = cxt.emit(Inst::Binary { op, lhs: l, rhs: r });
        proof {
            lemma_expr_frame_trans(*old(cxt), c1, c2);
            lemma_expr_frame_trans(*old(cxt), c2, c3);
            lemma_expr_frame_trans(*old(cxt), c3, c4);
            lemma_expr_frame_trans(*old(cxt), c4, *cxt);
            lemma_ir_frame_of_expr(c4, *cxt);
            lemma_has_type_frame(c4, *cxt, l, (*common)@);
            lemma_has_type_frame(c4, *cxt, r, (*common)@);
            lemma_expr_frame_trans(c3, c4, *cxt);
            lemma_coerced_prefix(c3.body.insts@, cxt.body.insts@, lhs.value, l, (*lhs.ty)@, (*common)@);
            lemma_coerced_prefix(c4.body.insts@, cxt.body.insts@, rhs.value, r, (*rhs.ty)@, (*common)@);
            let n1 = c1.body.insts@.len() as int;
            let n2 = c2.body.insts@.len() as int;
            assert(lhs.value == value_at(*self.lhs, n1));
            assert(rhs.value == value_at(*self.rhs, n2));
            assert(coerced(cxt.body.insts@, value_at(*self.lhs, n1), l, (*lhs.ty)@, (*common)@));
            assert(coerced(cxt.body.insts@, value_at(*self.rhs, n2), r, (*rhs.ty)@, (*common)@));
            assert(cxt.body.insts@[n as int] == cxt.body.insts@.last());
        }
        Ok(TypedValue { value, ty: common })
    }
}

impl Compare {
    /// Both operands are brought to their common type, then compared by a
    /// signed integer or an ordered float comparison; the result is a `bool`.
    #[verifier::rlimit(100)]
    #[verifier::spinoff_prover]
    pub fn codegen(&self, cxt: &mut CodegenContext) -> (r: Result<TypedValue, CompileError>)
        requires
            old(cxt).inv(),
        ensures
            lowered(*old(cxt), *final(cxt), Expression::Compare(*self), r),
            r matches Ok(v) ==> v.value == Operand::Value((final(cxt).body.insts@.len() - 1) as usize)
                && ({
                    let c = spec_common_value(
                        spec_expr(type_layers(old(cxt).layers()), old(cxt).definitions, *self.lhs)->Ok_0,
                        spec_expr(type_layers(old(cxt).layers()), old(cxt).definitions, *self.rhs)->Ok_0,
                    )->Some_0@;
                    match final(cxt).body.insts@.last().1 {
                        Inst::ICmp { pred, lhs, rhs } => !(c is Float) && pred == spec_int_pred(self.cmp)
                            && has_type(final(cxt).body.insts@, final(cxt).module, lhs, c)
                            && has_type(final(cxt).body.insts@, final(cxt).module, rhs, c)
                            && operands_of(*old(cxt), final(cxt).body.insts@, *self.lhs, *self.rhs, lhs, rhs, c),
                        Inst::FCmp { pred, lhs, rhs } => c is Float && pred == spec_real_pred(self.cmp)
                            && has_type(final(cxt).body.insts@, final(cxt).module, lhs, c)
                            && has_type(final(cxt).body.insts@, final(cxt).module, rhs, c)
                            && operands_of(*old(cxt), final(cxt).body.insts@, *self.lhs, *self.rhs, lhs, rhs, c),
                        _ => false,
                    }
                }),
        decreases self, 0int,
    {
        let lhs = match self.lhs.codegen(cxt) {
            Ok(v) => v,
            Err(err) => {
                return Err(err);
            },
        };
        let ghost c1 = *cxt;
        let rhs = match self.rhs.codegen(cxt) {
            Ok(v) => v,
            Err(err) => {
                proof {
                    lemma_expr_frame_trans(*old(cxt), c1, *cxt);
                }
                return Err(err);
            },
        };
        let ghost c2 = *cxt;
        proof {
            lemma_expr_frame_trans(*old(cxt), c1, c2);
        }
        let common = match Type::common_type(&lhs.ty, &rhs.ty) {
            Ok(t) => t,
            Err(err) => {
                return Err(err);
            },
        };
        proof {
            lemma_ir_frame_of_expr(c1, c2);
            lemma_has_type_frame(c1, c2, lhs.value, (*lhs.ty)@);
        }
        let l = cast(cxt, &lhs.ty, &common, lhs.value);
        let ghost c3 = *cxt;
        proof {
            lemma_ir_frame_of_expr(c2, c3);
            lemma_has_type_frame(c2, c3, rhs.value, (*rhs.ty)@);
        }
        let r = cast(cxt, &rhs.ty, &common, rhs.value);
        let ghost c4 = *cxt;
        proof {
            lemma_ir_frame_of_expr(c3, c4);
            lemma_has_type_frame(c3, c4, l, (*common)@);
        }
        let inst = match &*common {
            Type::Float(_) => {
                let pred = match self.cmp {
                    Comparator::LE => RealPredicate::OLE,
                    Comparator::GE => RealPredicate::OGE,
                    Comparator::LT => RealPredicate::OLT,
                    Comparator::GT => RealPredicate::OGT,
                    Comparator::EQ => RealPredicate::OEQ,
                    Comparator::NE => RealPredicate::ONE,
                };
                Inst::FCmp { pred, lhs: l, rhs: r }
            },
            _ => {
                let pred = match self.cmp {
                    Comparator::LE => IntPredicate::SLE,
                    Comparator::GE => IntPredicate::SGE,
                    Comparator::LT => IntPredicate::SLT,
                    Comparator::GT => IntPredicate::SGT,
                    Comparator::EQ => IntPredicate::EQ,
                    Comparator::NE => IntPredicate::NE,
                };
                Inst::ICmp { pred, lhs: l, rhs: r }
            },
        };
        let ghost ig = inst;
        let n = cxt.body.insts.len();
        let value = cxt.emit(inst);
        proof {
            lemma_expr_frame_trans(*old(cxt), c1, c2);
            lemma_expr_frame_trans(*old(cxt), c2, c3);
            lemma_expr_frame_trans(*old(cxt), c3, c4);
            lemma_expr_frame_trans(*old(cxt), c4, *cxt);
            lemma_ir_frame_of_expr(c4, *cxt);
            lemma_has_type_frame(c4, *cxt, l, (*common)@);
            lemma_has_type_frame(c4, *cxt, r, (*common)@);
            lemma_expr_frame_trans(c3, c4, *cxt);
            lemma_coerced_prefix(c3.body.insts@, cxt.body.insts@, lhs.value, l, (*lhs.ty)@, (*common)@);
            lemma_coerced_prefix(c4.body.insts@, cxt.body.insts@, rhs.value, r, (*rhs.ty)@, (*common)@);
            let n1 = c1.body.insts@.len() as int;
            let n2 = c2.body.insts@.len() as int;
            assert(lhs.value == value_at(*self.lhs, n1));
            assert(rhs.value == value_at(*self.rhs, n2));
            assert(coerced(cxt.body.insts@, value_at(*self.lhs, n1), l, (*lhs.ty)@, (*common)@));
            assert(coerced(cxt.body.insts@, value_at(*self.rhs, n2), r, (*rhs.ty)@, (*common)@));
            assert(cxt.body.insts@[n as int] == cxt.body.insts@.last());
            assert(cxt.body.insts@.last().1 == ig);
        }
        Ok(bool_from_llvm(value))
    }
}

impl FunctionCall {
    /// Each argument is lowered in order and brought to its parameter type,
    /// then the function is called; the result has its return type.
    pub fn codegen(&self, cxt: &mut CodegenContext) -> (r: Result<TypedValue, CompileError>)
        requires
            old(cxt).inv(),
        ensures
            lowered(*old(cxt), *final(cxt), Expression::FunctionCall(*self), r),
            r matches Ok(v) ==> v.value == Operand::Value((final(cxt).body.insts@.len() - 1) as usize)
                && (final(cxt).body.insts@.last().1 matches Inst::Call { callee, args }
                && callee@ == self.name@ && args@.len() == self.args@.len()
                && (exists|ns: Seq<int>| #[trigger] call_args_from(
                    *old(cxt),
                    final(cxt).body.insts@,
                    *self,
                    args@,
                    lookup(old(cxt).definitions@.funcs, self.name@)->Some_0.0,
                    ns,
                ))
                && forall|k: int| 0 <= k < args@.len() ==> has_type(
                    final(cxt).body.insts@,
                    final(cxt).module,
                    #[trigger] args@[k],
                    lookup(old(cxt).definitions@.funcs, self.name@)->Some_0.0[k],
                )),
        decreases self, 0int,
    {
        proof {
            lemma_expr_frame_refl(*cxt);
        }
        let sig = match cxt.definitions.get_func(&self.name) {
            Some(s) => s,
            None => {
                return Err(
                    CompileError::new(
                        ErrorKind::UnknownFunction,
                        message(&["Calling unknown function ", self.name.as_str()]),
                    ),
                );
            },
        };
        if self.args.len() != sig.args.len() {
            return Err(
                CompileError::new(
                    ErrorKind::TypeError,
                    message(&["Wrong number of arguments in call of ", self.name.as_str()]),
                ),
            );
        }
        let ghost params = crate::definitions::views_of(sig.args@);
        let ghost start = *cxt;
        let mut computed: Vec<Operand> = Vec::new();
        let ghost mut ns: Seq<int> = Seq::empty();
        let mut i: usize = 0;
        proof {
            lemma_expr_frame_refl(*cxt);
        }
        while i < self.args.len()
            invariant
                i <= self.args@.len(),
                self.args@.len() == sig.args@.len(),
                params == crate::definitions::views_of(sig.args@),
                start == *old(cxt),
                start.definitions.func_value(self.name@) == Some(*sig),
                expr_frame(start, *cxt),
                spec_args(type_layers(start.layers()), start.definitions, *self, params, i as int) == Ok::<(), ErrorKind>(()),
                computed@.len() == i,
                forall|k: int| 0 <= k < i ==> has_type(cxt.body.insts@, cxt.module, #[trigger] computed@[k], params[k]),
                ns.len() == i,
                forall|k: int| 0 <= k < i ==> start.body.insts@.len() <= #[trigger] ns[k] <= cxt.body.insts@.len() && coerced(
                    cxt.body.insts@,
                    value_at(self.args@[k], ns[k]),
                    computed@[k],
                    spec_expr(type_layers(start.layers()), start.definitions, self.args@[k])->Ok_0@,
                    params[k],
                ),
                forall|k: int| 0 < k < i ==> ns[k - 1] <= #[trigger] ns[k] && (self.args@[k] is Int || ns[k - 1] < ns[k]),
            decreases self.args@.len() - i,
        {
            proof {
                assert(decreases_to!(*self => self.args));
                assert(decreases_to!(self.args => self.args@));
                assert(decreases_to!(self.args@ => self.args@[i as int]));
            }
            let ghost before = *cxt;
            let arg = match self.args[i].codegen(cxt) {
                Ok(v) => v,
                Err(err) => {
                    proof {
                        assert(before.layers() == start.layers());
                        assert(spec_expr(type_layers(start.layers()), start.definitions, self.args@[i as int]) == Err::<Type, ErrorKind>(err.kind));
                        assert(spec_args(type_layers(start.layers()), start.definitions, *self, params, i as int + 1) == Err::<(), ErrorKind>(err.kind));
                        lemma_args_fail(type_layers(start.layers()), start.definitions, *self, params, i as int + 1);
                        lemma_expr_frame_trans(start, before, *cxt);
                    }
                    return Err(err);
                },
            };
            let ghost mid = *cxt;
            match check_cast(&arg.ty, &sig.args[i]) {
                Ok(()) => {},
                Err(err) => {
                    proof {
                        assert(before.layers() == start.layers());
                        assert(spec_expr(type_layers(start.layers()), start.definitions, self.args@[i as int]) == Ok::<Type, ErrorKind>(*arg.ty));
                        assert(spec_args(type_layers(start.layers()), start.definitions, *self, params, i as int + 1) == Err::<(), ErrorKind>(ErrorKind::TypeError));
                        lemma_args_fail(type_layers(start.layers()), start.definitions, *self, params, i as int + 1);
                        lemma_expr_frame_trans(start, before, *cxt);
                    }
                    return Err(err);
                },
            }
            let v = cast(cxt, &arg.ty, &sig.args[i], arg.value);
            let ghost prev = computed@;
            let ghost prev_ns = ns;
            computed.push(v);
            proof {
                ns = ns.push(mid.body.insts@.len() as int);
                assert(arg.value == value_at(self.args@[i as int], mid.body.insts@.len() as int));
                assert forall|k: int| 0 <= k < i + 1 implies start.body.insts@.len() <= #[trigger] ns[k] <= cxt.body.insts@.len() && coerced(
                    cxt.body.insts@,
                    value_at(self.args@[k], ns[k]),
                    computed@[k],
                    spec_expr(type_layers(start.layers()), start.definitions, self.args@[k])->Ok_0@,
                    params[k],
                ) by {
                    if k < i {
                        assert(ns[k] == prev_ns[k]);
                        assert(computed@[k] == prev[k]);
                        lemma_expr_frame_trans(before, mid, *cxt);
                        lemma_coerced_prefix(before.body.insts@, cxt.body.insts@, value_at(self.args@[k], ns[k]), prev[k],
                            spec_expr(type_layers(start.layers()), start.definitions, self.args@[k])->Ok_0@, params[k]);
                    } else {
                        assert(params[k] == (*sig.args@[k])@);
                    }
                }
                assert forall|k: int| 0 < k < i + 1 implies ns[k - 1] <= #[trigger] ns[k] && (self.args@[k] is Int || ns[k - 1] < ns[k]) by {
                    if k < i {
                        assert(ns[k] == prev_ns[k] && ns[k - 1] == prev_ns[k - 1]);
                    } else {
                        assert(ns[k - 1] == prev_ns[k - 1]);
                    }
                }
                lemma_expr_frame_trans(start, before, mid);
                lemma_expr_frame_trans(start, mid, *cxt);
                lemma_expr_frame_trans(before, mid, *cxt);
                lemma_ir_frame_of_expr(before, *cxt);
                assert(params[i as int] == (*sig.args@[i as int])@);
                assert forall|k: int| 0 <= k < i + 1 implies has_type(cxt.body.insts@, cxt.module, #[trigger] computed@[k], params[k]) by {
                    if k < i {
                        assert(computed@[k] == prev[k]);
                        lemma_has_type_frame(before, *cxt, prev[k], params[k]);
                    }
                }
            }
            i = i + 1;
        }
        proof {
            lemma_lookup_some_index(cxt.definitions@.funcs, self.name@);
            let j = choose|j: int| 0 <= j < cxt.definitions@.funcs.len() && #[trigger] cxt.definitions@.funcs[j].0 == self.name@;
            assert(cxt.module.functions@[j].name@ == self.name@);
        }
        let ghost before_call = *cxt;
        let ghost args_g = computed@;
        let n = cxt.body.insts.len();
        let value = cxt.emit_call(self.name.clone(), computed);
        proof {
            lemma_expr_frame_trans(start, before_call, *cxt);
            lemma_ir_frame_of_expr(before_call, *cxt);
            assert(cxt.body.insts@[n as int] == cxt.body.insts@.last());
            assert forall|k: int| 0 <= k < args_g.len() implies has_type(cxt.body.insts@, cxt.module, #[trigger] args_g[k], params[k]) by {
                lemma_has_type_frame(before_call, *cxt, args_g[k], params[k]);
            }
            assert forall|k: int| 0 <= k < ns.len() implies start.body.insts@.len() <= #[trigger] ns[k] <= cxt.body.insts@.len() && coerced(
                cxt.body.insts@,
                value_at(self.args@[k], ns[k]),
                args_g[k],
                spec_expr(type_layers(start.layers()), start.definitions, self.args@[k])->Ok_0@,
                params[k],
            ) by {
                lemma_coerced_prefix(before_call.body.insts@, cxt.body.insts@, value_at(self.args@[k], ns[k]), args_g[k],
                    spec_expr(type_layers(start.layers()), start.definitions, self.args@[k])->Ok_0@, params[k]);
            }
            assert(params == lookup(start.definitions@.funcs, self.name@)->Some_0.0);
            assert(call_args_from(start, cxt.body.insts@, *self, args_g, params, ns));
            if let Inst::Call { callee, args } = cxt.body.insts@.last().1 {
                assert(args@ == args_g);
                assert(call_args_from(*old(cxt), cxt.body.insts@, *self, args@, lookup(old(cxt).definitions@.funcs, self.name@)->Some_0.0, ns));
            }
            let j = choose|j: int| 0 <= j < cxt.definitions@.funcs.len() && #[trigger] cxt.definitions@.funcs[j].0 == self.name@;
            assert(declares_sig(cxt.module.functions@[j], lookup(cxt.definitions@.funcs, cxt.definitions@.funcs[j].0)->Some_0));
            assert(lowers_to((*sig.ret)@, cxt.module.functions@[j].ret));
        }
        Ok(TypedValue { value, ty: share(&sig.ret) })
    }
}

proof fn lemma_args_fail(
    layers: Seq<Seq<(Seq<char>, Type)>>,
    defs: ProgramDefinitions,
    f: FunctionCall,
    params: Seq<TypeView>,
    n: int,
)
    requires
        0 < n <= f.args@.len(),
        spec_args(layers, defs, f, params, n) is Err,
    ensures
        spec_args(layers, defs, f, params, f.args@.len() as int) == spec_args(layers, defs, f, params, n),
    decreases f.args@.len() - n,
{
    if n < f.args@.len() {
        lemma_args_fail(layers, defs, f, params, n + 1);
    }
}

impl StructCtor {
    /// A zero-filled value of a named type, from a slot in the entry block.
    pub fn codegen(&self, cxt: &mut CodegenContext) -> (r: Result<TypedValue, CompileError>)
        requires
            old(cxt).inv(),
        ensures
            lowered(*old(cxt), *final(cxt), Expression::StructCtor(*self), r),
            r is Err ==> *final(cxt) == *old(cxt),
            r matches Ok(v) ==> {
                let n = old(cxt).body.insts@.len() as int;
                let slot = Operand::Slot(old(cxt).body.slots@.len() as usize);
                &&& final(cxt).body.slots@.len() == old(cxt).body.slots@.len() + 1
                &&& lowers_to((*v.ty)@, final(cxt).body.slots@.last())
                &&& final(cxt).body.insts@.len() == n + 2
                &&& final(cxt).body.insts@[n] matches (b, Inst::ZeroFill { ptr, ty })
                    && b == old(cxt).cursor && ptr == slot && lowers_to((*v.ty)@, ty)
                &&& final(cxt).body.insts@[n + 1] matches (b, Inst::Load { ty, ptr })
                    && b == old(cxt).cursor && ptr == slot && lowers_to((*v.ty)@, ty)
                &&& v.value == Operand::Value((n + 1) as usize)
            },
    {
        proof {
            lemma_expr_frame_refl(*cxt);
        }
        let ty = match cxt.definitions.get_type(&self.name) {
            Some(t) => t,
            None => {
                return Err(
                    CompileError::new(
                        ErrorKind::UnknownType,
                        message(&["Ctor for unknown type ", self.name.as_str()]),
                    ),
                );
            },
        };
        if ty.same(&Type::Void()) {
            return Err(
                CompileError::new(ErrorKind::TypeError, String::from_str("Ctor for the void type")),
            );
        }
        let ghost c0 = *cxt;
        let slot = cxt.alloca(ir_type(&ty));
        let ghost c1 = *cxt;
        let n = cxt.body.insts.len();
        let _ = cxt.emit(Inst::ZeroFill { ptr: slot, ty: ir_type(&ty) });
        let ghost c2 = *cxt;
        let value = cxt.emit(Inst::Load { ty: ir_type(&ty), ptr: slot });
        proof {
            lemma_expr_frame_trans(c0, c1, c2);
            lemma_expr_frame_trans(c0, c2, *cxt);
            assert(cxt.body.insts@[n as int] == c2.body.insts@[n as int]);
            assert(cxt.body.insts@[n + 1] == cxt.body.insts@.last());
        }
        Ok(TypedValue { value, ty })
    }
}

} // verus!

verus! {

/// What lowering a statement may do to the function body: append
/// instructions to the block at the cursor and to blocks it adds, add blocks
/// and stack slots, and move the cursor to a block it added, closing the block
/// it started at.
pub open spec fn ir_frame(a: CodegenContext, b: CodegenContext) -> bool {
    &&& a.body.blocks@.len() <= b.body.blocks@.len()
    &&& b.body.blocks@.subrange(0, a.body.blocks@.len() as int) == a.body.blocks@
    &&& a.body.insts@.len() <= b.body.insts@.len()
    &&& b.body.insts@.subrange(0, a.body.insts@.len() as int) == a.body.insts@
    &&& forall|i: int|
        a.body.insts@.len() <= i < b.body.insts@.len() ==> (#[trigger] b.body.insts@[i]).0
            == a.cursor || b.body.insts@[i].0 >= a.body.blocks@.len()
    &&& (b.cursor == a.cursor || b.cursor >= a.body.blocks@.len())
    &&& (b.cursor == a.cursor || is_closed(b.body.insts@, a.cursor))
    &&& forall|x: usize|
        a.body.blocks@.len() <= x < b.body.blocks@.len() ==> #[trigger] is_closed(b.body.insts@, x)
            || x == b.cursor || is_empty_block(b.body.insts@, x)
    &&& a.body.slots@.len() <= b.body.slots@.len()
    &&& b.body.slots@.subrange(0, a.body.slots@.len() as int) == a.body.slots@
    &&& b.definitions == a.definitions
    &&& b.module == a.module
    &&& b.type_cache == a.type_cache
    &&& b.vislayers.function() == a.vislayers.function()
}

/// What lowering a statement may change: the function body as `ir_frame`
/// allows, and the innermost scope (which may gain bindings); the cursor is
/// left at an open block.
pub open spec fn stmt_frame(a: CodegenContext, b: CodegenContext) -> bool {
    &&& b.inv()
    &&& ir_frame(a, b)
    &&& b.layers().len() == a.layers().len()
    &&& b.layers().drop_last() == a.layers().drop_last()
}

pub proof fn lemma_closed_stays(a: Seq<(usize, Inst)>, b: Seq<(usize, Inst)>, x: usize)
    requires
        a.len() <= b.len(),
        b.subrange(0, a.len() as int) == a,
        is_closed(a, x),
    ensures
        is_closed(b, x),
{
    let i = choose|i: int| 0 <= i < a.len() && #[trigger] a[i].0 == x && a[i].1.is_terminator();
    assert(b.subrange(0, a.len() as int)[i] == b[i]);
}

pub proof fn lemma_ir_frame_of_expr(a: CodegenContext, b: CodegenContext)
    requires
        expr_frame(a, b),
    ensures
        ir_frame(a, b),
{
    assert(b.body.blocks@.subrange(0, a.body.blocks@.len() as int) =~= a.body.blocks@);
}

pub proof fn lemma_ir_frame_refl(a: CodegenContext)
    ensures
        ir_frame(a, a),
{
    assert(a.body.blocks@.subrange(0, a.body.blocks@.len() as int) =~= a.body.blocks@);
    assert(a.body.slots@.subrange(0, a.body.slots@.len() as int) =~= a.body.slots@);
    assert(a.body.insts@.subrange(0, a.body.insts@.len() as int) =~= a.body.insts@);
}

pub proof fn lemma_ir_frame_trans(a: CodegenContext, b: CodegenContext, c: CodegenContext)
    requires
        ir_frame(a, b),
        ir_frame(b, c),
    ensures
        ir_frame(a, c),
{
    assert(c.body.slots@.subrange(0, a.body.slots@.len() as int) =~= c.body.slots@.subrange(
        0,
        b.body.slots@.len() as int,
    ).subrange(0, a.body.slots@.len() as int));
    assert(c.body.insts@.subrange(0, a.body.insts@.len() as int) =~= c.body.insts@.subrange(
        0,
        b.body.insts@.len() as int,
    ).subrange(0, a.body.insts@.len() as int));
    assert(c.body.blocks@.subrange(0, a.body.blocks@.len() as int) =~= c.body.blocks@.subrange(
        0,
        b.body.blocks@.len() as int,
    ).subrange(0, a.body.blocks@.len() as int));
    assert forall|i: int| a.body.insts@.len() <= i < c.body.insts@.len() implies (
    #[trigger] c.body.insts@[i]).0 == a.cursor || c.body.insts@[i].0 >= a.body.blocks@.len() by {
        if i < b.body.insts@.len() {
            assert(c.body.insts@.subrange(0, b.body.insts@.len() as int)[i] == c.body.insts@[i]);
        }
    }
    if b.cursor != a.cursor {
        lemma_closed_stays(b.body.insts@, c.body.insts@, a.cursor);
    }
    assert forall|x: usize| a.body.blocks@.len() <= x < c.body.blocks@.len() implies #[trigger] is_closed(c.body.insts@, x)
        || x == c.cursor || is_empty_block(c.body.insts@, x) by {
        if x < b.body.blocks@.len() {
            if is_closed(b.body.insts@, x) {
                lemma_closed_stays(b.body.insts@, c.body.insts@, x);
            } else if x != b.cursor {
                assert(is_empty_block(b.body.insts@, x));
                lemma_stays_empty(b, c, x);
            }
        }
    }
}

/// A block that holds nothing, is not at the cursor and is not new stays empty.
pub proof fn lemma_stays_empty(a: CodegenContext, b: CodegenContext, x: usize)
    requires
        a.body.insts@.len() <= b.body.insts@.len(),
        b.body.insts@.subrange(0, a.body.insts@.len() as int) == a.body.insts@,
        forall|i: int|
            a.body.insts@.len() <= i < b.body.insts@.len() ==> (#[trigger] b.body.insts@[i]).0
                == a.cursor || b.body.insts@[i].0 >= a.body.blocks@.len(),
        x < a.body.blocks@.len(),
        x != a.cursor,
        is_empty_block(a.body.insts@, x),
    ensures
        is_empty_block(b.body.insts@, x),
{
    assert forall|i: int| 0 <= i < b.body.insts@.len() implies #[trigger] b.body.insts@[i].0 != x by {
        if i < a.body.insts@.len() {
            assert(b.body.insts@.subrange(0, a.body.insts@.len() as int)[i] == b.body.insts@[i]);
        }
    }
}

/// Moving the cursor from a closed block to an open block that was added
/// since `a`.
pub proof fn lemma_reposition(a: CodegenContext, b: CodegenContext, c: CodegenContext)
    requires
        ir_frame(a, b),
        b.wf(),
        is_closed(b.body.insts@, b.cursor),
        a.body.blocks@.len() <= c.cursor < b.body.blocks@.len(),
        !is_closed(b.body.insts@, c.cursor),
        c.body == b.body,
        c.definitions == b.definitions,
        c.module == b.module,
        c.type_cache == b.type_cache,
        c.vislayers == b.vislayers,
    ensures
        ir_frame(a, c),
        c.inv(),
{
}

/// A block that the statement neither started at nor added stays empty.
pub proof fn lemma_untouched_block(a: CodegenContext, b: CodegenContext, x: usize)
    requires
        ir_frame(a, b),
        x < a.body.blocks@.len(),
        x != a.cursor,
        is_empty_block(a.body.insts@, x),
    ensures
        is_empty_block(b.body.insts@, x),
        !is_closed(b.body.insts@, x),
{
    assert forall|i: int| 0 <= i < b.body.insts@.len() implies #[trigger] b.body.insts@[i].0 != x by {
        if i < a.body.insts@.len() {
            assert(b.body.insts@.subrange(0, a.body.insts@.len() as int)[i] == b.body.insts@[i]);
        }
    }
}

impl CodegenContext {
    /// Ends the block at the cursor with a terminator.
    fn terminate(&mut self, inst: Inst)
        requires
            old(self).inv(),
            inst.is_terminator(),
            inst matches Inst::Br { target } ==> target < old(self).body.blocks@.len(),
        ensures
            final(self).wf(),
            final(self).body.insts@ == old(self).body.insts@.push((old(self).cursor, inst)),
            is_closed(final(self).body.insts@, old(self).cursor),
            ir_frame(*old(self), *final(self)),
            final(self).cursor == old(self).cursor,
            final(self).body.blocks == old(self).body.blocks,
            final(self).body.slots == old(self).body.slots,
            final(self).vislayers == old(self).vislayers,
            final(self).definitions == old(self).definitions,
            final(self).module == old(self).module,
            final(self).type_cache == old(self).type_cache,
    {
        let n = self.body.insts.len();
        let ghost before = *self;
        self.body.insts.push((self.cursor, inst));
        proof {
            lemma_calls_declared_push(before.body.insts@, self.module, self.body.insts@.last());
            assert(self.body.insts@[n as int].0 == self.cursor);
            assert(self.body.insts@.subrange(0, n as int) =~= before.body.insts@);
            assert(self.body.slots@.subrange(0, before.body.slots@.len() as int) =~= self.body.slots@);
            assert(self.body.blocks@.subrange(0, before.body.blocks@.len() as int) =~= self.body.blocks@);
            assert forall|i: int, j: int| 0 <= i < j < self.body.insts@.len() && #[trigger] self.body.insts@[i].0 == #[trigger] self.body.insts@[j].0 implies !self.body.insts@[i].1.is_terminator() by {
                if j == n {
                    if self.body.insts@[i].1.is_terminator() {
                        assert(before.body.insts@[i] == self.body.insts@[i]);
                        assert(is_closed(before.body.insts@, before.cursor));
                    }
                } else {
                    assert(before.body.insts@[i] == self.body.insts@[i]);
                    assert(before.body.insts@[j] == self.body.insts@[j]);
                }
            }
            assert forall|i: int| 0 <= i < self.body.insts@.len() implies #[trigger] self.body.insts@[i].0 < self.body.blocks@.len() by {
                if i < n {
                    assert(before.body.insts@[i] == self.body.insts@[i]);
                }
            }
        }
    }

    /// Adds an empty block at the end of the function and gives its index.
    fn append_block(&mut self, label: &str) -> (r: usize)
        requires
            old(self).wf(),
        ensures
            final(self).wf(),
            r == old(self).body.blocks@.len(),
            final(self).body.blocks@.len() == old(self).body.blocks@.len() + 1,
            final(self).body.blocks@.subrange(0, r as int) == old(self).body.blocks@,
            is_empty_block(final(self).body.insts@, r),
            ir_frame(*old(self), *final(self)),
            final(self).body.insts == old(self).body.insts,
            final(self).cursor == old(self).cursor,
            final(self).body.slots == old(self).body.slots,
            final(self).vislayers == old(self).vislayers,
            final(self).definitions == old(self).definitions,
            final(self).module == old(self).module,
            final(self).type_cache == old(self).type_cache,
    {
        let n = self.body.blocks.len();
        self.body.blocks.push(String::from_str(label));
        proof {
            assert(self.body.blocks@.subrange(0, n as int) =~= old(self).body.blocks@);
            assert(self.body.slots@.subrange(0, self.body.slots@.len() as int) =~= self.body.slots@);
            assert(self.body.insts@.subrange(0, self.body.insts@.len() as int) =~= self.body.insts@);
        }
        n
    }
}

} // verus!

verus! {

/// Typed scopes with `k: t` bound in the innermost one.
pub open spec fn bind(layers: Seq<Seq<(Seq<char>, Type)>>, k: Seq<char>, t: Type) -> Seq<Seq<(Seq<char>, Type)>> {
    layers.drop_last().push(layers.last().push((k, t)))
}

/// A condition lowers and can be brought to `bool`.
pub open spec fn cond_ok(layers: Seq<Seq<(Seq<char>, Type)>>, defs: ProgramDefinitions, e: Expression) -> bool {
    spec_expr(layers, defs, e) matches Ok(t) && castable(t@, TypeView::Int(1))
}

/// The typed scopes after lowering a statement of a function body that
/// returns `ret`, or `None` when lowering it fails.
pub open spec fn spec_stmt(
    layers: Seq<Seq<(Seq<char>, Type)>>,
    defs: ProgramDefinitions,
    ret: TypeView,
    s: Statement,
) -> Option<Seq<Seq<(Seq<char>, Type)>>>
    decreases s, 0int,
{
    match s {
        Statement::ExprStatement(x) => if spec_expr(layers, defs, x.expr) is Ok {
            Some(layers)
        } else {
            None
        },
        Statement::Let(x) => match spec_expr(layers, defs, x.expr) {
            Err(_) => None,
            Ok(t) => match x.tp {
                None => Some(bind(layers, x.var@, t)),
                Some(n) => match defs.type_value(n@) {
                    None => None,
                    Some(d) => if castable(t@, d@) {
                        Some(bind(layers, x.var@, d))
                    } else {
                        None
                    },
                },
            },
        },
        Statement::Assignment(x) => match (spec_variable(layers, x.var), spec_expr(layers, defs, x.expr)) {
            (Ok(v), Ok(t)) => if castable(t@, v@) {
                Some(layers)
            } else {
                None
            },
            _ => None,
        },
        Statement::If(x) => if cond_ok(layers, defs, x.check) && spec_body(
            layers.push(Seq::empty()),
            defs,
            ret,
            x.true_body@,
            x.true_body@.len() as int,
        ) is Some && match x.else_body {
            None => true,
            Some(b) => spec_body(layers.push(Seq::empty()), defs, ret, b@, b@.len() as int) is Some,
        } {
            Some(layers)
        } else {
            None
        },
        Statement::While(x) => if cond_ok(layers.push(Seq::empty()), defs, x.cond) && spec_body(
            layers.push(Seq::empty()),
            defs,
            ret,
            x.body@,
            x.body@.len() as int,
        ) is Some {
            Some(layers)
        } else {
            None
        },
        Statement::For(x) => match spec_stmt(layers.push(Seq::empty()), defs, ret, *x.start) {
            None => None,
            Some(l1) => if cond_ok(l1, defs, x.check) {
                match spec_body(l1, defs, ret, x.body@, x.body@.len() as int) {
                    None => None,
                    Some(l2) => match spec_stmt(l2, defs, ret, *x.step) {
                        None => None,
                        Some(_) => Some(layers),
                    },
                }
            } else {
                None
            },
        },
        Statement::Return(x) => match x.expr {
            None => if ret == TypeView::Void {
                Some(layers)
            } else {
                None
            },
            Some(e) => if ret != TypeView::Void && (spec_expr(layers, defs, e) matches Ok(t) && castable(t@, ret)) {
                Some(layers)
            } else {
                None
            },
        },
        _ => None,
    }
}

/// The typed scopes after lowering the first `n` statements of a body in
/// order, or `None` when one of them fails.
pub open spec fn spec_body(
    layers: Seq<Seq<(Seq<char>, Type)>>,
    defs: ProgramDefinitions,
    ret: TypeView,
    stmts: Seq<Statement>,
    n: int,
) -> Option<Seq<Seq<(Seq<char>, Type)>>>
    decreases stmts, n,
{
    if n <= 0 || n > stmts.len() {
        Some(layers)
    } else {
        match spec_body(layers, defs, ret, stmts, n - 1) {
            None => None,
            Some(l) => spec_stmt(l, defs, ret, stmts[n - 1]),
        }
    }
}

proof fn lemma_body_fails(
    layers: Seq<Seq<(Seq<char>, Type)>>,
    defs: ProgramDefinitions,
    ret: TypeView,
    stmts: Seq<Statement>,
    n: int,
)
    requires
        0 < n <= stmts.len(),
        spec_body(layers, defs, ret, stmts, n) is None,
    ensures
        spec_body(layers, defs, ret, stmts, stmts.len() as int) is None,
    decreases stmts.len() - n,
{
    if n < stmts.len() {
        lemma_body_fails(layers, defs, ret, stmts, n + 1);
    }
}

pub proof fn lemma_type_layers_push_empty(layers: Seq<Seq<(Seq<char>, TypedValue)>>)
    ensures
        type_layers(layers.push(Seq::empty())) == type_layers(layers).push(Seq::empty()),
{
    assert(crate::context::type_layer(Seq::empty()) =~= Seq::empty());
    assert(type_layers(layers.push(Seq::empty())) =~= type_layers(layers).push(Seq::empty()));
}

/// The postcondition of lowering a statement: it succeeds exactly when
/// `spec_stmt` says so, and then leaves the typed scopes it gives.
pub open spec fn stmt_lowered(a: CodegenContext, b: CodegenContext, s: Statement, r: Result<(), CompileError>) -> bool {
    match spec_stmt(type_layers(a.layers()), a.definitions, return_type(a), s) {
        Some(l) => r is Ok && stmt_frame(a, b) && type_layers(b.layers()) == l,
        None => r is Err,
    }
}

/// The postcondition of lowering a block of statements.
pub open spec fn body_lowered(a: CodegenContext, b: CodegenContext, stmts: Seq<Statement>, r: Result<(), CompileError>) -> bool {
    match spec_body(type_layers(a.layers()), a.definitions, return_type(a), stmts, stmts.len() as int) {
        Some(l) => r is Ok && stmt_frame(a, b) && type_layers(b.layers()) == l,
        None => r is Err,
    }
}

/// The return type of the function being lowered.
pub open spec fn return_type(c: CodegenContext) -> TypeView {
    match c.vislayers.function() {
        Some((_, t)) => (*t)@,
        None => TypeView::Void,
    }
}

/// The precondition of lowering a statement: inside a function, with a scope open.
pub open spec fn in_body(c: CodegenContext) -> bool {
    &&& c.inv()
    &&& c.layers().len() > 0
    &&& c.vislayers.function() is Some
}

/// Lowers the statements of a block in order, stopping at the first failure.
pub fn codegen_body(stmts: &Vec<Statement>, cxt: &mut CodegenContext) -> (r: Result<(), CompileError>)
    requires
        in_body(*old(cxt)),
    ensures
        body_lowered(*old(cxt), *final(cxt), stmts@, r),
    decreases stmts, 1int,
{
    let ghost start = *cxt;
    proof {
        lemma_ir_frame_refl(*cxt);
    }
    let mut i: usize = 0;
    while i < stmts.len()
        invariant
            i <= stmts@.len(),
            in_body(*cxt),
            start == *old(cxt),
            stmt_frame(start, *cxt),
            spec_body(type_layers(start.layers()), start.definitions, return_type(start), stmts@, i as int)
                == Some(type_layers(cxt.layers())),
        decreases stmts@.len() - i,
    {
        proof {
            assert(decreases_to!(stmts => stmts@));
            assert(decreases_to!(stmts@ => stmts@[i as int]));
        }
        let ghost before = *cxt;
        match stmts[i].codegen(cxt) {
            Ok(()) => {},
            Err(e) => {
                proof {
                    lemma_body_fails(type_layers(start.layers()), start.definitions, return_type(start), stmts@, i + 1);
                }
                return Err(e);
            },
        }
        proof {
            lemma_ir_frame_trans(start, before, *cxt);
        }
        i = i + 1;
    }
    Ok(())
}

impl Statement {
    /// Lowers a statement of a function body at the cursor.
    pub fn codegen(&self, cxt: &mut CodegenContext) -> (r: Result<(), CompileError>)
        requires
            in_body(*old(cxt)),
        ensures
            stmt_lowered(*old(cxt), *final(cxt), *self, r),
        decreases self, 0int,
    {
        match self {
            Statement::ExprStatement(s) => s.codegen(cxt),
            Statement::Let(s) => s.codegen(cxt),
            Statement::Assignment(s) => s.codegen(cxt),
            Statement::If(s) => s.codegen(cxt),
            Statement::While(s) => s.codegen(cxt),
            Statement::For(s) => s.codegen(cxt),
            Statement::Return(s) => s.codegen(cxt),
            _ => Err(
                CompileError::new(
                    ErrorKind::TypeError,
                    String::from_str("Definitions stand only at the top level"),
                ),
            ),
        }
    }
}

impl ExprStatement {
    /// Lowers the expression and drops its value.
    pub fn codegen(&self, cxt: &mut CodegenContext) -> (r: Result<(), CompileError>)
        requires
            in_body(*old(cxt)),
        ensures
            r is Ok <==> spec_expr(type_layers(old(cxt).layers()), old(cxt).definitions, self.expr) is Ok,
            stmt_lowered(*old(cxt), *final(cxt), Statement::ExprStatement(*self), r),
            r is Ok ==> exists|v: TypedValue| #[trigger] lowered(*old(cxt), *final(cxt), self.expr, Ok::<TypedValue, CompileError>(v)),
            r matches Err(e) ==> spec_expr(type_layers(old(cxt).layers()), old(cxt).definitions, self.expr) == Err::<Type, ErrorKind>(e.kind),
        decreases self, 0int,
    {
        match self.expr.codegen(cxt) {
            Ok(_) => {
                proof {
                    lemma_ir_frame_of_expr(*old(cxt), *cxt);
                }
                Ok(())
            },
            Err(e) => Err(e),
        }
    }
}

impl Let {
    /// Lowers the initial value, brings it to the declared type if there is
    /// one, stores it in a new slot of the entry block and binds the name to
    /// that slot in the innermost scope.
    pub fn codegen(&self, cxt: &mut CodegenContext) -> (r: Result<(), CompileError>)
        requires
            in_body(*old(cxt)),
        ensures
            stmt_lowered(*old(cxt), *final(cxt), Statement::Let(*self), r),
            spec_expr(type_layers(old(cxt).layers()), old(cxt).definitions, self.expr) matches Err(k) ==> r matches Err(e) && e.kind == k,
            self.tp matches Some(n) ==> (spec_expr(type_layers(old(cxt).layers()), old(cxt).definitions, self.expr) is Ok
                && old(cxt).definitions.type_value(n@) is None ==> (r matches Err(e) && e.kind == ErrorKind::UnknownType)),
            r is Ok ==> ({
                let slot = Operand::Slot((final(cxt).body.slots@.len() - 1) as usize);
                &&& final(cxt).body.slots@.len() >= old(cxt).body.slots@.len() + 1
                &&& scope_lookup(final(cxt).layers(), self.var@) matches Some(tv) && tv.value == slot
                    && lowers_to((*tv.ty)@, final(cxt).body.slots@.last())
                    && (final(cxt).body.insts@.last() matches (b, Inst::Store { value, ptr })
                    && b == old(cxt).cursor && ptr == slot
                    && has_type(final(cxt).body.insts@, final(cxt).module, value, (*tv.ty)@)
                    && from_expr(*old(cxt), final(cxt).body.insts@, self.expr, value, (*tv.ty)@))
            }),
        decreases self, 0int,
    {
        let expr = match self.expr.codegen(cxt) {
            Ok(v) => v,
            Err(e) => {
                return Err(e);
            },
        };
        let ghost c1 = *cxt;
        let (value, ty) = match &self.tp {
            Some(name) => {
                let declared = match cxt.definitions.get_type(name) {
                    Some(t) => t,
                    None => {
                        return Err(
                            CompileError::new(
                                ErrorKind::UnknownType,
                                message(&["Unknown type ", name.as_str(), " in let statement"]),
                            ),
                        );
                    },
                };
                match check_cast(&expr.ty, &declared) {
                    Ok(()) => {},
                    Err(e) => {
                        return Err(e);
                    },
                }
                let v = cast(cxt, &expr.ty, &declared, expr.value);
                (v, declared)
            },
            None => {
                proof {
                    lemma_expr_frame_refl(*cxt);
                }
                (expr.value, expr.ty)
            },
        };
        let ghost c2 = *cxt;
        proof {
            assert(has_type(c2.body.insts@, c2.module, value, (*ty)@));
            assert(coerced(c2.body.insts@, expr.value, value, (*expr.ty)@, (*ty)@));
        }
        let slot = cxt.alloca(ir_type(&ty));
        let ghost c3 = *cxt;
        let _ = cxt.emit(Inst::Store { value, ptr: slot });
        let ghost c4 = *cxt;
        let ghost layers_before = cxt.layers();
        let ghost tyv = ty;
        cxt.vislayers.add_variable(self.var.clone(), TypedValue { value: slot, ty });
        proof {
            lemma_expr_frame_trans(*old(cxt), c1, c2);
            lemma_expr_frame_trans(*old(cxt), c2, c3);
            lemma_expr_frame_trans(*old(cxt), c3, c4);
            lemma_ir_frame_of_expr(*old(cxt), c4);
            let l = cxt.layers();
            assert(l.drop_last() =~= layers_before.drop_last());
            let tl = type_layers(layers_before);
            assert(type_layers(l).last() =~= tl.last().push((self.var@, *tyv)));
            assert(type_layers(l) =~= crate::codegen::bind(tl, self.var@, *tyv));
            assert(l.last().last() == (self.var@, TypedValue { value: slot, ty: tyv }));
            assert(lookup(l.last(), self.var@) == Some(TypedValue { value: slot, ty: tyv }));
            lemma_expr_frame_trans(c2, c3, c4);
            lemma_ir_frame_of_expr(c2, c4);
            lemma_has_type_frame(c2, c4, value, (*tyv)@);
            lemma_coerced_prefix(c2.body.insts@, c4.body.insts@, expr.value, value, (*expr.ty)@, (*tyv)@);
            let n0 = c1.body.insts@.len() as int;
            assert(expr.value == value_at(self.expr, n0));
            reveal(from_expr);
            assert(coerced(cxt.body.insts@, value_at(self.expr, n0), value, (*expr.ty)@, (*tyv)@));
        }
        Ok(())
    }
}

impl Assignment {
    /// Lowers the value, brings it to the type of the target and stores it there.
    #[verifier::rlimit(100)]
    pub fn codegen(&self, cxt: &mut CodegenContext) -> (r: Result<(), CompileError>)
        requires
            in_body(*old(cxt)),
        ensures
            stmt_lowered(*old(cxt), *final(cxt), Statement::Assignment(*self), r),
            r is Ok <==> (spec_variable(type_layers(old(cxt).layers()), self.var) is Ok && spec_expr(
                type_layers(old(cxt).layers()),
                old(cxt).definitions,
                self.expr,
            ) is Ok && castable(
                spec_expr(type_layers(old(cxt).layers()), old(cxt).definitions, self.expr)->Ok_0@,
                spec_variable(type_layers(old(cxt).layers()), self.var)->Ok_0@,
            )),
            r is Ok ==> (final(cxt).body.insts@.last() matches (b, Inst::Store { value, ptr })
                && b == old(cxt).cursor
                && has_type(final(cxt).body.insts@, final(cxt).module, value, spec_variable(type_layers(old(cxt).layers()), self.var)->Ok_0@)
                && from_expr(*old(cxt), final(cxt).body.insts@, self.expr, value, spec_variable(type_layers(old(cxt).layers()), self.var)->Ok_0@)
                && ptr == Operand::Value(old(cxt).body.insts@.len() as usize)
                && final(cxt).body.insts@[old(cxt).body.insts@.len() as int].1 is Gep),
        decreases self, 0int,
    {
        let target = match self.var.codegen_gep(cxt) {
            Ok(v) => v,
            Err(e) => {
                return Err(e);
            },
        };
        let ghost c1 = *cxt;
        let expr = match self.expr.codegen(cxt) {
            Ok(v) => v,
            Err(e) => {
                return Err(e);
            },
        };
        let ghost c2 = *cxt;
        match check_cast(&expr.ty, &target.ty) {
            Ok(()) => {},
            Err(e) => {
                return Err(e);
            },
        }
        let v = cast(cxt, &expr.ty, &target.ty, expr.value);
        let ghost c3 = *cxt;
        let _ = cxt.emit(Inst::Store { value: v, ptr: target.value });
        proof {
            lemma_expr_frame_trans(*old(cxt), c1, c2);
            lemma_expr_frame_trans(*old(cxt), c2, c3);
            lemma_expr_frame_trans(*old(cxt), c3, *cxt);
            lemma_ir_frame_of_expr(*old(cxt), *cxt);
            lemma_ir_frame_of_expr(c3, *cxt);
            lemma_has_type_frame(c3, *cxt, v, (*target.ty)@);
            lemma_expr_frame_trans(c1, c2, c3);
            lemma_expr_frame_trans(c1, c3, *cxt);
            let k = old(cxt).body.insts@.len() as int;
            assert(cxt.body.insts@.subrange(0, c1.body.insts@.len() as int)[k] == cxt.body.insts@[k]);
            lemma_coerced_prefix(c3.body.insts@, cxt.body.insts@, expr.value, v, (*expr.ty)@, (*target.ty)@);
            let n0 = c2.body.insts@.len() as int;
            assert(expr.value == value_at(self.expr, n0));
            reveal(from_expr);
            assert(coerced(cxt.body.insts@, value_at(self.expr, n0), v, (*expr.ty)@, (*target.ty)@));
        }
        Ok(())
    }
}

} // verus!

verus! {

impl Return {
    /// Returns from the function, bringing the value to the return type, then
    /// moves the cursor to a fresh (unreachable) block so that statements that
    /// follow still have a block to go to.
    pub fn codegen(&self, cxt: &mut CodegenContext) -> (r: Result<(), CompileError>)
        requires
            in_body(*old(cxt)),
        ensures
            stmt_lowered(*old(cxt), *final(cxt), Statement::Return(*self), r),
            r is Ok ==> is_closed(final(cxt).body.insts@, old(cxt).cursor),
            r is Ok <==> match self.expr {
                None => return_type(*old(cxt)) == TypeView::Void,
                Some(e) => return_type(*old(cxt)) != TypeView::Void && (spec_expr(
                    type_layers(old(cxt).layers()),
                    old(cxt).definitions,
                    e,
                ) matches Ok(t) && castable(t@, return_type(*old(cxt)))),
            },
            r is Ok ==> (final(cxt).body.insts@.last() matches (b, inst) && b == old(cxt).cursor
                && match self.expr {
                    None => inst == Inst::RetVoid,
                    Some(e) => inst matches Inst::Ret { value } && has_type(
                        final(cxt).body.insts@,
                        final(cxt).module,
                        value,
                        return_type(*old(cxt)),
                    ) && from_expr(*old(cxt), final(cxt).body.insts@, e, value, return_type(*old(cxt))),
                }),
            r is Ok ==> final(cxt).cursor == old(cxt).body.blocks@.len()
                && final(cxt).body.blocks@.len() == old(cxt).body.blocks@.len() + 1,
        decreases self, 0int,
    {
        let ret = match cxt.vislayers.cur_fun() {
            Some((_, t)) => t,
            None => {
                return Err(CompileError::new(ErrorKind::TypeError, String::from_str("Return outside a function")));
            },
        };
        let ghost c0 = *cxt;
        match &self.expr {
            None => {
                if !ret.same(&Type::Void()) {
                    return Err(
                        CompileError::new(ErrorKind::TypeError, String::from_str("Return without a value from a function that returns one")),
                    );
                }
                proof {
                    lemma_ir_frame_refl(*cxt);
                }
                cxt.terminate(Inst::RetVoid);
            },
            Some(e) => {
                if ret.same(&Type::Void()) {
                    return Err(
                        CompileError::new(ErrorKind::TypeError, String::from_str("Return of a value from a void function")),
                    );
                }
                let v = match e.codegen(cxt) {
                    Ok(v) => v,
                    Err(err) => {
                        return Err(err);
                    },
                };
                let ghost c1 = *cxt;
                match check_cast(&v.ty, &ret) {
                    Ok(()) => {},
                    Err(err) => {
                        return Err(err);
                    },
                }
                let value = cast(cxt, &v.ty, &ret, v.value);
                let ghost c2 = *cxt;
                proof {
                    lemma_expr_frame_trans(c0, c1, c2);
                    lemma_ir_frame_of_expr(c0, c2);
                }
                let ghost c3 = *cxt;
                let ghost vg = value;
                cxt.terminate(Inst::Ret { value });
                proof {
                    lemma_ir_frame_of_expr(c1, c2);
                    lemma_has_type_prefix(c2.body.insts@, cxt.body.insts@, c2.module, vg, (*ret)@);
                    lemma_coerced_prefix(c2.body.insts@, cxt.body.insts@, v.value, vg, (*v.ty)@, (*ret)@);
                    let n0 = c1.body.insts@.len() as int;
                    assert(v.value == value_at(*e, n0));
                    reveal(from_expr);
            assert(coerced(cxt.body.insts@, value_at(*e, n0), vg, (*v.ty)@, (*ret)@));
                }
                proof {
                    lemma_ir_frame_trans(c0, c3, *cxt);
                }
            },
        }
        let ghost c4 = *cxt;
        let b = cxt.append_block("unreachable");
        let ghost c5 = *cxt;
        proof {
            lemma_ir_frame_trans(c0, c4, c5);
        }
        cxt.cursor = b;
        proof {
            lemma_reposition(c0, c5, *cxt);
        }
        Ok(())
    }
}

impl If {
    /// Lowers `if` into a block that evaluates the condition, a block for each
    /// branch, and a block where both meet.
    #[verifier::rlimit(100)]
    #[verifier::spinoff_prover]
    pub fn codegen(&self, cxt: &mut CodegenContext) -> (r: Result<(), CompileError>)
        requires
            in_body(*old(cxt)),
        ensures
            stmt_lowered(*old(cxt), *final(cxt), Statement::If(*self), r),
            r is Ok ==> final(cxt).layers() == old(cxt).layers(),
            r is Ok ==> if_shape(*old(cxt), final(cxt).body.insts@, final(cxt).module, final(cxt).cursor, self.else_body is Some, self.check),
        decreases self, 0int,
    {
        let ghost c0 = *cxt;
        let (_, false_block) = match branch_head(cxt, &self.check, "true_block", "false_cont_block") {
            Ok(p) => p,
            Err(e) => {
                return Err(e);
            },
        };
        let ghost c6 = *cxt;
        cxt.vislayers.enter_layer();
        let ghost c7 = *cxt;
        proof {
            assert(ir_frame(c0, c7));
            lemma_type_layers_push_empty(c0.layers());
        }
        match codegen_body(&self.true_body, cxt) {
            Ok(()) => {},
            Err(e) => {
                cxt.vislayers.exit_layer();
                return Err(e);
            },
        }
        cxt.vislayers.exit_layer();
        let ghost c8 = *cxt;
        proof {
            lemma_untouched_block(c7, c8, false_block);
            lemma_ir_frame_trans(c0, c7, c8);
            assert(c8.layers() =~= c0.layers());
        }
        match &self.else_body {
            Some(else_body) => {
                let cont_block = cxt.append_block("cont_block");
                let ghost c9 = *cxt;
                cxt.terminate(Inst::Br { target: cont_block });
                let ghost c10 = *cxt;
                proof {
                    lemma_ir_frame_trans(c0, c8, c9);
                    lemma_ir_frame_trans(c0, c9, c10);
                    assert(is_empty_block(c10.body.insts@, false_block)) by {
                        assert forall|i: int| 0 <= i < c10.body.insts@.len() implies #[trigger] c10.body.insts@[i].0 != false_block by {
                            if i < c8.body.insts@.len() {
                                assert(c8.body.insts@[i] == c10.body.insts@[i]);
                            }
                        }
                    }
                    assert(is_empty_block(c10.body.insts@, cont_block)) by {
                        assert forall|i: int| 0 <= i < c10.body.insts@.len() implies #[trigger] c10.body.insts@[i].0 != cont_block by {
                            if i < c8.body.insts@.len() {
                                assert(c8.body.insts@[i] == c10.body.insts@[i]);
                            }
                        }
                    }
                }
                cxt.cursor = false_block;
                proof {
                    lemma_reposition(c0, c10, *cxt);
                }
                cxt.vislayers.enter_layer();
                let ghost c11 = *cxt;
                proof {
                    lemma_type_layers_push_empty(c0.layers());
                    assert(c11.layers() == c0.layers().push(Seq::empty()));
                }
                match codegen_body(else_body, cxt) {
                    Ok(()) => {},
                    Err(e) => {
                        cxt.vislayers.exit_layer();
                        return Err(e);
                    },
                }
                cxt.vislayers.exit_layer();
                let ghost c12 = *cxt;
                proof {
                    lemma_untouched_block(c11, c12, cont_block);
                    lemma_ir_frame_trans(c0, c11, c12);
                    assert(c12.layers() =~= c0.layers());
                }
                cxt.terminate(Inst::Br { target: cont_block });
                let ghost c13 = *cxt;
                proof {
                    lemma_ir_frame_trans(c0, c12, c13);
                    assert(!is_closed(c13.body.insts@, cont_block)) by {
                        if is_closed(c13.body.insts@, cont_block) {
                            let i = choose|i: int| 0 <= i < c13.body.insts@.len() && #[trigger] c13.body.insts@[i].0 == cont_block && c13.body.insts@[i].1.is_terminator();
                            if i < c12.body.insts@.len() {
                                assert(c12.body.insts@[i] == c13.body.insts@[i]);
                            }
                        }
                    }
                }
                cxt.cursor = cont_block;
                proof {
                    lemma_reposition(c0, c13, *cxt);
                    let n6 = c6.body.insts@.len() as int;
                    assert(c8.body.insts@.subrange(0, n6) == c6.body.insts@);
                    assert(c10.body.insts@.subrange(0, n6) =~= c6.body.insts@);
                    assert(c12.body.insts@.subrange(0, c11.body.insts@.len() as int) == c11.body.insts@);
                    assert(c12.body.insts@.subrange(0, n6) =~= c6.body.insts@);
                    assert(c13.body.insts@.subrange(0, n6) =~= c6.body.insts@);
                    let k2 = c8.body.insts@.len() as int;
                    assert(c12.body.insts@.subrange(0, c11.body.insts@.len() as int)[k2] == c12.body.insts@[k2]);
                    assert(c13.body.insts@[k2] == c12.body.insts@[k2]);
                    lemma_if_shape(c0, c6, cxt.body.insts@, cxt.module, cxt.cursor, true, k2, self.check);
                }
            },
            None => {
                cxt.terminate(Inst::Br { target: false_block });
                let ghost c9 = *cxt;
                proof {
                    lemma_ir_frame_trans(c0, c8, c9);
                    assert(!is_closed(c9.body.insts@, false_block)) by {
                        if is_closed(c9.body.insts@, false_block) {
                            let i = choose|i: int| 0 <= i < c9.body.insts@.len() && #[trigger] c9.body.insts@[i].0 == false_block && c9.body.insts@[i].1.is_terminator();
                            if i < c8.body.insts@.len() {
                                assert(c8.body.insts@[i] == c9.body.insts@[i]);
                            }
                        }
                    }
                }
                cxt.cursor = false_block;
                proof {
                    lemma_reposition(c0, c9, *cxt);
                    let n6 = c6.body.insts@.len() as int;
                    assert(c8.body.insts@.subrange(0, n6) == c6.body.insts@);
                    assert(c9.body.insts@.subrange(0, n6) =~= c6.body.insts@);
                    let k2 = c8.body.insts@.len() as int;
                    assert(c9.body.insts@ == c8.body.insts@.push((c8.cursor, Inst::Br { target: false_block })));
                    assert(c9.body.insts@[k2] == (c8.cursor, Inst::Br { target: false_block }));
                    assert(cxt.body.insts@[k2].1 == (Inst::Br { target: cxt.cursor }));
                    lemma_if_shape(c0, c6, cxt.body.insts@, cxt.module, cxt.cursor, false, k2, self.check);
                }
            },
        }
        Ok(())
    }
}

} // verus!

verus! {

/// Block `h` ends by branching on a `bool` condition to block `h + 1` or
/// block `h + 2`.
pub open spec fn cond_branch_at(insts: Seq<(usize, Inst)>, m: Module, h: int, k: int) -> bool {
    &&& 0 <= k < insts.len()
    &&& insts[k] matches (b, Inst::CondBr { cond, then_block, else_block })
    &&& b == h && then_block == h + 1 && else_block == h + 2
    &&& has_type(insts, m, cond, TypeView::Int(1))
}

/// A loop whose `check` block is `h`: it branches on its condition to the
/// loop block `h + 1` or to `h + 2`, the block the cursor is left at, and a
/// later branch goes back to `h`.
pub open spec fn loop_shape(insts: Seq<(usize, Inst)>, m: Module, h: int, cursor: usize) -> bool {
    &&& cursor == h + 2
    &&& exists|k: int, k2: int| #[trigger] cond_branch_at(insts, m, h, k) && k < k2 < insts.len()
        && (#[trigger] insts[k2]).1 == Inst::Br { target: h as usize }
}

proof fn lemma_cond_branch_stays(a: CodegenContext, b: CodegenContext, h: int, k: int)
    requires
        cond_branch_at(a.body.insts@, a.module, h, k),
        ir_frame(a, b),
    ensures
        cond_branch_at(b.body.insts@, b.module, h, k),
{
    assert(b.body.insts@.subrange(0, a.body.insts@.len() as int)[k] == b.body.insts@[k]);
    if let (_, Inst::CondBr { cond, .. }) = a.body.insts@[k] {
        lemma_has_type_frame(a, b, cond, TypeView::Int(1));
    }
}

/// An `if` that starts in context `a`: its first block branches to a new
/// `check` block, which branches on a `bool` condition to the true block or
/// the false block, and a branch of the true arm goes to the block the cursor
/// is left at (the false block without an `else`, a new block with one).
pub open spec fn if_shape(a: CodegenContext, insts: Seq<(usize, Inst)>, m: Module, cursor: usize, has_else: bool, check: Expression) -> bool {
    let n = a.body.insts@.len() as int;
    let h = a.body.blocks@.len() as int;
    &&& n < insts.len()
    &&& insts[n] == (a.cursor, Inst::Br { target: h as usize })
    &&& exists|k: int| #[trigger] cond_branch_at(insts, m, h, k) && (insts[k].1 matches Inst::CondBr { cond, .. }
        && from_expr(a, insts, check, cond, TypeView::Int(1)))
    &&& if has_else {
        cursor >= h + 3
    } else {
        cursor == h + 2
    }
    &&& exists|k2: int| n < k2 < insts.len() && (#[trigger] insts[k2]).1 == (Inst::Br { target: cursor })
}

proof fn lemma_if_shape(
    a: CodegenContext,
    c6: CodegenContext,
    insts: Seq<(usize, Inst)>,
    m: Module,
    cursor: usize,
    has_else: bool,
    k2: int,
    check: Expression,
)
    requires
        c6.body.insts@.last().1 matches Inst::CondBr { cond, .. } && from_expr(a, c6.body.insts@, check, cond, TypeView::Int(1)),
        c6.body.insts@[a.body.insts@.len() as int] == (a.cursor, Inst::Br { target: a.body.blocks@.len() as usize }),
        a.body.insts@.len() < c6.body.insts@.len(),
        cond_branch_at(c6.body.insts@, c6.module, a.body.blocks@.len() as int, c6.body.insts@.len() - 1),
        c6.module == m,
        c6.body.insts@.len() <= insts.len(),
        insts.subrange(0, c6.body.insts@.len() as int) == c6.body.insts@,
        a.body.insts@.len() < k2 < insts.len(),
        insts[k2].1 == (Inst::Br { target: cursor }),
        if has_else {
            cursor >= a.body.blocks@.len() + 3
        } else {
            cursor == a.body.blocks@.len() + 2
        },
    ensures
        if_shape(a, insts, m, cursor, has_else, check),
{
    let n = a.body.insts@.len() as int;
    let k = c6.body.insts@.len() - 1;
    assert(insts.subrange(0, c6.body.insts@.len() as int)[n] == insts[n]);
    assert(insts.subrange(0, c6.body.insts@.len() as int)[k] == insts[k]);
    if let (_, Inst::CondBr { cond, .. }) = c6.body.insts@[k] {
        lemma_has_type_prefix(c6.body.insts@, insts, m, cond, TypeView::Int(1));
    }
    assert(cond_branch_at(insts, m, a.body.blocks@.len() as int, k));
    if let (_, Inst::CondBr { cond, .. }) = c6.body.insts@[k] {
        lemma_from_expr_prefix(a, c6.body.insts@, insts, check, cond, TypeView::Int(1));
    }
}

proof fn lemma_loop_shape(x: Seq<(usize, Inst)>, y: Seq<(usize, Inst)>, m: Module, h: int, k: int, cursor: usize)
    requires
        cond_branch_at(x, m, h, k),
        x.len() < y.len(),
        y.subrange(0, x.len() as int) == x,
        y.last().1 == (Inst::Br { target: h as usize }),
        cursor == h + 2,
    ensures
        loop_shape(y, m, h, cursor),
{
    assert(y.subrange(0, x.len() as int)[k] == y[k]);
    if let (_, Inst::CondBr { cond, .. }) = x[k] {
        lemma_has_type_prefix(x, y, m, cond, TypeView::Int(1));
    }
    assert(cond_branch_at(y, m, h, k));
    assert(y[y.len() - 1] == y.last());
}

/// Branches to a new `check` block that evaluates the condition and branches
/// to a new block for the true case (where the cursor is left) or to a new
/// block for the false case. Gives the `check` block and the false one.
fn branch_head(cxt: &mut CodegenContext, check: &Expression, then_label: &str, else_label: &str) -> (r: Result<(usize, usize), CompileError>)
    requires
        old(cxt).inv(),
    ensures
        r matches Ok((check_block, cont_block)) ==> {
            &&& final(cxt).inv()
            &&& ir_frame(*old(cxt), *final(cxt))
            &&& old(cxt).body.blocks@.len() <= check_block < final(cxt).body.blocks@.len()
            &&& old(cxt).body.blocks@.len() <= cont_block < final(cxt).body.blocks@.len()
            &&& cont_block != final(cxt).cursor
            &&& is_empty_block(final(cxt).body.insts@, cont_block)
            &&& final(cxt).vislayers == old(cxt).vislayers
            &&& check_block == old(cxt).body.blocks@.len()
            &&& final(cxt).cursor == check_block + 1
            &&& cont_block == check_block + 2
            &&& old(cxt).body.insts@.len() < final(cxt).body.insts@.len()
            &&& final(cxt).body.insts@[old(cxt).body.insts@.len() as int] == (old(cxt).cursor, Inst::Br { target: check_block })
            &&& cond_branch_at(final(cxt).body.insts@, final(cxt).module, check_block as int, final(cxt).body.insts@.len() - 1)
            &&& final(cxt).body.insts@.last().1 matches Inst::CondBr { cond, .. }
                && from_expr(*old(cxt), final(cxt).body.insts@, *check, cond, TypeView::Int(1))
        },
        spec_expr(type_layers(old(cxt).layers()), old(cxt).definitions, *check) matches Err(k) ==> r matches Err(e) && e.kind == k,
        r is Ok <==> cond_ok(type_layers(old(cxt).layers()), old(cxt).definitions, *check),
{
    let ghost c0 = *cxt;
    let check_block = cxt.append_block("check");
    let ghost a1 = *cxt;
    let loop_block = cxt.append_block(then_label);
    let ghost a2 = *cxt;
    let cont_block = cxt.append_block(else_label);
    let ghost c1 = *cxt;
    proof {
        lemma_ir_frame_trans(c0, a1, a2);
        lemma_ir_frame_trans(c0, a2, c1);
    }
    cxt.terminate(Inst::Br { target: check_block });
    let ghost c2 = *cxt;
    cxt.cursor = check_block;
    proof {
        lemma_ir_frame_trans(c0, c1, c2);
        lemma_reposition(c0, c2, *cxt);
    }
    let ghost c3 = *cxt;
    let cond = match check.codegen(cxt) {
        Ok(v) => v,
        Err(e) => {
            return Err(e);
        },
    };
    let ghost c4 = *cxt;
    let b = match bool_from_value(cxt, &cond) {
        Ok(b) => b,
        Err(e) => {
            return Err(e);
        },
    };
    let ghost c5 = *cxt;
    proof {
        lemma_expr_frame_trans(c3, c4, c5);
        lemma_ir_frame_of_expr(c3, c5);
        lemma_ir_frame_trans(c0, c3, c5);
        lemma_untouched_block(c3, c5, loop_block);
        lemma_untouched_block(c3, c5, cont_block);
    }
    let ghost bv = b.value;
    cxt.terminate(Inst::CondBr { cond: b.value, then_block: loop_block, else_block: cont_block });
    let ghost c6 = *cxt;
    proof {
        lemma_ir_frame_trans(c0, c5, c6);
        lemma_has_type_prefix(c5.body.insts@, c6.body.insts@, c5.module, bv, TypeView::Int(1));
        lemma_coerced_prefix(c5.body.insts@, c6.body.insts@, cond.value, bv, (*cond.ty)@, TypeView::Int(1));
        let n0 = c4.body.insts@.len() as int;
        assert(cond.value == value_at(*check, n0));
        reveal(from_expr);
            assert(coerced(c6.body.insts@, value_at(*check, n0), bv, (*cond.ty)@, TypeView::Int(1)));
        assert(from_expr(c0, c6.body.insts@, *check, bv, TypeView::Int(1)));
        assert(c6.body.insts@.subrange(0, c0.body.insts@.len() as int + 1) == c2.body.insts@) by {
            assert(c6.body.insts@.subrange(0, c2.body.insts@.len() as int) == c2.body.insts@);
        }
        assert(c2.body.insts@[c0.body.insts@.len() as int] == (c0.cursor, Inst::Br { target: check_block }));
        assert(c6.body.insts@.subrange(0, c2.body.insts@.len() as int)[c0.body.insts@.len() as int] == c6.body.insts@[c0.body.insts@.len() as int]);
        assert(!is_closed(c6.body.insts@, loop_block)) by {
            if is_closed(c6.body.insts@, loop_block) {
                let i = choose|i: int| 0 <= i < c6.body.insts@.len() && #[trigger] c6.body.insts@[i].0 == loop_block && c6.body.insts@[i].1.is_terminator();
                if i < c5.body.insts@.len() {
                    assert(c5.body.insts@[i] == c6.body.insts@[i]);
                }
            }
        }
        assert(is_empty_block(c6.body.insts@, cont_block)) by {
            assert forall|i: int| 0 <= i < c6.body.insts@.len() implies #[trigger] c6.body.insts@[i].0 != cont_block by {
                if i < c5.body.insts@.len() {
                    assert(c5.body.insts@[i] == c6.body.insts@[i]);
                }
            }
        }
    }
    cxt.cursor = loop_block;
    proof {
        lemma_reposition(c0, c6, *cxt);
    }
    Ok((check_block, cont_block))
}

/// The second half of a loop: branches back to `check` and moves the cursor
/// to `cont`.
fn loop_tail(cxt: &mut CodegenContext, check_block: usize, cont_block: usize, Ghost(outer): Ghost<CodegenContext>)
    requires
        old(cxt).inv(),
        ir_frame(outer, *old(cxt)),
        outer.body.blocks@.len() <= cont_block,
        check_block < old(cxt).body.blocks@.len(),
        cont_block < old(cxt).body.blocks@.len(),
        cont_block != old(cxt).cursor,
        is_empty_block(old(cxt).body.insts@, cont_block),
    ensures
        final(cxt).inv(),
        ir_frame(outer, *final(cxt)),
        final(cxt).body.insts@ == old(cxt).body.insts@.push((old(cxt).cursor, Inst::Br { target: check_block })),
        final(cxt).body.blocks == old(cxt).body.blocks,
        final(cxt).body.slots == old(cxt).body.slots,
        is_closed(final(cxt).body.insts@, old(cxt).cursor),
        !is_closed(final(cxt).body.insts@, cont_block),
        final(cxt).cursor == cont_block,
        final(cxt).vislayers == old(cxt).vislayers,
        final(cxt).definitions == old(cxt).definitions,
        final(cxt).module == old(cxt).module,
        final(cxt).type_cache == old(cxt).type_cache,
{
    let ghost c0 = *cxt;
    cxt.terminate(Inst::Br { target: check_block });
    let ghost c1 = *cxt;
    proof {
        lemma_ir_frame_trans(outer, c0, c1);
        assert(!is_closed(cxt.body.insts@, cont_block)) by {
            if is_closed(cxt.body.insts@, cont_block) {
                let i = choose|i: int| 0 <= i < cxt.body.insts@.len() && #[trigger] cxt.body.insts@[i].0 == cont_block && cxt.body.insts@[i].1.is_terminator();
                if i < old(cxt).body.insts@.len() {
                    assert(old(cxt).body.insts@[i] == cxt.body.insts@[i]);
                }
            }
        }
    }
    cxt.cursor = cont_block;
    proof {
        lemma_reposition(outer, c1, *cxt);
    }
}

impl While {
    /// Lowers a loop that tests its condition before each round, in a scope of its own.
    #[verifier::rlimit(100)]
    #[verifier::spinoff_prover]
    pub fn codegen(&self, cxt: &mut CodegenContext) -> (r: Result<(), CompileError>)
        requires
            in_body(*old(cxt)),
        ensures
            stmt_lowered(*old(cxt), *final(cxt), Statement::While(*self), r),
            r is Ok ==> final(cxt).layers() == old(cxt).layers(),
            r is Ok ==> final(cxt).body.insts@[old(cxt).body.insts@.len() as int] == (old(cxt).cursor, Inst::Br {
                target: old(cxt).body.blocks@.len() as usize,
            }) && loop_shape(final(cxt).body.insts@, final(cxt).module, old(cxt).body.blocks@.len() as int, final(cxt).cursor),
        decreases self, 0int,
    {
        let ghost c0 = *cxt;
        cxt.vislayers.enter_layer();
        proof {
            lemma_type_layers_push_empty(c0.layers());
        }
        let (check_block, cont_block) = match branch_head(cxt, &self.cond, "loop", "cont") {
            Ok(p) => p,
            Err(e) => {
                cxt.vislayers.exit_layer();
                return Err(e);
            },
        };
        let ghost c1 = *cxt;
        match codegen_body(&self.body, cxt) {
            Ok(()) => {},
            Err(e) => {
                cxt.vislayers.exit_layer();
                return Err(e);
            },
        }
        let ghost c2 = *cxt;
        proof {
            lemma_untouched_block(c1, c2, cont_block);
            lemma_ir_frame_trans(c0, c1, c2);
            lemma_cond_branch_stays(c1, c2, check_block as int, c1.body.insts@.len() - 1);
        }
        loop_tail(cxt, check_block, cont_block, Ghost(c0));
        proof {
            assert(cxt.body.insts@.subrange(0, c2.body.insts@.len() as int) =~= c2.body.insts@);
            lemma_loop_shape(c2.body.insts@, cxt.body.insts@, cxt.module, check_block as int, c1.body.insts@.len() - 1, cxt.cursor);
            let i0 = c0.body.insts@.len() as int;
            assert(c2.body.insts@.subrange(0, c1.body.insts@.len() as int)[i0] == c2.body.insts@[i0]);
            assert(cxt.body.insts@[i0] == c2.body.insts@[i0]);
        }
        cxt.vislayers.exit_layer();
        proof {
            assert(cxt.layers() =~= c0.layers());
        }
        Ok(())
    }
}

impl For {
    /// Lowers a loop with an initial statement and a step, in a scope of its own.
    #[verifier::rlimit(40)]
    pub fn codegen(&self, cxt: &mut CodegenContext) -> (r: Result<(), CompileError>)
        requires
            in_body(*old(cxt)),
        ensures
            stmt_lowered(*old(cxt), *final(cxt), Statement::For(*self), r),
            r is Ok ==> final(cxt).layers() == old(cxt).layers(),
            r is Ok ==> exists|h: int, k: int|
                #![trigger loop_shape(final(cxt).body.insts@, final(cxt).module, h, final(cxt).cursor), final(cxt).body.insts@[k]]
                old(cxt).body.blocks@.len() <= h && loop_shape(
                final(cxt).body.insts@,
                final(cxt).module,
                h,
                final(cxt).cursor,
            ) && old(cxt).body.insts@.len() <= k < final(cxt).body.insts@.len()
                && (final(cxt).body.insts@[k] matches (b, Inst::Br { target }) && target == h && b < h),
        decreases self, 0int,
    {
        let ghost c0 = *cxt;
        cxt.vislayers.enter_layer();
        let ghost c0b = *cxt;
        proof {
            lemma_type_layers_push_empty(c0.layers());
        }
        match self.start.codegen(cxt) {
            Ok(()) => {},
            Err(e) => {
                cxt.vislayers.exit_layer();
                return Err(e);
            },
        }
        let ghost c0c = *cxt;
        proof {
            assert(ir_frame(c0, c0b)) by {
                lemma_ir_frame_refl(c0);
            }
            lemma_ir_frame_trans(c0, c0b, c0c);
        }
        let (check_block, cont_block) = match branch_head(cxt, &self.check, "loop", "cont") {
            Ok(p) => p,
            Err(e) => {
                cxt.vislayers.exit_layer();
                return Err(e);
            },
        };
        let ghost c1 = *cxt;
        proof {
            lemma_ir_frame_trans(c0, c0c, c1);
        }
        match codegen_body(&self.body, cxt) {
            Ok(()) => {},
            Err(e) => {
                cxt.vislayers.exit_layer();
                return Err(e);
            },
        }
        let ghost c2 = *cxt;
        match self.step.codegen(cxt) {
            Ok(()) => {},
            Err(e) => {
                cxt.vislayers.exit_layer();
                return Err(e);
            },
        }
        let ghost c2b = *cxt;
        proof {
            lemma_untouched_block(c1, c2, cont_block);
            lemma_ir_frame_trans(c1, c2, c2b);
            lemma_untouched_block(c1, c2b, cont_block);
            lemma_ir_frame_trans(c0, c1, c2b);
            lemma_cond_branch_stays(c1, c2b, check_block as int, c1.body.insts@.len() - 1);
        }
        loop_tail(cxt, check_block, cont_block, Ghost(c0));
        proof {
            assert(cxt.body.insts@.subrange(0, c2b.body.insts@.len() as int) =~= c2b.body.insts@);
            lemma_loop_shape(c2b.body.insts@, cxt.body.insts@, cxt.module, check_block as int, c1.body.insts@.len() - 1, cxt.cursor);
        }
        let ghost h = check_block as int;
        cxt.vislayers.exit_layer();
        proof {
            assert(cxt.layers() =~= c0.layers());
            assert(c0.body.blocks@.len() <= h);
            assert(loop_shape(cxt.body.insts@, cxt.module, h, cxt.cursor));
            let k = c0c.body.insts@.len() as int;
            assert(c2b.body.insts@.subrange(0, c1.body.insts@.len() as int)[k] == c2b.body.insts@[k]);
            assert(cxt.body.insts@.subrange(0, c2b.body.insts@.len() as int)[k] == cxt.body.insts@[k]);
            assert(cxt.body.insts@[k] == (c0c.cursor, Inst::Br { target: check_block }));
            assert(c0c.cursor < h);
            assert(c0.body.insts@.len() <= k);
        }
        Ok(())
    }
}

} // verus!

verus! {

/// A finished function body: it has an entry block, the entry block ends with
/// a terminator, no block holds an instruction after its terminator, and every
/// call names a function of the module.
pub open spec fn body_ok(b: FunctionBody, module: Module) -> bool {
    &&& b.blocks@.len() > 0
    &&& terminators_last(b.insts@)
    &&& forall|k: usize| k < b.blocks@.len() ==> #[trigger] is_closed(b.insts@, k)
    &&& forall|i: int| 0 <= i < b.insts@.len() ==> #[trigger] b.insts@[i].0 < b.blocks@.len()
    &&& calls_declared(b.insts@, module)
}

/// Every function body of the module is finished and well formed.
pub open spec fn module_ok(m: Module) -> bool {
    forall|j: int| 0 <= j < m.functions@.len() ==> ((#[trigger] m.functions@[j]).body matches Some(b) ==> body_ok(b, m))
}

/// Between function bodies: no function is being lowered, no scope is open,
/// and the module is consistent with the definition table.
pub open spec fn top_level(c: CodegenContext) -> bool {
    &&& c.vislayers.function() is None
    &&& c.layers().len() == 0
    &&& decls_match(c.definitions@, c.module)
    &&& module_ok(c.module)
}

pub proof fn lemma_calls_declared_same_names(insts: Seq<(usize, Inst)>, m1: Module, m2: Module)
    requires
        calls_declared(insts, m1),
        m1.functions@.len() == m2.functions@.len(),
        forall|j: int| 0 <= j < m1.functions@.len() ==> #[trigger] m1.functions@[j].name == m2.functions@[j].name,
    ensures
        calls_declared(insts, m2),
{
    assert forall|i: int| 0 <= i < insts.len() implies (#[trigger] insts[i].1 matches Inst::Call { callee, .. } ==> exists|j: int|
            0 <= j < m2.functions@.len() && #[trigger] m2.functions@[j].name@ == callee@) by {
        if let Inst::Call { callee, .. } = insts[i].1 {
            let j = choose|j: int| 0 <= j < m1.functions@.len() && #[trigger] m1.functions@[j].name@ == callee@;
            assert(m2.functions@[j].name == m1.functions@[j].name);
        }
    }
}

/// `j` is the first function of the module named `name`.
pub open spec fn first_decl(m: Module, name: Seq<char>, j: int) -> bool {
    &&& 0 <= j < m.functions@.len()
    &&& m.functions@[j].name@ == name
    &&& forall|k: int| 0 <= k < j ==> #[trigger] m.functions@[k].name@ != name
}

/// The typed scope of a function's parameters, or `None` when the type of one
/// is unknown.
pub open spec fn param_layer(defs: ProgramDefinitions, args: Seq<TypedArg>) -> Option<Seq<(Seq<char>, Type)>>
    decreases args.len(),
{
    if args.len() == 0 {
        Some(Seq::empty())
    } else {
        match (param_layer(defs, args.drop_last()), defs.type_value(args.last().tp@)) {
            (Some(l), Some(t)) => Some(l.push((args.last().name@, t))),
            _ => None,
        }
    }
}

proof fn lemma_param_layer_fails(defs: ProgramDefinitions, args: Seq<TypedArg>, i: int)
    requires
        0 < i <= args.len(),
        param_layer(defs, args.subrange(0, i)) is None,
    ensures
        param_layer(defs, args) is None,
    decreases args.len() - i,
{
    if i < args.len() {
        assert(args.subrange(0, i + 1).drop_last() =~= args.subrange(0, i));
        lemma_param_layer_fails(defs, args, i + 1);
    } else {
        assert(args.subrange(0, i) =~= args);
    }
}

/// A function implementation can be lowered into a module with the given
/// declarations: its return and parameter types are known, the module
/// declares it, and its body lowers in the scope of its parameters.
pub open spec fn impl_ok(defs: ProgramDefinitions, m: Module, f: FuncImpl) -> bool {
    &&& defs.type_value(f.rettype@) is Some
    &&& exists|j: int| first_decl(m, f.name@, j)
    &&& param_layer(defs, f.args@) is Some
    &&& spec_body(
        seq![param_layer(defs, f.args@)->Some_0],
        defs,
        defs.type_value(f.rettype@)->Some_0@,
        f.body@,
        f.body@.len() as int,
    ) is Some
}

/// The entry block of a body starts by storing each parameter in its own
/// stack slot, typed as the parameter's declared type.
pub open spec fn stores_params(b: FunctionBody, defs: ProgramDefinitions, args: Seq<TypedArg>) -> bool {
    &&& b.slots@.len() >= args.len()
    &&& b.insts@.len() >= args.len()
    &&& forall|i: int| 0 <= i < args.len() ==> (#[trigger] b.insts@[i]) == (0usize, Inst::Store {
        value: Operand::Param(i as usize),
        ptr: Operand::Slot(i as usize),
    }) && lowers_to(defs.type_value(args[i].tp@)->Some_0@, b.slots@[i])
}

/// The last terminator emitted for the statements is `term`; only
/// `unreachable` for blocks that no statement reached follows it.
pub open spec fn ends_with(b: FunctionBody, term: Inst) -> bool {
    exists|k: int| 0 <= k < b.insts@.len() && (#[trigger] b.insts@[k]).1 == term
        && forall|j: int| k < j < b.insts@.len() ==> (#[trigger] b.insts@[j]).1 == Inst::Unreachable
}

/// A function implementation lowers: as `impl_ok` says, and the module has
/// no body for the function yet.
pub open spec fn spec_func_impl(c: CodegenContext, f: FuncImpl) -> bool {
    &&& impl_ok(c.definitions, c.module, f)
    &&& forall|j: int| first_decl(c.module, f.name@, j) ==> c.module.functions@[j].body is None
}

/// The names of the functions implemented by the first `n` top-level blocks,
/// or `None` when lowering one of them fails.
pub open spec fn spec_program(defs: ProgramDefinitions, m: Module, blocks: Seq<Statement>, n: int) -> Option<Set<Seq<char>>>
    decreases n,
{
    if n <= 0 || n > blocks.len() {
        Some(Set::empty())
    } else {
        match spec_program(defs, m, blocks, n - 1) {
            None => None,
            Some(done) => match blocks[n - 1] {
                Statement::FuncImpl(f) => if !done.contains(f.name@) && impl_ok(defs, m, f) {
                    Some(done.insert(f.name@))
                } else {
                    None
                },
                Statement::StructDef(s) => if defs.type_value(s.name@) matches Some(t) && t is Custom {
                    Some(done)
                } else {
                    None
                },
                Statement::FuncDef(_) => Some(done),
                _ => None,
            },
        }
    }
}

/// The number of struct definitions among the first `n` top-level blocks.
pub open spec fn count_structs(blocks: Seq<Statement>, n: int) -> nat
    decreases n,
{
    if n <= 0 || n > blocks.len() {
        0
    } else {
        count_structs(blocks, n - 1) + if blocks[n - 1] is StructDef {
            1nat
        } else {
            0nat
        }
    }
}

proof fn lemma_program_fails(defs: ProgramDefinitions, m: Module, blocks: Seq<Statement>, n: int)
    requires
        0 < n <= blocks.len(),
        spec_program(defs, m, blocks, n) is None,
    ensures
        spec_program(defs, m, blocks, blocks.len() as int) is None,
    decreases blocks.len() - n,
{
    if n < blocks.len() {
        lemma_program_fails(defs, m, blocks, n + 1);
    }
}

/// Two modules with the same function names declare the same first functions.
proof fn lemma_first_decl_same_names(m1: Module, m2: Module, name: Seq<char>, j: int)
    requires
        m1.functions@.len() == m2.functions@.len(),
        forall|k: int| 0 <= k < m1.functions@.len() ==> #[trigger] m1.functions@[k].name == m2.functions@[k].name,
    ensures
        first_decl(m1, name, j) == first_decl(m2, name, j),
{
    if 0 <= j < m1.functions@.len() {
        assert(m1.functions@[j].name == m2.functions@[j].name);
        if first_decl(m1, name, j) {
            assert forall|k: int| 0 <= k < j implies #[trigger] m2.functions@[k].name@ != name by {
                assert(m1.functions@[k].name == m2.functions@[k].name);
            }
        }
        if first_decl(m2, name, j) {
            assert forall|k: int| 0 <= k < j implies #[trigger] m1.functions@[k].name@ != name by {
                assert(m1.functions@[k].name == m2.functions@[k].name);
            }
        }
    }
}

fn fresh_body() -> (r: FunctionBody)
    ensures
        r.blocks@.len() == 1,
        r.slots@.len() == 0,
        r.insts@.len() == 0,
{
    let mut blocks: Vec<String> = Vec::new();
    blocks.push(String::from_str("entry"));
    FunctionBody { blocks, slots: Vec::new(), insts: Vec::new() }
}

impl CodegenContext {
    /// Whether block `b` holds no instruction.
    fn block_is_empty(&self, b: usize) -> (r: bool)
        ensures
            r == is_empty_block(self.body.insts@, b),
    {
        let mut i: usize = 0;
        while i < self.body.insts.len()
            invariant
                i <= self.body.insts@.len(),
                forall|k: int| 0 <= k < i ==> #[trigger] self.body.insts@[k].0 != b,
            decreases self.body.insts@.len() - i,
        {
            if self.body.insts[i].0 == b {
                return false;
            }
            i = i + 1;
        }
        true
    }

    /// Ends an empty block with `unreachable`.
    fn close_empty(&mut self, b: usize)
        requires
            old(self).wf(),
            b < old(self).body.blocks@.len(),
            is_empty_block(old(self).body.insts@, b),
        ensures
            final(self).wf(),
            final(self).body.insts@ == old(self).body.insts@.push((b, Inst::Unreachable)),
            final(self).body.blocks == old(self).body.blocks,
            final(self).body.slots == old(self).body.slots,
            final(self).module == old(self).module,
            final(self).definitions == old(self).definitions,
            final(self).vislayers == old(self).vislayers,
            final(self).type_cache == old(self).type_cache,
            final(self).cursor == old(self).cursor,
    {
        let n = self.body.insts.len();
        let ghost before = *self;
        self.body.insts.push((b, Inst::Unreachable));
        proof {
            lemma_calls_declared_push(before.body.insts@, self.module, self.body.insts@.last());
            assert forall|i: int, j: int| 0 <= i < j < self.body.insts@.len() && #[trigger] self.body.insts@[i].0 == #[trigger] self.body.insts@[j].0 implies !self.body.insts@[i].1.is_terminator() by {
                assert(before.body.insts@.len() == n);
                if j < n {
                    assert(before.body.insts@[i] == self.body.insts@[i]);
                    assert(before.body.insts@[j] == self.body.insts@[j]);
                } else {
                    assert(before.body.insts@[i] == self.body.insts@[i]);
                }
            }
            assert forall|i: int| 0 <= i < self.body.insts@.len() implies #[trigger] self.body.insts@[i].0 < self.body.blocks@.len() by {
                if i < n {
                    assert(before.body.insts@[i] == self.body.insts@[i]);
                }
            }
        }
    }

    /// Index of the module's function named `name`.
    fn function_index(&self, name: &String) -> (r: Option<usize>)
        ensures
            r matches Some(f) ==> first_decl(self.module, name@, f as int),
            r is None ==> forall|j: int| 0 <= j < self.module.functions@.len() ==> #[trigger] self.module.functions@[j].name@ != name@,
    {
        let mut i: usize = 0;
        while i < self.module.functions.len()
            invariant
                i <= self.module.functions@.len(),
                forall|k: int| 0 <= k < i ==> #[trigger] self.module.functions@[k].name@ != name@,
            decreases self.module.functions@.len() - i,
        {
            if self.module.functions[i].name == *name {
                return Some(i);
            }
            i = i + 1;
        }
        None
    }
}

impl FuncImpl {
    /// Lowers a function body into the declaration the module holds for it:
    /// an entry block that stores each parameter in a slot, the statements,
    /// then `ret void` for a void function and `unreachable` for another.
    pub fn codegen(&self, cxt: &mut CodegenContext) -> (r: Result<(), CompileError>)
        requires
            top_level(*old(cxt)),
        ensures
            r is Ok <==> spec_func_impl(*old(cxt), *self),
            r is Ok ==> top_level(*final(cxt)),
            r is Ok ==> final(cxt).definitions == old(cxt).definitions,
            r is Ok ==> final(cxt).module.structs == old(cxt).module.structs,
            r is Ok ==> final(cxt).module.functions@.len() == old(cxt).module.functions@.len(),
            r is Ok ==> forall|j: int| 0 <= j < old(cxt).module.functions@.len() ==> #[trigger] final(cxt).module.functions@[j].name == old(cxt).module.functions@[j].name,
            r is Ok ==> forall|j: int| 0 <= j < old(cxt).module.functions@.len() ==> ((#[trigger] final(cxt).module.functions@[j]).body is Some
                <==> (old(cxt).module.functions@[j].body is Some || first_decl(old(cxt).module, self.name@, j))),
            r is Ok ==> forall|j: int| first_decl(old(cxt).module, self.name@, j) ==> ((#[trigger] final(cxt).module.functions@[j]).body matches Some(b)
                && stores_params(b, old(cxt).definitions, self.args@)
                && ends_with(b, if old(cxt).definitions.type_value(self.rettype@)->Some_0@ == TypeView::Void {
                    Inst::RetVoid
                } else {
                    Inst::Unreachable
                })),
            (old(cxt).definitions.type_value(self.rettype@) is Some && exists|j: int|
                first_decl(old(cxt).module, self.name@, j) && old(cxt).module.functions@[j].body is Some)
                ==> (r matches Err(e) && e.kind == ErrorKind::DoubleImpl && *final(cxt) == *old(cxt)),
            r is Err ==> final(cxt).vislayers.function() is None && final(cxt).layers().len() == 0,
    {
        let rettype = match cxt.definitions.get_type(&self.rettype) {
            Some(t) => t,
            None => {
                return Err(
                    CompileError::new(
                        ErrorKind::UnknownType,
                        message(&["Unknown rettype ", self.rettype.as_str(), " in function ", self.name.as_str()]),
                    ),
                );
            },
        };
        let f = match cxt.function_index(&self.name) {
            Some(f) => f,
            None => {
                return Err(
                    CompileError::new(
                        ErrorKind::UnknownFunction,
                        message(&["Function ", self.name.as_str(), " was not declared"]),
                    ),
                );
            },
        };
        proof {
            assert forall|j: int| first_decl(old(cxt).module, self.name@, j) implies j == f by {
                if j < f {
                    assert(cxt.module.functions@[j].name@ != self.name@);
                }
                if f < j {
                    assert(cxt.module.functions@[f as int].name@ != self.name@);
                }
            }
        }
        if cxt.module.functions[f].body.is_some() {
            return Err(
                CompileError::new(
                    ErrorKind::DoubleImpl,
                    message(&["Redefenition of func ", self.name.as_str()]),
                ),
            );
        }
        let ghost m0 = cxt.module;
        let ghost l0 = cxt.layers();
        let mut body = fresh_body();
        std::mem::swap(&mut cxt.body, &mut body);
        cxt.cursor = 0;
        let is_void = rettype.same(&Type::Void());
        cxt.vislayers.enter_function(f, rettype);
        cxt.vislayers.enter_layer();
        proof {
            lemma_ir_frame_refl(*cxt);
        }
        let ghost start = *cxt;
        let ghost first = f;
        proof {
            lemma_type_layers_push_empty(l0);
            assert(l0 =~= Seq::<Seq<(Seq<char>, TypedValue)>>::empty());
            assert(type_layers(cxt.layers()) =~= seq![Seq::<(Seq<char>, Type)>::empty()]);
            assert(self.args@.subrange(0, 0) =~= Seq::<TypedArg>::empty());
        }
        let mut i: usize = 0;
        while i < self.args.len()
            invariant
                in_body(*cxt),
                cxt.cursor == 0,
                ir_frame(start, *cxt),
                cxt.layers().len() == 1,
                cxt.module == m0,
                cxt.definitions == start.definitions,
                start.definitions == old(cxt).definitions,
                start.vislayers.function() == cxt.vislayers.function(),
                i <= self.args@.len(),
                param_layer(cxt.definitions, self.args@.subrange(0, i as int)) == Some(type_layers(cxt.layers())[0]),
                cxt.body.insts@.len() == i,
                cxt.body.slots@.len() == i,
                f < old(cxt).module.functions@.len(),
                old(cxt).module.functions@[f as int].body is None,
                forall|j: int| first_decl(old(cxt).module, self.name@, j) ==> j == f,
                forall|q: int| 0 <= q < i ==> (#[trigger] cxt.body.insts@[q]) == (0usize, Inst::Store {
                    value: Operand::Param(q as usize),
                    ptr: Operand::Slot(q as usize),
                }),
                forall|q: int| 0 <= q < i ==> lowers_to(cxt.definitions.type_value(self.args@[q].tp@)->Some_0@, #[trigger] cxt.body.slots@[q]),
            decreases self.args@.len() - i,
        {
            proof {
                assert(self.args@.subrange(0, i + 1).drop_last() =~= self.args@.subrange(0, i as int));
            }
            let argtype = match cxt.definitions.get_type(&self.args[i].tp) {
                Some(t) => t,
                None => {
                    proof {
                        lemma_param_layer_fails(cxt.definitions, self.args@, i + 1);
                    }
                    cxt.vislayers = VisibilityContext::new();
                    std::mem::swap(&mut cxt.body, &mut body);
                    return Err(
                        CompileError::new(
                            ErrorKind::UnknownType,
                            message(&["Unknown type ", self.args[i].tp.as_str(), " in func ", self.name.as_str()]),
                        ),
                    );
                },
            };
            let ghost c1 = *cxt;
            let ty_ir = ir_type(&argtype);
            let ghost tyg = ty_ir;
            let slot = cxt.alloca(ty_ir);
            let ghost c2 = *cxt;
            let _ = cxt.emit(Inst::Store { value: Operand::Param(i), ptr: slot });
            let ghost c3 = *cxt;
            let ghost argv = argtype;
            cxt.vislayers.add_variable(self.args[i].name.clone(), TypedValue { value: slot, ty: argtype });
            proof {
                assert(cxt.body.insts@[i as int] == c2.body.insts@.push((0usize, Inst::Store { value: Operand::Param(i), ptr: slot }))[i as int]);
                assert(slot == Operand::Slot(i));
                assert(cxt.body.slots@[i as int] == c2.body.slots@[i as int]);
                assert(c2.body.slots@[i as int] == tyg);
                assert(lowers_to((*argv)@, tyg));
                assert(cxt.definitions.type_value(self.args@[i as int].tp@) == Some(*argv));
                assert(cxt.body.insts@[i as int] == (0usize, Inst::Store { value: Operand::Param(i), ptr: Operand::Slot(i) }));
                assert forall|q: int| 0 <= q < i + 1 implies (#[trigger] cxt.body.insts@[q]) == (0usize, Inst::Store {
                    value: Operand::Param(q as usize),
                    ptr: Operand::Slot(q as usize),
                }) by {
                    if q < i {
                        assert(cxt.body.insts@[q] == c1.body.insts@[q]);
                    }
                }
                assert forall|q: int| 0 <= q < i + 1 implies lowers_to(cxt.definitions.type_value(self.args@[q].tp@)->Some_0@, #[trigger] cxt.body.slots@[q]) by {
                    if q < i {
                        assert(cxt.body.slots@[q] == c1.body.slots@[q]);
                    }
                }
                let tl = type_layers(c3.layers());
                assert(type_layers(cxt.layers())[0] =~= tl[0].push((self.args@[i as int].name@, *argv)));
                lemma_expr_frame_trans(c1, c2, c3);
                lemma_ir_frame_of_expr(c1, c3);
                lemma_ir_frame_trans(start, c1, c3);
            }
            i = i + 1;
        }
        let ghost c4 = *cxt;
        proof {
            assert(self.args@.subrange(0, i as int) =~= self.args@);
            assert(type_layers(c4.layers()) =~= seq![type_layers(c4.layers())[0]]);
        }
        match codegen_body(&self.body, cxt) {
            Ok(()) => {},
            Err(e) => {
                cxt.vislayers = VisibilityContext::new();
                std::mem::swap(&mut cxt.body, &mut body);
                return Err(e);
            },
        }
        let ghost c5 = *cxt;
        proof {
            lemma_ir_frame_trans(start, c4, c5);
            assert forall|q: int| 0 <= q < self.args@.len() implies (#[trigger] c5.body.insts@[q]) == c4.body.insts@[q] && c5.body.slots@[q] == c4.body.slots@[q] by {
                assert(c5.body.insts@.subrange(0, c4.body.insts@.len() as int)[q] == c5.body.insts@[q]);
                assert(c5.body.slots@.subrange(0, c4.body.slots@.len() as int)[q] == c5.body.slots@[q]);
            }
        }
        if is_void {
            cxt.terminate(Inst::RetVoid);
        } else {
            cxt.terminate(Inst::Unreachable);
        }
        let ghost c6 = *cxt;
        proof {
            if c5.cursor != 0 {
                lemma_closed_stays(c5.body.insts@, cxt.body.insts@, 0);
            }
            assert forall|x: usize| x < c6.body.blocks@.len() implies #[trigger] is_closed(c6.body.insts@, x)
                || is_empty_block(c6.body.insts@, x) by {
                if x != 0 && x != c5.cursor {
                    if is_closed(c5.body.insts@, x) {
                        lemma_closed_stays(c5.body.insts@, c6.body.insts@, x);
                    } else {
                        assert(is_empty_block(c5.body.insts@, x));
                        assert forall|i: int| 0 <= i < c6.body.insts@.len() implies #[trigger] c6.body.insts@[i].0 != x by {
                            if i < c5.body.insts@.len() {
                                assert(c5.body.insts@[i] == c6.body.insts@[i]);
                            }
                        }
                    }
                }
            }
        }
        // A block that no statement reached still gets a terminator.
        let mut b: usize = 0;
        while b < cxt.body.blocks.len()
            invariant
                cxt.wf(),
                cxt.body.blocks == c6.body.blocks,
                cxt.body.slots == c6.body.slots,
                cxt.module == c6.module,
                cxt.definitions == c6.definitions,
                cxt.vislayers == c6.vislayers,
                cxt.type_cache == c6.type_cache,
                cxt.body.insts@.len() >= c6.body.insts@.len(),
                cxt.body.insts@.subrange(0, c6.body.insts@.len() as int) == c6.body.insts@,
                forall|j: int| c6.body.insts@.len() <= j < cxt.body.insts@.len() ==> (#[trigger] cxt.body.insts@[j]).1 == Inst::Unreachable,
                b <= cxt.body.blocks@.len(),
                forall|x: usize| x < b ==> #[trigger] is_closed(cxt.body.insts@, x),
                forall|x: usize| b <= x < cxt.body.blocks@.len() ==> #[trigger] is_closed(cxt.body.insts@, x)
                    || is_empty_block(cxt.body.insts@, x),
            decreases cxt.body.blocks@.len() - b,
        {
            let ghost before = cxt.body.insts@;
            if cxt.block_is_empty(b) {
                cxt.close_empty(b);
                proof {
                    let after = cxt.body.insts@;
                    assert(after.subrange(0, before.len() as int) =~= before);
                    assert(after.subrange(0, c6.body.insts@.len() as int) =~= before.subrange(0, c6.body.insts@.len() as int));
                    assert(after[before.len() as int] == (b, Inst::Unreachable));
                    assert(after.len() == before.len() + 1);
                    assert(after[before.len() as int].0 == b && after[before.len() as int].1.is_terminator());
                    assert(is_closed(after, b));
                    assert forall|x: usize| x < cxt.body.blocks@.len() && x != b && is_closed(before, x) implies #[trigger] is_closed(after, x) by {
                        lemma_closed_stays(before, after, x);
                    }
                    assert forall|x: usize| x < cxt.body.blocks@.len() && x != b && is_empty_block(before, x) implies #[trigger] is_empty_block(after, x) by {
                        assert forall|i: int| 0 <= i < after.len() implies #[trigger] after[i].0 != x by {
                            if i < before.len() {
                                assert(after[i] == before[i]);
                            }
                        }
                    }
                }
            }
            proof {
                assert(is_closed(cxt.body.insts@, b));
                assert forall|x: usize| x < b + 1 implies #[trigger] is_closed(cxt.body.insts@, x) by {
                    if x < b && !is_closed(cxt.body.insts@, x) {
                        assert(is_closed(before, x));
                    }
                }
            }
            b = b + 1;
        }
        proof {
            let fin = cxt.body.insts@;
            let k = c6.body.insts@.len() - 1;
            assert(fin.subrange(0, c6.body.insts@.len() as int)[k] == fin[k]);
            assert(c6.body.insts@[k].1 == if is_void {
                Inst::RetVoid
            } else {
                Inst::Unreachable
            });
            assert forall|q: int| 0 <= q < self.args@.len() implies (#[trigger] fin[q]) == c5.body.insts@[q] by {
                assert(fin.subrange(0, c6.body.insts@.len() as int)[q] == fin[q]);
                assert(c6.body.insts@[q] == c5.body.insts@[q]);
            }
            assert(ends_with(cxt.body, if is_void {
                Inst::RetVoid
            } else {
                Inst::Unreachable
            }));
            assert forall|q: int| 0 <= q < self.args@.len() implies (#[trigger] cxt.body.insts@[q]) == (0usize, Inst::Store {
                value: Operand::Param(q as usize),
                ptr: Operand::Slot(q as usize),
            }) && lowers_to(start.definitions.type_value(self.args@[q].tp@)->Some_0@, cxt.body.slots@[q]) by {
                assert(fin[q] == c5.body.insts@[q]);
                assert(c5.body.insts@[q] == c4.body.insts@[q] && c5.body.slots@[q] == c4.body.slots@[q]);
                assert(c4.body.insts@[q] == (0usize, Inst::Store {
                    value: Operand::Param(q as usize),
                    ptr: Operand::Slot(q as usize),
                }));
            }
            assert(c4.body.insts@.len() == self.args@.len());
            assert(stores_params(cxt.body, start.definitions, self.args@));
        }
        cxt.vislayers.exit_layer();
        cxt.vislayers.exit_function();
        std::mem::swap(&mut cxt.body, &mut body);
        let ghost finished = body;
        cxt.module.functions[f].body = Some(body);
        proof {
            assert forall|j: int| 0 <= j < m0.functions@.len() implies #[trigger] cxt.module.functions@[j].name == m0.functions@[j].name by {
                if j != f {
                    assert(cxt.module.functions@[j] == m0.functions@[j]);
                }
            }
            lemma_calls_declared_same_names(finished.insts@, m0, cxt.module);
            assert forall|j: int| 0 <= j < cxt.module.functions@.len() implies ((#[trigger] cxt.module.functions@[j]).body matches Some(b) ==> body_ok(b, cxt.module)) by {
                if j != f {
                    assert(cxt.module.functions@[j] == m0.functions@[j]);
                    if let Some(b) = m0.functions@[j].body {
                        lemma_calls_declared_same_names(b.insts@, m0, cxt.module);
                    }
                }
            }
            assert(cxt.layers() =~= l0);
        }
        Ok(())
    }
}

} // verus!

verus! {

impl StructDef {
    /// Adds the named IR struct type whose body is the field types in order.
    pub fn codegen(&self, cxt: &mut CodegenContext) -> (r: Result<(), CompileError>)
        requires
            top_level(*old(cxt)),
        ensures
            r is Ok ==> top_level(*final(cxt)),
            r is Ok ==> final(cxt).definitions == old(cxt).definitions,
            r is Ok ==> final(cxt).module.functions == old(cxt).module.functions,
            r is Ok ==> final(cxt).module.structs@.len() == old(cxt).module.structs@.len() + 1
                && final(cxt).module.structs@.last().name@ == self.name@,
            r is Ok <==> (old(cxt).definitions.type_value(self.name@) matches Some(t) && t is Custom),
            r is Ok ==> (old(cxt).definitions.type_value(self.name@) matches Some(Type::Custom(c))
                && final(cxt).module.structs@.last().fields@.len() == c.fields@.len()
                && forall|k: int| 0 <= k < c.fields@.len() ==> lowers_to(
                    (*c.fields@[k].ty)@,
                    #[trigger] final(cxt).module.structs@.last().fields@[k],
                )),
    {
        let ty = match cxt.definitions.get_type(&self.name) {
            Some(t) => t,
            None => {
                return Err(
                    CompileError::new(
                        ErrorKind::UnknownType,
                        message(&["Unknown type ", self.name.as_str()]),
                    ),
                );
            },
        };
        let fields = match &*ty {
            Type::Custom(c) => {
                let mut fields: Vec<IrType> = Vec::new();
                let mut i: usize = 0;
                while i < c.fields.len()
                    invariant
                        i <= c.fields@.len(),
                        fields@.len() == i,
                        forall|j: int| 0 <= j < i ==> lowers_to((*c.fields@[j].ty)@, #[trigger] fields@[j]),
                    decreases c.fields@.len() - i,
                {
                    fields.push(ir_type(&c.fields[i].ty));
                    i = i + 1;
                }
                fields
            },
            _ => {
                return Err(
                    CompileError::new(
                        ErrorKind::TypeError,
                        message(&["Type ", self.name.as_str(), " is not a struct"]),
                    ),
                );
            },
        };
        cxt.module.structs.push(IrStruct { name: self.name.clone(), fields });
        Ok(())
    }
}

impl FuncDef {
    /// A declaration needs no code: the module declares every function already.
    pub fn codegen(&self, cxt: &mut CodegenContext) -> (r: Result<(), CompileError>)
        ensures
            r is Ok,
            *final(cxt) == *old(cxt),
    {
        Ok(())
    }
}

/// Which functions of the module have a body: those of `done`, at the first
/// declaration of their name.
pub open spec fn bodies_match(m0: Module, m: Module, done: Set<Seq<char>>) -> bool {
    &&& forall|j: int| 0 <= j < m0.functions@.len() ==> ((#[trigger] m.functions@[j]).body is Some <==> (done.contains(
        m0.functions@[j].name@,
    ) && first_decl(m0, m0.functions@[j].name@, j)))
    &&& forall|n: Seq<char>| #[trigger] done.contains(n) ==> exists|j: int| first_decl(m0, n, j)
}

proof fn lemma_impl_ok_same_names(defs: ProgramDefinitions, m1: Module, m2: Module, f: FuncImpl)
    requires
        m1.functions@.len() == m2.functions@.len(),
        forall|k: int| 0 <= k < m1.functions@.len() ==> #[trigger] m1.functions@[k].name == m2.functions@[k].name,
    ensures
        impl_ok(defs, m1, f) == impl_ok(defs, m2, f),
{
    if exists|j: int| first_decl(m1, f.name@, j) {
        let j = choose|j: int| first_decl(m1, f.name@, j);
        lemma_first_decl_same_names(m1, m2, f.name@, j);
    }
    if exists|j: int| first_decl(m2, f.name@, j) {
        let j = choose|j: int| first_decl(m2, f.name@, j);
        lemma_first_decl_same_names(m1, m2, f.name@, j);
    }
}

impl Program {
    /// Lowers the top-level blocks in source order; succeeds exactly when
    /// `spec_program` says so.
    pub fn codegen(&self, cxt: &mut CodegenContext) -> (r: Result<(), CompileError>)
        requires
            top_level(*old(cxt)),
            forall|j: int| 0 <= j < old(cxt).module.functions@.len() ==> (#[trigger] old(cxt).module.functions@[j]).body is None,
        ensures
            r is Ok <==> spec_program(old(cxt).definitions, old(cxt).module, self.blocks@, self.blocks@.len() as int) is Some,
            r is Ok ==> bodies_match(
                old(cxt).module,
                final(cxt).module,
                spec_program(old(cxt).definitions, old(cxt).module, self.blocks@, self.blocks@.len() as int)->Some_0,
            ),
            r is Ok ==> final(cxt).module.structs@.len() == old(cxt).module.structs@.len() + count_structs(self.blocks@, self.blocks@.len() as int),
            r is Ok ==> top_level(*final(cxt)),
            r is Ok ==> final(cxt).definitions == old(cxt).definitions,
            r is Ok ==> final(cxt).module.functions@.len() == old(cxt).module.functions@.len(),
            r is Ok ==> forall|j: int| 0 <= j < old(cxt).module.functions@.len() ==> #[trigger] final(cxt).module.functions@[j].name == old(cxt).module.functions@[j].name,
    {
        let ghost m0 = cxt.module;
        let ghost defs = cxt.definitions;
        proof {
            assert(bodies_match(m0, cxt.module, Set::empty()));
        }
        let mut i: usize = 0;
        while i < self.blocks.len()
            invariant
                i <= self.blocks@.len(),
                m0 == old(cxt).module,
                defs == old(cxt).definitions,
                top_level(*cxt),
                cxt.definitions == defs,
                cxt.module.functions@.len() == m0.functions@.len(),
                forall|j: int| 0 <= j < m0.functions@.len() ==> #[trigger] cxt.module.functions@[j].name == m0.functions@[j].name,
                spec_program(defs, m0, self.blocks@, i as int) is Some,
                bodies_match(m0, cxt.module, spec_program(defs, m0, self.blocks@, i as int)->Some_0),
                cxt.module.structs@.len() == old(cxt).module.structs@.len() + count_structs(self.blocks@, i as int),
            decreases self.blocks@.len() - i,
        {
            let ghost before = cxt.module;
            let ghost done = spec_program(defs, m0, self.blocks@, i as int)->Some_0;
            match &self.blocks[i] {
                Statement::FuncImpl(f) => {
                    proof {
                        lemma_impl_ok_same_names(defs, before, m0, *f);
                        if done.contains(f.name@) {
                            let j = choose|j: int| first_decl(m0, f.name@, j);
                            lemma_first_decl_same_names(before, m0, f.name@, j);
                            assert(before.functions@[j].body is Some);
                        } else {
                            assert forall|j: int| first_decl(before, f.name@, j) implies before.functions@[j].body is None by {
                                lemma_first_decl_same_names(before, m0, f.name@, j);
                                assert(before.functions@[j].name == m0.functions@[j].name);
                            }
                        }
                    }
                    match f.codegen(cxt) {
                        Ok(()) => {},
                        Err(e) => {
                            proof {
                                lemma_program_fails(defs, m0, self.blocks@, i + 1);
                            }
                            return Err(e);
                        },
                    }
                    proof {
                        let done2 = done.insert(f.name@);
                        assert(spec_program(defs, m0, self.blocks@, i + 1) == Some(done2));
                        assert forall|j: int| 0 <= j < m0.functions@.len() implies ((#[trigger] cxt.module.functions@[j]).body is Some <==> (done2.contains(
                            m0.functions@[j].name@,
                        ) && first_decl(m0, m0.functions@[j].name@, j))) by {
                            lemma_first_decl_same_names(before, m0, f.name@, j);
                            lemma_first_decl_same_names(before, m0, m0.functions@[j].name@, j);
                            assert(before.functions@[j].name == m0.functions@[j].name);
                        }
                        assert forall|n: Seq<char>| #[trigger] done2.contains(n) implies exists|j: int| first_decl(m0, n, j) by {
                            if n == f.name@ {
                                let j = choose|j: int| first_decl(before, f.name@, j);
                                lemma_first_decl_same_names(before, m0, f.name@, j);
                            }
                        }
                        assert forall|j: int| 0 <= j < m0.functions@.len() implies #[trigger] cxt.module.functions@[j].name == m0.functions@[j].name by {
                            assert(cxt.module.functions@[j].name == before.functions@[j].name);
                        }
                    }
                },
                Statement::StructDef(sd) => {
                    match sd.codegen(cxt) {
                        Ok(()) => {},
                        Err(e) => {
                            proof {
                                lemma_program_fails(defs, m0, self.blocks@, i + 1);
                            }
                            return Err(e);
                        },
                    }
                },
                Statement::FuncDef(fd) => {
                    let _ = fd.codegen(cxt);
                },
                _ => {
                    proof {
                        lemma_program_fails(defs, m0, self.blocks@, i + 1);
                    }
                    return Err(
                        CompileError::new(
                            ErrorKind::TypeError,
                            String::from_str("Only definitions stand at the top level"),
                        ),
                    );
                },
            }
            i = i + 1;
        }
        Ok(())
    }
}

proof fn lemma_lookup_at<V>(s: Seq<(Seq<char>, V)>, i: int)
    requires
        0 <= i < s.len(),
    ensures
        lookup(s, s[i].0) is Some,
    decreases s.len(),
{
    if s.last().0 != s[i].0 {
        lemma_lookup_at(s.drop_last(), i);
        assert(s.drop_last()[i] == s[i]);
    }
}

impl CodegenContext {
    /// Runs the definition pre-pass, then declares every registered function
    /// in the module (with external linkage) and records its IR type, so that
    /// bodies can call functions defined later or themselves.
    pub fn prepare(prog: &Program) -> (r: Result<CodegenContext, CompileError>)
        ensures
            match spec_definitions(*prog) {
                Ok(d) => r matches Ok(c) && c.definitions@ == d && top_level(c) && c.module.structs@.len() == 0
                    && forall|j: int| 0 <= j < c.module.functions@.len() ==> (#[trigger] c.module.functions@[j]).body is None,
                Err(k) => r matches Err(e) && e.kind == k,
            },
            r matches Ok(c) ==> c.type_cache.funcs@.len() == c.module.functions@.len()
                && forall|j: int| 0 <= j < c.module.functions@.len() ==> {
                    let sig = lookup(c.definitions@.funcs, c.definitions@.funcs[j].0)->Some_0;
                    &&& #[trigger] c.type_cache.funcs@[j].0@ == c.module.functions@[j].name@
                    &&& lowers_all(sig.0, c.type_cache.funcs@[j].1@)
                    &&& lowers_to(sig.1, c.type_cache.funcs@[j].2)
                },
            r matches Ok(c) ==> c.vislayers.function() is None && c.layers().len() == 0,
    {
        let definitions = match ProgramDefinitions::collect(prog) {
            Ok(d) => d,
            Err(e) => {
                return Err(e);
            },
        };
        let names = definitions.function_names();
        let mut functions: Vec<IrFunction> = Vec::new();
        let mut type_cache = TypeCache::new();
        let mut i: usize = 0;
        while i < names.len()
            invariant
                i <= names@.len(),
                names@.len() == definitions@.funcs.len(),
                forall|k: int| 0 <= k < names@.len() ==> #[trigger] names@[k]@ == definitions@.funcs[k].0,
                functions@.len() == i,
                forall|k: int| 0 <= k < i ==> (#[trigger] functions@[k]).name@ == definitions@.funcs[k].0 && functions@[k].body is None,
                forall|k: int| 0 <= k < i ==> declares_sig(#[trigger] functions@[k], lookup(definitions@.funcs, definitions@.funcs[k].0)->Some_0),
                type_cache.funcs@.len() == i,
                forall|k: int| 0 <= k < i ==> {
                    let sig = lookup(definitions@.funcs, definitions@.funcs[k].0)->Some_0;
                    &&& #[trigger] type_cache.funcs@[k].0@ == definitions@.funcs[k].0
                    &&& lowers_all(sig.0, type_cache.funcs@[k].1@)
                    &&& lowers_to(sig.1, type_cache.funcs@[k].2)
                },
            decreases names@.len() - i,
        {
            proof {
                lemma_lookup_at(definitions@.funcs, i as int);
            }
            let sig = match definitions.get_func(&names[i]) {
                Some(s) => s,
                None => {
                    return Err(CompileError::new(ErrorKind::UnknownFunction, String::from_str("Lost function")));
                },
            };
            let mut params: Vec<IrType> = Vec::new();
            let mut cached: Vec<IrType> = Vec::new();
            let mut k: usize = 0;
            while k < sig.args.len()
                invariant
                    k <= sig.args@.len(),
                    params@.len() == k,
                    cached@.len() == k,
                    forall|q: int| 0 <= q < k ==> lowers_to((*sig.args@[q])@, #[trigger] params@[q]),
                    forall|q: int| 0 <= q < k ==> lowers_to((*sig.args@[q])@, #[trigger] cached@[q]),
                decreases sig.args@.len() - k,
            {
                params.push(ir_type(&sig.args[k]));
                cached.push(ir_type(&sig.args[k]));
                k = k + 1;
            }
            proof {
                assert(lowers_all(crate::definitions::sig_of(*sig).0, params@));
                assert(lowers_all(crate::definitions::sig_of(*sig).0, cached@));
            }
            let ghost fprev = functions@;
            let ghost cprev = type_cache.funcs@;
            functions.push(IrFunction { name: names[i].clone(), params, ret: ir_type(&sig.ret), body: None });
            type_cache.store_func(names[i].clone(), cached, ir_type(&sig.ret));
            proof {
                assert forall|k: int| 0 <= k < i + 1 implies declares_sig(#[trigger] functions@[k], lookup(definitions@.funcs, definitions@.funcs[k].0)->Some_0) by {
                    if k < i {
                        assert(functions@[k] == fprev[k]);
                    }
                }
                assert forall|k: int| 0 <= k < i + 1 implies (#[trigger] functions@[k]).name@ == definitions@.funcs[k].0 && functions@[k].body is None by {
                    if k < i {
                        assert(functions@[k] == fprev[k]);
                    }
                }
                assert forall|k: int| 0 <= k < i + 1 implies {
                    let sig = lookup(definitions@.funcs, definitions@.funcs[k].0)->Some_0;
                    &&& #[trigger] type_cache.funcs@[k].0@ == definitions@.funcs[k].0
                    &&& lowers_all(sig.0, type_cache.funcs@[k].1@)
                    &&& lowers_to(sig.1, type_cache.funcs@[k].2)
                } by {
                    if k < i {
                        assert(type_cache.funcs@[k] == cprev[k]);
                    }
                }
            }
            i = i + 1;
        }
        let module = Module { structs: Vec::new(), functions };
        Ok(
            CodegenContext {
                definitions,
                vislayers: VisibilityContext::new(),
                type_cache,
                module,
                body: fresh_body(),
                cursor: 0,
            },
        )
    }
}

/// A context that `CodegenContext::prepare` gives for the program: the
/// pre-pass table, no scope, and every function declared without a body.
pub open spec fn prepared(prog: Program, c: CodegenContext) -> bool {
    &&& spec_definitions(prog) == Ok::<DefinitionsView, ErrorKind>(c.definitions@)
    &&& top_level(c)
    &&& forall|j: int| 0 <= j < c.module.functions@.len() ==> (#[trigger] c.module.functions@[j]).body is None
}

/// Compiles a program to an IR module: the definition pre-pass, the
/// declarations, then every top-level block in order. It succeeds when the
/// pre-pass does and the blocks lower in a prepared context, and only then;
/// on success the functions implemented are those the blocks implement.
pub fn compile(prog: &Program) -> (r: Result<Module, CompileError>)
    ensures
        spec_definitions(*prog) matches Err(k) ==> r matches Err(e) && e.kind == k,
        (spec_definitions(*prog) is Ok && forall|c: CodegenContext| prepared(*prog, c)
            ==> #[trigger] spec_program(c.definitions, c.module, prog.blocks@, prog.blocks@.len() as int) is Some)
            ==> r is Ok,
        r matches Ok(m) ==> exists|c: CodegenContext| prepared(*prog, c)
            && #[trigger] spec_program(c.definitions, c.module, prog.blocks@, prog.blocks@.len() as int) is Some
            && bodies_match(c.module, m, spec_program(c.definitions, c.module, prog.blocks@, prog.blocks@.len() as int)->Some_0),
        r matches Ok(m) ==> spec_definitions(*prog) is Ok && module_ok(m) && decls_match(
            spec_definitions(*prog)->Ok_0,
            m,
        ),
{
    let mut cxt = match CodegenContext::prepare(prog) {
        Ok(c) => c,
        Err(e) => {
            return Err(e);
        },
    };
    match prog.codegen(&mut cxt) {
        Ok(()) => Ok(cxt.module),
        Err(e) => Err(e),
    }
}

} // verus!
