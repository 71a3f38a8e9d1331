use std::rc::Rc;
use vstd::prelude::*;
use vstd::string::*;

use crate::ast::{FuncDef, FuncImpl, Program, Statement, StructDef, TypedArg};
use crate::error::{message, CompileError, ErrorKind};
use crate::types::{share, CustomField, CustomType, FloatType, IntType, Type, TypeView};

verus! {

/// A function's signature: parameter types in order, then the return type.
#[derive(Debug)]
pub struct FuncSig {
    pub args: Vec<Rc<Type>>,
    pub ret: Rc<Type>,
}

/// What the definition table records of a type: the type, and for a user
/// type its fields (name and type) in declaration order.
pub type TypeEntry = (TypeView, Seq<(Seq<char>, TypeView)>);

/// What the definition table records of a function.
pub type SigView = (Seq<TypeView>, TypeView);

/// The definition table as two lists of named entries; a name's entry is its
/// latest one (names are in fact never repeated).
pub struct DefinitionsView {
    pub types: Seq<(Seq<char>, TypeEntry)>,
    pub funcs: Seq<(Seq<char>, SigView)>,
}

pub open spec fn lookup<V>(s: Seq<(Seq<char>, V)>, k: Seq<char>) -> Option<V>
    decreases s.len(),
{
    if s.len() == 0 {
        None
    } else if s.last().0 == k {
        Some(s.last().1)
    } else {
        lookup(s.drop_last(), k)
    }
}

pub open spec fn views_of(s: Seq<Rc<Type>>) -> Seq<TypeView> {
    s.map_values(|t: Rc<Type>| (*t)@)
}

pub open spec fn fields_of(t: Type) -> Seq<(Seq<char>, TypeView)> {
    match t {
        Type::Custom(c) => c.fields@.map_values(|f: CustomField| (f.name@, (*f.ty)@)),
        _ => Seq::empty(),
    }
}

pub open spec fn entry_of(t: Type) -> TypeEntry {
    (t@, fields_of(t))
}

pub open spec fn sig_of(s: FuncSig) -> SigView {
    (views_of(s.args@), (*s.ret)@)
}

/// Types of the named arguments, in order; `None` when one of them is unknown.
pub open spec fn resolve_args(types: Seq<(Seq<char>, TypeEntry)>, args: Seq<TypedArg>) -> Option<
    Seq<TypeView>,
>
    decreases args.len(),
{
    if args.len() == 0 {
        Some(Seq::empty())
    } else {
        match (resolve_args(types, args.drop_last()), lookup(types, args.last().tp@)) {
            (Some(p), Some(e)) => Some(p.push(e.0)),
            _ => None,
        }
    }
}

pub open spec fn builtin_types() -> Seq<(Seq<char>, TypeEntry)> {
    seq![
        ("void"@, (TypeView::Void, Seq::empty())),
        ("bool"@, (TypeView::Int(1), Seq::empty())),
        ("i8"@, (TypeView::Int(8), Seq::empty())),
        ("i16"@, (TypeView::Int(16), Seq::empty())),
        ("i32"@, (TypeView::Int(32), Seq::empty())),
        ("i64"@, (TypeView::Int(64), Seq::empty())),
        ("f32"@, (TypeView::Float(32), Seq::empty())),
        ("f64"@, (TypeView::Float(64), Seq::empty())),
    ]
}

/// Registering a function: its parameter and return types must be known,
/// `main` takes nothing and returns `void`, and a name registered before must
/// come with the same signature.
pub open spec fn spec_add_func(
    d: DefinitionsView,
    name: Seq<char>,
    args: Seq<TypedArg>,
    ret: TypeView,
) -> Result<DefinitionsView, ErrorKind> {
    match resolve_args(d.types, args) {
        None => Err(ErrorKind::UnknownType),
        Some(ts) => if name == "main"@ && (ret != TypeView::Void || args.len() > 0) {
            Err(ErrorKind::MainSignature)
        } else {
            match lookup(d.funcs, name) {
                Some(sig) => if sig == (ts, ret) {
                    Ok(d)
                } else {
                    Err(ErrorKind::SignatureMismatch)
                },
                None => Ok(DefinitionsView { funcs: d.funcs.push((name, (ts, ret))), ..d }),
            }
        },
    }
}

pub open spec fn spec_add_signature(
    d: DefinitionsView,
    name: Seq<char>,
    args: Seq<TypedArg>,
    rettype: Seq<char>,
) -> Result<DefinitionsView, ErrorKind> {
    match lookup(d.types, rettype) {
        None => Err(ErrorKind::UnknownType),
        Some(e) => spec_add_func(d, name, args, e.0),
    }
}

/// Registering a user type: its name is new, and its fields' types are known
/// already (built-in or defined earlier).
pub open spec fn spec_add_struct(d: DefinitionsView, name: Seq<char>, fields: Seq<TypedArg>) -> Result<
    DefinitionsView,
    ErrorKind,
> {
    if lookup(d.types, name) is Some {
        Err(ErrorKind::Redefinition)
    } else {
        match resolve_args(d.types, fields) {
            None => Err(ErrorKind::UnknownType),
            Some(ts) => Ok(
                DefinitionsView {
                    types: d.types.push(
                        (
                            name,
                            (
                                TypeView::Custom(name),
                                Seq::new(fields.len(), |i: int| (fields[i].name@, ts[i])),
                            ),
                        ),
                    ),
                    ..d
                },
            ),
        }
    }
}

pub open spec fn spec_visit_block(d: DefinitionsView, s: Statement) -> Result<
    DefinitionsView,
    ErrorKind,
> {
    match s {
        Statement::FuncDef(f) => spec_add_signature(d, f.name@, f.args@, f.rettype@),
        Statement::FuncImpl(f) => spec_add_signature(d, f.name@, f.args@, f.rettype@),
        Statement::StructDef(s) => spec_add_struct(d, s.name@, s.fields@),
        _ => Ok(d),
    }
}

/// The definition pre-pass over a list of top-level blocks, in order; the
/// first failure stops it.
pub open spec fn spec_visit_blocks(d: DefinitionsView, blocks: Seq<Statement>) -> Result<
    DefinitionsView,
    ErrorKind,
>
    decreases blocks.len(),
{
    if blocks.len() == 0 {
        Ok(d)
    } else {
        match spec_visit_blocks(d, blocks.drop_last()) {
            Ok(d2) => spec_visit_block(d2, blocks.last()),
            Err(e) => Err(e),
        }
    }
}

/// The definition table of a whole program, starting from the built-in types.
pub open spec fn spec_definitions(p: Program) -> Result<DefinitionsView, ErrorKind> {
    spec_visit_blocks(DefinitionsView { types: builtin_types(), funcs: Seq::empty() }, p.blocks@)
}

/// Running the pre-pass twice on one program gives the same tables: both
/// runs are described by the same function of the program.
pub proof fn lemma_definitions_deterministic(
    p: Program,
    first: Result<DefinitionsView, ErrorKind>,
    second: Result<DefinitionsView, ErrorKind>,
)
    requires
        first == spec_definitions(p),
        second == spec_definitions(p),
    ensures
        first == second,
{
}

proof fn lemma_lookup_prefix<V>(s: Seq<(Seq<char>, V)>, k: Seq<char>, i: int)
    requires
        0 < i <= s.len(),
        s[i - 1].0 != k,
    ensures
        lookup(s.subrange(0, i), k) == lookup(s.subrange(0, i - 1), k),
{
    assert(s.subrange(0, i).drop_last() =~= s.subrange(0, i - 1));
}

proof fn lemma_lookup_hit<V>(s: Seq<(Seq<char>, V)>, k: Seq<char>, i: int)
    requires
        0 < i <= s.len(),
        s[i - 1].0 == k,
    ensures
        lookup(s.subrange(0, i), k) == Some(s[i - 1].1),
{
}

/// The table of user types and function signatures of one program.
pub struct ProgramDefinitions {
    /// type name => type
    types: Vec<(String, Rc<Type>)>,
    /// function name => signature
    functions: Vec<(String, Rc<FuncSig>)>,
}

impl View for ProgramDefinitions {
    type V = DefinitionsView;

    closed spec fn view(&self) -> DefinitionsView {
        DefinitionsView {
            types: self.types@.map_values(|e: (String, Rc<Type>)| (e.0@, entry_of(*e.1))),
            funcs: self.functions@.map_values(|e: (String, Rc<FuncSig>)| (e.0@, sig_of(*e.1))),
        }
    }
}

fn primitive(name: &str, ty: Type) -> (r: (String, Rc<Type>))
    ensures
        r.0@ == name@,
        *r.1 == ty,
{
    (String::from_str(name), Rc::new(ty))
}

impl ProgramDefinitions {
    /// The type filed under a name.
    pub closed spec fn type_value(&self, name: Seq<char>) -> Option<Type> {
        lookup(self.types@.map_values(|e: (String, Rc<Type>)| (e.0@, *e.1)), name)
    }

    /// The signature filed under a name.
    pub closed spec fn func_value(&self, name: Seq<char>) -> Option<FuncSig> {
        lookup(self.functions@.map_values(|e: (String, Rc<FuncSig>)| (e.0@, *e.1)), name)
    }
    /// A table that holds the built-in types and no function.
    pub fn new() -> (r: ProgramDefinitions)
        ensures
            r@ == (DefinitionsView { types: builtin_types(), funcs: Seq::empty() }),
    {
        let mut types: Vec<(String, Rc<Type>)> = Vec::new();
        types.push(primitive("void", Type::Void()));
        types.push(primitive("bool", Type::Int(IntType { bitwidth: 1 })));
        types.push(primitive("i8", Type::Int(IntType { bitwidth: 8 })));
        types.push(primitive("i16", Type::Int(IntType { bitwidth: 16 })));
        types.push(primitive("i32", Type::Int(IntType { bitwidth: 32 })));
        types.push(primitive("i64", Type::Int(IntType { bitwidth: 64 })));
        types.push(primitive("f32", Type::Float(FloatType { bitwidth: 32 })));
        types.push(primitive("f64", Type::Float(FloatType { bitwidth: 64 })));
        let r = ProgramDefinitions { types, functions: Vec::new() };
        proof {
            assert(r@.types =~= builtin_types());
            assert(r@.funcs =~= Seq::<(Seq<char>, SigView)>::empty());
        }
        r
    }

    pub fn get_type(&self, name: &String) -> (r: Option<Rc<Type>>)
        ensures
            match lookup(self@.types, name@) {
                Some(e) => r matches Some(t) && entry_of(*t) == e,
                None => r is None,
            },
            r matches Some(t) ==> self.type_value(name@) == Some(*t),
            r is None ==> self.type_value(name@) is None,
    {
        let ghost vals = self.types@.map_values(|e: (String, Rc<Type>)| (e.0@, *e.1));
        let mut i = self.types.len();
        proof {
            assert(self@.types.subrange(0, i as int) =~= self@.types);
            assert(vals.subrange(0, i as int) =~= vals);
        }
        while i > 0
            invariant
                i <= self.types@.len(),
                vals == self.types@.map_values(|e: (String, Rc<Type>)| (e.0@, *e.1)),
                lookup(self@.types, name@) == lookup(self@.types.subrange(0, i as int), name@),
                lookup(vals, name@) == lookup(vals.subrange(0, i as int), name@),
            decreases i,
        {
            let e = &self.types[i - 1];
            if e.0 == *name {
                proof {
                    lemma_lookup_hit(self@.types, name@, i as int);
                    lemma_lookup_hit(vals, name@, i as int);
                }
                return Some(share(&e.1));
            }
            proof {
                lemma_lookup_prefix(self@.types, name@, i as int);
                lemma_lookup_prefix(vals, name@, i as int);
            }
            i = i - 1;
        }
        None
    }

    pub fn get_func(&self, name: &String) -> (r: Option<Rc<FuncSig>>)
        ensures
            match lookup(self@.funcs, name@) {
                Some(s) => r matches Some(f) && sig_of(*f) == s,
                None => r is None,
            },
            r matches Some(f) ==> self.func_value(name@) == Some(*f),
            r is None ==> self.func_value(name@) is None,
    {
        let ghost vals = self.functions@.map_values(|e: (String, Rc<FuncSig>)| (e.0@, *e.1));
        let mut i = self.functions.len();
        proof {
            assert(self@.funcs.subrange(0, i as int) =~= self@.funcs);
            assert(vals.subrange(0, i as int) =~= vals);
        }
        while i > 0
            invariant
                i <= self.functions@.len(),
                vals == self.functions@.map_values(|e: (String, Rc<FuncSig>)| (e.0@, *e.1)),
                lookup(self@.funcs, name@) == lookup(self@.funcs.subrange(0, i as int), name@),
                lookup(vals, name@) == lookup(vals.subrange(0, i as int), name@),
            decreases i,
        {
            let e = &self.functions[i - 1];
            if e.0 == *name {
                proof {
                    lemma_lookup_hit(self@.funcs, name@, i as int);
                    lemma_lookup_hit(vals, name@, i as int);
                }
                return Some(share(&e.1));
            }
            proof {
                lemma_lookup_prefix(self@.funcs, name@, i as int);
                lemma_lookup_prefix(vals, name@, i as int);
            }
            i = i - 1;
        }
        None
    }

    /// The names of all registered functions, in order of registration.
    pub fn function_names(&self) -> (r: Vec<String>)
        ensures
            r@.len() == self@.funcs.len(),
            forall|i: int| 0 <= i < r@.len() ==> #[trigger] r@[i]@ == self@.funcs[i].0,
    {
        let mut r: Vec<String> = Vec::new();
        let mut i: usize = 0;
        while i < self.functions.len()
            invariant
                i <= self.functions@.len(),
                r@.len() == i,
                forall|j: int| 0 <= j < i ==> #[trigger] r@[j]@ == self@.funcs[j].0,
            decreases self.functions@.len() - i,
        {
            r.push(self.functions[i].0.clone());
            i = i + 1;
        }
        r
    }

    /// Types of the named arguments, or the failure for the first unknown one.
    fn resolve_args(&self, args: &Vec<TypedArg>, owner: &String) -> (r: Result<
        Vec<Rc<Type>>,
        CompileError,
    >)
        ensures
            match resolve_args(self@.types, args@) {
                Some(ts) => r matches Ok(v) && views_of(v@) == ts,
                None => r matches Err(e) && e.kind == ErrorKind::UnknownType,
            },
    {
        let mut processed: Vec<Rc<Type>> = Vec::new();
        let mut i: usize = 0;
        while i < args.len()
            invariant
                i <= args@.len(),
                resolve_args(self@.types, args@.subrange(0, i as int)) == Some(
                    views_of(processed@),
                ),
            decreases args@.len() - i,
        {
            proof {
                assert(args@.subrange(0, i + 1).drop_last() =~= args@.subrange(0, i as int));
            }
            match self.get_type(&args[i].tp) {
                Some(t) => {
                    let ghost before = processed@;
                    processed.push(t);
                    proof {
                        assert(views_of(processed@) =~= views_of(before).push(
                            (*processed@.last())@,
                        ));
                    }
                },
                None => {
                    proof {
                        lemma_resolve_fails(self@.types, args@, i as int + 1);
                        assert(args@.subrange(0, args@.len() as int) =~= args@);
                    }
                    return Err(
                        CompileError::new(
                            ErrorKind::UnknownType,
                            message(&["Unknown type ", args[i].tp.as_str(), " in definition of ", owner.as_str()]),
                        ),
                    );
                },
            }
            i = i + 1;
        }
        proof {
            assert(args@.subrange(0, i as int) =~= args@);
        }
        Ok(processed)
    }
}

fn same_types(a: &Vec<Rc<Type>>, b: &Vec<Rc<Type>>) -> (r: bool)
    ensures
        r == (views_of(a@) == views_of(b@)),
{
    if a.len() != b.len() {
        proof {
            assert(views_of(a@).len() != views_of(b@).len());
        }
        return false;
    }
    let mut i: usize = 0;
    while i < a.len()
        invariant
            i <= a@.len(),
            a@.len() == b@.len(),
            forall|j: int| 0 <= j < i ==> (*a@[j])@ == (*b@[j])@,
        decreases a@.len() - i,
    {
        if !a[i].same(&b[i]) {
            proof {
                assert(views_of(a@)[i as int] != views_of(b@)[i as int]);
            }
            return false;
        }
        i = i + 1;
    }
    proof {
        assert(views_of(a@) =~= views_of(b@));
    }
    true
}

fn is_named(name: &String, expected: &str) -> (r: bool)
    ensures
        r == (name@ == expected@),
{
    *name == String::from_str(expected)
}

impl CustomType {
    /// Builds the user type that a struct definition declares, its field types
    /// resolved against the types known so far.
    pub fn from_def(structdef: &StructDef, types: &ProgramDefinitions) -> (r: Result<
        CustomType,
        CompileError,
    >)
        ensures
            match resolve_args(types@.types, structdef.fields@) {
                Some(ts) => r matches Ok(c) && c.name@ == structdef.name@ && fields_of(
                    Type::Custom(c),
                ) == Seq::new(
                    structdef.fields@.len(),
                    |i: int| (structdef.fields@[i].name@, ts[i]),
                ),
                None => r matches Err(e) && e.kind == ErrorKind::UnknownType,
            },
    {
        let resolved = match types.resolve_args(&structdef.fields, &structdef.name) {
            Ok(v) => v,
            Err(e) => {
                return Err(e);
            },
        };
        proof {
            lemma_resolve_len(types@.types, structdef.fields@);
        }
        let mut fields: Vec<CustomField> = Vec::new();
        let mut i: usize = 0;
        while i < resolved.len()
            invariant
                i <= resolved@.len(),
                resolved@.len() == structdef.fields@.len(),
                fields@.len() == i,
                forall|j: int|
                    0 <= j < i ==> (#[trigger] fields@[j]).name@ == structdef.fields@[j].name@
                        && (*fields@[j].ty)@ == (*resolved@[j])@,
            decreases resolved@.len() - i,
        {
            fields.push(CustomField { name: structdef.fields[i].name.clone(), ty: share(&resolved[i]) });
            i = i + 1;
        }
        let c = CustomType { name: structdef.name.clone(), fields };
        proof {
            let ts = views_of(resolved@);
            assert(fields_of(Type::Custom(c)) =~= Seq::new(
                structdef.fields@.len(),
                |i: int| (structdef.fields@[i].name@, ts[i]),
            ));
        }
        Ok(c)
    }
}

impl ProgramDefinitions {
    fn add_func(&mut self, name: &String, args: &Vec<TypedArg>, ret: Rc<Type>) -> (r: Result<
        (),
        CompileError,
    >)
        ensures
            match spec_add_func(old(self)@, name@, args@, (*ret)@) {
                Ok(d) => r is Ok && final(self)@ == d,
                Err(k) => r matches Err(e) && e.kind == k,
            },
            r is Err ==> final(self)@ == old(self)@,
    {
        let processed = match self.resolve_args(args, name) {
            Ok(v) => v,
            Err(e) => {
                return Err(e);
            },
        };
        if is_named(name, "main") {
            if !ret.same(&Type::Void()) {
                return Err(
                    CompileError::new(
                        ErrorKind::MainSignature,
                        String::from_str("Incorrect return type for main function, should be none"),
                    ),
                );
            }
            if args.len() > 0 {
                return Err(
                    CompileError::new(
                        ErrorKind::MainSignature,
                        String::from_str("Incorrect args for main function, should be none"),
                    ),
                );
            }
        }
        match self.get_func(name) {
            Some(existing) => {
                if !same_types(&existing.args, &processed) {
                    return Err(
                        CompileError::new(
                            ErrorKind::SignatureMismatch,
                            message(&["Redefenition of func ", name.as_str(), " with other arg types"]),
                        ),
                    );
                }
                if !existing.ret.same(&ret) {
                    return Err(
                        CompileError::new(
                            ErrorKind::SignatureMismatch,
                            message(&["Redefenition of func ", name.as_str(), " with other ret type"]),
                        ),
                    );
                }
                Ok(())
            },
            None => {
                let ghost before = self@;
                self.functions.push((name.clone(), Rc::new(FuncSig { args: processed, ret })));
                proof {
                    assert(self@.funcs =~= before.funcs.push((name@, sig_of(*self.functions@.last().1))));
                    assert(self@.types =~= before.types);
                }
                Ok(())
            },
        }
    }

    fn add_signature(&mut self, name: &String, args: &Vec<TypedArg>, rettype: &String) -> (r: Result<
        (),
        CompileError,
    >)
        ensures
            match spec_add_signature(old(self)@, name@, args@, rettype@) {
                Ok(d) => r is Ok && final(self)@ == d,
                Err(k) => r matches Err(e) && e.kind == k,
            },
            r is Err ==> final(self)@ == old(self)@,
    {
        match self.get_type(rettype) {
            Some(ret) => self.add_func(name, args, ret),
            None => Err(
                CompileError::new(
                    ErrorKind::UnknownType,
                    message(&["Unknown type ", rettype.as_str(), " in definition of ", name.as_str()]),
                ),
            ),
        }
    }

    /// Registers the signature of a declared function.
    pub fn visit_funcdef(&mut self, node: &FuncDef) -> (r: Result<(), CompileError>)
        ensures
            match spec_add_signature(old(self)@, node.name@, node.args@, node.rettype@) {
                Ok(d) => r is Ok && final(self)@ == d,
                Err(k) => r matches Err(e) && e.kind == k,
            },
            r is Err ==> final(self)@ == old(self)@,
    {
        self.add_signature(&node.name, &node.args, &node.rettype)
    }

    /// Registers the signature of an implemented function.
    pub fn visit_funcimpl(&mut self, node: &FuncImpl) -> (r: Result<(), CompileError>)
        ensures
            match spec_add_signature(old(self)@, node.name@, node.args@, node.rettype@) {
                Ok(d) => r is Ok && final(self)@ == d,
                Err(k) => r matches Err(e) && e.kind == k,
            },
            r is Err ==> final(self)@ == old(self)@,
    {
        self.add_signature(&node.name, &node.args, &node.rettype)
    }

    /// Registers a user type.
    pub fn visit_structdef(&mut self, node: &StructDef) -> (r: Result<(), CompileError>)
        ensures
            match spec_add_struct(old(self)@, node.name@, node.fields@) {
                Ok(d) => r is Ok && final(self)@ == d,
                Err(k) => r matches Err(e) && e.kind == k,
            },
            r is Err ==> final(self)@ == old(self)@,
    {
        if self.get_type(&node.name).is_some() {
            return Err(
                CompileError::new(
                    ErrorKind::Redefinition,
                    message(&["Redefinition of ", node.name.as_str(), " type"]),
                ),
            );
        }
        let ty = match CustomType::from_def(node, self) {
            Ok(t) => t,
            Err(e) => {
                return Err(e);
            },
        };
        let ghost before = self@;
        self.types.push((node.name.clone(), Rc::new(Type::Custom(ty))));
        proof {
            assert(self@.types =~= before.types.push((node.name@, entry_of(*self.types@.last().1))));
            assert(self@.funcs =~= before.funcs);
        }
        Ok(())
    }

    fn visit_block(&mut self, node: &Statement) -> (r: Result<(), CompileError>)
        ensures
            match spec_visit_block(old(self)@, *node) {
                Ok(d) => r is Ok && final(self)@ == d,
                Err(k) => r matches Err(e) && e.kind == k,
            },
            r is Err ==> final(self)@ == old(self)@,
    {
        match node {
            Statement::FuncDef(f) => self.visit_funcdef(f),
            Statement::FuncImpl(f) => self.visit_funcimpl(f),
            Statement::StructDef(s) => self.visit_structdef(s),
            _ => Ok(()),
        }
    }

    /// The definition pre-pass: registers the top-level types and functions
    /// of a program in source order, stopping at the first failure.
    pub fn visit_program(&mut self, node: &Program) -> (r: Result<(), CompileError>)
        ensures
            match spec_visit_blocks(old(self)@, node.blocks@) {
                Ok(d) => r is Ok && final(self)@ == d,
                Err(k) => r matches Err(e) && e.kind == k,
            },
    {
        let ghost start = self@;
        let mut i: usize = 0;
        proof {
            assert(node.blocks@.subrange(0, 0) =~= Seq::<Statement>::empty());
        }
        while i < node.blocks.len()
            invariant
                i <= node.blocks@.len(),
                start == old(self)@,
                spec_visit_blocks(start, node.blocks@.subrange(0, i as int)) == Ok::<
                    DefinitionsView,
                    ErrorKind,
                >(self@),
            decreases node.blocks@.len() - i,
        {
            proof {
                assert(node.blocks@.subrange(0, i + 1).drop_last() =~= node.blocks@.subrange(
                    0,
                    i as int,
                ));
            }

            match self.visit_block(&node.blocks[i]) {
                Ok(()) => {},
                Err(e) => {
                    proof {
                        assert(node.blocks@.subrange(0, i + 1).last() == node.blocks@[i as int]);
                        lemma_visit_fails(start, node.blocks@, i as int + 1);
                    }
                    return Err(e);
                },
            }
            i = i + 1;
        }
        proof {
            assert(node.blocks@.subrange(0, i as int) =~= node.blocks@);
        }
        Ok(())
    }

    /// The definition table of a program.
    pub fn collect(program: &Program) -> (r: Result<ProgramDefinitions, CompileError>)
        ensures
            match spec_definitions(*program) {
                Ok(d) => r matches Ok(defs) && defs@ == d,
                Err(k) => r matches Err(e) && e.kind == k,
            },
    {
        let mut defs = ProgramDefinitions::new();
        match defs.visit_program(program) {
            Ok(()) => Ok(defs),
            Err(e) => Err(e),
        }
    }
}

proof fn lemma_resolve_len(types: Seq<(Seq<char>, TypeEntry)>, args: Seq<TypedArg>)
    ensures
        resolve_args(types, args) matches Some(ts) ==> ts.len() == args.len(),
    decreases args.len(),
{
    if args.len() > 0 {
        lemma_resolve_len(types, args.drop_last());
    }
}

proof fn lemma_visit_fails(d: DefinitionsView, blocks: Seq<Statement>, i: int)
    requires
        0 < i <= blocks.len(),
        spec_visit_blocks(d, blocks.subrange(0, i)) is Err,
    ensures
        spec_visit_blocks(d, blocks) == spec_visit_blocks(d, blocks.subrange(0, i)),
    decreases blocks.len() - i,
{
    if i < blocks.len() {
        assert(blocks.subrange(0, i + 1).drop_last() =~= blocks.subrange(0, i));
        lemma_visit_fails(d, blocks, i + 1);
    } else {
        assert(blocks.subrange(0, i) =~= blocks);
    }
}

proof fn lemma_resolve_fails(types: Seq<(Seq<char>, TypeEntry)>, args: Seq<TypedArg>, i: int)
    requires
        0 < i <= args.len(),
        resolve_args(types, args.subrange(0, i)) is None,
    ensures
        resolve_args(types, args) is None,
    decreases args.len() - i,
{
    if i < args.len() {
        assert(args.subrange(0, i + 1).drop_last() =~= args.subrange(0, i));
        lemma_resolve_fails(types, args, i + 1);
    } else {
        assert(args.subrange(0, i) =~= args);
    }
}

} // verus!
