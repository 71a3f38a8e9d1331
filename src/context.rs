use std::rc::Rc;
use vstd::prelude::*;

use crate::definitions::lookup;
use crate::ir::{IrType, Operand};
use crate::types::{share, Type, TypeView};

verus! {

/// An IR value with its source-level type.
#[derive(Debug)]
pub struct TypedValue {
    pub value: Operand,
    pub ty: Rc<Type>,
}

impl TypedValue {
    pub fn duplicate(&self) -> (r: TypedValue)
        ensures
            r == *self,
    {
        TypedValue { value: self.value, ty: share(&self.ty) }
    }
}

/// A variable lookup through a stack of scopes, innermost first.
pub open spec fn scope_lookup(layers: Seq<Seq<(Seq<char>, TypedValue)>>, k: Seq<char>) -> Option<
    TypedValue,
>
    decreases layers.len(),
{
    if layers.len() == 0 {
        None
    } else {
        match lookup(layers.last(), k) {
            Some(v) => Some(v),
            None => scope_lookup(layers.drop_last(), k),
        }
    }
}

/// The scopes with the type of each binding only.
pub open spec fn type_layers(layers: Seq<Seq<(Seq<char>, TypedValue)>>) -> Seq<Seq<(Seq<char>, Type)>> {
    layers.map_values(|l: Seq<(Seq<char>, TypedValue)>| type_layer(l))
}

pub open spec fn type_layer(l: Seq<(Seq<char>, TypedValue)>) -> Seq<(Seq<char>, Type)> {
    l.map_values(|e: (Seq<char>, TypedValue)| (e.0, *e.1.ty))
}

/// The type of a variable, looked up through a stack of scopes, innermost first.
pub open spec fn type_lookup(layers: Seq<Seq<(Seq<char>, Type)>>, k: Seq<char>) -> Option<Type>
    decreases layers.len(),
{
    if layers.len() == 0 {
        None
    } else {
        match lookup(layers.last(), k) {
            Some(t) => Some(t),
            None => type_lookup(layers.drop_last(), k),
        }
    }
}

proof fn lemma_type_layer_lookup(l: Seq<(Seq<char>, TypedValue)>, k: Seq<char>)
    ensures
        lookup(type_layer(l), k) == match lookup(l, k) {
            Some(tv) => Some(*tv.ty),
            None => None::<Type>,
        },
    decreases l.len(),
{
    if l.len() > 0 {
        assert(type_layer(l).drop_last() =~= type_layer(l.drop_last()));
        lemma_type_layer_lookup(l.drop_last(), k);
    }
}

/// Looking a variable's type up in the typed scopes agrees with looking the
/// variable up in the scopes.
pub proof fn lemma_type_lookup(layers: Seq<Seq<(Seq<char>, TypedValue)>>, k: Seq<char>)
    ensures
        type_lookup(type_layers(layers), k) == match scope_lookup(layers, k) {
            Some(tv) => Some(*tv.ty),
            None => None::<Type>,
        },
    decreases layers.len(),
{
    if layers.len() > 0 {
        assert(type_layers(layers).drop_last() =~= type_layers(layers.drop_last()));
        lemma_type_layer_lookup(layers.last(), k);
        lemma_type_lookup(layers.drop_last(), k);
    }
}

/// The scopes of the function being lowered, and that function with its return type.
pub struct VisibilityContext {
    layers: Vec<Vec<(String, TypedValue)>>,
    cur_func: Option<(usize, Rc<Type>)>,
}

impl VisibilityContext {
    pub closed spec fn layers(&self) -> Seq<Seq<(Seq<char>, TypedValue)>> {
        self.layers@.map_values(
            |l: Vec<(String, TypedValue)>| l@.map_values(|e: (String, TypedValue)| (e.0@, e.1)),
        )
    }

    pub closed spec fn function(&self) -> Option<(usize, Rc<Type>)> {
        self.cur_func
    }

    pub fn new() -> (r: VisibilityContext)
        ensures
            r.layers().len() == 0,
            r.function() is None,
    {
        let r = VisibilityContext { layers: Vec::new(), cur_func: None };
        proof {
            assert(r.layers() =~= Seq::empty());
        }
        r
    }

    pub fn enter_layer(&mut self)
        ensures
            final(self).layers() == old(self).layers().push(Seq::empty()),
            final(self).function() == old(self).function(),
    {
        let ghost before = self.layers();
        self.layers.push(Vec::new());
        proof {
            assert(self.layers()[self.layers().len() - 1] =~= Seq::empty());
            assert(self.layers() =~= before.push(Seq::empty()));
        }
    }

    pub fn exit_layer(&mut self)
        ensures
            final(self).layers() == if old(self).layers().len() > 0 {
                old(self).layers().drop_last()
            } else {
                old(self).layers()
            },
            final(self).function() == old(self).function(),
    {
        let ghost before = self.layers();
        let _ = self.layers.pop();
        proof {
            if before.len() > 0 {
                assert(self.layers() =~= before.drop_last());
            } else {
                assert(self.layers() =~= before);
            }
        }
    }

    /// Binds a name in the innermost scope.
    pub fn add_variable(&mut self, name: String, val: TypedValue)
        requires
            old(self).layers().len() > 0,
        ensures
            final(self).layers() == old(self).layers().drop_last().push(
                old(self).layers().last().push((name@, val)),
            ),
            final(self).function() == old(self).function(),
    {
        let ghost before = self.layers();
        let ghost nv = val;
        let ghost nn = name@;
        let n = self.layers.len();
        let mut top = self.layers.pop().unwrap();
        top.push((name, val));
        self.layers.push(top);
        proof {
            assert(self.layers()[n - 1] =~= before.last().push((nn, nv)));
            assert(self.layers() =~= before.drop_last().push(before.last().push((nn, nv))));
        }
    }

    pub fn get_variable(&self, name: &String) -> (r: Option<TypedValue>)
        ensures
            r == scope_lookup(self.layers(), name@),
    {
        let mut i = self.layers.len();
        proof {
            assert(self.layers().subrange(0, i as int) =~= self.layers());
        }
        while i > 0
            invariant
                i <= self.layers@.len(),
                scope_lookup(self.layers(), name@) == scope_lookup(self.layers().subrange(0, i as int), name@),
            decreases i,
        {
            let layer = &self.layers[i - 1];
            let mut j = layer.len();
            let ghost lv = self.layers()[i - 1];
            proof {
                assert(lv == layer@.map_values(|e: (String, TypedValue)| (e.0@, e.1)));
                assert(self.layers().subrange(0, i as int).last() == lv);
                assert(lv.subrange(0, j as int) =~= lv);
                assert(self.layers().subrange(0, i as int).drop_last() =~= self.layers().subrange(0, i - 1));
            }
            while j > 0
                invariant
                    j <= layer@.len(),
                    lv == layer@.map_values(|e: (String, TypedValue)| (e.0@, e.1)),
                    self.layers().subrange(0, i as int).last() == lv,
                    scope_lookup(self.layers(), name@) == scope_lookup(self.layers().subrange(0, i as int), name@),
                    self.layers().subrange(0, i as int).drop_last() == self.layers().subrange(0, i - 1),
                    0 < i <= self.layers@.len(),
                    lookup(lv, name@) == lookup(lv.subrange(0, j as int), name@),
                decreases j,
            {
                if layer[j - 1].0 == *name {
                    proof {
                        assert(lv[j - 1] == (layer@[j - 1].0@, layer@[j - 1].1));
                    }
                    return Some(layer[j - 1].1.duplicate());
                }
                proof {
                    assert(lv[j - 1] == (layer@[j - 1].0@, layer@[j - 1].1));
                    assert(lv.subrange(0, j as int).drop_last() =~= lv.subrange(0, j - 1));
                }
                j = j - 1;
            }
            proof {
                assert(lv.subrange(0, 0) =~= Seq::<(Seq<char>, TypedValue)>::empty());
            }
            i = i - 1;
        }
        None
    }

    pub fn enter_function(&mut self, func: usize, rettype: Rc<Type>)
        ensures
            final(self).function() == Some((func, rettype)),
            final(self).layers() == old(self).layers(),
    {
        self.cur_func = Some((func, rettype));
    }

    pub fn cur_fun(&self) -> (r: Option<(usize, Rc<Type>)>)
        ensures
            r == self.function(),
    {
        match &self.cur_func {
            Some((f, t)) => Some((*f, share(t))),
            None => None,
        }
    }

    pub fn exit_function(&mut self)
        ensures
            final(self).function() is None,
            final(self).layers() == old(self).layers(),
    {
        self.cur_func = None;
    }
}

/// The IR type of each declared function: parameter types and return type.
pub struct TypeCache {
    pub funcs: Vec<(String, Vec<IrType>, IrType)>,
}

impl TypeCache {
    pub fn new() -> (r: TypeCache)
        ensures
            r.funcs@.len() == 0,
    {
        TypeCache { funcs: Vec::new() }
    }

    pub fn store_func(&mut self, name: String, params: Vec<IrType>, ret: IrType)
        ensures
            final(self).funcs@ == old(self).funcs@.push((name, params, ret)),
    {
        self.funcs.push((name, params, ret));
    }

    /// Index of the entry for `name`, the latest one.
    pub fn get_func(&self, name: &String) -> (r: Option<usize>)
        ensures
            r matches Some(i) ==> i < self.funcs@.len() && self.funcs@[i as int].0@ == name@,
            r is None ==> forall|i: int| 0 <= i < self.funcs@.len() ==> self.funcs@[i].0@ != name@,
    {
        let mut i = self.funcs.len();
        while i > 0
            invariant
                i <= self.funcs@.len(),
                forall|k: int| i <= k < self.funcs@.len() ==> self.funcs@[k].0@ != name@,
            decreases i,
        {
            if self.funcs[i - 1].0 == *name {
                return Some(i - 1);
            }
            i = i - 1;
        }
        None
    }
}

/// `r` is the IR type that a source type lowers to.
pub open spec fn lowers_to(t: TypeView, r: IrType) -> bool {
    match t {
        TypeView::Void => r == IrType::Void,
        TypeView::Int(b) => r == IrType::Int(b),
        TypeView::Float(b) => r == IrType::Float(b),
        TypeView::Custom(n) => r matches IrType::Struct(s) && s@ == n,
    }
}

/// The IR type of a source type.
pub fn ir_type(t: &Type) -> (r: IrType)
    ensures
        lowers_to(t@, r),
{
    match t {
        Type::Void() => IrType::Void,
        Type::Int(i) => IrType::Int(i.bitwidth),
        Type::Float(f) => IrType::Float(f.bitwidth),
        Type::Custom(c) => IrType::Struct(c.name.clone()),
    }
}

} // verus!
