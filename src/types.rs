use std::rc::Rc;
use vstd::prelude::*;

use crate::error::{CompileError, ErrorKind};

verus! {

/// What a type is, as far as the rules of the language can tell types apart:
/// primitives by kind and width, user types by their (unique) name.
pub enum TypeView {
    Void,
    Int(u8),
    Float(u8),
    Custom(Seq<char>),
}

impl TypeView {
    pub open spec fn is_arithmetic(self) -> bool {
        self is Int || self is Float
    }
}

/// The common type of two operands of an arithmetic or a comparison.
pub open spec fn spec_common_type(l: TypeView, r: TypeView) -> Option<TypeView> {
    match (l, r) {
        (TypeView::Float(a), TypeView::Float(b)) => Some(
            if a > b {
                l
            } else {
                r
            },
        ),
        (TypeView::Float(_), TypeView::Int(_)) => Some(l),
        (TypeView::Int(_), TypeView::Float(_)) => Some(r),
        (TypeView::Int(a), TypeView::Int(b)) => Some(
            if a > b {
                l
            } else {
                r
            },
        ),
        _ => None,
    }
}

/// The common type as a value: the operand that `spec_common_type` picks.
pub open spec fn spec_common_value(l: Type, r: Type) -> Option<Type> {
    match (l, r) {
        (Type::Float(a), Type::Float(b)) => Some(
            if a.bitwidth > b.bitwidth {
                l
            } else {
                r
            },
        ),
        (Type::Float(_), Type::Int(_)) => Some(l),
        (Type::Int(_), Type::Float(_)) => Some(r),
        (Type::Int(a), Type::Int(b)) => Some(
            if a.bitwidth > b.bitwidth {
                l
            } else {
                r
            },
        ),
        _ => None,
    }
}

/// Relies on Rc::clone: the new handle refers to the same value.
#[verifier::external_body]
pub(crate) fn share<T>(r: &Rc<T>) -> (s: Rc<T>)
    ensures
        s == *r,
{
    Rc::clone(r)
}

#[derive(Debug, Clone, Copy, PartialEq, Eq, PartialOrd, Ord)]
pub struct IntType {
    pub bitwidth: u8,
}

#[derive(Debug, Clone, Copy, PartialEq, Eq, PartialOrd, Ord)]
pub struct FloatType {
    pub bitwidth: u8,
}

/// One field of a user type; its ordinal is its position in `CustomType::fields`.
#[derive(Debug, Clone, PartialEq, Eq)]
pub struct CustomField {
    pub name: String,
    pub ty: Rc<Type>,
}

#[derive(Debug, Clone, PartialEq, Eq)]
pub struct CustomType {
    pub name: String,
    /// Fields in declaration order, which fixes the layout.
    pub fields: Vec<CustomField>,
}

#[derive(Debug, Clone, PartialEq, Eq)]
pub enum Type {
    Void(),
    Float(FloatType),
    Int(IntType),
    Custom(CustomType),
}

impl View for Type {
    type V = TypeView;

    open spec fn view(&self) -> TypeView {
        match self {
            Type::Void() => TypeView::Void,
            Type::Float(f) => TypeView::Float(f.bitwidth),
            Type::Int(i) => TypeView::Int(i.bitwidth),
            Type::Custom(c) => TypeView::Custom(c.name@),
        }
    }
}

/// Index of the field named `name` in `fields`: the last one of that name, as
/// a later declaration of a field name replaces an earlier one.
pub open spec fn spec_field_index(fields: Seq<CustomField>, name: Seq<char>) -> Option<int>
    decreases fields.len(),
{
    if fields.len() == 0 {
        None
    } else if fields.last().name@ == name {
        Some(fields.len() - 1)
    } else {
        spec_field_index(fields.drop_last(), name)
    }
}

pub proof fn lemma_field_index_bounds(fields: Seq<CustomField>, name: Seq<char>)
    ensures
        spec_field_index(fields, name) matches Some(i) ==> 0 <= i < fields.len() && fields[i].name@
            == name,
    decreases fields.len(),
{
    if fields.len() > 0 && fields.last().name@ != name {
        lemma_field_index_bounds(fields.drop_last(), name);
    }
}

impl CustomType {
    /// Looks a field up by name: its ordinal and its type.
    pub fn field(&self, name: &String) -> (r: Option<(usize, Rc<Type>)>)
        ensures
            match spec_field_index(self.fields@, name@) {
                Some(i) => r matches Some((j, t)) && j == i && t == self.fields@[i].ty,
                None => r is None,
            },
    {
        let mut i = self.fields.len();
        proof {
            assert(self.fields@.subrange(0, i as int) =~= self.fields@);
        }
        while i > 0
            invariant
                i <= self.fields@.len(),
                spec_field_index(self.fields@, name@) == spec_field_index(
                    self.fields@.subrange(0, i as int),
                    name@,
                ),
            decreases i,
        {
            let f = &self.fields[i - 1];
            proof {
                let s = self.fields@.subrange(0, i as int);
                assert(s.drop_last() =~= self.fields@.subrange(0, i - 1));
            }
            if f.name == *name {
                return Some((i - 1, share(&f.ty)));
            }
            i = i - 1;
        }
        proof {
            assert(self.fields@.subrange(0, 0).len() == 0);
        }
        None
    }

    /// A user type without fields, named `test`.
    pub fn test_sample() -> (r: CustomType)
        ensures
            r.fields@.len() == 0,
            r.name@ == "test"@,
    {
        CustomType { name: String::from_str("test"), fields: Vec::new() }
    }
}

impl Type {
    /// This type can perform arithmetic.
    pub fn arithmetic(&self) -> (r: bool)
        ensures
            r == self@.is_arithmetic(),
    {
        match self {
            Type::Void() | Type::Custom(_) => false,
            Type::Float(_) | Type::Int(_) => true,
        }
    }

    /// Tells two types apart as the language does: by kind and width, or by name.
    pub fn same(&self, other: &Type) -> (r: bool)
        ensures
            r == (self@ == other@),
    {
        match (self, other) {
            (Type::Void(), Type::Void()) => true,
            (Type::Float(a), Type::Float(b)) => a.bitwidth == b.bitwidth,
            (Type::Int(a), Type::Int(b)) => a.bitwidth == b.bitwidth,
            (Type::Custom(a), Type::Custom(b)) => a.name == b.name,
            _ => false,
        }
    }

    /// The type both operands are brought to before an arithmetic operation or
    /// a comparison: a float wins over an integer, the wider wins within a kind.
    pub fn common_type(lhs: &Rc<Type>, rhs: &Rc<Type>) -> (r: Result<Rc<Type>, CompileError>)
        ensures
            match spec_common_type((**lhs)@, (**rhs)@) {
                Some(t) => r matches Ok(c) && (*c)@ == t && (*c == **lhs || *c == **rhs),
                None => r matches Err(e) && e.kind == ErrorKind::TypeError,
            },
            r matches Ok(c) ==> spec_common_value(**lhs, **rhs) == Some(*c),
    {
        match (&**lhs, &**rhs) {
            (Type::Float(a), Type::Float(b)) => {
                if a.bitwidth > b.bitwidth {
                    Ok(share(lhs))
                } else {
                    Ok(share(rhs))
                }
            },
            (Type::Float(_), Type::Int(_)) => Ok(share(lhs)),
            (Type::Int(_), Type::Float(_)) => Ok(share(rhs)),
            (Type::Int(a), Type::Int(b)) => {
                if a.bitwidth > b.bitwidth {
                    Ok(share(lhs))
                } else {
                    Ok(share(rhs))
                }
            },
            _ => Err(
                CompileError::new(
                    ErrorKind::TypeError,
                    String::from_str("Can't find common type of non-arithmetic types"),
                ),
            ),
        }
    }
}

/// The common type does not depend on the order of the operands.
pub proof fn lemma_common_type_symmetric(a: TypeView, b: TypeView)
    requires
        a.is_arithmetic(),
        b.is_arithmetic(),
    ensures
        spec_common_type(a, b) == spec_common_type(b, a),
        spec_common_type(a, b) is Some,
{
}


} // verus!
