//! Copies of type values that are proved equal in view to the original.
use vstd::prelude::*;
use crate::types::{
    fields_view, members_view, strs, tys, Array, ClassType, Conditional, Custom, EnumMember,
    EnumType, EnumValue, Expr, FieldName, Generic, Index, Inferred, Interface, InterfaceField,
    Intersection, Keyof, Literal, Mapped, MappedKeyType, Named, Optional, This, Tuple, Type,
    TypeParam, Union, Validated, WireSpec,
};

verus! {

pub fn copy_types(v: &Vec<Type>) -> (r: Vec<Type>)
    ensures
        tys(r@) == tys(v@),
    decreases v,
{
    let mut out: Vec<Type> = Vec::new();
    let mut i: usize = 0;
    while i < v.len()
        invariant
            i <= v@.len(),
            out@.len() == i,
            forall|j: int| 0 <= j < i ==> out@[j]@ == v@[j]@,
        decreases v@.len() - i,
    {
        proof {
            vstd::std_specs::vec::axiom_vec_index_decreases(*v, i as int);
        }
        let c = v[i].duplicate();
        out.push(c);
        i += 1;
    }
    assert(tys(out@) =~= tys(v@));
    out
}

pub fn copy_fields(v: &Vec<InterfaceField>) -> (r: Vec<InterfaceField>)
    ensures
        fields_view(r@) == fields_view(v@),
    decreases v,
{
    let mut out: Vec<InterfaceField> = Vec::new();
    let mut i: usize = 0;
    while i < v.len()
        invariant
            i <= v@.len(),
            out@.len() == i,
            forall|j: int| 0 <= j < i ==> out@[j].view() == v@[j].view(),
        decreases v@.len() - i,
    {
        proof {
            vstd::std_specs::vec::axiom_vec_index_decreases(*v, i as int);
        }
        let f = &v[i];
        let c = InterfaceField { name: f.name.duplicate(), optional: f.optional, typ: f.typ.duplicate() };
        out.push(c);
        i += 1;
    }
    assert(fields_view(out@) =~= fields_view(v@));
    out
}

pub fn copy_strings(v: &Vec<String>) -> (r: Vec<String>)
    ensures
        strs(r@) == strs(v@),
{
    let mut out: Vec<String> = Vec::new();
    let mut i: usize = 0;
    while i < v.len()
        invariant
            i <= v@.len(),
            out@.len() == i,
            forall|j: int| 0 <= j < i ==> out@[j]@ == v@[j]@,
        decreases v@.len() - i,
    {
        out.push(v[i].clone());
        i += 1;
    }
    assert(strs(out@) =~= strs(v@));
    out
}

pub fn copy_opt_string(s: &Option<String>) -> (r: Option<String>)
    ensures
        r == *s,
{
    match s {
        Some(x) => Some(x.clone()),
        None => None,
    }
}

impl Expr {
    pub fn duplicate(&self) -> (r: Expr)
        ensures
            r == *self,
        decreases self,
    {
        match self {
            Expr::Rule(id) => Expr::Rule(*id),
            Expr::And(a, b) => Expr::And(Box::new(a.duplicate()), Box::new(b.duplicate())),
            Expr::Or(a, b) => Expr::Or(Box::new(a.duplicate()), Box::new(b.duplicate())),
        }
    }

    /// Both predicates must hold.
    pub fn and(self, other: Expr) -> (r: Expr)
        ensures
            r == Expr::And(Box::new(self), Box::new(other)),
    {
        Expr::And(Box::new(self), Box::new(other))
    }

    /// Either predicate must hold.
    pub fn or(self, other: Expr) -> (r: Expr)
        ensures
            r == Expr::Or(Box::new(self), Box::new(other)),
    {
        Expr::Or(Box::new(self), Box::new(other))
    }
}

impl Literal {
    pub fn duplicate(&self) -> (r: Literal)
        ensures
            r.view() == self.view(),
    {
        match self {
            Literal::String(s) => Literal::String(s.clone()),
            Literal::Boolean(b) => Literal::Boolean(*b),
            Literal::Number(n) => Literal::Number(*n),
            Literal::BigInt(s) => Literal::BigInt(s.clone()),
        }
    }
}

impl FieldName {
    pub fn duplicate(&self) -> (r: FieldName)
        ensures
            r.view() == self.view(),
    {
        match self {
            FieldName::String(s) => FieldName::String(s.clone()),
            FieldName::Symbol(id) => FieldName::Symbol(*id),
        }
    }
}

impl EnumValue {
    pub fn duplicate(&self) -> (r: EnumValue)
        ensures
            r.view() == self.view(),
    {
        match self {
            EnumValue::String(s) => EnumValue::String(s.clone()),
            EnumValue::Number(n) => EnumValue::Number(*n),
        }
    }
}

impl EnumType {
    pub fn duplicate(&self) -> (r: EnumType)
        ensures
            r.view() == self.view(),
    {
        let mut out: Vec<EnumMember> = Vec::new();
        let mut i: usize = 0;
        while i < self.members.len()
            invariant
                i <= self.members@.len(),
                out@.len() == i,
                forall|j: int|
                    0 <= j < i ==> out@[j].name@ == self.members@[j].name@ && out@[j].value.view()
                        == self.members@[j].value.view(),
            decreases self.members@.len() - i,
        {
            let m = &self.members[i];
            out.push(EnumMember { name: m.name.clone(), value: m.value.duplicate() });
            i += 1;
        }
        assert(members_view(out@) =~= members_view(self.members@));
        EnumType { members: out }
    }
}

impl Type {
    /// A copy of this type.
    pub fn duplicate(&self) -> (r: Type)
        ensures
            r@ == self@,
        decreases self,
    {
        match self {
            Type::Basic(b) => Type::Basic(*b),
            Type::Array(a) => Type::Array(Array(Box::new(a.0.duplicate()))),
            Type::Interface(i) => {
                let index = match &i.index {
                    Some(p) => Some((Box::new(p.0.duplicate()), Box::new(p.1.duplicate()))),
                    None => None,
                };
                let call = match &i.call {
                    Some(p) => Some((copy_types(&p.0), copy_types(&p.1))),
                    None => None,
                };
                Type::Interface(Interface { fields: copy_fields(&i.fields), index, call })
            },
            Type::Union(u) => Type::Union(Union { types: copy_types(&u.types) }),
            Type::Tuple(t) => Type::Tuple(Tuple { types: copy_types(&t.types) }),
            Type::Literal(l) => Type::Literal(l.duplicate()),
            Type::Class(c) => Type::Class(ClassType { methods: copy_strings(&c.methods) }),
            Type::Enum(e) => Type::Enum(e.duplicate()),
            Type::Named(n) => Type::Named(
                Named { obj: n.obj, type_arguments: copy_types(&n.type_arguments) },
            ),
            Type::Optional(o) => Type::Optional(Optional(Box::new(o.0.duplicate()))),
            Type::This(_) => Type::This(This),
            Type::Generic(g) => Type::Generic(
                match g {
                    Generic::TypeParam(p) => Generic::TypeParam(
                        TypeParam {
                            idx: p.idx,
                            constraint: match &p.constraint {
                                Some(c) => Some(Box::new(c.duplicate())),
                                None => None,
                            },
                        },
                    ),
                    Generic::Index(x) => Generic::Index(
                        Index {
                            source: Box::new(x.source.duplicate()),
                            index: Box::new(x.index.duplicate()),
                        },
                    ),
                    Generic::Mapped(m) => Generic::Mapped(
                        Mapped {
                            in_type: Box::new(m.in_type.duplicate()),
                            value_type: Box::new(m.value_type.duplicate()),
                            optional: m.optional,
                        },
                    ),
                    Generic::MappedKeyType(_) => Generic::MappedKeyType(MappedKeyType),
                    Generic::Keyof(k) => Generic::Keyof(Keyof(Box::new(k.0.duplicate()))),
                    Generic::Conditional(c) => Generic::Conditional(
                        Conditional {
                            check_type: Box::new(c.check_type.duplicate()),
                            extends_type: Box::new(c.extends_type.duplicate()),
                            true_type: Box::new(c.true_type.duplicate()),
                            false_type: Box::new(c.false_type.duplicate()),
                        },
                    ),
                    Generic::Intersection(x) => Generic::Intersection(
                        Intersection { x: Box::new(x.x.duplicate()), y: Box::new(x.y.duplicate()) },
                    ),
                    Generic::Inferred(i) => Generic::Inferred(Inferred(i.0)),
                },
            ),
            Type::Validation(e) => Type::Validation(e.duplicate()),
            Type::Validated(v) => Type::Validated(
                Validated { typ: Box::new(v.typ.duplicate()), expr: v.expr.duplicate() },
            ),
            Type::Custom(Custom::WireSpec(w)) => Type::Custom(
                Custom::WireSpec(
                    WireSpec {
                        location: w.location,
                        underlying: Box::new(w.underlying.duplicate()),
                        name_override: copy_opt_string(&w.name_override),
                    },
                ),
            ),
        }
    }
}

} // verus!
