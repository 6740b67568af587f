//! The size of a type, which bounds the recursion of the algebra, and the
//! members of a type read as a union.
use vstd::prelude::*;
use crate::types::{tys, Basic, Field, Gen, Ty, Type};

verus! {

/// The number of nodes of a type.
pub open spec fn size(t: Ty) -> nat
    decreases t, 1nat,
{
    1 + match t {
        Ty::Array(x) => size(*x),
        Ty::Optional(x) => size(*x),
        Ty::Union(xs) => sizes(xs),
        Ty::Tuple(xs) => sizes(xs),
        Ty::Named(_, xs) => sizes(xs),
        Ty::Interface(i) => field_sizes(i.fields) + match i.index {
            Some(p) => size(*p.0) + size(*p.1),
            None => 0,
        },
        Ty::Validated(x, _) => size(*x),
        Ty::Wire(_, x, _) => size(*x),
        Ty::Generic(g) => match g {
            Gen::TypeParam(_, c) => match c {
                Some(c) => size(*c),
                None => 0,
            },
            Gen::Index(x, y) => size(*x) + size(*y),
            Gen::Mapped(x, y, _) => size(*x) + size(*y),
            Gen::Keyof(x) => size(*x),
            Gen::Conditional(a, b, c, d) => size(*a) + size(*b) + size(*c) + size(*d),
            Gen::Intersection(x, y) => size(*x) + size(*y),
            _ => 0,
        },
        _ => 0,
    }
}

/// The sum of the sizes of a sequence of types.
pub open spec fn sizes(xs: Seq<Ty>) -> nat
    decreases xs, 0nat,
{
    if xs.len() == 0 {
        0
    } else {
        sizes(xs.drop_last()) + size(xs.last())
    }
}

/// The sum of the sizes of the types of a sequence of fields.
pub open spec fn field_sizes(fs: Seq<Field>) -> nat
    decreases fs, 0nat,
{
    if fs.len() == 0 {
        0
    } else {
        field_sizes(fs.drop_last()) + size(fs.last().typ)
    }
}

pub proof fn lemma_sizes_member(xs: Seq<Ty>, i: int)
    requires
        0 <= i < xs.len(),
    ensures
        size(xs[i]) <= sizes(xs),
    decreases xs.len(),
{
    if i < xs.len() - 1 {
        lemma_sizes_member(xs.drop_last(), i);
    }
}

pub proof fn lemma_field_sizes_member(fs: Seq<Field>, i: int)
    requires
        0 <= i < fs.len(),
    ensures
        size(fs[i].typ) <= field_sizes(fs),
    decreases fs.len(),
{
    if i < fs.len() - 1 {
        lemma_field_sizes_member(fs.drop_last(), i);
    }
}

/// The members of a type read as a union: the members of a union, and of
/// each member in turn; the members of an optional type's inner type, then
/// `undefined`; the members of a validated type's carried type; else the type
/// itself.
pub open spec fn unions(t: Ty) -> Seq<Ty>
    decreases t, 1nat,
{
    match t {
        Ty::Union(xs) => unions_of(xs),
        Ty::Optional(x) => unions(*x).push(Ty::Basic(Basic::Undefined)),
        Ty::Validated(x, _) => unions(*x),
        _ => seq![t],
    }
}

/// The members of each type of `xs` read as a union, in order.
pub open spec fn unions_of(xs: Seq<Ty>) -> Seq<Ty>
    decreases xs, 0nat,
{
    if xs.len() == 0 {
        Seq::empty()
    } else {
        unions_of(xs.drop_last()) + unions(xs.last())
    }
}

/// Whether a type is one that `unions` takes apart.
pub open spec fn is_compound(t: Ty) -> bool {
    t is Union || t is Optional || t is Validated
}

/// Every member of a type read as a union is at most as large as the type,
/// and smaller when the type is taken apart.
pub proof fn lemma_unions_size(t: Ty)
    ensures
        forall|i: int|
            0 <= i < unions(t).len() ==> size(#[trigger] unions(t)[i]) <= size(t) && (is_compound(t)
                ==> size(unions(t)[i]) < size(t)),
        !is_compound(t) ==> unions(t) == seq![t],
    decreases t, 1nat,
{
    match t {
        Ty::Union(xs) => {
            lemma_unions_of_size(xs);
            assert(unions(t) == unions_of(xs));
            assert(size(t) == 1 + sizes(xs));
            assert forall|i: int| 0 <= i < unions(t).len() implies size(#[trigger] unions(t)[i])
                < size(t) by {
                assert(unions(t)[i] == unions_of(xs)[i]);
            }
        },
        Ty::Optional(x) => {
            lemma_unions_size(*x);
            let u = unions(*x);
            assert forall|i: int| 0 <= i < unions(t).len() implies size(#[trigger] unions(t)[i])
                < size(t) by {
                if i < u.len() {
                    assert(unions(t)[i] == u[i]);
                } else {
                    assert(unions(t)[i] == Ty::Basic(Basic::Undefined));
                    assert(size(*x) >= 1);
                }
            }
        },
        Ty::Validated(x, _) => {
            lemma_unions_size(*x);
            assert(unions(t) == unions(*x));
            assert forall|i: int| 0 <= i < unions(t).len() implies size(#[trigger] unions(t)[i])
                < size(t) by {
                assert(unions(t)[i] == unions(*x)[i]);
            }
        },
        _ => {
            assert(unions(t) == seq![t]);
            assert forall|i: int| 0 <= i < unions(t).len() implies size(#[trigger] unions(t)[i])
                <= size(t) by {
                assert(unions(t)[i] == t);
            }
        },
    }
}

pub proof fn lemma_unions_of_size(xs: Seq<Ty>)
    ensures
        forall|i: int|
            0 <= i < unions_of(xs).len() ==> size(#[trigger] unions_of(xs)[i]) <= sizes(xs),
    decreases xs, 0nat,
{
    if xs.len() > 0 {
        let d = xs.drop_last();
        lemma_unions_of_size(d);
        lemma_unions_size(xs.last());
        let a = unions_of(d);
        let b = unions(xs.last());
        assert forall|i: int| 0 <= i < unions_of(xs).len() implies size(
            #[trigger] unions_of(xs)[i],
        ) <= sizes(xs) by {
            if i < a.len() {
                assert(unions_of(xs)[i] == a[i]);
            } else {
                assert(unions_of(xs)[i] == b[i - a.len()]);
            }
        }
    }
}

impl Type {
    /// The members of this type read as a union (see `unions`).
    pub fn iter_unions(&self) -> (r: Vec<Type>)
        ensures
            tys(r@) == unions(self@),
        decreases self,
    {
        match self {
            Type::Union(u) => {
                let mut out: Vec<Type> = Vec::new();
                let mut i: usize = 0;
                let ghost xs = tys(u.types@);
                assert(xs.subrange(0, 0) =~= Seq::<Ty>::empty());
                while i < u.types.len()
                    invariant
                        *self is Union && self->Union_0 == *u,
                        xs == tys(u.types@),
                        i <= u.types@.len(),
                        tys(out@) == unions_of(xs.subrange(0, i as int)),
                    decreases u.types@.len() - i,
                {
                    proof {
                        vstd::std_specs::vec::axiom_vec_index_decreases(u.types, i as int);
                    }
                    let part = u.types[i].iter_unions();
                    let ghost before = out@;
                    append_copies(&mut out, &part);
                    proof {
                        let s = xs.subrange(0, i + 1);
                        assert(s.drop_last() =~= xs.subrange(0, i as int));
                        assert(s.last() == u.types@[i as int]@);
                    }
                    i += 1;
                }
                assert(xs.subrange(0, u.types@.len() as int) =~= xs);
                out
            },
            Type::Optional(o) => {
                let mut out = o.0.iter_unions();
                let ghost before = out@;
                out.push(Type::Basic(Basic::Undefined));
                assert(tys(out@) =~= tys(before).push(Ty::Basic(Basic::Undefined)));
                out
            },
            Type::Validated(v) => v.typ.iter_unions(),
            _ => {
                let out = vec![self.duplicate()];
                assert(tys(out@) =~= seq![self@]);
                out
            },
        }
    }

    /// The members of this type read as a union (see `unions`), taking the
    /// type.
    pub fn into_iter_unions(self) -> (r: Vec<Type>)
        ensures
            tys(r@) == unions(self@),
    {
        match self {
            Type::Union(u) => {
                let t = Type::Union(u);
                t.iter_unions()
            },
            Type::Optional(o) => {
                let t = Type::Optional(o);
                t.iter_unions()
            },
            Type::Validated(v) => {
                let t = Type::Validated(v);
                t.iter_unions()
            },
            other => {
                let out = vec![other];
                assert(tys(out@) =~= seq![other@]);
                out
            },
        }
    }
}

pub fn append_copies(out: &mut Vec<Type>, part: &Vec<Type>)
    ensures
        tys(final(out)@) == tys(old(out)@) + tys(part@),
{
    let ghost before = out@;
    let mut j: usize = 0;
    while j < part.len()
        invariant
            j <= part@.len(),
            out@.len() == before.len() + j,
            forall|k: int| 0 <= k < before.len() ==> out@[k] == before[k],
            forall|k: int| 0 <= k < j ==> out@[before.len() + k]@ == part@[k]@,
        decreases part@.len() - j,
    {
        out.push(part[j].duplicate());
        j += 1;
    }
    assert(tys(out@) =~= tys(before) + tys(part@));
}

} // verus!
