//! Laws of the type algebra, proved over the model.
use vstd::prelude::*;
use crate::identity::{identical, iface_identical, last_named, lit_eq, zip_identical};
use crate::types::{Basic, Field, Gen, Iface, Ty};
use crate::union::{canonical_union, first_merge, merge_into, union_members, union_merge};
use crate::intersect::{lemma_meet_absorbing, meet};
use crate::assign::{assign, assign_fields, assign_structural, lemma_assign_shapes};
use crate::extends::{ext, lemma_ext_head, lemma_ext_wrappers, Ext};
use crate::shape::size;

verus! {

/// Whether no two fields share a name.
pub open spec fn distinct_names(fs: Seq<Field>) -> bool {
    forall|i: int, j: int| 0 <= i < j < fs.len() ==> fs[i].name != fs[j].name
}

/// A type in which no interface has two fields of one name, at any depth.
pub open spec fn self_comparable(t: Ty) -> bool
    decreases t,
{
    match t {
        Ty::Array(x) => self_comparable(*x),
        Ty::Optional(x) => self_comparable(*x),
        Ty::Union(xs) => forall|i: int| 0 <= i < xs.len() ==> self_comparable(#[trigger] xs[i]),
        Ty::Tuple(xs) => forall|i: int| 0 <= i < xs.len() ==> self_comparable(#[trigger] xs[i]),
        Ty::Named(_, xs) => forall|i: int|
            0 <= i < xs.len() ==> self_comparable(#[trigger] xs[i]),
        Ty::Interface(x) => {
            &&& distinct_names(x.fields)
            &&& forall|i: int|
                0 <= i < x.fields.len() ==> self_comparable(#[trigger] x.fields[i].typ)
            &&& match x.index {
                Some(p) => self_comparable(*p.0) && self_comparable(*p.1),
                None => true,
            }
        },
        Ty::Generic(g) => match g {
            Gen::TypeParam(_, c) => match c {
                Some(c) => self_comparable(*c),
                None => true,
            },
            Gen::Index(a, b) => self_comparable(*a) && self_comparable(*b),
            Gen::Mapped(a, b, _) => self_comparable(*a) && self_comparable(*b),
            Gen::Keyof(a) => self_comparable(*a),
            Gen::Conditional(a, b, c, d) => self_comparable(*a) && self_comparable(*b)
                && self_comparable(*c) && self_comparable(*d),
            Gen::Intersection(a, b) => self_comparable(*a) && self_comparable(*b),
            _ => true,
        },
        Ty::Validated(x, _) => self_comparable(*x),
        Ty::Wire(_, x, _) => self_comparable(*x),
        _ => true,
    }
}

/// With distinct names, the last field named like field `j` is field `j`.
pub proof fn lemma_last_named_distinct(fs: Seq<Field>, j: int)
    requires
        distinct_names(fs),
        0 <= j < fs.len(),
    ensures
        last_named(fs, fs[j].name) == j,
    decreases fs.len(),
{
    if j < fs.len() - 1 {
        let d = fs.drop_last();
        assert(d[j] == fs[j]);
        assert(distinct_names(d)) by {
            assert forall|a: int, b: int| 0 <= a < b < d.len() implies d[a].name != d[b].name by {
                assert(d[a] == fs[a] && d[b] == fs[b]);
            }
        }
        lemma_last_named_distinct(d, j);
    }
}

/// Identity is reflexive: every type is identical to itself, as long as no
/// interface in it has two fields of one name.
pub proof fn identical_reflexive(t: Ty)
    requires
        self_comparable(t),
    ensures
        identical(t, t),
    decreases t,
{
    match t {
        Ty::Literal(l) => {
            assert(lit_eq(l, l));
        },
        Ty::Array(x) => identical_reflexive(*x),
        Ty::Optional(x) => identical_reflexive(*x),
        Ty::Union(xs) => {
            assert forall|i: int| 0 <= i < xs.len() && i < xs.len() implies identical(
                xs[i],
                xs[i],
            ) by {
                identical_reflexive(xs[i]);
            }
            assert(zip_identical(xs, xs));
        },
        Ty::Tuple(xs) => {
            assert forall|i: int| 0 <= i < xs.len() && i < xs.len() implies identical(
                xs[i],
                xs[i],
            ) by {
                identical_reflexive(xs[i]);
            }
            assert(zip_identical(xs, xs));
        },
        Ty::Named(_, xs) => {
            assert forall|i: int| 0 <= i < xs.len() && i < xs.len() implies identical(
                xs[i],
                xs[i],
            ) by {
                identical_reflexive(xs[i]);
            }
            assert(zip_identical(xs, xs));
        },
        Ty::Interface(x) => {
            assert forall|j: int| 0 <= j < x.fields.len() implies {
                let k = last_named(x.fields, (#[trigger] x.fields[j]).name);
                &&& 0 <= k < x.fields.len()
                &&& x.fields[k].optional == x.fields[j].optional
                &&& identical(x.fields[k].typ, x.fields[j].typ)
            } by {
                lemma_last_named_distinct(x.fields, j);
                identical_reflexive(x.fields[j].typ);
            }
            match x.index {
                Some(p) => {
                    identical_reflexive(*p.0);
                    identical_reflexive(*p.1);
                },
                None => {},
            }
            assert(iface_identical(x, x));
        },
        Ty::Generic(g) => {
            match g {
                Gen::TypeParam(_, c) => {
                    match c {
                        Some(c) => identical_reflexive(*c),
                        None => {},
                    }
                },
                Gen::Index(a, b) => {
                    identical_reflexive(*a);
                    identical_reflexive(*b);
                },
                Gen::Mapped(a, b, _) => {
                    identical_reflexive(*a);
                    identical_reflexive(*b);
                },
                Gen::Keyof(a) => identical_reflexive(*a),
                Gen::Conditional(a, b, c, d) => {
                    identical_reflexive(*a);
                    identical_reflexive(*b);
                    identical_reflexive(*c);
                    identical_reflexive(*d);
                },
                Gen::Intersection(a, b) => {
                    identical_reflexive(*a);
                    identical_reflexive(*b);
                },
                _ => {},
            }
        },
        Ty::Validated(x, _) => identical_reflexive(*x),
        Ty::Wire(_, x, _) => identical_reflexive(*x),
        _ => {},
    }
}

/// Union idempotence: the union of a type with itself is that type, for
/// every type other than `never` and a bare validation (two of which merge
/// into their disjunction), as long as no interface in it has two fields of
/// one name.
pub proof fn union_idempotent(t: Ty)
    requires
        t != Ty::Basic(Basic::Never),
        !(t is Validation),
        self_comparable(t),
    ensures
        identical(canonical_union(seq![t, t]), t),
{
    identical_reflexive(t);
    let s = seq![t, t];
    assert(s.drop_last() =~= seq![t]);
    assert(seq![t].drop_last() =~= Seq::<Ty>::empty());
    assert(union_members(Seq::<Ty>::empty()) =~= Seq::<Ty>::empty());
    assert(seq![t].last() == t);
    assert(union_members(seq![t]) =~= seq![t]) by {
        assert(first_merge(Seq::<Ty>::empty(), t, 0) == -1);
        assert(merge_into(Seq::<Ty>::empty(), t) =~= seq![t]);
    }
    assert(union_merge(t, t) == Some(t));
    assert(first_merge(seq![t], t, 0) == 0);
    assert(union_members(s) =~= seq![t]);
}

/// Never elimination: `never | t` is `t`.
pub proof fn never_eliminated(t: Ty)
    ensures
        canonical_union(seq![Ty::Basic(Basic::Never), t]) == t,
{
    let s = seq![Ty::Basic(Basic::Never), t];
    assert(s.drop_last() =~= seq![Ty::Basic(Basic::Never)]);
    assert(seq![Ty::Basic(Basic::Never)].drop_last() =~= Seq::<Ty>::empty());
    assert(union_members(Seq::<Ty>::empty()) =~= Seq::<Ty>::empty());
    assert(seq![Ty::Basic(Basic::Never)].last() == Ty::Basic(Basic::Never));
    assert(union_members(seq![Ty::Basic(Basic::Never)]) =~= Seq::<Ty>::empty());
    if t != Ty::Basic(Basic::Never) {
        assert(first_merge(Seq::<Ty>::empty(), t, 0) == -1);
        assert(merge_into(Seq::<Ty>::empty(), t) =~= seq![t]);
        assert(union_members(s) =~= seq![t]);
    }
}

/// Absorption: `t & unknown` is `t`, `t & any` is `any`, and `t & never` is
/// `never` unless `t` is `any` (which absorbs first).
pub proof fn intersect_absorbing(st: Seq<(Ty, Ty)>, t: Ty, fuel: nat)
    ensures
        meet(st, t, Ty::Basic(Basic::Unknown), fuel) == t,
        meet(st, t, Ty::Basic(Basic::Any), fuel) == Ty::Basic(Basic::Any),
        t != Ty::Basic(Basic::Any) ==> meet(st, t, Ty::Basic(Basic::Never), fuel) == Ty::Basic(
            Basic::Never,
        ),
{
    lemma_meet_absorbing(st, t, Ty::Basic(Basic::Unknown), fuel);
    lemma_meet_absorbing(st, t, Ty::Basic(Basic::Any), fuel);
    lemma_meet_absorbing(st, t, Ty::Basic(Basic::Never), fuel);
}

/// Indeterminate propagation: when no field of the target interface is
/// refused and one is undecided, assignability between the two interfaces
/// is undecided, never yes.
pub proof fn undecided_field_undecides(st: Seq<(Ty, Ty)>, x: Iface, y: Iface, fuel: nat)
    requires
        ({
            let rs = assign_fields(
                st,
                x.fields,
                y.fields,
                fuel,
                size(Ty::Interface(x)) + size(Ty::Interface(y)),
            );
            &&& forall|j: int| 0 <= j < rs.len() ==> rs[j] != Some(false)
            &&& exists|j: int| 0 <= j < rs.len() && rs[j] is None
        }),
    ensures
        assign(st, Ty::Interface(x), Ty::Interface(y), fuel) is None,
{
    let a = Ty::Interface(x);
    let b = Ty::Interface(y);
    assert(assign_structural(a, b));
    lemma_assign_shapes(st, a, b, fuel);
}

/// `undefined` extends every optional type, with no bindings, whatever its
/// inner type.
pub proof fn undefined_extends_optional(st: Seq<(Ty, Ty)>, x: Ty, fuel: nat)
    ensures
        ext(st, Ty::Basic(Basic::Undefined), Ty::Optional(Box::new(x)), fuel) == Ext::Yes(
            Seq::empty(),
        ),
        assign(st, Ty::Basic(Basic::Undefined), Ty::Optional(Box::new(x)), fuel) == Some(true),
{
    let a = Ty::Basic(Basic::Undefined);
    let b = Ty::Optional(Box::new(x));
    lemma_ext_head(st, a, b, fuel);
    lemma_ext_wrappers(st, a, b, fuel);
    crate::assign::lemma_assign_head(st, a, b, fuel);
    crate::assign::lemma_assign_wrappers(st, a, b, fuel);
}

} // verus!
