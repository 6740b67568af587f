//! Merging two types into one, and simplifying a list of types into a union.
use vstd::prelude::*;
use crate::identity::identical;
use crate::types::{tys, Basic, Expr, Lit, Literal, Ty, Type, Union, Validated};

verus! {

/// The basic kind that a literal belongs to.
pub open spec fn lit_basic(l: Lit) -> Basic {
    match l {
        Lit::Str(_) => Basic::String,
        Lit::Bool(_) => Basic::Boolean,
        Lit::Num(_, _) => Basic::Number,
        Lit::BigInt(_) => Basic::BigInt,
    }
}

/// The single type that `a | b` collapses to, if a rule applies.
pub open spec fn union_merge(a: Ty, b: Ty) -> Option<Ty> {
    if a == Ty::Basic(Basic::Any) || b == Ty::Basic(Basic::Any) {
        Some(Ty::Basic(Basic::Any))
    } else {
        match (a, b) {
            (Ty::Basic(k), Ty::Literal(l)) if k == lit_basic(l) => Some(Ty::Basic(k)),
            (Ty::Literal(l), Ty::Basic(k)) if k == lit_basic(l) => Some(Ty::Basic(k)),
            (Ty::Validation(x), Ty::Validation(y)) => Some(
                Ty::Validation(Expr::Or(Box::new(x), Box::new(y))),
            ),
            (Ty::Validated(t, e), Ty::Validation(x)) => Some(
                Ty::Validated(t, Expr::Or(Box::new(e), Box::new(x))),
            ),
            (Ty::Validation(x), Ty::Validated(t, e)) => Some(
                Ty::Validated(t, Expr::Or(Box::new(e), Box::new(x))),
            ),
            _ => if identical(a, b) {
                Some(a)
            } else {
                None
            },
        }
    }
}

/// `a | b`: the merged type where a rule applies, else a union of the two.
pub open spec fn simplify_or_union(a: Ty, b: Ty) -> Ty {
    match union_merge(a, b) {
        Some(t) => t,
        None => Ty::Union(seq![a, b]),
    }
}

/// The position, from `j` on, of the first member of `rs` that merges with `t`,
/// or -1.
pub open spec fn first_merge(rs: Seq<Ty>, t: Ty, j: int) -> int
    decreases rs.len() - j,
{
    if j < 0 || j >= rs.len() {
        -1
    } else if union_merge(rs[j], t) is Some {
        j
    } else {
        first_merge(rs, t, j + 1)
    }
}

/// Adds `t` to the distinct members `rs`: merged into the first member that
/// it merges with, else appended.
pub open spec fn merge_into(rs: Seq<Ty>, t: Ty) -> Seq<Ty> {
    let j = first_merge(rs, t, 0);
    if j >= 0 {
        rs.update(j, union_merge(rs[j], t).unwrap())
    } else {
        rs.push(t)
    }
}

/// The distinct members left after folding `ts` from the left, dropping
/// `never`.
pub open spec fn union_members(ts: Seq<Ty>) -> Seq<Ty>
    decreases ts.len(),
{
    if ts.len() == 0 {
        Seq::empty()
    } else {
        let rs = union_members(ts.drop_last());
        if ts.last() == Ty::Basic(Basic::Never) {
            rs
        } else {
            merge_into(rs, ts.last())
        }
    }
}

/// The canonical union of `ts`: `never` when nothing is left, the one member
/// when one is left, else a union of the members left.
pub open spec fn canonical_union(ts: Seq<Ty>) -> Ty {
    let rs = union_members(ts);
    if rs.len() == 0 {
        Ty::Basic(Basic::Never)
    } else if rs.len() == 1 {
        rs[0]
    } else {
        Ty::Union(rs)
    }
}

impl Literal {
    /// The basic kind this literal belongs to.
    pub fn basic(&self) -> (r: Basic)
        ensures
            r == lit_basic(self.view()),
    {
        match self {
            Literal::String(_) => Basic::String,
            Literal::Boolean(_) => Basic::Boolean,
            Literal::Number(_) => Basic::Number,
            Literal::BigInt(_) => Basic::BigInt,
        }
    }
}

impl Type {
    /// Returns the type that `self | other` collapses to, if a rule applies.
    pub fn union_merge(&self, other: &Type) -> (r: Option<Type>)
        ensures
            match r {
                Some(t) => union_merge(self@, other@) == Some(t@),
                None => union_merge(self@, other@) is None,
            },
    {
        match (self, other) {
            (Type::Basic(Basic::Any), _) | (_, Type::Basic(Basic::Any)) => {
                return Some(Type::Basic(Basic::Any));
            },
            _ => {},
        }
        match (self, other) {
            (Type::Basic(k), Type::Literal(l)) => {
                if *k == l.basic() {
                    return Some(Type::Basic(*k));
                }
            },
            (Type::Literal(l), Type::Basic(k)) => {
                if *k == l.basic() {
                    return Some(Type::Basic(*k));
                }
            },
            (Type::Validation(a), Type::Validation(b)) => {
                return Some(Type::Validation(a.duplicate().or(b.duplicate())));
            },
            (Type::Validated(v), Type::Validation(e)) => {
                return Some(
                    Type::Validated(
                        Validated { typ: Box::new(v.typ.duplicate()), expr: v.expr.duplicate().or(e.duplicate()) },
                    ),
                );
            },
            (Type::Validation(e), Type::Validated(v)) => {
                return Some(
                    Type::Validated(
                        Validated { typ: Box::new(v.typ.duplicate()), expr: v.expr.duplicate().or(e.duplicate()) },
                    ),
                );
            },
            _ => {},
        }
        if self.identical(other) {
            Some(self.duplicate())
        } else {
            None
        }
    }

    /// `self | other`: the merged type where a rule applies, else a union of
    /// the two.
    pub fn simplify_or_union(self, other: Type) -> (r: Type)
        ensures
            r@ == simplify_or_union(self@, other@),
    {
        match self.union_merge(&other) {
            Some(t) => t,
            None => {
                let v = vec![self, other];
                let r = Type::Union(Union { types: v });
                assert(tys(v@) =~= seq![self@, other@]);
                r
            },
        }
    }
}

/// Simplifies a list of types into their canonical union.
pub fn simplify_union(types: Vec<Type>) -> (r: Type)
    ensures
        r@ == canonical_union(tys(types@)),
{
    let ghost ts = tys(types@);
    let mut results: Vec<Type> = Vec::new();
    let mut i: usize = 0;
    assert(ts.subrange(0, 0) =~= Seq::<Ty>::empty());
    while i < types.len()
        invariant
            ts == tys(types@),
            i <= types@.len(),
            tys(results@) == union_members(ts.subrange(0, i as int)),
        decreases types@.len() - i,
    {
        let typ = &types[i];
        let ghost before = tys(results@);
        assert(ts.subrange(0, i + 1).drop_last() =~= ts.subrange(0, i as int));
        assert(ts.subrange(0, i + 1).last() == typ@);
        let is_never = match typ {
            Type::Basic(Basic::Never) => true,
            _ => false,
        };
        if !is_never {
            let mut found = false;
            let mut j: usize = 0;
            while j < results.len()
                invariant_except_break
                    before == tys(results@),
                    first_merge(before, typ@, 0) == first_merge(before, typ@, j as int),
                    !found,
                invariant
                    j <= results@.len(),
                    results@.len() == before.len(),
                ensures
                    found ==> tys(results@) == merge_into(before, typ@),
                    !found ==> before == tys(results@) && first_merge(before, typ@, 0) == -1,
                decreases results@.len() - j,
            {
                assert(before[j as int] == results@[j as int]@);
                match results[j].union_merge(typ) {
                    Some(u) => {
                        results.set(j, u);
                        found = true;
                        proof {
                            assert(tys(results@) =~= merge_into(before, typ@));
                        }
                        break;
                    },
                    None => {},
                }
                j += 1;
            }
            if !found {
                let c = typ.duplicate();
                results.push(c);
                proof {
                    assert(tys(results@) =~= merge_into(before, typ@));
                }
            }
        }
        i += 1;
    }
    assert(ts.subrange(0, types@.len() as int) =~= ts);
    let n = results.len();
    if n == 0 {
        Type::Basic(Basic::Never)
    } else if n == 1 {
        assert(tys(results@)[0] == results@[0]@);
        results.remove(0)
    } else {
        Type::Union(Union { types: results })
    }
}

} // verus!
