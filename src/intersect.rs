//! The intersection `a & b` of two types.
use vstd::prelude::*;
use indexmap::IndexMap;
use crate::identity::{literal_eq, lit_eq};
use crate::resolve::{expand, ResolveState, EXPANSION_LIMIT};
use crate::shape::{lemma_field_sizes_member, lemma_sizes_member, lemma_unions_size, size, unions};
use crate::types::{
    fields_view, tys, Array, Basic, Expr, Field, FieldName, Gen, Generic, Iface, Interface,
    InterfaceField, Intersection, Lit, Name, Optional, This, Tuple, Ty, Type, Validated,
};
use crate::union::{canonical_union, lit_basic, simplify_union};

verus! {

/// Whether the literal `l` lies in the basic kind `k`.
pub open spec fn lit_in(l: Lit, k: Basic) -> bool {
    k == lit_basic(l) || k == Basic::Any || k == Basic::Unknown
}

/// The intersection `a & b` in the context `st`, expanding at most
/// `fuel` named types one inside the other.
#[verifier::opaque]
pub open spec fn meet(st: Seq<(Ty, Ty)>, a: Ty, b: Ty, fuel: nat) -> Ty
    decreases fuel, size(a) + size(b), 2nat,
{
    let bound = size(a) + size(b);
    if a == Ty::Basic(Basic::Unknown) {
        b
    } else if b == Ty::Basic(Basic::Unknown) {
        a
    } else if a == Ty::Basic(Basic::Any) || b == Ty::Basic(Basic::Any) {
        Ty::Basic(Basic::Any)
    } else if a == Ty::Basic(Basic::Never) || b == Ty::Basic(Basic::Never) {
        Ty::Basic(Basic::Never)
    } else {
        match (a, b) {
            (Ty::Basic(x), Ty::Basic(y)) => if x == y {
                Ty::Basic(x)
            } else {
                Ty::Basic(Basic::Never)
            },
            (Ty::Union(xs), Ty::Union(ys)) => canonical_union(
                cross(st, xs, ys, fuel, bound).flatten_alt(),
            ),
            (Ty::Union(_), _) => canonical_union(meet_all(st, unions(a), b, false, fuel, bound)),
            (_, Ty::Union(_)) => canonical_union(meet_all(st, unions(b), a, false, fuel, bound)),
            (Ty::Literal(x), Ty::Literal(y)) if lit_eq(x, y) => a,
            (Ty::Literal(l), Ty::Basic(k)) => if lit_in(l, k) {
                a
            } else {
                Ty::Basic(Basic::Never)
            },
            (Ty::Basic(k), Ty::Literal(l)) => if lit_in(l, k) {
                b
            } else {
                Ty::Basic(Basic::Never)
            },
            (Ty::Array(x), Ty::Array(y)) => Ty::Array(Box::new(meet_under(st, *x, *y, fuel, bound))),
            (Ty::Array(x), Ty::Tuple(ys)) => Ty::Array(
                Box::new(
                    if ys.len() == 0 {
                        Ty::Basic(Basic::Never)
                    } else {
                        meet_under(st, *x, ys[0], fuel, bound)
                    },
                ),
            ),
            (Ty::Tuple(ys), Ty::Array(x)) => Ty::Array(
                Box::new(
                    if ys.len() == 0 {
                        Ty::Basic(Basic::Never)
                    } else {
                        meet_under(st, *x, ys[0], fuel, bound)
                    },
                ),
            ),
            (Ty::Tuple(xs), Ty::Tuple(ys)) => Ty::Tuple(zip_meet(st, xs, ys, fuel, bound)),
            (Ty::Optional(x), Ty::Optional(y)) => Ty::Optional(
                Box::new(meet_under(st, *x, *y, fuel, bound)),
            ),
            (Ty::Optional(_), _) => canonical_union(meet_all(st, unions(a), b, false, fuel, bound)),
            (_, Ty::Optional(_)) => canonical_union(meet_all(st, unions(b), a, false, fuel, bound)),
            (Ty::This, Ty::This) => Ty::This,
            (Ty::Validated(t, e), Ty::Validation(x)) => Ty::Validated(
                t,
                Expr::And(Box::new(e), Box::new(x)),
            ),
            (Ty::Validation(x), Ty::Validated(t, e)) => Ty::Validated(
                t,
                Expr::And(Box::new(x), Box::new(e)),
            ),
            (Ty::Validation(x), Ty::Validation(y)) => Ty::Validation(
                Expr::And(Box::new(x), Box::new(y)),
            ),
            (_, Ty::Validation(e)) => Ty::Validated(Box::new(a), e),
            (Ty::Validation(e), _) => Ty::Validated(Box::new(b), e),
            (Ty::Generic(_), _) => Ty::Generic(Gen::Intersection(Box::new(a), Box::new(b))),
            (_, Ty::Generic(_)) => Ty::Generic(Gen::Intersection(Box::new(a), Box::new(b))),
            (Ty::Class(_), Ty::Class(_)) => Ty::Generic(
                Gen::Intersection(Box::new(a), Box::new(b)),
            ),
            (Ty::Named(_, _), _) => if fuel == 0 {
                Ty::Basic(Basic::Never)
            } else {
                meet(st, expand(st, a), b, (fuel - 1) as nat)
            },
            (_, Ty::Named(_, _)) => if fuel == 0 {
                Ty::Basic(Basic::Never)
            } else {
                meet(st, a, expand(st, b), (fuel - 1) as nat)
            },
            (Ty::Interface(x), Ty::Interface(y)) => Ty::Interface(iface_meet(st, x, y, fuel, bound)),
            (Ty::Interface(_), Ty::Class(_)) => Ty::Generic(
                Gen::Intersection(Box::new(a), Box::new(b)),
            ),
            (Ty::Class(_), Ty::Interface(_)) => Ty::Generic(
                Gen::Intersection(Box::new(a), Box::new(b)),
            ),
            _ => Ty::Basic(Basic::Never),
        }
    }
}

/// `a & b` for parts `a` and `b` of the operands of an intersection whose
/// sizes add up to `bound`. The parts the algebra recurses into are always
/// smaller together than the operands.
pub open spec fn meet_under(st: Seq<(Ty, Ty)>, a: Ty, b: Ty, fuel: nat, bound: nat) -> Ty
    decreases fuel, bound, 1nat,
{
    if size(a) + size(b) < bound {
        meet(st, a, b, fuel)
    } else {
        Ty::Basic(Basic::Never)
    }
}

/// The members `ms` each met with `other`: `other & m` when `other_first`,
/// else `m & other`.
pub open spec fn meet_all(
    st: Seq<(Ty, Ty)>,
    ms: Seq<Ty>,
    other: Ty,
    other_first: bool,
    fuel: nat,
    bound: nat,
) -> Seq<Ty>
    decreases fuel, bound, 0nat,
{
    Seq::new(
        ms.len(),
        |i: int|
            if 0 <= i < ms.len() && size(ms[i]) + size(other) < bound {
                if other_first {
                    meet(st, other, ms[i], fuel)
                } else {
                    meet(st, ms[i], other, fuel)
                }
            } else {
                Ty::Basic(Basic::Never)
            },
    )
}

/// Each member of `xs` met with each member of `ys`, one row per member of
/// `xs`.
pub open spec fn cross(st: Seq<(Ty, Ty)>, xs: Seq<Ty>, ys: Seq<Ty>, fuel: nat, bound: nat) -> Seq<Seq<Ty>>
    decreases fuel, bound, 1nat,
{
    Seq::new(
        xs.len(),
        |i: int|
            if 0 <= i < xs.len() {
                meet_all(st, ys, xs[i], true, fuel, bound)
            } else {
                Seq::empty()
            },
    )
}

/// The elementwise intersections of two tuples, as long as the shorter one.
pub open spec fn zip_meet(st: Seq<(Ty, Ty)>, xs: Seq<Ty>, ys: Seq<Ty>, fuel: nat, bound: nat) -> Seq<Ty>
    decreases fuel, bound, 0nat,
{
    Seq::new(
        if xs.len() <= ys.len() {
            xs.len()
        } else {
            ys.len()
        },
        |i: int|
            if 0 <= i < xs.len() && i < ys.len() && size(xs[i]) + size(ys[i]) < bound {
                meet(st, xs[i], ys[i], fuel)
            } else {
                Ty::Basic(Basic::Never)
            },
    )
}

/// The fields of the intersection of two interfaces. The fields of `yf` are
/// first gathered by name, in order of first appearance, a later field of a
/// name replacing an earlier one; each field of `xf` in turn takes the slot
/// of its name, if the slot is still full, and is met with its field; then
/// come the fields left in their slots.
pub open spec fn fields_meet(st: Seq<(Ty, Ty)>, xf: Seq<Field>, yf: Seq<Field>, fuel: nat, bound: nat) -> Seq<Field>
    decreases fuel, bound, 0nat,
{
    let init = slots_of(yf);
    let taken = take_slots(xf, init);
    Seq::new(
        xf.len(),
        |i: int|
            if 0 <= i < xf.len() && 0 <= taken.0[i] < init.len() && init[taken.0[i]].1 is Some {
                let g = init[taken.0[i]].1->Some_0;
                Field {
                    name: xf[i].name,
                    optional: xf[i].optional && g.optional,
                    typ: if size(xf[i].typ) + size(g.typ) < bound {
                        meet(st, xf[i].typ, g.typ, fuel)
                    } else {
                        Ty::Basic(Basic::Never)
                    },
                }
            } else {
                xf[i]
            },
    ) + full_slots(taken.1)
}

/// The position of the slot named `name`, or -1.
pub open spec fn slot_of(slots: Seq<(Name, Option<Field>)>, name: Name) -> int
    decreases slots.len(),
{
    if slots.len() == 0 {
        -1
    } else if slots[0].0 == name {
        0
    } else {
        let k = slot_of(slots.drop_first(), name);
        if k >= 0 {
            k + 1
        } else {
            -1
        }
    }
}

/// The slots after adding `f`: the slot of its name refilled with it, or a
/// new slot at the end.
pub open spec fn put_slot(slots: Seq<(Name, Option<Field>)>, f: Field) -> Seq<(Name, Option<Field>)> {
    let p = slot_of(slots, f.name);
    if p >= 0 {
        slots.update(p, (slots[p].0, Some(f)))
    } else {
        slots.push((f.name, Some(f)))
    }
}

/// The fields gathered by name.
pub open spec fn slots_of(fs: Seq<Field>) -> Seq<(Name, Option<Field>)>
    decreases fs.len(),
{
    if fs.len() == 0 {
        Seq::empty()
    } else {
        put_slot(slots_of(fs.drop_last()), fs.last())
    }
}

/// For each field of `xf` in turn, the full slot of its name that it takes
/// (or -1), and the slots afterwards.
pub open spec fn take_slots(xf: Seq<Field>, slots: Seq<(Name, Option<Field>)>) -> (Seq<int>, Seq<(Name, Option<Field>)>)
    decreases xf.len(),
{
    if xf.len() == 0 {
        (Seq::empty(), slots)
    } else {
        let (ks, sl) = take_slots(xf.drop_last(), slots);
        let p = slot_of(sl, xf.last().name);
        if 0 <= p < sl.len() && sl[p].1 is Some {
            (ks.push(p), sl.update(p, (sl[p].0, None)))
        } else {
            (ks.push(-1), sl)
        }
    }
}

/// The fields still in their slots, in order.
pub open spec fn full_slots(slots: Seq<(Name, Option<Field>)>) -> Seq<Field>
    decreases slots.len(),
{
    if slots.len() == 0 {
        Seq::empty()
    } else {
        match slots.last().1 {
            Some(f) => full_slots(slots.drop_last()).push(f),
            None => full_slots(slots.drop_last()),
        }
    }
}

pub proof fn lemma_slot_of(slots: Seq<(Name, Option<Field>)>, name: Name)
    ensures
        -1 <= slot_of(slots, name) < slots.len(),
        slot_of(slots, name) >= 0 ==> slots[slot_of(slots, name)].0 == name,
    decreases slots.len(),
{
    if slots.len() > 0 && slots[0].0 != name {
        lemma_slot_of(slots.drop_first(), name);
    }
}

/// `slot_of` reads the names alone.
pub proof fn lemma_slot_of_names(a: Seq<(Name, Option<Field>)>, b: Seq<(Name, Option<Field>)>, name: Name)
    requires
        a.len() == b.len(),
        forall|p: int| 0 <= p < a.len() ==> #[trigger] a[p].0 == b[p].0,
    ensures
        slot_of(a, name) == slot_of(b, name),
    decreases a.len(),
{
    if a.len() > 0 && a[0].0 != name {
        let (da, db) = (a.drop_first(), b.drop_first());
        assert forall|p: int| 0 <= p < da.len() implies #[trigger] da[p].0 == db[p].0 by {
            assert(da[p] == a[p + 1] && db[p] == b[p + 1]);
        }
        lemma_slot_of_names(da, db, name);
    }
}

/// Taking slots keeps their names, and empties slots without filling any:
/// a slot still full holds what it held at first.
pub proof fn lemma_take_slots(xf: Seq<Field>, slots: Seq<(Name, Option<Field>)>)
    ensures
        take_slots(xf, slots).0.len() == xf.len(),
        take_slots(xf, slots).1.len() == slots.len(),
        forall|p: int| 0 <= p < slots.len() ==> #[trigger] take_slots(xf, slots).1[p].0 == slots[p].0,
        forall|p: int|
            0 <= p < slots.len() && (#[trigger] take_slots(xf, slots).1[p]).1 is Some ==> take_slots(
                xf,
                slots,
            ).1[p] == slots[p],
    decreases xf.len(),
{
    if xf.len() > 0 {
        lemma_take_slots(xf.drop_last(), slots);
    }
}

/// The interface `x & y`: the fields met; an index signature only where no
/// field is left, met where both have one; no call signature.
pub open spec fn iface_meet(st: Seq<(Ty, Ty)>, x: Iface, y: Iface, fuel: nat, bound: nat) -> Iface
    decreases fuel, bound, 1nat,
{
    let fields = fields_meet(st, x.fields, y.fields, fuel, bound);
    Iface {
        fields,
        index: if fields.len() > 0 {
            None
        } else {
            match (x.index, y.index) {
                (Some(p), Some(q)) => Some(
                    (
                        Box::new(
                            if size(*p.0) + size(*q.0) < bound {
                                meet(st, *p.0, *q.0, fuel)
                            } else {
                                Ty::Basic(Basic::Never)
                            },
                        ),
                        Box::new(
                            if size(*p.1) + size(*q.1) < bound {
                                meet(st, *p.1, *q.1, fuel)
                            } else {
                                Ty::Basic(Basic::Never)
                            },
                        ),
                    ),
                ),
                (Some(p), None) => Some(p),
                (None, Some(q)) => Some(q),
                (None, None) => None,
            }
        },
        call: None,
    }
}

/// Whether `a & b` is decided by an absorbing operand: `unknown`, `any` or
/// `never`.
pub open spec fn absorbing(a: Ty, b: Ty) -> bool {
    a == Ty::Basic(Basic::Unknown) || b == Ty::Basic(Basic::Unknown) || a == Ty::Basic(Basic::Any)
        || b == Ty::Basic(Basic::Any) || a == Ty::Basic(Basic::Never) || b == Ty::Basic(
        Basic::Never,
    )
}

/// The operands of an intersection that the first rules leave: neither is
/// absorbing, they are not two basic kinds, and neither is a union.
pub open spec fn past_unions(a: Ty, b: Ty) -> bool {
    !absorbing(a, b) && !(a is Basic && b is Basic) && !(a is Union) && !(b is Union)
}

/// The operands that the rules on literals, arrays, tuples and optional
/// types leave.
pub open spec fn past_shapes(a: Ty, b: Ty) -> bool {
    &&& past_unions(a, b)
    &&& !(a is Optional) && !(b is Optional)
    &&& !(a is Literal && b is Literal && lit_eq(a->Literal_0, b->Literal_0))
    &&& !(a is Literal && b is Basic) && !(a is Basic && b is Literal)
    &&& !((a is Array || a is Tuple) && (b is Array || b is Tuple))
}

pub proof fn lemma_meet_absorbing(st: Seq<(Ty, Ty)>, a: Ty, b: Ty, fuel: nat)
    ensures
        a == Ty::Basic(Basic::Unknown) ==> meet(st, a, b, fuel) == b,
        a != Ty::Basic(Basic::Unknown) && b == Ty::Basic(Basic::Unknown) ==> meet(st, a, b, fuel)
            == a,
        a != Ty::Basic(Basic::Unknown) && b != Ty::Basic(Basic::Unknown) && (a == Ty::Basic(
            Basic::Any,
        ) || b == Ty::Basic(Basic::Any)) ==> meet(st, a, b, fuel) == Ty::Basic(Basic::Any),
        absorbing(a, b) && a != Ty::Basic(Basic::Unknown) && b != Ty::Basic(Basic::Unknown) && a
            != Ty::Basic(Basic::Any) && b != Ty::Basic(Basic::Any) ==> meet(st, a, b, fuel)
            == Ty::Basic(Basic::Never),
{
    reveal_with_fuel(meet, 1);
}

#[verifier::spinoff_prover]
pub proof fn lemma_meet_cases(st: Seq<(Ty, Ty)>, a: Ty, b: Ty, fuel: nat)
    requires
        !absorbing(a, b),
    ensures
        ({
            let bound = size(a) + size(b);
            let r = meet(st, a, b, fuel);
            &&& a is Basic && b is Basic ==> r == (if a == b {
                a
            } else {
                Ty::Basic(Basic::Never)
            })
            &&& a is Union && b is Union ==> r == canonical_union(
                cross(st, a->Union_0, b->Union_0, fuel, bound).flatten_alt(),
            )
            &&& ((a is Union && !(b is Union)) || (past_unions(a, b) && a is Optional && !(b is Optional))) ==> r
                == canonical_union(meet_all(st, unions(a), b, false, fuel, bound))
            &&& !(a is Union) && b is Union ==> r == canonical_union(
                meet_all(st, unions(b), a, false, fuel, bound),
            )
            &&& past_unions(a, b) && b is Optional && !(a is Optional) ==> r == canonical_union(
                meet_all(st, unions(b), a, false, fuel, bound),
            )
        }),
{
    reveal_with_fuel(meet, 1);
}

#[verifier::spinoff_prover]
pub proof fn lemma_meet_scalars(st: Seq<(Ty, Ty)>, a: Ty, b: Ty, fuel: nat)
    requires
        !absorbing(a, b),
    ensures
        ({
            let bound = size(a) + size(b);
            let r = meet(st, a, b, fuel);
            &&& past_unions(a, b) && a is Literal && b is Literal && lit_eq(a->Literal_0, b->Literal_0) ==> r == a
            &&& past_unions(a, b) && a is Literal && b is Basic ==> r == (if lit_in(a->Literal_0, b->Basic_0) {
                a
            } else {
                Ty::Basic(Basic::Never)
            })
            &&& past_unions(a, b) && a is Basic && b is Literal ==> r == (if lit_in(b->Literal_0, a->Basic_0) {
                b
            } else {
                Ty::Basic(Basic::Never)
            })
            &&& past_unions(a, b) && a is Array && b is Array ==> r == Ty::Array(
                Box::new(meet_under(st, *a->Array_0, *b->Array_0, fuel, bound)),
            )
        }),
{
    reveal_with_fuel(meet, 1);
}

#[verifier::spinoff_prover]
pub proof fn lemma_meet_sequences(st: Seq<(Ty, Ty)>, a: Ty, b: Ty, fuel: nat)
    requires
        !absorbing(a, b),
    ensures
        ({
            let bound = size(a) + size(b);
            let r = meet(st, a, b, fuel);
            &&& past_unions(a, b) && a is Array && b is Tuple ==> r == Ty::Array(
                Box::new(
                    if b->Tuple_0.len() == 0 {
                        Ty::Basic(Basic::Never)
                    } else {
                        meet_under(st, *a->Array_0, b->Tuple_0[0], fuel, bound)
                    },
                ),
            )
            &&& past_unions(a, b) && a is Tuple && b is Array ==> r == Ty::Array(
                Box::new(
                    if a->Tuple_0.len() == 0 {
                        Ty::Basic(Basic::Never)
                    } else {
                        meet_under(st, *b->Array_0, a->Tuple_0[0], fuel, bound)
                    },
                ),
            )
            &&& past_unions(a, b) && a is Tuple && b is Tuple ==> r == Ty::Tuple(
                zip_meet(st, a->Tuple_0, b->Tuple_0, fuel, bound),
            )
            &&& past_unions(a, b) && a is Optional && b is Optional ==> r == Ty::Optional(
                Box::new(meet_under(st, *a->Optional_0, *b->Optional_0, fuel, bound)),
            )
        }),
{
    reveal_with_fuel(meet, 1);
}

#[verifier::spinoff_prover]
pub proof fn lemma_meet_others(st: Seq<(Ty, Ty)>, a: Ty, b: Ty, fuel: nat)
    requires
        past_shapes(a, b),
    ensures
        ({
            let bound = size(a) + size(b);
            let r = meet(st, a, b, fuel);
            let hold = Ty::Generic(Gen::Intersection(Box::new(a), Box::new(b)));
            &&& a is This && b is This ==> r == Ty::This
            &&& a is Validated && b is Validation ==> r == Ty::Validated(
                a->Validated_0,
                Expr::And(Box::new(a->Validated_1), Box::new(b->Validation_0)),
            )
            &&& a is Validation && b is Validated ==> r == Ty::Validated(
                b->Validated_0,
                Expr::And(Box::new(a->Validation_0), Box::new(b->Validated_1)),
            )
            &&& a is Validation && b is Validation ==> r == Ty::Validation(
                Expr::And(Box::new(a->Validation_0), Box::new(b->Validation_0)),
            )
            &&& b is Validation && !(a is Validated) && !(a is Validation) ==> r == Ty::Validated(
                Box::new(a),
                b->Validation_0,
            )
            &&& a is Validation && !(b is Validated) && !(b is Validation) ==> r == Ty::Validated(
                Box::new(b),
                a->Validation_0,
            )
            &&& !(a is Validation) && !(b is Validation) && (a is Generic || b is Generic || (a is Class
                && b is Class)) ==> r == hold
            &&& a is Named && !(b is Validation) && !(b is Generic) ==> r == (if fuel == 0 {
                Ty::Basic(Basic::Never)
            } else {
                meet(st, expand(st, a), b, (fuel - 1) as nat)
            })
            &&& b is Named && !(a is Named) && !(a is Validation) && !(a is Generic) ==> r == (if fuel == 0 {
                Ty::Basic(Basic::Never)
            } else {
                meet(st, a, expand(st, b), (fuel - 1) as nat)
            })
            &&& a is Interface && b is Interface ==> r == Ty::Interface(
                iface_meet(st, a->Interface_0, b->Interface_0, fuel, bound),
            )
            &&& ((a is Interface && b is Class) || (a is Class && b is Interface)) ==> r == hold
            &&& !(a is This && b is This) && !(a is Validation) && !(b is Validation) && !(a is Generic)
                && !(b is Generic) && !(a is Class && b is Class) && !(a is Named) && !(b is Named)
                && !(a is Interface && b is Interface) && !(a is Interface && b is Class) && !(
            a is Class && b is Interface) ==> r == Ty::Basic(Basic::Never)
        }),
{
    reveal_with_fuel(meet, 1);
}

/// The sum of a sequence of counts.
pub open spec fn total(s: Seq<nat>) -> nat
    decreases s.len(),
{
    if s.len() == 0 {
        0
    } else {
        total(s.drop_last()) + s.last()
    }
}

/// How many notes `a & b` leaves: one for each pair of interfaces, met on
/// the way, that both have call signatures.
#[verifier::opaque]
pub open spec fn notes(st: Seq<(Ty, Ty)>, a: Ty, b: Ty, fuel: nat) -> nat
    decreases fuel, size(a) + size(b), 2nat,
{
    let bound = size(a) + size(b);
    if absorbing(a, b) {
        0
    } else {
        match (a, b) {
            (Ty::Basic(_), Ty::Basic(_)) => 0,
            (Ty::Union(xs), Ty::Union(ys)) => total(notes_cross(st, xs, ys, fuel, bound).flatten_alt()),
            (Ty::Union(_), _) => total(notes_all(st, unions(a), b, false, fuel, bound)),
            (_, Ty::Union(_)) => total(notes_all(st, unions(b), a, false, fuel, bound)),
            (Ty::Literal(_), Ty::Literal(_)) => 0,
            (Ty::Literal(_), Ty::Basic(_)) => 0,
            (Ty::Basic(_), Ty::Literal(_)) => 0,
            (Ty::Array(x), Ty::Array(y)) => notes_under(st, *x, *y, fuel, bound),
            (Ty::Array(x), Ty::Tuple(ys)) => if ys.len() == 0 {
                0
            } else {
                notes_under(st, *x, ys[0], fuel, bound)
            },
            (Ty::Tuple(ys), Ty::Array(x)) => if ys.len() == 0 {
                0
            } else {
                notes_under(st, *x, ys[0], fuel, bound)
            },
            (Ty::Tuple(xs), Ty::Tuple(ys)) => total(notes_zip(st, xs, ys, fuel, bound)),
            (Ty::Optional(x), Ty::Optional(y)) => notes_under(st, *x, *y, fuel, bound),
            (Ty::Optional(_), _) => total(notes_all(st, unions(a), b, false, fuel, bound)),
            (_, Ty::Optional(_)) => total(notes_all(st, unions(b), a, false, fuel, bound)),
            (Ty::This, Ty::This) => 0,
            (_, Ty::Validation(_)) => 0,
            (Ty::Validation(_), _) => 0,
            (Ty::Generic(_), _) => 0,
            (_, Ty::Generic(_)) => 0,
            (Ty::Named(_, _), _) => if fuel == 0 {
                0
            } else {
                notes(st, expand(st, a), b, (fuel - 1) as nat)
            },
            (_, Ty::Named(_, _)) => if fuel == 0 {
                0
            } else {
                notes(st, a, expand(st, b), (fuel - 1) as nat)
            },
            (Ty::Interface(x), Ty::Interface(y)) => iface_notes(st, x, y, fuel, bound),
            _ => 0,
        }
    }
}

/// `notes` on parts of two operands whose sizes add up to `bound`.
pub open spec fn notes_under(st: Seq<(Ty, Ty)>, a: Ty, b: Ty, fuel: nat, bound: nat) -> nat
    decreases fuel, bound, 1nat,
{
    if size(a) + size(b) < bound {
        notes(st, a, b, fuel)
    } else {
        0
    }
}

/// The notes of each member of `ms` met with `other` (see `meet_all`).
pub open spec fn notes_all(
    st: Seq<(Ty, Ty)>,
    ms: Seq<Ty>,
    other: Ty,
    other_first: bool,
    fuel: nat,
    bound: nat,
) -> Seq<nat>
    decreases fuel, bound, 0nat,
{
    Seq::new(
        ms.len(),
        |i: int|
            if 0 <= i < ms.len() && size(ms[i]) + size(other) < bound {
                if other_first {
                    notes(st, other, ms[i], fuel)
                } else {
                    notes(st, ms[i], other, fuel)
                }
            } else {
                0
            },
    )
}

/// The notes of each pair of members of two unions, one row per member of
/// `xs`.
pub open spec fn notes_cross(st: Seq<(Ty, Ty)>, xs: Seq<Ty>, ys: Seq<Ty>, fuel: nat, bound: nat) -> Seq<Seq<nat>>
    decreases fuel, bound, 1nat,
{
    Seq::new(
        xs.len(),
        |i: int|
            if 0 <= i < xs.len() {
                notes_all(st, ys, xs[i], true, fuel, bound)
            } else {
                Seq::empty()
            },
    )
}

/// The notes of the elementwise intersections of two tuples.
pub open spec fn notes_zip(st: Seq<(Ty, Ty)>, xs: Seq<Ty>, ys: Seq<Ty>, fuel: nat, bound: nat) -> Seq<nat>
    decreases fuel, bound, 0nat,
{
    Seq::new(
        if xs.len() <= ys.len() {
            xs.len()
        } else {
            ys.len()
        },
        |i: int|
            if 0 <= i < xs.len() && i < ys.len() && size(xs[i]) + size(ys[i]) < bound {
                notes(st, xs[i], ys[i], fuel)
            } else {
                0
            },
    )
}

/// The notes of the fields met in `fields_meet`.
pub open spec fn notes_fields(st: Seq<(Ty, Ty)>, xf: Seq<Field>, yf: Seq<Field>, fuel: nat, bound: nat) -> Seq<nat>
    decreases fuel, bound, 0nat,
{
    let init = slots_of(yf);
    let taken = take_slots(xf, init);
    Seq::new(
        xf.len(),
        |i: int|
            if 0 <= i < xf.len() && 0 <= taken.0[i] < init.len() && init[taken.0[i]].1 is Some {
                let g = init[taken.0[i]].1->Some_0;
                if size(xf[i].typ) + size(g.typ) < bound {
                    notes(st, xf[i].typ, g.typ, fuel)
                } else {
                    0
                }
            } else {
                0
            },
    )
}

/// The notes of `x & y` for two interfaces: those of their fields, of their
/// index signatures where they are met, and one more when both have call
/// signatures.
pub open spec fn iface_notes(st: Seq<(Ty, Ty)>, x: Iface, y: Iface, fuel: nat, bound: nat) -> nat
    decreases fuel, bound, 1nat,
{
    total(notes_fields(st, x.fields, y.fields, fuel, bound)) + (if fields_meet(
        st,
        x.fields,
        y.fields,
        fuel,
        bound,
    ).len() > 0 {
        0
    } else {
        match (x.index, y.index) {
            (Some(p), Some(q)) => (if size(*p.0) + size(*q.0) < bound {
                notes(st, *p.0, *q.0, fuel)
            } else {
                0
            }) + (if size(*p.1) + size(*q.1) < bound {
                notes(st, *p.1, *q.1, fuel)
            } else {
                0
            }),
            _ => 0,
        }
    }) + (if x.call is Some && y.call is Some {
        1nat
    } else {
        0
    })
}

#[verifier::spinoff_prover]
pub proof fn lemma_notes_main(st: Seq<(Ty, Ty)>, a: Ty, b: Ty, fuel: nat)
    ensures
        ({
            let bound = size(a) + size(b);
            let r = notes(st, a, b, fuel);
            &&& absorbing(a, b) ==> r == 0
            &&& !absorbing(a, b) && a is Basic && b is Basic ==> r == 0
            &&& !absorbing(a, b) && a is Union && b is Union ==> r == total(
                notes_cross(st, a->Union_0, b->Union_0, fuel, bound).flatten_alt(),
            )
            &&& !absorbing(a, b) && a is Union && !(b is Union) ==> r == total(
                notes_all(st, unions(a), b, false, fuel, bound),
            )
            &&& !absorbing(a, b) && !(a is Union) && b is Union ==> r == total(
                notes_all(st, unions(b), a, false, fuel, bound),
            )
        }),
{
    reveal_with_fuel(notes, 1);
}

#[verifier::spinoff_prover]
pub proof fn lemma_notes_shapes(st: Seq<(Ty, Ty)>, a: Ty, b: Ty, fuel: nat)
    requires
        past_unions(a, b),
    ensures
        ({
            let bound = size(a) + size(b);
            let r = notes(st, a, b, fuel);
            &&& a is Literal && (b is Literal || b is Basic) ==> r == 0
            &&& a is Basic && b is Literal ==> r == 0
            &&& a is Array && b is Array ==> r == notes_under(st, *a->Array_0, *b->Array_0, fuel, bound)
            &&& a is Array && b is Tuple ==> r == (if b->Tuple_0.len() == 0 {
                0
            } else {
                notes_under(st, *a->Array_0, b->Tuple_0[0], fuel, bound)
            })
            &&& a is Tuple && b is Array ==> r == (if a->Tuple_0.len() == 0 {
                0
            } else {
                notes_under(st, *b->Array_0, a->Tuple_0[0], fuel, bound)
            })
            &&& a is Tuple && b is Tuple ==> r == total(notes_zip(st, a->Tuple_0, b->Tuple_0, fuel, bound))
            &&& a is Optional && b is Optional ==> r == notes_under(
                st,
                *a->Optional_0,
                *b->Optional_0,
                fuel,
                bound,
            )
            &&& a is Optional && !(b is Optional) ==> r == total(
                notes_all(st, unions(a), b, false, fuel, bound),
            )
            &&& !(a is Optional) && b is Optional && !(a is Literal && b is Literal) && !((a is Array
                || a is Tuple) && (b is Array || b is Tuple)) ==> r == total(
                notes_all(st, unions(b), a, false, fuel, bound),
            )
        }),
{
    reveal_with_fuel(notes, 1);
}

#[verifier::spinoff_prover]
pub proof fn lemma_notes_others(st: Seq<(Ty, Ty)>, a: Ty, b: Ty, fuel: nat)
    requires
        past_shapes(a, b),
    ensures
        ({
            let bound = size(a) + size(b);
            let r = notes(st, a, b, fuel);
            &&& a is Named && !(b is Validation) && !(b is Generic) && !(a is Validation) ==> r == (if fuel == 0 {
                0
            } else {
                notes(st, expand(st, a), b, (fuel - 1) as nat)
            })
            &&& b is Named && !(a is Named) && !(a is Validation) && !(a is Generic) ==> r == (if fuel == 0 {
                0
            } else {
                notes(st, a, expand(st, b), (fuel - 1) as nat)
            })
            &&& a is Interface && b is Interface ==> r == iface_notes(
                st,
                a->Interface_0,
                b->Interface_0,
                fuel,
                bound,
            )
            &&& !(a is Interface && b is Interface) && !(a is Named && !(b is Validation) && !(
            b is Generic)) && !(b is Named && !(a is Named) && !(a is Validation) && !(
            a is Generic)) ==> r == 0
        }),
{
    reveal_with_fuel(notes, 1);
}

pub proof fn lemma_total_step(s: Seq<nat>, i: int)
    requires
        0 <= i < s.len(),
    ensures
        total(s.subrange(0, i + 1)) == total(s.subrange(0, i)) + s[i],
{
    assert(s.subrange(0, i + 1).drop_last() =~= s.subrange(0, i));
}

pub proof fn lemma_total_add(a: Seq<nat>, b: Seq<nat>)
    ensures
        total(a + b) == total(a) + total(b),
    decreases b.len(),
{
    if b.len() > 0 {
        lemma_total_add(a, b.drop_last());
        assert((a + b).drop_last() =~= a + b.drop_last());
    } else {
        assert(a + b =~= a);
    }
}

/// What bounds the recursion: each part of a type that the algebra recurses
/// into is smaller than the type.
pub proof fn lemma_measure(t: Ty)
    ensures
        size(t) >= 1,
        forall|i: int| 0 <= i < unions(t).len() ==> size(#[trigger] unions(t)[i]) <= size(t),
        (t is Union || t is Optional || t is Validated) ==> forall|i: int|
            0 <= i < unions(t).len() ==> size(#[trigger] unions(t)[i]) < size(t),
        t is Union ==> forall|i: int|
            0 <= i < t->Union_0.len() ==> size(#[trigger] t->Union_0[i]) < size(t),
        t is Tuple ==> forall|i: int|
            0 <= i < t->Tuple_0.len() ==> size(#[trigger] t->Tuple_0[i]) < size(t),
        t is Interface ==> forall|i: int|
            0 <= i < t->Interface_0.fields.len() ==> size(
                #[trigger] t->Interface_0.fields[i].typ,
            ) < size(t),
        t is Interface && t->Interface_0.index is Some ==> size(
            *t->Interface_0.index->Some_0.0,
        ) < size(t) && size(*t->Interface_0.index->Some_0.1) < size(t),
{
    lemma_unions_size(t);
    match t {
        Ty::Union(xs) => {
            assert forall|i: int| 0 <= i < xs.len() implies size(#[trigger] xs[i]) < size(t) by {
                lemma_sizes_member(xs, i);
            }
        },
        Ty::Tuple(xs) => {
            assert forall|i: int| 0 <= i < xs.len() implies size(#[trigger] xs[i]) < size(t) by {
                lemma_sizes_member(xs, i);
            }
        },
        Ty::Interface(x) => {
            assert forall|i: int| 0 <= i < x.fields.len() implies size(
                #[trigger] x.fields[i].typ,
            ) < size(t) by {
                lemma_field_sizes_member(x.fields, i);
            }
        },
        _ => {},
    }
}

/// The note left for an intersection of two interfaces with call signatures,
/// which is not supported: the call signatures are dropped.
pub const CALL_NOTE: &'static str = "intersection of call signature types not yet supported";

/// `new` is `old` with zero or more notes on call signatures appended.
pub open spec fn notes_added(old: Seq<String>, new: Seq<String>) -> bool {
    &&& old.len() <= new.len()
    &&& new.subrange(0, old.len() as int) == old
    &&& forall|k: int| old.len() <= k < new.len() ==> (#[trigger] new[k])@ == CALL_NOTE@
}

pub proof fn lemma_notes_refl(s: Seq<String>)
    ensures
        notes_added(s, s),
{
    assert(s.subrange(0, s.len() as int) =~= s);
}

pub proof fn lemma_notes_trans(a: Seq<String>, b: Seq<String>, c: Seq<String>)
    requires
        notes_added(a, b),
        notes_added(b, c),
    ensures
        notes_added(a, c),
{
    assert(c.subrange(0, a.len() as int) =~= b.subrange(0, a.len() as int));
    assert forall|k: int| a.len() <= k < c.len() implies (#[trigger] c[k])@ == CALL_NOTE@ by {
        if k < b.len() {
            assert(c[k] == c.subrange(0, b.len() as int)[k]);
        }
    }
}

pub proof fn lemma_tys_add(x: Seq<Type>, y: Seq<Type>)
    ensures
        tys(x + y) == tys(x) + tys(y),
{
    assert(tys(x + y) =~= tys(x) + tys(y));
}

/// The intersection `a & b` of two types. Named types are expanded through
/// `ctx`, at most `EXPANSION_LIMIT` one inside the other; past that the
/// intersection is `never`. An intersection of two interfaces that both have
/// call signatures is not supported: the call signatures are dropped and a
/// note is appended to `diags`; nothing but such notes is ever appended.
pub fn intersect(ctx: &ResolveState, a: &Type, b: &Type, diags: &mut Vec<String>) -> (r: Type)
    ensures
        r@ == meet(ctx.view(), a@, b@, EXPANSION_LIMIT as nat),
        notes_added(old(diags)@, final(diags)@),
        final(diags)@.len() == old(diags)@.len() + notes(ctx.view(), a@, b@, EXPANSION_LIMIT as nat),
        a@ is Interface && b@ is Interface && a@->Interface_0.call is Some
            && b@->Interface_0.call is Some ==> final(diags)@.len() > old(diags)@.len(),
{
    meet_within(ctx, a, b, EXPANSION_LIMIT, diags)
}

#[verifier::spinoff_prover]
fn meet_each(
    ctx: &ResolveState,
    ms: &Vec<Type>,
    other: &Type,
    other_first: bool,
    fuel: u64,
    diags: &mut Vec<String>,
    Ghost(bound): Ghost<nat>,
) -> (r: Vec<Type>)
    requires
        forall|i: int| 0 <= i < ms@.len() ==> size(#[trigger] ms@[i]@) + size(other@) < bound,
    ensures
        tys(r@) == meet_all(ctx.view(), tys(ms@), other@, other_first, fuel as nat, bound),
        notes_added(old(diags)@, final(diags)@),
        final(diags)@.len() == old(diags)@.len() + total(
            notes_all(ctx.view(), tys(ms@), other@, other_first, fuel as nat, bound),
        ),
    decreases fuel, bound, 0nat,
{
    let ghost d0 = diags@;
    let ghost counts = notes_all(ctx.view(), tys(ms@), other@, other_first, fuel as nat, bound);
    assert(counts.subrange(0, 0) =~= Seq::<nat>::empty());
    proof {
        lemma_notes_refl(d0);
    }
    let mut out: Vec<Type> = Vec::new();
    let mut i: usize = 0;
    while i < ms.len()
        invariant
            i <= ms@.len(),
            out@.len() == i,
            forall|k: int| 0 <= k < ms@.len() ==> size(#[trigger] ms@[k]@) + size(other@) < bound,
            forall|k: int|
                0 <= k < i ==> (#[trigger] out@[k])@ == (if other_first {
                    meet(ctx.view(), other@, ms@[k]@, fuel as nat)
                } else {
                    meet(ctx.view(), ms@[k]@, other@, fuel as nat)
                }),
            notes_added(d0, diags@),
            counts == notes_all(ctx.view(), tys(ms@), other@, other_first, fuel as nat, bound),
            diags@.len() == d0.len() + total(counts.subrange(0, i as int)),
        decreases ms@.len() - i,
    {
        let ghost d1 = diags@;
        assert(size(ms@[i as int]@) + size(other@) < bound);
        let t = if other_first {
            meet_within(ctx, other, &ms[i], fuel, diags)
        } else {
            meet_within(ctx, &ms[i], other, fuel, diags)
        };
        proof {
            lemma_notes_trans(d0, d1, diags@);
            reveal_with_fuel(notes, 1);
            assert(tys(ms@)[i as int] == ms@[i as int]@);
            lemma_total_step(counts, i as int);
        }
        out.push(t);
        i += 1;
    }
    assert(counts.subrange(0, ms@.len() as int) =~= counts);
    assert forall|k: int| 0 <= k < ms@.len() implies tys(ms@)[k] == (#[trigger] ms@[k])@ by {}
    assert(tys(out@) =~= meet_all(ctx.view(), tys(ms@), other@, other_first, fuel as nat, bound));
    out
}

#[verifier::spinoff_prover]
fn meet_pairs(
    ctx: &ResolveState,
    xs: &Vec<Type>,
    ys: &Vec<Type>,
    fuel: u64,
    diags: &mut Vec<String>,
    Ghost(bound): Ghost<nat>,
) -> (r: Vec<Type>)
    requires
        forall|i: int|
            0 <= i < xs@.len() && i < ys@.len() ==> size(#[trigger] xs@[i]@) + size(ys@[i]@) < bound,
    ensures
        tys(r@) == zip_meet(ctx.view(), tys(xs@), tys(ys@), fuel as nat, bound),
        notes_added(old(diags)@, final(diags)@),
        final(diags)@.len() == old(diags)@.len() + total(
            notes_zip(ctx.view(), tys(xs@), tys(ys@), fuel as nat, bound),
        ),
    decreases fuel, bound, 0nat,
{
    let ghost d0 = diags@;
    let ghost counts = notes_zip(ctx.view(), tys(xs@), tys(ys@), fuel as nat, bound);
    assert(counts.subrange(0, 0) =~= Seq::<nat>::empty());
    proof {
        lemma_notes_refl(d0);
    }
    let mut out: Vec<Type> = Vec::new();
    let mut i: usize = 0;
    while i < xs.len() && i < ys.len()
        invariant
            i <= xs@.len(),
            i <= ys@.len(),
            out@.len() == i,
            forall|i: int|
                0 <= i < xs@.len() && i < ys@.len() ==> size(#[trigger] xs@[i]@) + size(ys@[i]@) < bound,
            forall|k: int|
                0 <= k < i ==> (#[trigger] out@[k])@ == meet(
                    ctx.view(),
                    xs@[k]@,
                    ys@[k]@,
                    fuel as nat,
                ),
            notes_added(d0, diags@),
            counts == notes_zip(ctx.view(), tys(xs@), tys(ys@), fuel as nat, bound),
            counts.len() <= xs@.len(),
            counts.len() <= ys@.len(),
            (i < xs@.len() && i < ys@.len()) ==> i < counts.len(),
            i <= counts.len(),
            diags@.len() == d0.len() + total(counts.subrange(0, i as int)),
        decreases xs@.len() - i,
    {
        let ghost d1 = diags@;
        assert(size(xs@[i as int]@) + size(ys@[i as int]@) < bound);
        let t = meet_within(ctx, &xs[i], &ys[i], fuel, diags);
        proof {
            lemma_notes_trans(d0, d1, diags@);
            reveal_with_fuel(notes, 1);
            assert(tys(xs@)[i as int] == xs@[i as int]@);
            assert(tys(ys@)[i as int] == ys@[i as int]@);
            lemma_total_step(counts, i as int);
        }
        out.push(t);
        i += 1;
    }
    assert(counts.subrange(0, counts.len() as int) =~= counts);
    assert forall|k: int| 0 <= k < xs@.len() implies tys(xs@)[k] == (#[trigger] xs@[k])@ by {}
    assert forall|k: int| 0 <= k < ys@.len() implies tys(ys@)[k] == (#[trigger] ys@[k])@ by {}
    assert(tys(out@) =~= zip_meet(ctx.view(), tys(xs@), tys(ys@), fuel as nat, bound));
    out
}

#[verifier::external_type_specification]
#[verifier::external_body]
#[verifier::reject_recursive_types(K)]
#[verifier::reject_recursive_types(V)]
#[verifier::reject_recursive_types(S)]
pub struct ExIndexMap<K, V, S>(IndexMap<K, V, S>);

/// What a map of fields by name holds: its slots, in order, each a name and
/// the field in it, if any.
pub uninterp spec fn slot_entries(m: IndexMap<FieldName, Option<InterfaceField>>) -> Seq<(Name, Option<Field>)>;

pub open spec fn opt_field(f: Option<InterfaceField>) -> Option<Field> {
    match f {
        Some(f) => Some(f.view()),
        None => None,
    }
}

/// Relies on indexmap's `FromIterator`, which inserts in order: a field
/// whose name has a slot replaces the field in it, keeping the slot's place;
/// another opens a slot at the end.
#[verifier::external_body]
fn slots_by_name(fields: Vec<InterfaceField>) -> (m: IndexMap<FieldName, Option<InterfaceField>>)
    ensures
        slot_entries(m) == slots_of(fields_view(fields@)),
{
    fields.into_iter().map(|f| (f.name.clone(), Some(f))).collect()
}

/// Relies on indexmap's `get_mut`: the slot of `name`, if the map has one,
/// emptied, and what it held.
#[verifier::external_body]
fn take_slot(m: &mut IndexMap<FieldName, Option<InterfaceField>>, name: &FieldName) -> (r: Option<Option<InterfaceField>>)
    ensures
        ({
            let p = slot_of(slot_entries(*old(m)), name.view());
            if p >= 0 {
                &&& r matches Some(v) && opt_field(v) == slot_entries(*old(m))[p].1
                &&& slot_entries(*final(m)) == slot_entries(*old(m)).update(p, (slot_entries(*old(m))[p].0, None))
            } else {
                &&& r is None
                &&& slot_entries(*final(m)) == slot_entries(*old(m))
            }
        }),
{
    m.get_mut(name).map(|slot| slot.take())
}

/// Relies on indexmap's `into_values`: what the slots hold, in order.
#[verifier::external_body]
fn slot_values(m: IndexMap<FieldName, Option<InterfaceField>>) -> (r: Vec<Option<InterfaceField>>)
    ensures
        r@.len() == slot_entries(m).len(),
        forall|i: int| 0 <= i < r@.len() ==> opt_field(#[trigger] r@[i]) == slot_entries(m)[i].1,
{
    m.into_values().collect()
}

#[verifier::spinoff_prover]
fn meet_fields(
    ctx: &ResolveState,
    xf: &Vec<InterfaceField>,
    yf: &Vec<InterfaceField>,
    fuel: u64,
    diags: &mut Vec<String>,
    Ghost(bound): Ghost<nat>,
) -> (r: Vec<InterfaceField>)
    requires
        forall|i: int, j: int|
            0 <= i < xf@.len() && 0 <= j < yf@.len() ==> size(#[trigger] xf@[i].typ@) + size(
                #[trigger] yf@[j].typ@,
            ) < bound,
    ensures
        fields_view(r@) == fields_meet(ctx.view(), fields_view(xf@), fields_view(yf@), fuel as nat, bound),
        notes_added(old(diags)@, final(diags)@),
        final(diags)@.len() == old(diags)@.len() + total(
            notes_fields(ctx.view(), fields_view(xf@), fields_view(yf@), fuel as nat, bound),
        ),
    decreases fuel, bound, 0nat,
{
    let ghost d0 = diags@;
    let ghost xv = fields_view(xf@);
    let ghost yv = fields_view(yf@);
    let ghost init = slots_of(yv);
    let ghost whole = fields_meet(ctx.view(), xv, yv, fuel as nat, bound);
    proof {
        lemma_notes_refl(d0);
        lemma_slots_hold(yv);
        lemma_take_slots(xv, init);
    }
    let ghost counts = notes_fields(ctx.view(), xv, yv, fuel as nat, bound);
    assert(counts.subrange(0, 0) =~= Seq::<nat>::empty());
    let mut slots = slots_by_name(crate::copy::copy_fields(yf));
    let mut out: Vec<InterfaceField> = Vec::new();
    let mut i: usize = 0;
    assert(xv.subrange(0, 0) =~= Seq::<Field>::empty());
    while i < xf.len()
        invariant
            xv == fields_view(xf@),
            yv == fields_view(yf@),
            init == slots_of(yv),
            whole == fields_meet(ctx.view(), xv, yv, fuel as nat, bound),
            forall|p: int|
                0 <= p < init.len() ==> ((#[trigger] init[p]).1 is Some && exists|j: int|
                    0 <= j < yv.len() && init[p].1->Some_0 == #[trigger] yv[j]),
            i <= xf@.len(),
            out@.len() == i,
            slot_entries(slots) == take_slots(xv.subrange(0, i as int), init).1,
            forall|i: int, j: int|
                0 <= i < xf@.len() && 0 <= j < yf@.len() ==> size(#[trigger] xf@[i].typ@) + size(
                    #[trigger] yf@[j].typ@,
                ) < bound,
            forall|k: int| 0 <= k < i ==> (#[trigger] out@[k]).view() == whole[k],
            notes_added(d0, diags@),
            counts == notes_fields(ctx.view(), xv, yv, fuel as nat, bound),
            counts.len() == xv.len(),
            diags@.len() == d0.len() + total(counts.subrange(0, i as int)),
        decreases xf@.len() - i,
    {
        let f = &xf[i];
        assert(xv[i as int] == f.view());
        let ghost pre = xv.subrange(0, i as int);
        let ghost post = xv.subrange(0, i + 1);
        assert(post.drop_last() =~= pre);
        proof {
            lemma_take_slots(pre, init);
            lemma_take_slots(post, init);
            lemma_take_slots(xv, init);
            lemma_take_prefix(xv, init, i as int);
            lemma_slot_of(take_slots(pre, init).1, f.name.view());
        }
        match take_slot(&mut slots, &f.name) {
            Some(Some(g)) => {
                let ghost p = slot_of(take_slots(pre, init).1, f.name.view());
                assert(init[p] == take_slots(pre, init).1[p]);
                let ghost j = choose|j: int| 0 <= j < yv.len() && g.view() == #[trigger] yv[j];
                assert(yv[j] == yf@[j].view());
                assert(size(xf@[i as int].typ@) + size(yf@[j].typ@) < bound);
                let ghost d1 = diags@;
                let typ = meet_within(ctx, &f.typ, &g.typ, fuel, diags);
                proof {
                    lemma_notes_trans(d0, d1, diags@);
                }
                out.push(InterfaceField { name: f.name.duplicate(), optional: f.optional && g.optional, typ });
            },
            _ => {
                out.push(
                    InterfaceField { name: f.name.duplicate(), optional: f.optional, typ: f.typ.duplicate() },
                );
            },
        }
        proof {
            reveal_with_fuel(notes, 1);
            lemma_total_step(counts, i as int);
        }
        assert(out@[i as int].view() == whole[i as int]);
        i += 1;
    }
    assert(counts.subrange(0, xf@.len() as int) =~= counts);
    assert(xv.subrange(0, xf@.len() as int) =~= xv);
    let left = slot_values(slots);
    let ghost lv = take_slots(xv, init).1;
    let ghost base = out@;
    let mut j: usize = 0;
    assert(lv.subrange(0, 0) =~= Seq::<(Name, Option<Field>)>::empty());
    assert(fields_view(out@) =~= fields_view(base) + full_slots(lv.subrange(0, 0)));
    while j < left.len()
        invariant
            lv.len() == left@.len(),
            forall|k: int| 0 <= k < left@.len() ==> opt_field(#[trigger] left@[k]) == lv[k].1,
            j <= left@.len(),
            fields_view(out@) == fields_view(base) + full_slots(lv.subrange(0, j as int)),
        decreases left@.len() - j,
    {
        let ghost s = lv.subrange(0, j + 1);
        assert(s.drop_last() =~= lv.subrange(0, j as int));
        assert(s.last() == lv[j as int]);
        let ghost before = out@;
        match &left[j] {
            Some(g) => {
                out.push(InterfaceField { name: g.name.duplicate(), optional: g.optional, typ: g.typ.duplicate() });
                assert(fields_view(out@) =~= fields_view(before).push(g.view()));
            },
            None => {},
        }
        j += 1;
    }
    assert(lv.subrange(0, left@.len() as int) =~= lv);
    assert(fields_view(out@) =~= whole);
    out
}

/// Every slot of gathered fields holds one of the fields.
pub proof fn lemma_slots_hold(fs: Seq<Field>)
    ensures
        forall|p: int|
            0 <= p < slots_of(fs).len() ==> ((#[trigger] slots_of(fs)[p]).1 is Some && exists|j: int|
                0 <= j < fs.len() && slots_of(fs)[p].1->Some_0 == #[trigger] fs[j]),
    decreases fs.len(),
{
    if fs.len() > 0 {
        let d = fs.drop_last();
        lemma_slots_hold(d);
        lemma_slot_of(slots_of(d), fs.last().name);
        assert forall|p: int| 0 <= p < slots_of(fs).len() implies ((#[trigger] slots_of(fs)[p]).1 is Some
            && exists|j: int| 0 <= j < fs.len() && slots_of(fs)[p].1->Some_0 == #[trigger] fs[j]) by {
            let sd = slots_of(d);
            if p < sd.len() && slots_of(fs)[p] == sd[p] {
                let g = sd[p].1->Some_0;
                let j = choose|j: int| 0 <= j < d.len() && g == #[trigger] d[j];
                assert(fs[j] == d[j]);
            } else {
                assert(slots_of(fs)[p].1 == Some(fs.last()));
                assert(fs[fs.len() - 1] == fs.last());
            }
        }
    }
}

/// Taking slots for a prefix of the fields is the start of taking them for
/// all.
pub proof fn lemma_take_prefix(xf: Seq<Field>, slots: Seq<(Name, Option<Field>)>, i: int)
    requires
        0 <= i < xf.len(),
    ensures
        take_slots(xf, slots).0[i] == take_slots(xf.subrange(0, i + 1), slots).0[i],
    decreases xf.len(),
{
    if i < xf.len() - 1 {
        lemma_take_slots(xf.drop_last(), slots);
        lemma_take_prefix(xf.drop_last(), slots, i);
        assert(xf.drop_last().subrange(0, i + 1) =~= xf.subrange(0, i + 1));
    } else {
        assert(xf.subrange(0, i + 1) =~= xf);
    }
}

fn never() -> (r: Type)
    ensures
        r@ == Ty::Basic(Basic::Never),
{
    Type::Basic(Basic::Never)
}

fn lit_in_exec(l: &crate::types::Literal, k: Basic) -> (r: bool)
    ensures
        r == lit_in(l.view(), k),
{
    k == l.basic() || k == Basic::Any || k == Basic::Unknown
}

#[verifier::spinoff_prover]
fn meet_within(ctx: &ResolveState, a: &Type, b: &Type, fuel: u64, diags: &mut Vec<String>) -> (r: Type)
    ensures
        r@ == meet(ctx.view(), a@, b@, fuel as nat),
        notes_added(old(diags)@, final(diags)@),
        final(diags)@.len() == old(diags)@.len() + notes(ctx.view(), a@, b@, fuel as nat),
        a@ is Interface && b@ is Interface && a@->Interface_0.call is Some
            && b@->Interface_0.call is Some ==> final(diags)@.len() > old(diags)@.len(),
    decreases fuel, size(a@) + size(b@), 4nat,
{
    let ghost st = ctx.view();
    proof {
        lemma_measure(a@);
        lemma_measure(b@);
        lemma_notes_refl(diags@);
        lemma_meet_absorbing(st, a@, b@, fuel as nat);
        lemma_notes_main(st, a@, b@, fuel as nat);
    }
    let ghost bound = size(a@) + size(b@);
    match (a, b) {
        (Type::Basic(Basic::Unknown), _) => return b.duplicate(),
        (_, Type::Basic(Basic::Unknown)) => return a.duplicate(),
        (Type::Basic(Basic::Any), _) | (_, Type::Basic(Basic::Any)) => return Type::Basic(Basic::Any),
        (Type::Basic(Basic::Never), _) | (_, Type::Basic(Basic::Never)) => return never(),
        _ => {},
    }
    proof {
        lemma_meet_cases(st, a@, b@, fuel as nat);
    }
    match (a, b) {
        (Type::Basic(x), Type::Basic(y)) => {
            if *x == *y {
                Type::Basic(*x)
            } else {
                never()
            }
        },
        (Type::Union(x), Type::Union(y)) => {
            let ghost xs = tys(x.types@);
            let ghost ys = tys(y.types@);
            let ghost rows = cross(st, xs, ys, fuel as nat, bound);
            let ghost nrows = notes_cross(st, xs, ys, fuel as nat, bound);
            let mut all: Vec<Type> = Vec::new();
            let mut i: usize = 0;
            let ghost d0 = diags@;
            assert(rows.subrange(0, 0).flatten_alt() =~= Seq::<Ty>::empty());
            assert(nrows.subrange(0, 0).flatten_alt() =~= Seq::<nat>::empty());
            assert(tys(all@) =~= Seq::<Ty>::empty());
            while i < x.types.len()
                invariant
                    st == ctx.view(),
                    xs == tys(x.types@),
                    ys == tys(y.types@),
                    a@ == Ty::Union(xs),
                    b@ == Ty::Union(ys),
                    bound == size(a@) + size(b@),
                    forall|k: int| 0 <= k < xs.len() ==> size(#[trigger] xs[k]) < size(a@),
                    forall|k: int| 0 <= k < ys.len() ==> size(#[trigger] ys[k]) < size(b@),
                    i <= xs.len(),
                    rows == cross(st, xs, ys, fuel as nat, bound),
                    rows.len() == xs.len(),
                    tys(all@) == rows.subrange(0, i as int).flatten_alt(),
                    notes_added(d0, diags@),
                    nrows == notes_cross(st, xs, ys, fuel as nat, bound),
                    nrows.len() == xs.len(),
                    diags@.len() == d0.len() + total(nrows.subrange(0, i as int).flatten_alt()),
                decreases xs.len() - i,
            {
                let ghost d1 = diags@;
                assert(xs[i as int] == x.types@[i as int]@);
                assert forall|j: int| 0 <= j < y.types@.len() implies size(
                    #[trigger] y.types@[j]@,
                ) + size(x.types@[i as int]@) < bound by {
                    assert(ys[j] == y.types@[j]@);
                }
                let mut row = meet_each(ctx, &y.types, &x.types[i], true, fuel, diags, Ghost(bound));
                proof {
                    lemma_notes_trans(d0, d1, diags@);
                    lemma_tys_add(all@, row@);
                    let s = rows.subrange(0, i + 1);
                    assert(s.drop_last() =~= rows.subrange(0, i as int));
                    assert(tys(row@) =~= rows[i as int]);
                    assert(s.last() == rows[i as int]);
                    let n = nrows.subrange(0, i + 1);
                    assert(n.drop_last() =~= nrows.subrange(0, i as int));
                    assert(n.last() == nrows[i as int]);
                    lemma_total_add(nrows.subrange(0, i as int).flatten_alt(), nrows[i as int]);
                }
                all.append(&mut row);
                i += 1;
            }
            assert(rows.subrange(0, xs.len() as int) =~= rows);
            assert(nrows.subrange(0, xs.len() as int) =~= nrows);
            simplify_union(all)
        },
        (Type::Union(_), _) => {
            let ms = a.iter_unions();
            assert forall|i: int| 0 <= i < ms@.len() implies size(#[trigger] ms@[i]@) + size(b@)
                < bound by {
                assert(tys(ms@)[i] == ms@[i]@);
            }
            let r = meet_each(ctx, &ms, b, false, fuel, diags, Ghost(bound));
            simplify_union(r)
        },
        (_, Type::Union(_)) => {
            let ms = b.iter_unions();
            assert forall|i: int| 0 <= i < ms@.len() implies size(#[trigger] ms@[i]@) + size(a@)
                < bound by {
                assert(tys(ms@)[i] == ms@[i]@);
            }
            let r = meet_each(ctx, &ms, a, false, fuel, diags, Ghost(bound));
            simplify_union(r)
        },
        _ => meet_rest(ctx, a, b, fuel, diags),
    }
}

#[verifier::spinoff_prover]
fn meet_rest(ctx: &ResolveState, a: &Type, b: &Type, fuel: u64, diags: &mut Vec<String>) -> (r: Type)
    requires
        past_unions(a@, b@),
    ensures
        r@ == meet(ctx.view(), a@, b@, fuel as nat),
        notes_added(old(diags)@, final(diags)@),
        final(diags)@.len() == old(diags)@.len() + notes(ctx.view(), a@, b@, fuel as nat),
        a@ is Interface && b@ is Interface && a@->Interface_0.call is Some
            && b@->Interface_0.call is Some ==> final(diags)@.len() > old(diags)@.len(),
    decreases fuel, size(a@) + size(b@), 3nat,
{
    let ghost st = ctx.view();
    proof {
        lemma_measure(a@);
        lemma_measure(b@);
        lemma_notes_refl(diags@);
        lemma_notes_shapes(st, a@, b@, fuel as nat);
        reveal_with_fuel(notes, 1);
        lemma_meet_scalars(st, a@, b@, fuel as nat);
        lemma_meet_sequences(st, a@, b@, fuel as nat);
        lemma_meet_cases(st, a@, b@, fuel as nat);
    }
    let ghost bound = size(a@) + size(b@);
    match (a, b) {
        (Type::Literal(x), Type::Literal(y)) => {
            if literal_eq(x, y) {
                return a.duplicate();
            }
        },
        _ => {},
    }
    match (a, b) {
        (Type::Literal(l), Type::Basic(k)) => {
            if lit_in_exec(l, *k) {
                a.duplicate()
            } else {
                never()
            }
        },
        (Type::Basic(k), Type::Literal(l)) => {
            if lit_in_exec(l, *k) {
                b.duplicate()
            } else {
                never()
            }
        },
        (Type::Array(x), Type::Array(y)) => Type::Array(
            Array(Box::new(meet_within(ctx, &x.0, &y.0, fuel, diags))),
        ),
        (Type::Array(x), Type::Tuple(ys)) => {
            let e = if ys.types.len() == 0 {
                never()
            } else {
                proof {
                    assert(tys(ys.types@)[0] == ys.types@[0]@);
                }
                meet_within(ctx, &x.0, &ys.types[0], fuel, diags)
            };
            Type::Array(Array(Box::new(e)))
        },
        (Type::Tuple(ys), Type::Array(x)) => {
            let e = if ys.types.len() == 0 {
                never()
            } else {
                proof {
                    assert(tys(ys.types@)[0] == ys.types@[0]@);
                }
                meet_within(ctx, &x.0, &ys.types[0], fuel, diags)
            };
            Type::Array(Array(Box::new(e)))
        },
        (Type::Tuple(x), Type::Tuple(y)) => {
            let ghost xs = tys(x.types@);
            let ghost ys = tys(y.types@);
            assert forall|i: int|
                0 <= i < x.types@.len() && i < y.types@.len() implies size(
                    #[trigger] x.types@[i]@,
                ) + size(y.types@[i]@) < bound by {
                assert(xs[i] == x.types@[i]@);
                assert(ys[i] == y.types@[i]@);
            }
            let v = meet_pairs(ctx, &x.types, &y.types, fuel, diags, Ghost(bound));
            Type::Tuple(Tuple { types: v })
        },
        (Type::Optional(x), Type::Optional(y)) => Type::Optional(
            Optional(Box::new(meet_within(ctx, &x.0, &y.0, fuel, diags))),
        ),
        (Type::Optional(_), _) => {
            let ms = a.iter_unions();
            assert forall|i: int| 0 <= i < ms@.len() implies size(#[trigger] ms@[i]@) + size(b@)
                < bound by {
                assert(tys(ms@)[i] == ms@[i]@);
            }
            let r = meet_each(ctx, &ms, b, false, fuel, diags, Ghost(bound));
            simplify_union(r)
        },
        (_, Type::Optional(_)) => {
            let ms = b.iter_unions();
            assert forall|i: int| 0 <= i < ms@.len() implies size(#[trigger] ms@[i]@) + size(a@)
                < bound by {
                assert(tys(ms@)[i] == ms@[i]@);
            }
            let r = meet_each(ctx, &ms, a, false, fuel, diags, Ghost(bound));
            simplify_union(r)
        },
        _ => meet_other(ctx, a, b, fuel, diags),
    }
}

#[verifier::spinoff_prover]
fn meet_ifaces(ctx: &ResolveState, a: &Type, b: &Type, fuel: u64, diags: &mut Vec<String>) -> (r: Type)
    requires
        past_shapes(a@, b@),
        a@ is Interface,
        b@ is Interface,
    ensures
        r@ == meet(ctx.view(), a@, b@, fuel as nat),
        notes_added(old(diags)@, final(diags)@),
        final(diags)@.len() == old(diags)@.len() + notes(ctx.view(), a@, b@, fuel as nat),
        a@->Interface_0.call is Some && b@->Interface_0.call is Some ==> final(diags)@.len()
            > old(diags)@.len(),
    decreases fuel, size(a@) + size(b@), 1nat,
{
    let ghost st = ctx.view();
    proof {
        lemma_measure(a@);
        lemma_measure(b@);
        lemma_notes_refl(diags@);
        lemma_meet_others(st, a@, b@, fuel as nat);
        lemma_notes_others(st, a@, b@, fuel as nat);
        reveal_with_fuel(notes, 1);
    }
    let ghost bound = size(a@) + size(b@);
    let (x, y) = match (a, b) {
        (Type::Interface(x), Type::Interface(y)) => (x, y),
        _ => {
            return never();
        },
    };
    let ghost xv = x.view();
    let ghost yv = y.view();
    assert(a@ == Ty::Interface(xv));
    assert(b@ == Ty::Interface(yv));
    assert forall|i: int, j: int|
        0 <= i < x.fields@.len() && 0 <= j < y.fields@.len() implies size(
            #[trigger] x.fields@[i].typ@,
) + size(#[trigger] y.fields@[j].typ@) < bound by {
        assert(xv.fields[i] == x.fields@[i].view());
        assert(yv.fields[j] == y.fields@[j].view());
        assert(size(xv.fields[i].typ) < size(a@));
        assert(size(yv.fields[j].typ) < size(b@));
    }
    let ghost d0 = diags@;
    let fields = meet_fields(ctx, &x.fields, &y.fields, fuel, diags, Ghost(bound));
    let ghost d1 = diags@;
    proof {
        lemma_notes_refl(d1);
    }
    let index = if fields.len() > 0 {
        None
    } else {
        match (&x.index, &y.index) {
            (Some(p), Some(q)) => {
                let k = meet_within(ctx, &p.0, &q.0, fuel, diags);
                let ghost d2 = diags@;
                let v = meet_within(ctx, &p.1, &q.1, fuel, diags);
                proof {
                    lemma_notes_trans(d1, d2, diags@);
                }
                Some((Box::new(k), Box::new(v)))
            },
            (Some(p), None) => Some((Box::new(p.0.duplicate()), Box::new(p.1.duplicate()))),
            (None, Some(q)) => Some((Box::new(q.0.duplicate()), Box::new(q.1.duplicate()))),
            (None, None) => None,
        }
    };
    proof {
        lemma_notes_trans(d0, d1, diags@);
    }
    if x.call.is_some() && y.call.is_some() {
        let ghost d3 = diags@;
        diags.push(CALL_NOTE.to_owned());
        proof {
            assert(notes_added(d3, diags@)) by {
                assert(diags@.subrange(0, d3.len() as int) =~= d3);
            }
            lemma_notes_trans(d0, d3, diags@);
        }
    }
    let r = Type::Interface(Interface { fields, index, call: None });
    assert(r@->Interface_0 =~= iface_meet(st, xv, yv, fuel as nat, bound));
    r
}

#[verifier::spinoff_prover]
#[verifier::rlimit(60)]
fn meet_other(ctx: &ResolveState, a: &Type, b: &Type, fuel: u64, diags: &mut Vec<String>) -> (r: Type)
    requires
        past_shapes(a@, b@),
    ensures
        r@ == meet(ctx.view(), a@, b@, fuel as nat),
        notes_added(old(diags)@, final(diags)@),
        final(diags)@.len() == old(diags)@.len() + notes(ctx.view(), a@, b@, fuel as nat),
        a@ is Interface && b@ is Interface && a@->Interface_0.call is Some
            && b@->Interface_0.call is Some ==> final(diags)@.len() > old(diags)@.len(),
    decreases fuel, size(a@) + size(b@), 2nat,
{
    let ghost st = ctx.view();
    proof {
        lemma_measure(a@);
        lemma_measure(b@);
        lemma_notes_refl(diags@);
        lemma_notes_others(st, a@, b@, fuel as nat);
        lemma_meet_others(st, a@, b@, fuel as nat);
    }
    let ghost bound = size(a@) + size(b@);
    match (a, b) {
        (Type::This(_), Type::This(_)) => Type::This(This),
        (Type::Validated(v), Type::Validation(e)) => Type::Validated(
            Validated { typ: Box::new(v.typ.duplicate()), expr: v.expr.duplicate().and(e.duplicate()) },
        ),
        (Type::Validation(e), Type::Validated(v)) => Type::Validated(
            Validated { typ: Box::new(v.typ.duplicate()), expr: e.duplicate().and(v.expr.duplicate()) },
        ),
        (Type::Validation(x), Type::Validation(y)) => Type::Validation(x.duplicate().and(y.duplicate())),
        (_, Type::Validation(e)) => Type::Validated(
            Validated { typ: Box::new(a.duplicate()), expr: e.duplicate() },
        ),
        (Type::Validation(e), _) => Type::Validated(
            Validated { typ: Box::new(b.duplicate()), expr: e.duplicate() },
        ),
        (Type::Generic(_), _) | (_, Type::Generic(_)) | (Type::Class(_), Type::Class(_)) => Type::Generic(
            Generic::Intersection(Intersection { x: Box::new(a.duplicate()), y: Box::new(b.duplicate()) }),
        ),
        (Type::Named(n), _) => {
            if fuel == 0 {
                never()
            } else {
                let x = n.underlying(ctx);
                meet_within(ctx, &x, b, fuel - 1, diags)
            }
        },
        (_, Type::Named(n)) => {
            if fuel == 0 {
                never()
            } else {
                let y = n.underlying(ctx);
                meet_within(ctx, a, &y, fuel - 1, diags)
            }
        },
        (Type::Interface(_), Type::Interface(_)) => meet_ifaces(ctx, a, b, fuel, diags),
        (Type::Interface(_), Type::Class(_)) | (Type::Class(_), Type::Interface(_)) => Type::Generic(
            Generic::Intersection(Intersection { x: Box::new(a.duplicate()), y: Box::new(b.duplicate()) }),
        ),
        _ => never(),
    }
}

} // verus!
