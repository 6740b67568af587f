//! Assignability: whether one type is a subtype of another, with a third
//! answer when an unresolved generic decides.
use vstd::prelude::*;
use crate::identity::{identical, last_named};
use crate::resolve::{expand, ResolveState, EXPANSION_LIMIT};
use crate::shape::{size, unions};
use crate::types::{
    fields_view, members_view, tys, Basic, EnumValue, Field, Lit, Literal, Member, MemberValue,
    Name, NumberLit, Ty, Type,
};
use crate::union::lit_basic;

verus! {

/// The literal an enum member's value stands for.
pub open spec fn member_lit(v: MemberValue) -> Lit {
    match v {
        MemberValue::Str(s) => Lit::Str(s),
        MemberValue::Num(n) => Lit::Num(n as int, 0),
    }
}

/// The position of the last member of `ms` named `name`, or -1.
pub open spec fn last_member(ms: Seq<Member>, name: Seq<char>) -> int
    decreases ms.len(),
{
    if ms.len() == 0 {
        -1
    } else if ms.last().name == name {
        ms.len() - 1
    } else {
        last_member(ms.drop_last(), name)
    }
}

/// A conjunction of three-valued verdicts: no if one is no, else unknown if
/// one is unknown, else yes.
pub open spec fn all_of(rs: Seq<Option<bool>>) -> Option<bool> {
    if exists|i: int| 0 <= i < rs.len() && rs[i] == Some(false) {
        Some(false)
    } else if exists|i: int| 0 <= i < rs.len() && rs[i] is None {
        None
    } else {
        Some(true)
    }
}

/// The verdict for a union target, one row of verdicts per member of the
/// source: every row needs a yes; the first row without one decides, unknown
/// if it holds an unknown, else no.
pub open spec fn rows_verdict(rows: Seq<Seq<Option<bool>>>) -> Option<bool>
    decreases rows.len(),
{
    if rows.len() == 0 {
        Some(true)
    } else if rows[0].contains(Some(true)) {
        rows_verdict(rows.drop_first())
    } else if rows[0].contains(None) {
        None
    } else {
        Some(false)
    }
}

/// Whether `a` is assignable to `b` in the context `st`: yes, no, or unknown
/// (`None`) when an unresolved generic decides. At most `fuel` named types
/// are expanded one inside the other; past that the answer is unknown.
#[verifier::opaque]
pub open spec fn assign(st: Seq<(Ty, Ty)>, a: Ty, b: Ty, fuel: nat) -> Option<bool>
    decreases fuel, size(a) + size(b), 2nat,
{
    let bound = size(a) + size(b);
    if b == Ty::Basic(Basic::Any) {
        Some(true)
    } else if b == Ty::Basic(Basic::Never) {
        Some(false)
    } else if a is Generic || b is Generic {
        None
    } else {
        match (a, b) {
            (Ty::Named(_, _), _) => if fuel == 0 {
                None
            } else {
                assign(st, expand(st, a), b, (fuel - 1) as nat)
            },
            (_, Ty::Named(_, _)) => if fuel == 0 {
                None
            } else {
                assign(st, a, expand(st, b), (fuel - 1) as nat)
            },
            (Ty::Basic(x), Ty::Basic(y)) => Some(x == y),
            (Ty::Literal(l), Ty::Basic(k)) => Some(k == Basic::Any || k == lit_basic(l)),
            (Ty::Validated(t, _), _) => assign_under(st, *t, b, fuel, bound),
            (_, Ty::Validated(t, _)) => assign_under(st, a, *t, fuel, bound),
            (_, Ty::Optional(x)) => if a == Ty::Basic(Basic::Undefined) {
                Some(true)
            } else {
                assign_under(st, a, *x, fuel, bound)
            },
            (_, Ty::Union(os)) => rows_verdict(assign_rows(st, unions(a), os, fuel, bound)),
            (Ty::Tuple(xs), Ty::Tuple(ys)) => if xs.len() != ys.len() {
                Some(false)
            } else {
                all_of(assign_pairs(st, xs, ys, fuel, bound))
            },
            (Ty::Tuple(xs), Ty::Array(y)) => all_of(assign_each(st, xs, *y, fuel, bound)),
            (Ty::Tuple(_), _) => Some(false),
            (Ty::Enum(ms), Ty::Enum(ns)) => Some(
                forall|j: int|
                    0 <= j < ns.len() ==> {
                        let k = last_member(ms, (#[trigger] ns[j]).name);
                        0 <= k < ms.len() && ms[k].value == ns[j].value
                    },
            ),
            (Ty::Enum(ms), Ty::Interface(y)) => all_of(
                assign_members(st, ms, y.fields, fuel, bound),
            ),
            (Ty::Enum(_), _) => Some(false),
            (Ty::Interface(x), Ty::Interface(y)) => all_of(
                assign_fields(st, x.fields, y.fields, fuel, bound),
            ),
            (Ty::Interface(_), _) => Some(false),
            _ => Some(identical(a, b)),
        }
    }
}

/// `assign` on parts of two operands whose sizes add up to `bound`.
pub open spec fn assign_under(st: Seq<(Ty, Ty)>, a: Ty, b: Ty, fuel: nat, bound: nat) -> Option<
    bool,
>
    decreases fuel, bound, 1nat,
{
    if size(a) + size(b) < bound {
        assign(st, a, b, fuel)
    } else {
        None
    }
}

/// The verdicts of the pairs of two sequences, position by position.
pub open spec fn assign_pairs(
    st: Seq<(Ty, Ty)>,
    xs: Seq<Ty>,
    ys: Seq<Ty>,
    fuel: nat,
    bound: nat,
) -> Seq<Option<bool>>
    decreases fuel, bound, 0nat,
{
    Seq::new(
        xs.len(),
        |i: int|
            if 0 <= i < xs.len() && i < ys.len() && size(xs[i]) + size(ys[i]) < bound {
                assign(st, xs[i], ys[i], fuel)
            } else {
                None
            },
    )
}

/// The verdicts of each of `xs` against `y`.
pub open spec fn assign_each(st: Seq<(Ty, Ty)>, xs: Seq<Ty>, y: Ty, fuel: nat, bound: nat) -> Seq<
    Option<bool>,
>
    decreases fuel, bound, 0nat,
{
    Seq::new(
        xs.len(),
        |i: int|
            if 0 <= i < xs.len() && size(xs[i]) + size(y) < bound {
                assign(st, xs[i], y, fuel)
            } else {
                None
            },
    )
}

/// The verdicts of `x` against each of `os`.
pub open spec fn assign_to_each(st: Seq<(Ty, Ty)>, x: Ty, os: Seq<Ty>, fuel: nat, bound: nat) -> Seq<
    Option<bool>,
>
    decreases fuel, bound, 0nat,
{
    Seq::new(
        os.len(),
        |j: int|
            if 0 <= j < os.len() && size(x) + size(os[j]) < bound {
                assign(st, x, os[j], fuel)
            } else {
                None
            },
    )
}

/// One row of verdicts per member of the source: the member against each
/// member of the target union.
pub open spec fn assign_rows(
    st: Seq<(Ty, Ty)>,
    ts: Seq<Ty>,
    os: Seq<Ty>,
    fuel: nat,
    bound: nat,
) -> Seq<Seq<Option<bool>>>
    decreases fuel, bound, 1nat,
{
    Seq::new(
        ts.len(),
        |i: int|
            if 0 <= i < ts.len() {
                assign_to_each(st, ts[i], os, fuel, bound)
            } else {
                Seq::empty()
            },
    )
}

/// Width subtyping: for each field of the target, the verdict of the source
/// field of its name, and no where the source has none.
pub open spec fn assign_fields(
    st: Seq<(Ty, Ty)>,
    xf: Seq<Field>,
    yf: Seq<Field>,
    fuel: nat,
    bound: nat,
) -> Seq<Option<bool>>
    decreases fuel, bound, 0nat,
{
    Seq::new(
        yf.len(),
        |j: int|
            if 0 <= j < yf.len() {
                let k = last_named(xf, yf[j].name);
                if 0 <= k < xf.len() {
                    if size(xf[k].typ) + size(yf[j].typ) < bound {
                        assign(st, xf[k].typ, yf[j].typ, fuel)
                    } else {
                        None
                    }
                } else {
                    Some(false)
                }
            } else {
                None
            },
    )
}

/// An enum against an interface: for each string-named field of the
/// interface, the verdict of the literal of the member of its name against
/// the field's type, and no where the enum has no such member; fields named
/// by a symbol pass.
pub open spec fn assign_members(
    st: Seq<(Ty, Ty)>,
    ms: Seq<Member>,
    yf: Seq<Field>,
    fuel: nat,
    bound: nat,
) -> Seq<Option<bool>>
    decreases fuel, bound, 0nat,
{
    Seq::new(
        yf.len(),
        |j: int|
            if 0 <= j < yf.len() {
                match yf[j].name {
                    Name::Str(n) => {
                        let k = last_member(ms, n);
                        if 0 <= k < ms.len() {
                            if 1 + size(yf[j].typ) < bound {
                                assign(st, Ty::Literal(member_lit(ms[k].value)), yf[j].typ, fuel)
                            } else {
                                None
                            }
                        } else {
                            Some(false)
                        }
                    },
                    Name::Symbol(_) => Some(true),
                }
            } else {
                None
            },
    )
}

#[verifier::spinoff_prover]
pub proof fn lemma_assign_head(st: Seq<(Ty, Ty)>, a: Ty, b: Ty, fuel: nat)
    ensures
        b == Ty::Basic(Basic::Any) ==> assign(st, a, b, fuel) == Some(true),
        b != Ty::Basic(Basic::Any) && b == Ty::Basic(Basic::Never) ==> assign(st, a, b, fuel) == Some(
            false,
        ),
        b != Ty::Basic(Basic::Any) && b != Ty::Basic(Basic::Never) && (a is Generic || b is Generic)
            ==> assign(st, a, b, fuel) is None,
{
    reveal_with_fuel(assign, 1);
}

/// The operands that the first rules of `assign` leave.
pub open spec fn assign_open(a: Ty, b: Ty) -> bool {
    b != Ty::Basic(Basic::Any) && b != Ty::Basic(Basic::Never) && !(a is Generic) && !(b is Generic)
}

#[verifier::spinoff_prover]
pub proof fn lemma_assign_wrappers(st: Seq<(Ty, Ty)>, a: Ty, b: Ty, fuel: nat)
    requires
        assign_open(a, b),
    ensures
        ({
            let r = assign(st, a, b, fuel);
            let bound = size(a) + size(b);
            &&& a is Named ==> r == (if fuel == 0 {
                None
            } else {
                assign(st, expand(st, a), b, (fuel - 1) as nat)
            })
            &&& !(a is Named) && b is Named ==> r == (if fuel == 0 {
                None
            } else {
                assign(st, a, expand(st, b), (fuel - 1) as nat)
            })
            &&& a is Basic && b is Basic ==> r == Some(a == b)
            &&& a is Literal && b is Basic ==> r == Some(
                b->Basic_0 == Basic::Any || b->Basic_0 == lit_basic(a->Literal_0),
            )
            &&& a is Validated && !(b is Named) ==> r == assign_under(
                st,
                *a->Validated_0,
                b,
                fuel,
                bound,
            )
            &&& !(a is Validated) && !(a is Named) && b is Validated ==> r == assign_under(
                st,
                a,
                *b->Validated_0,
                fuel,
                bound,
            )
            &&& !(a is Validated) && !(a is Named) && b is Optional ==> r == (if a == Ty::Basic(
                Basic::Undefined,
            ) {
                Some(true)
            } else {
                assign_under(st, a, *b->Optional_0, fuel, bound)
            })
        }),
{
    reveal_with_fuel(assign, 1);
}

/// The operands that the rules on named, basic, literal, validated and
/// optional types leave.
pub open spec fn assign_structural(a: Ty, b: Ty) -> bool {
    &&& assign_open(a, b)
    &&& !(a is Named) && !(b is Named)
    &&& !(a is Basic && b is Basic) && !(a is Literal && b is Basic)
    &&& !(a is Validated) && !(b is Validated) && !(b is Optional)
}

#[verifier::spinoff_prover]
pub proof fn lemma_assign_shapes(st: Seq<(Ty, Ty)>, a: Ty, b: Ty, fuel: nat)
    requires
        assign_structural(a, b),
    ensures
        ({
            let r = assign(st, a, b, fuel);
            let bound = size(a) + size(b);
            &&& a is Tuple && b is Tuple ==> r == (if a->Tuple_0.len() != b->Tuple_0.len() {
                Some(false)
            } else {
                all_of(assign_pairs(st, a->Tuple_0, b->Tuple_0, fuel, bound))
            })
            &&& a is Tuple && b is Array ==> r == all_of(
                assign_each(st, a->Tuple_0, *b->Array_0, fuel, bound),
            )
            &&& a is Tuple && !(b is Tuple) && !(b is Array) && !(b is Union) ==> r == Some(false)
            &&& a is Enum && b is Enum ==> r == Some(
                forall|j: int|
                    0 <= j < b->Enum_0.len() ==> {
                        let k = last_member(a->Enum_0, (#[trigger] b->Enum_0[j]).name);
                        0 <= k < a->Enum_0.len() && a->Enum_0[k].value == b->Enum_0[j].value
                    },
            )
            &&& a is Enum && b is Interface ==> r == all_of(
                assign_members(st, a->Enum_0, b->Interface_0.fields, fuel, bound),
            )
            &&& a is Enum && !(b is Enum) && !(b is Interface) && !(b is Union) ==> r == Some(false)
            &&& a is Interface && b is Interface ==> r == all_of(
                assign_fields(st, a->Interface_0.fields, b->Interface_0.fields, fuel, bound),
            )
            &&& a is Interface && !(b is Interface) && !(b is Union) ==> r == Some(false)
            &&& b is Union ==> r == rows_verdict(assign_rows(st, unions(a), b->Union_0, fuel, bound))
            &&& !(a is Tuple) && !(a is Enum) && !(a is Interface) && !(b is Union) ==> r == Some(
                identical(a, b),
            )
        }),
{
    reveal_with_fuel(assign, 1);
}

/// Combines verdicts: no if one is no, else unknown if one is unknown, else
/// yes.
pub fn all_of_exec(rs: &Vec<Option<bool>>) -> (r: Option<bool>)
    ensures
        r == all_of(rs@),
{
    let mut unknown = false;
    let mut i: usize = 0;
    while i < rs.len()
        invariant
            i <= rs@.len(),
            forall|k: int| 0 <= k < i ==> rs@[k] != Some(false),
            unknown == exists|k: int| 0 <= k < i && rs@[k] is None,
        decreases rs@.len() - i,
    {
        match rs[i] {
            Some(false) => {
                return Some(false);
            },
            None => {
                unknown = true;
            },
            Some(true) => {},
        }
        i += 1;
    }
    if unknown {
        None
    } else {
        Some(true)
    }
}

impl EnumValue {
    /// The literal this value stands for.
    pub fn to_literal(self) -> (r: Literal)
        ensures
            r.view() == member_lit(self.view()),
    {
        match self {
            EnumValue::String(s) => Literal::String(s),
            EnumValue::Number(n) => Literal::Number(NumberLit { mantissa: n, exponent: 0 }),
        }
    }

    /// The literal type this value stands for.
    pub fn to_type(self) -> (r: Type)
        ensures
            r@ == Ty::Literal(member_lit(self.view())),
    {
        Type::Literal(self.to_literal())
    }
}

/// The position of the last member of `ms` named `name`.
fn find_last_member(ms: &Vec<crate::types::EnumMember>, name: &str) -> (r: Option<usize>)
    ensures
        match r {
            Some(k) => k as int == last_member(members_view(ms@), name@) && k < ms@.len(),
            None => last_member(members_view(ms@), name@) == -1,
        },
{
    let ghost v = members_view(ms@);
    let mut i: usize = ms.len();
    assert(v.subrange(0, i as int) =~= v);
    while i > 0
        invariant
            v == members_view(ms@),
            i <= ms@.len(),
            last_member(v, name@) == last_member(v.subrange(0, i as int), name@),
        decreases i,
    {
        let ghost fs = v.subrange(0, i as int);
        assert(fs.last().name == ms@[i - 1].name@);
        if crate::identity::str_equal(ms[i - 1].name.as_str(), name) {
            return Some(i - 1);
        }
        assert(fs.drop_last() =~= v.subrange(0, i - 1));
        i -= 1;
    }
    None
}

fn values_equal(a: &EnumValue, b: &EnumValue) -> (r: bool)
    ensures
        r == (a.view() == b.view()),
{
    match (a, b) {
        (EnumValue::String(x), EnumValue::String(y)) => *x == *y,
        (EnumValue::Number(x), EnumValue::Number(y)) => *x == *y,
        _ => false,
    }
}

/// Whether every member of `f` is a member of `e`, by name, with an equal
/// value.
pub(crate) fn enum_covers(e: &crate::types::EnumType, f: &crate::types::EnumType) -> (r: bool)
    ensures
        r == (forall|j: int|
            0 <= j < f.view().len() ==> {
                let k = last_member(e.view(), (#[trigger] f.view()[j]).name);
                0 <= k < e.view().len() && e.view()[k].value == f.view()[j].value
            }),
{
    let ghost ev = e.view();
    let ghost fv = f.view();
    let mut j: usize = 0;
    while j < f.members.len()
        invariant
            ev == e.view(),
            fv == f.view(),
            fv.len() == f.members@.len(),
            j <= fv.len(),
            forall|jj: int|
                0 <= jj < j ==> {
                    let k = last_member(ev, (#[trigger] fv[jj]).name);
                    0 <= k < ev.len() && ev[k].value == fv[jj].value
                },
        decreases fv.len() - j,
    {
        let m = &f.members[j];
        assert(fv[j as int].name == m.name@ && fv[j as int].value == m.value.view());
        match find_last_member(&e.members, m.name.as_str()) {
            Some(k) => {
                assert(ev[k as int].value == e.members@[k as int].value.view());
                if !values_equal(&e.members[k].value, &m.value) {
                    return false;
                }
            },
            None => {
                return false;
            },
        }
        j += 1;
    }
    true
}

impl Type {
    /// Whether `self` is assignable to `other`: `Some(true)` or
    /// `Some(false)`, or `None` when an unresolved generic decides. Named
    /// types are expanded through `state`, at most `EXPANSION_LIMIT` one
    /// inside the other; past that the answer is `None`.
    pub fn assignable(&self, state: &ResolveState, other: &Type) -> (r: Option<bool>)
        ensures
            r == assign(state.view(), self@, other@, EXPANSION_LIMIT as nat),
    {
        assign_within(state, self, other, EXPANSION_LIMIT)
    }
}

#[verifier::spinoff_prover]
fn assign_within(ctx: &ResolveState, a: &Type, b: &Type, fuel: u64) -> (r: Option<bool>)
    ensures
        r == assign(ctx.view(), a@, b@, fuel as nat),
    decreases fuel, size(a@) + size(b@), 3nat,
{
    let ghost st = ctx.view();
    proof {
        crate::intersect::lemma_measure(a@);
        crate::intersect::lemma_measure(b@);
        lemma_assign_head(st, a@, b@, fuel as nat);
    }
    match b {
        Type::Basic(Basic::Any) => return Some(true),
        Type::Basic(Basic::Never) => return Some(false),
        _ => {},
    }
    match (a, b) {
        (Type::Generic(_), _) | (_, Type::Generic(_)) => return None,
        _ => {},
    }
    proof {
        lemma_assign_wrappers(st, a@, b@, fuel as nat);
    }
    let ghost bound = size(a@) + size(b@);
    match (a, b) {
        (Type::Named(n), _) => {
            return if fuel == 0 {
                None
            } else {
                let x = n.underlying(ctx);
                assign_within(ctx, &x, b, fuel - 1)
            };
        },
        (_, Type::Named(n)) => {
            return if fuel == 0 {
                None
            } else {
                let y = n.underlying(ctx);
                assign_within(ctx, a, &y, fuel - 1)
            };
        },
        (Type::Basic(x), Type::Basic(y)) => return Some(*x == *y),
        (Type::Literal(l), Type::Basic(k)) => return Some(*k == Basic::Any || *k == l.basic()),
        (Type::Validated(v), _) => return assign_within(ctx, &v.typ, b, fuel),
        (_, Type::Validated(v)) => return assign_within(ctx, a, &v.typ, fuel),
        (_, Type::Optional(x)) => {
            return match a {
                Type::Basic(Basic::Undefined) => Some(true),
                _ => assign_within(ctx, a, &x.0, fuel),
            };
        },
        _ => {},
    }
    assign_shapes(ctx, a, b, fuel)
}

#[verifier::spinoff_prover]
fn assign_shapes(ctx: &ResolveState, a: &Type, b: &Type, fuel: u64) -> (r: Option<bool>)
    requires
        assign_structural(a@, b@),
    ensures
        r == assign(ctx.view(), a@, b@, fuel as nat),
    decreases fuel, size(a@) + size(b@), 2nat,
{
    let ghost st = ctx.view();
    proof {
        crate::intersect::lemma_measure(a@);
        crate::intersect::lemma_measure(b@);
        lemma_assign_shapes(st, a@, b@, fuel as nat);
    }
    let ghost bound = size(a@) + size(b@);
    match (a, b) {
        (_, Type::Union(_)) => assign_to_union(ctx, a, b, fuel),
        (Type::Tuple(x), Type::Tuple(y)) => {
            if x.types.len() != y.types.len() {
                return Some(false);
            }
            assert forall|i: int| 0 <= i < x.types@.len() implies size(#[trigger] x.types@[i]@)
                < size(a@) by {
                assert(tys(x.types@)[i] == x.types@[i]@);
            }
            assert forall|i: int| 0 <= i < y.types@.len() implies size(#[trigger] y.types@[i]@)
                < size(b@) by {
                assert(tys(y.types@)[i] == y.types@[i]@);
            }
            let rs = verdicts_pairs(ctx, &x.types, &y.types, fuel, Ghost(bound));
            all_of_exec(&rs)
        },
        (Type::Tuple(x), Type::Array(y)) => {
            assert forall|i: int| 0 <= i < x.types@.len() implies size(#[trigger] x.types@[i]@)
                < size(a@) by {
                assert(tys(x.types@)[i] == x.types@[i]@);
            }
            let rs = verdicts_each(ctx, &x.types, &y.0, fuel, Ghost(bound));
            all_of_exec(&rs)
        },
        (Type::Tuple(_), _) => Some(false),
        (Type::Enum(e), Type::Enum(f)) => Some(enum_covers(e, f)),
        (Type::Enum(e), Type::Interface(y)) => {
            let ghost yv = y.view();
            assert(b@ == Ty::Interface(yv));
            assert forall|j: int| 0 <= j < y.fields@.len() implies size(#[trigger] y.fields@[j].typ@)
                < size(b@) by {
                assert(yv.fields[j] == y.fields@[j].view());
                assert(size(yv.fields[j].typ) < size(b@));
            }
            let rs = verdicts_members(ctx, e, &y.fields, fuel, Ghost(bound));
            all_of_exec(&rs)
        },
        (Type::Enum(_), _) => Some(false),
        (Type::Interface(x), Type::Interface(y)) => {
            let ghost xv = x.view();
            let ghost yv = y.view();
            assert(a@ == Ty::Interface(xv));
            assert(b@ == Ty::Interface(yv));
            assert forall|i: int| 0 <= i < x.fields@.len() implies size(#[trigger] x.fields@[i].typ@)
                < size(a@) by {
                assert(xv.fields[i] == x.fields@[i].view());
                assert(size(xv.fields[i].typ) < size(a@));
            }
            assert forall|j: int| 0 <= j < y.fields@.len() implies size(#[trigger] y.fields@[j].typ@)
                < size(b@) by {
                assert(yv.fields[j] == y.fields@[j].view());
                assert(size(yv.fields[j].typ) < size(b@));
            }
            let rs = verdicts_fields(ctx, &x.fields, &y.fields, fuel, Ghost(bound));
            all_of_exec(&rs)
        },
        (Type::Interface(_), _) => Some(false),
        _ => Some(a.identical(b)),
    }
}


#[verifier::spinoff_prover]
fn assign_to_union(ctx: &ResolveState, a: &Type, b: &Type, fuel: u64) -> (r: Option<bool>)
    requires
        assign_structural(a@, b@),
        b@ is Union,
    ensures
        r == assign(ctx.view(), a@, b@, fuel as nat),
    decreases fuel, size(a@) + size(b@), 1nat,
{
    let ghost st = ctx.view();
    proof {
        crate::intersect::lemma_measure(a@);
        crate::intersect::lemma_measure(b@);
        lemma_assign_shapes(st, a@, b@, fuel as nat);
    }
    let ghost bound = size(a@) + size(b@);
    let u = match b {
        Type::Union(u) => u,
        _ => {
            return None;
        },
    };
    let ts = a.iter_unions();
    let ghost os = tys(u.types@);
    let ghost rows = assign_rows(st, tys(ts@), os, fuel as nat, bound);
    assert forall|i: int| 0 <= i < ts@.len() implies size(#[trigger] ts@[i]@) <= size(a@) by {
        assert(tys(ts@)[i] == ts@[i]@);
    }
    assert forall|j: int| 0 <= j < u.types@.len() implies size(#[trigger] u.types@[j]@)
        < size(b@) by {
        assert(os[j] == u.types@[j]@);
    }
    let mut i: usize = 0;
    assert(rows.subrange(0, rows.len() as int) =~= rows);
    while i < ts.len()
        invariant
            st == ctx.view(),
            os == tys(u.types@),
            bound == size(a@) + size(b@),
            rows == assign_rows(st, tys(ts@), os, fuel as nat, bound),
            rows.len() == ts@.len(),
            i <= ts@.len(),
            forall|i: int| 0 <= i < ts@.len() ==> size(#[trigger] ts@[i]@) <= size(a@),
            forall|j: int| 0 <= j < u.types@.len() ==> size(#[trigger] u.types@[j]@) < size(b@),
            rows_verdict(rows) == rows_verdict(rows.subrange(i as int, rows.len() as int)),
            assign(st, a@, b@, fuel as nat) == rows_verdict(rows),
        decreases ts@.len() - i,
    {
        let row = verdicts_to_each(ctx, &ts[i], &u.types, fuel, Ghost(bound));
        let ghost rest = rows.subrange(i as int, rows.len() as int);
        assert(rest[0] == rows[i as int]);
        assert(tys(ts@)[i as int] == ts@[i as int]@);
        assert(row@ == rows[i as int]);
        let mut yes = false;
        let mut unknown = false;
        let mut j: usize = 0;
        while j < row.len()
            invariant
                j <= row@.len(),
                yes == row@.subrange(0, j as int).contains(Some(true)),
                unknown == row@.subrange(0, j as int).contains(None),
            decreases row@.len() - j,
        {
            proof {
                let s0 = row@.subrange(0, j as int);
                let s1 = row@.subrange(0, j + 1);
                assert(s1 =~= s0.push(row@[j as int]));
                if s1.contains(Some(true)) && !s0.contains(Some(true)) {
                    let k = choose|k: int| 0 <= k < s1.len() && s1[k] == Some(true);
                    assert(k == j);
                }
                if s1.contains(None) && !s0.contains(None) {
                    let k = choose|k: int| 0 <= k < s1.len() && s1[k] == None::<bool>;
                    assert(k == j);
                }
                if s0.contains(Some(true)) {
                    let k = choose|k: int| 0 <= k < s0.len() && s0[k] == Some(true);
                    assert(s1[k] == Some(true));
                }
                if s0.contains(None) {
                    let k = choose|k: int| 0 <= k < s0.len() && s0[k] == None::<bool>;
                    assert(s1[k] == None::<bool>);
                }
                if row@[j as int] == Some(true) {
                    assert(s1[j as int] == Some(true));
                }
                if row@[j as int] is None {
                    assert(s1[j as int] == None::<bool>);
                }
            }
            match row[j] {
                Some(true) => {
                    yes = true;
                },
                None => {
                    unknown = true;
                },
                Some(false) => {},
            }
            j += 1;
}
        assert(row@.subrange(0, row@.len() as int) =~= row@);
        if !yes {
            assert(rest.len() > 0);
            assert(!rest[0].contains(Some(true)));
            return if unknown {
                None
            } else {
                Some(false)
            };
}
        assert(rest.drop_first() =~= rows.subrange(i + 1, rows.len() as int));
        i += 1;
    }
    assert(rows.subrange(ts@.len() as int, rows.len() as int) =~= Seq::<Seq<Option<bool>>>::empty());
    Some(true)
        }

fn verdicts_pairs(ctx: &ResolveState, xs: &Vec<Type>, ys: &Vec<Type>, fuel: u64, Ghost(bound): Ghost<nat>) -> (r: Vec<Option<bool>>)
    requires
        xs@.len() == ys@.len(),
        forall|i: int| 0 <= i < xs@.len() ==> size(#[trigger] xs@[i]@) + size(ys@[i]@) < bound,
    ensures
        r@ == assign_pairs(ctx.view(), tys(xs@), tys(ys@), fuel as nat, bound),
    decreases fuel, bound, 0nat,
{
    proof {
        reveal_with_fuel(assign, 1);
    }
    let mut out: Vec<Option<bool>> = Vec::new();
    let mut i: usize = 0;
    while i < xs.len()
        invariant
            xs@.len() == ys@.len(),
            i <= xs@.len(),
            out@.len() == i,
            forall|i: int| 0 <= i < xs@.len() ==> size(#[trigger] xs@[i]@) + size(ys@[i]@) < bound,
            forall|k: int| 0 <= k < i ==> #[trigger] out@[k] == assign(ctx.view(), xs@[k]@, ys@[k]@, fuel as nat),
        decreases xs@.len() - i,
    {
        assert(size(xs@[i as int]@) + size(ys@[i as int]@) < bound);
        let v = assign_within(ctx, &xs[i], &ys[i], fuel);
        out.push(v);
        i += 1;
    }
    assert forall|k: int| 0 <= k < xs@.len() implies tys(xs@)[k] == (#[trigger] xs@[k])@ by {}
    assert forall|k: int| 0 <= k < ys@.len() implies tys(ys@)[k] == (#[trigger] ys@[k])@ by {}
    assert forall|k: int| 0 <= k < xs@.len() implies out@[k] == assign_pairs(
        ctx.view(),
        tys(xs@),
        tys(ys@),
        fuel as nat,
        bound,
    )[k] by {
        assert(tys(xs@)[k] == xs@[k]@);
        assert(tys(ys@)[k] == ys@[k]@);
    }
    assert(out@ =~= assign_pairs(ctx.view(), tys(xs@), tys(ys@), fuel as nat, bound));
    out
}

fn verdicts_each(ctx: &ResolveState, xs: &Vec<Type>, y: &Type, fuel: u64, Ghost(bound): Ghost<nat>) -> (r: Vec<Option<bool>>)
    requires
        forall|i: int| 0 <= i < xs@.len() ==> size(#[trigger] xs@[i]@) + size(y@) < bound,
    ensures
        r@ == assign_each(ctx.view(), tys(xs@), y@, fuel as nat, bound),
    decreases fuel, bound, 0nat,
{
    proof {
        reveal_with_fuel(assign, 1);
    }
    let mut out: Vec<Option<bool>> = Vec::new();
    let mut i: usize = 0;
    while i < xs.len()
        invariant
            i <= xs@.len(),
            out@.len() == i,
            forall|i: int| 0 <= i < xs@.len() ==> size(#[trigger] xs@[i]@) + size(y@) < bound,
            forall|k: int| 0 <= k < i ==> #[trigger] out@[k] == assign(ctx.view(), xs@[k]@, y@, fuel as nat),
        decreases xs@.len() - i,
    {
        assert(size(xs@[i as int]@) + size(y@) < bound);
        let v = assign_within(ctx, &xs[i], y, fuel);
        out.push(v);
        i += 1;
    }
    assert forall|k: int| 0 <= k < xs@.len() implies tys(xs@)[k] == (#[trigger] xs@[k])@ by {}
    assert forall|k: int| 0 <= k < xs@.len() implies out@[k] == assign_each(
        ctx.view(),
        tys(xs@),
        y@,
        fuel as nat,
        bound,
    )[k] by {
        assert(tys(xs@)[k] == xs@[k]@);
    }
    assert(out@ =~= assign_each(ctx.view(), tys(xs@), y@, fuel as nat, bound));
    out
}

fn verdicts_to_each(ctx: &ResolveState, x: &Type, os: &Vec<Type>, fuel: u64, Ghost(bound): Ghost<nat>) -> (r: Vec<Option<bool>>)
    requires
        forall|j: int| 0 <= j < os@.len() ==> size(x@) + size(#[trigger] os@[j]@) < bound,
    ensures
        r@ == assign_to_each(ctx.view(), x@, tys(os@), fuel as nat, bound),
    decreases fuel, bound, 0nat,
{
    let mut out: Vec<Option<bool>> = Vec::new();
    let mut j: usize = 0;
    while j < os.len()
        invariant
            j <= os@.len(),
            out@.len() == j,
            forall|j: int| 0 <= j < os@.len() ==> size(x@) + size(#[trigger] os@[j]@) < bound,
            forall|k: int| 0 <= k < j ==> #[trigger] out@[k] == assign(ctx.view(), x@, os@[k]@, fuel as nat),
        decreases os@.len() - j,
    {
        assert(size(x@) + size(os@[j as int]@) < bound);
        let v = assign_within(ctx, x, &os[j], fuel);
        out.push(v);
        j += 1;
    }
    assert forall|k: int| 0 <= k < os@.len() implies tys(os@)[k] == (#[trigger] os@[k])@ by {}
    reveal_with_fuel(assign, 1);
    assert forall|k: int| 0 <= k < os@.len() implies out@[k] == assign_to_each(
        ctx.view(),
        x@,
        tys(os@),
        fuel as nat,
        bound,
    )[k] by {
        assert(tys(os@)[k] == os@[k]@);
        assert(tys(os@)[k] == os@[k]@);
    }
    assert(out@ =~= assign_to_each(ctx.view(), x@, tys(os@), fuel as nat, bound));
    out
}

fn verdicts_fields(
    ctx: &ResolveState,
    xf: &Vec<crate::types::InterfaceField>,
    yf: &Vec<crate::types::InterfaceField>,
    fuel: u64,
    Ghost(bound): Ghost<nat>,
) -> (r: Vec<Option<bool>>)
    requires
        forall|i: int, j: int|
            0 <= i < xf@.len() && 0 <= j < yf@.len() ==> size(#[trigger] xf@[i].typ@) + size(
                #[trigger] yf@[j].typ@,
            ) < bound,
    ensures
        r@ == assign_fields(ctx.view(), fields_view(xf@), fields_view(yf@), fuel as nat, bound),
    decreases fuel, bound, 0nat,
{
    proof {
        reveal_with_fuel(assign, 1);
    }
    let ghost xv = fields_view(xf@);
    let ghost yv = fields_view(yf@);
    let ghost want = assign_fields(ctx.view(), xv, yv, fuel as nat, bound);
    let mut out: Vec<Option<bool>> = Vec::new();
    let mut j: usize = 0;
    while j < yf.len()
        invariant
            xv == fields_view(xf@),
            yv == fields_view(yf@),
            want == assign_fields(ctx.view(), xv, yv, fuel as nat, bound),
            want.len() == yf@.len(),
            j <= yf@.len(),
            out@.len() == j,
            forall|i: int, j: int|
                0 <= i < xf@.len() && 0 <= j < yf@.len() ==> size(#[trigger] xf@[i].typ@) + size(
                    #[trigger] yf@[j].typ@,
                ) < bound,
            forall|k: int| 0 <= k < j ==> #[trigger] out@[k] == want[k],
        decreases yf@.len() - j,
    {
        let g = &yf[j];
        assert(yv[j as int] == g.view());
        let v = match crate::identity::find_last_named(xf, &g.name) {
            Some(k) => {
                proof {
                    crate::identity::lemma_last_named_bounds(xv, g.name.view());
                }
                assert(xv[k as int] == xf@[k as int].view());
                assert(size(xf@[k as int].typ@) + size(yf@[j as int].typ@) < bound);
                assign_within(ctx, &xf[k].typ, &g.typ, fuel)
            },
            None => Some(false),
        };
        out.push(v);
        reveal_with_fuel(assign, 1);
        assert(out@[j as int] == want[j as int]);
        j += 1;
    }
    assert(out@ =~= want);
    out
}

pub(crate) fn verdicts_members(
    ctx: &ResolveState,
    e: &crate::types::EnumType,
    yf: &Vec<crate::types::InterfaceField>,
    fuel: u64,
    Ghost(bound): Ghost<nat>,
) -> (r: Vec<Option<bool>>)
    requires
        forall|j: int| 0 <= j < yf@.len() ==> 1 + size(#[trigger] yf@[j].typ@) < bound,
    ensures
        r@ == assign_members(ctx.view(), e.view(), fields_view(yf@), fuel as nat, bound),
    decreases fuel, bound, 0nat,
{
    proof {
        reveal_with_fuel(assign, 1);
    }
    let ghost ev = e.view();
    let ghost yv = fields_view(yf@);
    let ghost want = assign_members(ctx.view(), ev, yv, fuel as nat, bound);
    let mut out: Vec<Option<bool>> = Vec::new();
    let mut j: usize = 0;
    while j < yf.len()
        invariant
            ev == e.view(),
            yv == fields_view(yf@),
            want == assign_members(ctx.view(), ev, yv, fuel as nat, bound),
            want.len() == yf@.len(),
            j <= yf@.len(),
            out@.len() == j,
            forall|j: int| 0 <= j < yf@.len() ==> 1 + size(#[trigger] yf@[j].typ@) < bound,
            forall|k: int| 0 <= k < j ==> #[trigger] out@[k] == want[k],
        decreases yf@.len() - j,
    {
        let g = &yf[j];
        assert(yv[j as int] == g.view());
        let v = match &g.name {
            crate::types::FieldName::String(n) => {
                match find_last_member(&e.members, n.as_str()) {
                    Some(k) => {
                        let t = e.members[k].value.duplicate().to_type();
                        assert(ev[k as int].value == e.members@[k as int].value.view());
                        assert(size(t@) == 1);
                        assert(size(yf@[j as int].typ@) + 1 < bound);
                        assign_within(ctx, &t, &g.typ, fuel)
                    },
                    None => Some(false),
                }
            },
            crate::types::FieldName::Symbol(_) => Some(true),
        };
        out.push(v);
        reveal_with_fuel(assign, 1);
        assert(out@[j as int] == want[j as int]);
        j += 1;
    }
    assert(out@ =~= want);
    out
}

} // verus!
