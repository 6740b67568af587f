//! Extension with inference: assignability that also binds the inferred
//! slots of the target to the parts of the source they stand for.
use vstd::prelude::*;
use itertools::Itertools;
use crate::assign::{all_of, assign_members, last_member};
use crate::identity::{identical, last_named};
use crate::resolve::{expand, ResolveState, EXPANSION_LIMIT};
use crate::shape::{size, unions};
use crate::types::{fields_view, tys, Basic, Field, Generic, Ty, Type};
use crate::union::{canonical_union, lit_basic, simplify_union};

verus! {

/// The view of an extension result.
pub enum Ext {
    Yes(Seq<(usize, Ty)>),
    No,
    Unknown,
}

/// The result of an extension check: yes, with the bindings of inferred
/// slots found on the way; no; or unknown when an unresolved generic
/// decides.
#[derive(Debug)]
pub enum Extends {
    Yes(Vec<(usize, Type)>),
    No,
    Unknown,
}

pub open spec fn binds(s: Seq<(usize, Type)>) -> Seq<(usize, Ty)> {
    Seq::new(s.len(), |i: int| (s[i].0, s[i].1@))
}

impl Extends {
    pub open spec fn view(&self) -> Ext {
        match self {
            Extends::Yes(v) => Ext::Yes(binds(v@)),
            Extends::No => Ext::No,
            Extends::Unknown => Ext::Unknown,
        }
    }

    /// The same result, owning every type it holds.
    pub fn into_static(self) -> (r: Extends)
        ensures
            r.view() == self.view(),
    {
        self
    }
}

pub open spec fn exts(s: Seq<Extends>) -> Seq<Ext> {
    Seq::new(s.len(), |i: int| s[i].view())
}

/// Yes with no bindings, or no.
pub open spec fn yes_or_no(b: bool) -> Ext {
    if b {
        Ext::Yes(Seq::empty())
    } else {
        Ext::No
    }
}

/// The bindings of the yes results among `rs`, in order.
pub open spec fn bindings_of(rs: Seq<Ext>) -> Seq<(usize, Ty)>
    decreases rs.len(),
{
    if rs.len() == 0 {
        Seq::empty()
    } else {
        bindings_of(rs.drop_last()) + match rs.last() {
            Ext::Yes(b) => b,
            _ => Seq::empty(),
        }
    }
}

/// A conjunction of results: no if one is no, else unknown if one is
/// unknown, else yes with all their bindings.
pub open spec fn ext_all(rs: Seq<Ext>) -> Ext {
    if exists|i: int| 0 <= i < rs.len() && rs[i] is No {
        Ext::No
    } else if exists|i: int| 0 <= i < rs.len() && rs[i] is Unknown {
        Ext::Unknown
    } else {
        Ext::Yes(bindings_of(rs))
    }
}

/// A disjunction of results: yes with the bindings of every yes if one is
/// yes, else unknown if one is unknown, else no.
pub open spec fn ext_any(rs: Seq<Ext>) -> Ext {
    if exists|i: int| 0 <= i < rs.len() && rs[i] is Yes {
        Ext::Yes(bindings_of(rs))
    } else if exists|i: int| 0 <= i < rs.len() && rs[i] is Unknown {
        Ext::Unknown
    } else {
        Ext::No
    }
}

/// A conjunction's result with its bindings grouped by slot.
pub open spec fn grouped(r: Ext) -> Ext {
    match r {
        Ext::Yes(b) => Ext::Yes(group_slots(b)),
        _ => r,
    }
}

/// Where `b` goes among bindings sorted by slot: after every binding whose
/// slot is not greater.
pub open spec fn slot_position(sorted: Seq<(usize, Ty)>, b: (usize, Ty)) -> int
    decreases sorted.len(),
{
    if sorted.len() == 0 {
        0
    } else if sorted.last().0 <= b.0 {
        sorted.len() as int
    } else {
        slot_position(sorted.drop_last(), b)
    }
}

/// The bindings sorted by slot, bindings of one slot keeping their order.
pub open spec fn sorted_by_slot(bs: Seq<(usize, Ty)>) -> Seq<(usize, Ty)>
    decreases bs.len(),
{
    if bs.len() == 0 {
        Seq::empty()
    } else {
        let sorted = sorted_by_slot(bs.drop_last());
        sorted.insert(slot_position(sorted, bs.last()), bs.last())
    }
}

/// The runs of consecutive bindings of one slot: each slot with the types of
/// its run, in order.
pub open spec fn slot_runs(bs: Seq<(usize, Ty)>) -> Seq<(usize, Seq<Ty>)>
    decreases bs.len(),
{
    if bs.len() == 0 {
        Seq::empty()
    } else {
        let runs = slot_runs(bs.drop_last());
        if runs.len() > 0 && runs.last().0 == bs.last().0 {
            runs.update(runs.len() - 1, (bs.last().0, runs.last().1.push(bs.last().1)))
        } else {
            runs.push((bs.last().0, seq![bs.last().1]))
        }
    }
}

/// The bindings grouped by slot, in increasing slot order: each slot bound
/// once, to the union of the types bound to it, in the order they were
/// bound.
pub open spec fn group_slots(bs: Seq<(usize, Ty)>) -> Seq<(usize, Ty)> {
    let runs = slot_runs(sorted_by_slot(bs));
    Seq::new(runs.len(), |i: int| (runs[i].0, canonical_union(runs[i].1)))
}

/// Whether `a` extends `b` in the context `st`, binding the inferred slots
/// of `b`. At most `fuel` named types are expanded one inside the other;
/// past that the answer is unknown.
#[verifier::opaque]
pub open spec fn ext(st: Seq<(Ty, Ty)>, a: Ty, b: Ty, fuel: nat) -> Ext
    decreases fuel, size(a) + size(b), 2nat,
{
    let bound = size(a) + size(b);
    if b is Generic && b->Generic_0 is Inferred {
        Ext::Yes(seq![(b->Generic_0->Inferred_0, a)])
    } else if b == Ty::Basic(Basic::Any) {
        Ext::Yes(Seq::empty())
    } else if b == Ty::Basic(Basic::Never) {
        Ext::No
    } else if a is Generic || b is Generic {
        Ext::Unknown
    } else {
        match (a, b) {
            (Ty::Named(_, _), _) => if fuel == 0 {
                Ext::Unknown
            } else {
                ext(st, expand(st, a), b, (fuel - 1) as nat)
            },
            (_, Ty::Named(_, _)) => if fuel == 0 {
                Ext::Unknown
            } else {
                ext(st, a, expand(st, b), (fuel - 1) as nat)
            },
            (Ty::Basic(x), Ty::Basic(y)) => yes_or_no(x == y),
            (Ty::Literal(l), Ty::Basic(k)) => yes_or_no(k == Basic::Any || k == lit_basic(l)),
            (Ty::Validated(t, _), _) => ext_under(st, *t, b, fuel, bound),
            (_, Ty::Validated(t, _)) => ext_under(st, a, *t, fuel, bound),
            (_, Ty::Optional(x)) => if a == Ty::Basic(Basic::Undefined) {
                Ext::Yes(Seq::empty())
            } else {
                ext_under(st, a, *x, fuel, bound)
            },
            (_, Ty::Union(os)) => ext_any(ext_rows(st, unions(a), os, fuel, bound).flatten_alt()),
            (Ty::Tuple(xs), Ty::Tuple(ys)) => if xs.len() != ys.len() {
                Ext::No
            } else {
                ext_all(ext_pairs(st, xs, ys, fuel, bound))
            },
            (Ty::Tuple(xs), Ty::Array(y)) => grouped(ext_all(ext_each(st, xs, *y, fuel, bound))),
            (Ty::Tuple(_), _) => Ext::No,
            (Ty::Enum(ms), Ty::Enum(ns)) => yes_or_no(
                forall|j: int|
                    0 <= j < ns.len() ==> {
                        let k = last_member(ms, (#[trigger] ns[j]).name);
                        0 <= k < ms.len() && ms[k].value == ns[j].value
                    },
            ),
            (Ty::Enum(ms), Ty::Interface(y)) => match all_of(
                assign_members(st, ms, y.fields, fuel, bound),
            ) {
                Some(true) => Ext::Yes(Seq::empty()),
                Some(false) => Ext::No,
                None => Ext::Unknown,
            },
            (Ty::Enum(_), _) => Ext::No,
            (Ty::Interface(x), Ty::Interface(y)) => ext_all(
                ext_fields(st, x.fields, y.fields, fuel, bound),
            ),
            (Ty::Interface(_), _) => Ext::No,
            _ => yes_or_no(identical(a, b)),
        }
    }
}

/// `ext` on parts of two operands whose sizes add up to `bound`.
pub open spec fn ext_under(st: Seq<(Ty, Ty)>, a: Ty, b: Ty, fuel: nat, bound: nat) -> Ext
    decreases fuel, bound, 1nat,
{
    if size(a) + size(b) < bound {
        ext(st, a, b, fuel)
    } else {
        Ext::Unknown
    }
}

/// The results of the pairs of two sequences, position by position.
pub open spec fn ext_pairs(st: Seq<(Ty, Ty)>, xs: Seq<Ty>, ys: Seq<Ty>, fuel: nat, bound: nat) -> Seq<
    Ext,
>
    decreases fuel, bound, 0nat,
{
    Seq::new(
        xs.len(),
        |i: int|
            if 0 <= i < xs.len() && i < ys.len() && size(xs[i]) + size(ys[i]) < bound {
                ext(st, xs[i], ys[i], fuel)
            } else {
                Ext::Unknown
            },
    )
}

/// The results of each of `xs` against `y`.
pub open spec fn ext_each(st: Seq<(Ty, Ty)>, xs: Seq<Ty>, y: Ty, fuel: nat, bound: nat) -> Seq<Ext>
    decreases fuel, bound, 0nat,
{
    Seq::new(
        xs.len(),
        |i: int|
            if 0 <= i < xs.len() && size(xs[i]) + size(y) < bound {
                ext(st, xs[i], y, fuel)
            } else {
                Ext::Unknown
            },
    )
}

/// The results of `x` against each of `os`.
pub open spec fn ext_to_each(st: Seq<(Ty, Ty)>, x: Ty, os: Seq<Ty>, fuel: nat, bound: nat) -> Seq<Ext>
    decreases fuel, bound, 0nat,
{
    Seq::new(
        os.len(),
        |j: int|
            if 0 <= j < os.len() && size(x) + size(os[j]) < bound {
                ext(st, x, os[j], fuel)
            } else {
                Ext::Unknown
            },
    )
}

/// One row of results per member of the source: the member against each
/// member of the target union.
pub open spec fn ext_rows(st: Seq<(Ty, Ty)>, ts: Seq<Ty>, os: Seq<Ty>, fuel: nat, bound: nat) -> Seq<
    Seq<Ext>,
>
    decreases fuel, bound, 1nat,
{
    Seq::new(
        ts.len(),
        |i: int|
            if 0 <= i < ts.len() {
                ext_to_each(st, ts[i], os, fuel, bound)
            } else {
                Seq::empty()
            },
    )
}

/// For each field of the target, the result of the source field of its
/// name, and no where the source has none.
pub open spec fn ext_fields(st: Seq<(Ty, Ty)>, xf: Seq<Field>, yf: Seq<Field>, fuel: nat, bound: nat) -> Seq<
    Ext,
>
    decreases fuel, bound, 0nat,
{
    Seq::new(
        yf.len(),
        |j: int|
            if 0 <= j < yf.len() {
                let k = last_named(xf, yf[j].name);
                if 0 <= k < xf.len() {
                    if size(xf[k].typ) + size(yf[j].typ) < bound {
                        ext(st, xf[k].typ, yf[j].typ, fuel)
                    } else {
                        Ext::Unknown
                    }
                } else {
                    Ext::No
                }
            } else {
                Ext::Unknown
            },
    )
}

#[verifier::spinoff_prover]
pub proof fn lemma_ext_head(st: Seq<(Ty, Ty)>, a: Ty, b: Ty, fuel: nat)
    ensures
        b is Generic && b->Generic_0 is Inferred ==> ext(st, a, b, fuel) == Ext::Yes(
            seq![(b->Generic_0->Inferred_0, a)],
        ),
        !(b is Generic) && b == Ty::Basic(Basic::Any) ==> ext(st, a, b, fuel) == Ext::Yes(
            Seq::empty(),
        ),
        !(b is Generic) && b == Ty::Basic(Basic::Never) ==> ext(st, a, b, fuel) == Ext::No,
        !(b is Generic && b->Generic_0 is Inferred) && b != Ty::Basic(Basic::Any) && b != Ty::Basic(
            Basic::Never,
        ) && (a is Generic || b is Generic) ==> ext(st, a, b, fuel) == Ext::Unknown,
{
    reveal_with_fuel(ext, 1);
}

/// The operands that the first rules of `ext` leave.
pub open spec fn ext_open(a: Ty, b: Ty) -> bool {
    b != Ty::Basic(Basic::Any) && b != Ty::Basic(Basic::Never) && !(a is Generic) && !(b is Generic)
}

#[verifier::spinoff_prover]
pub proof fn lemma_ext_wrappers(st: Seq<(Ty, Ty)>, a: Ty, b: Ty, fuel: nat)
    requires
        ext_open(a, b),
    ensures
        ({
            let r = ext(st, a, b, fuel);
            let bound = size(a) + size(b);
            &&& a is Named ==> r == (if fuel == 0 {
                Ext::Unknown
            } else {
                ext(st, expand(st, a), b, (fuel - 1) as nat)
            })
            &&& !(a is Named) && b is Named ==> r == (if fuel == 0 {
                Ext::Unknown
            } else {
                ext(st, a, expand(st, b), (fuel - 1) as nat)
            })
            &&& a is Basic && b is Basic ==> r == yes_or_no(a == b)
            &&& a is Literal && b is Basic ==> r == yes_or_no(
                b->Basic_0 == Basic::Any || b->Basic_0 == lit_basic(a->Literal_0),
            )
            &&& a is Validated && !(b is Named) ==> r == ext_under(
                st,
                *a->Validated_0,
                b,
                fuel,
                bound,
            )
            &&& !(a is Validated) && !(a is Named) && b is Validated ==> r == ext_under(
                st,
                a,
                *b->Validated_0,
                fuel,
                bound,
            )
            &&& !(a is Validated) && !(a is Named) && b is Optional ==> r == (if a == Ty::Basic(
                Basic::Undefined,
            ) {
                Ext::Yes(Seq::empty())
            } else {
                ext_under(st, a, *b->Optional_0, fuel, bound)
            })
        }),
{
    reveal_with_fuel(ext, 1);
}

/// The operands that the rules on named, basic, literal, validated and
/// optional types leave.
pub open spec fn ext_structural(a: Ty, b: Ty) -> bool {
    &&& ext_open(a, b)
    &&& !(a is Named) && !(b is Named)
    &&& !(a is Basic && b is Basic) && !(a is Literal && b is Basic)
    &&& !(a is Validated) && !(b is Validated) && !(b is Optional)
}

#[verifier::spinoff_prover]
pub proof fn lemma_ext_shapes(st: Seq<(Ty, Ty)>, a: Ty, b: Ty, fuel: nat)
    requires
        ext_structural(a, b),
    ensures
        ({
            let r = ext(st, a, b, fuel);
            let bound = size(a) + size(b);
            &&& a is Tuple && b is Tuple ==> r == (if a->Tuple_0.len() != b->Tuple_0.len() {
                Ext::No
            } else {
                ext_all(ext_pairs(st, a->Tuple_0, b->Tuple_0, fuel, bound))
            })
            &&& a is Tuple && b is Array ==> r == grouped(
                ext_all(ext_each(st, a->Tuple_0, *b->Array_0, fuel, bound)),
            )
            &&& a is Tuple && !(b is Tuple) && !(b is Array) && !(b is Union) ==> r == Ext::No
            &&& a is Enum && b is Enum ==> r == yes_or_no(
                forall|j: int|
                    0 <= j < b->Enum_0.len() ==> {
                        let k = last_member(a->Enum_0, (#[trigger] b->Enum_0[j]).name);
                        0 <= k < a->Enum_0.len() && a->Enum_0[k].value == b->Enum_0[j].value
                    },
            )
            &&& a is Enum && b is Interface ==> r == match all_of(
                assign_members(st, a->Enum_0, b->Interface_0.fields, fuel, bound),
            ) {
                Some(true) => Ext::Yes(Seq::empty()),
                Some(false) => Ext::No,
                None => Ext::Unknown,
            }
            &&& a is Enum && !(b is Enum) && !(b is Interface) && !(b is Union) ==> r == Ext::No
            &&& a is Interface && b is Interface ==> r == ext_all(
                ext_fields(st, a->Interface_0.fields, b->Interface_0.fields, fuel, bound),
            )
            &&& a is Interface && !(b is Interface) && !(b is Union) ==> r == Ext::No
            &&& b is Union ==> r == ext_any(
                ext_rows(st, unions(a), b->Union_0, fuel, bound).flatten_alt(),
            )
            &&& !(a is Tuple) && !(a is Enum) && !(a is Interface) && !(b is Union) ==> r
                == yes_or_no(identical(a, b))
        }),
{
    reveal_with_fuel(ext, 1);
}

fn copy_binds(v: &Vec<(usize, Type)>) -> (r: Vec<(usize, Type)>)
    ensures
        binds(r@) == binds(v@),
{
    let mut out: Vec<(usize, Type)> = Vec::new();
    let mut i: usize = 0;
    while i < v.len()
        invariant
            i <= v@.len(),
            out@.len() == i,
            forall|k: int| 0 <= k < i ==> (#[trigger] out@[k]).0 == v@[k].0 && out@[k].1@ == v@[k].1@,
        decreases v@.len() - i,
    {
        out.push((v[i].0, v[i].1.duplicate()));
        i += 1;
    }
    assert(binds(out@) =~= binds(v@));
    out
}

/// The bindings of the yes results among `rs`, in order.
fn collect_bindings(rs: &Vec<Extends>) -> (r: Vec<(usize, Type)>)
    ensures
        binds(r@) == bindings_of(exts(rs@)),
{
    let ghost es = exts(rs@);
    let mut out: Vec<(usize, Type)> = Vec::new();
    let mut i: usize = 0;
    assert(es.subrange(0, 0) =~= Seq::<Ext>::empty());
    assert(binds(out@) =~= Seq::<(usize, Ty)>::empty());
    while i < rs.len()
        invariant
            es == exts(rs@),
            i <= rs@.len(),
            binds(out@) == bindings_of(es.subrange(0, i as int)),
        decreases rs@.len() - i,
    {
        let ghost before = out@;
        let ghost s = es.subrange(0, i + 1);
        assert(s.drop_last() =~= es.subrange(0, i as int));
        assert(s.last() == rs@[i as int].view());
        match &rs[i] {
            Extends::Yes(b) => {
                let mut c = copy_binds(b);
                out.append(&mut c);
                assert(binds(out@) =~= binds(before) + binds(b@));
            },
            _ => {
                assert(binds(out@) =~= binds(before) + Seq::<(usize, Ty)>::empty());
            },
        }
        i += 1;
    }
    assert(es.subrange(0, rs@.len() as int) =~= es);
    out
}

fn all_exec(rs: &Vec<Extends>) -> (r: Extends)
    ensures
        r.view() == ext_all(exts(rs@)),
{
    let mut unknown = false;
    let mut i: usize = 0;
    while i < rs.len()
        invariant
            i <= rs@.len(),
            forall|k: int| 0 <= k < i ==> !(exts(rs@)[k] is No),
            unknown == exists|k: int| 0 <= k < i && exts(rs@)[k] is Unknown,
        decreases rs@.len() - i,
    {
        assert(exts(rs@)[i as int] == rs@[i as int].view());
        match &rs[i] {
            Extends::No => {
                return Extends::No;
            },
            Extends::Unknown => {
                unknown = true;
            },
            Extends::Yes(_) => {},
        }
        i += 1;
    }
    if unknown {
        Extends::Unknown
    } else {
        Extends::Yes(collect_bindings(rs))
    }
}

fn any_exec(rs: &Vec<Extends>) -> (r: Extends)
    ensures
        r.view() == ext_any(exts(rs@)),
{
    let mut yes = false;
    let mut unknown = false;
    let mut i: usize = 0;
    while i < rs.len()
        invariant
            i <= rs@.len(),
            yes == exists|k: int| 0 <= k < i && exts(rs@)[k] is Yes,
            unknown == exists|k: int| 0 <= k < i && exts(rs@)[k] is Unknown,
        decreases rs@.len() - i,
    {
        assert(exts(rs@)[i as int] == rs@[i as int].view());
        match &rs[i] {
            Extends::Yes(_) => {
                yes = true;
            },
            Extends::Unknown => {
                unknown = true;
            },
            Extends::No => {},
        }
        i += 1;
    }
    if yes {
        Extends::Yes(collect_bindings(rs))
    } else if unknown {
        Extends::Unknown
    } else {
        Extends::No
    }
}

pub proof fn lemma_slot_position(sorted: Seq<(usize, Ty)>, b: (usize, Ty))
    ensures
        0 <= slot_position(sorted, b) <= sorted.len(),
        slot_position(sorted, b) > 0 ==> sorted[slot_position(sorted, b) - 1].0 <= b.0,
        forall|i: int| slot_position(sorted, b) <= i < sorted.len() ==> #[trigger] sorted[i].0 > b.0,
    decreases sorted.len(),
{
    if sorted.len() > 0 && sorted.last().0 > b.0 {
        lemma_slot_position(sorted.drop_last(), b);
        assert forall|i: int| slot_position(sorted, b) <= i < sorted.len() implies #[trigger] sorted[i].0 > b.0 by {
            if i < sorted.len() - 1 {
                assert(sorted[i] == sorted.drop_last()[i]);
            }
        }
    }
}

/// The bindings sorted by slot, bindings of one slot keeping their order.
fn sort_by_slot(v: Vec<(usize, Type)>) -> (r: Vec<(usize, Type)>)
    ensures
        binds(r@) == sorted_by_slot(binds(v@)),
{
    let ghost bs = binds(v@);
    let mut sorted: Vec<(usize, Type)> = Vec::new();
    let n = v.len();
    let mut i: usize = 0;
    assert(bs.subrange(0, 0) =~= Seq::<(usize, Ty)>::empty());
    assert(binds(sorted@) =~= Seq::<(usize, Ty)>::empty());
    while i < n
        invariant
            bs == binds(v@),
            n == v@.len(),
            i <= n,
            binds(sorted@) == sorted_by_slot(bs.subrange(0, i as int)),
        decreases n - i,
    {
        let b = (v[i].0, v[i].1.duplicate());
        let ghost es = binds(sorted@);
        let ghost bv = (b.0, b.1@);
        proof {
            lemma_slot_position(es, bv);
            assert(es.subrange(0, es.len() as int) =~= es);
        }
        let mut k: usize = sorted.len();
        while k > 0 && sorted[k - 1].0 > b.0
            invariant
                es == binds(sorted@),
                bv.0 == b.0,
                k <= sorted@.len(),
                slot_position(es, bv) == slot_position(es.subrange(0, k as int), bv),
            decreases k,
        {
            let ghost t = es.subrange(0, k as int);
            assert(t.last() == es[k - 1]);
            assert(es[k - 1].0 == sorted@[k - 1].0);
            assert(t.drop_last() =~= es.subrange(0, k - 1));
            k -= 1;
        }
        proof {
            let t = es.subrange(0, k as int);
            if k > 0 {
                assert(t.last() == es[k - 1]);
            }
            assert(slot_position(t, bv) == k);
            let p = bs.subrange(0, i + 1);
            assert(p.drop_last() =~= bs.subrange(0, i as int));
            assert(p.last() == bv);
        }
        sorted.insert(k, b);
        assert(binds(sorted@) =~= es.insert(k as int, bv));
        i += 1;
    }
    assert(bs.subrange(0, n as int) =~= bs);
    sorted
}

pub open spec fn runs_view(r: Seq<(usize, Vec<Type>)>) -> Seq<(usize, Seq<Ty>)> {
    Seq::new(r.len(), |i: int| (r[i].0, tys(r[i].1@)))
}

/// Relies on itertools' `chunk_by`: consecutive bindings of one slot form
/// one group; the groups come in order, each with the types of its run.
#[verifier::external_body]
fn chunk_by_slot(v: Vec<(usize, Type)>) -> (r: Vec<(usize, Vec<Type>)>)
    ensures
        runs_view(r@) == slot_runs(binds(v@)),
{
    let groups = v.into_iter().chunk_by(|b| b.0);
    let r = (&groups).into_iter().map(|(k, g)| (k, g.map(|b| b.1).collect())).collect();
    r
}

/// The bindings grouped by slot (see `group_slots`): sorted by slot, cut
/// into runs, each run's types made one union.
fn group_slots_exec(v: Vec<(usize, Type)>) -> (r: Vec<(usize, Type)>)
    ensures
        binds(r@) == group_slots(binds(v@)),
{
    let sorted = sort_by_slot(v);
    let mut runs = chunk_by_slot(sorted);
    let ghost rv = runs_view(runs@);
    let ghost n = rv.len();
    let mut out: Vec<(usize, Type)> = Vec::new();
    assert(runs_view(runs@) =~= rv.subrange(0, n as int));
    while runs.len() > 0
        invariant
            rv.len() == n,
            out@.len() + runs@.len() == n,
            runs_view(runs@) == rv.subrange(out@.len() as int, n as int),
            forall|k: int| 0 <= k < out@.len() ==> ((#[trigger] out@[k]).0, out@[k].1@) == (rv[k].0, canonical_union(rv[k].1)),
        decreases runs@.len(),
    {
        let ghost before = runs@;
        let ghost j = out@.len() as int;
        let (slot, types) = runs.remove(0);
        assert(runs_view(before)[0] == rv[j]);
        assert(runs_view(runs@) =~= rv.subrange(j + 1, n as int)) by {
            assert forall|k: int| 0 <= k < runs@.len() implies runs_view(runs@)[k] == rv.subrange(j + 1, n as int)[k] by {
                assert(runs@[k] == before[k + 1]);
                assert(runs_view(before)[k + 1] == rv[j + 1 + k]);
            }
        }
        let u = simplify_union(types);
        out.push((slot, u));
    }
    assert(binds(out@) =~= group_slots(binds(v@)));
    out
}

impl Type {
    /// Whether `self` extends `other`, binding the inferred slots of `other`
    /// to the parts of `self` they stand for. Named types are expanded
    /// through `state`, at most `EXPANSION_LIMIT` one inside the other; past
    /// that the answer is unknown.
    pub fn extends(&self, state: &ResolveState, other: &Type) -> (r: Extends)
        ensures
            r.view() == ext(state.view(), self@, other@, EXPANSION_LIMIT as nat),
    {
        ext_within(state, self, other, EXPANSION_LIMIT)
    }
}

fn yes_or_no_exec(b: bool) -> (r: Extends)
    ensures
        r.view() == yes_or_no(b),
{
    if b {
        let v: Vec<(usize, Type)> = Vec::new();
        let r = Extends::Yes(v);
        assert(binds(v@) =~= Seq::<(usize, Ty)>::empty());
        r
    } else {
        Extends::No
    }
}

#[verifier::spinoff_prover]
fn ext_within(ctx: &ResolveState, a: &Type, b: &Type, fuel: u64) -> (r: Extends)
    ensures
        r.view() == ext(ctx.view(), a@, b@, fuel as nat),
    decreases fuel, size(a@) + size(b@), 3nat,
{
    let ghost st = ctx.view();
    proof {
        crate::intersect::lemma_measure(a@);
        crate::intersect::lemma_measure(b@);
        lemma_ext_head(st, a@, b@, fuel as nat);
    }
    match b {
        Type::Generic(Generic::Inferred(inf)) => {
            let v = vec![(inf.0, a.duplicate())];
            assert(binds(v@) =~= seq![(inf.0, a@)]);
            return Extends::Yes(v);
        },
        Type::Basic(Basic::Any) => return yes_or_no_exec(true),
        Type::Basic(Basic::Never) => return Extends::No,
        _ => {},
    }
    match (a, b) {
        (Type::Generic(_), _) | (_, Type::Generic(_)) => return Extends::Unknown,
        _ => {},
    }
    proof {
        lemma_ext_wrappers(st, a@, b@, fuel as nat);
    }
    match (a, b) {
        (Type::Named(n), _) => {
            return if fuel == 0 {
                Extends::Unknown
            } else {
                let x = n.underlying(ctx);
                ext_within(ctx, &x, b, fuel - 1)
            };
        },
        (_, Type::Named(n)) => {
            return if fuel == 0 {
                Extends::Unknown
            } else {
                let y = n.underlying(ctx);
                ext_within(ctx, a, &y, fuel - 1)
            };
        },
        (Type::Basic(x), Type::Basic(y)) => return yes_or_no_exec(*x == *y),
        (Type::Literal(l), Type::Basic(k)) => return yes_or_no_exec(*k == Basic::Any || *k == l.basic()),
        (Type::Validated(v), _) => return ext_within(ctx, &v.typ, b, fuel),
        (_, Type::Validated(v)) => return ext_within(ctx, a, &v.typ, fuel),
        (_, Type::Optional(x)) => {
            return match a {
                Type::Basic(Basic::Undefined) => yes_or_no_exec(true),
                _ => ext_within(ctx, a, &x.0, fuel),
            };
        },
        _ => {},
    }
    ext_shapes(ctx, a, b, fuel)
}

#[verifier::spinoff_prover]
fn ext_shapes(ctx: &ResolveState, a: &Type, b: &Type, fuel: u64) -> (r: Extends)
    requires
        ext_structural(a@, b@),
    ensures
        r.view() == ext(ctx.view(), a@, b@, fuel as nat),
    decreases fuel, size(a@) + size(b@), 2nat,
{
    let ghost st = ctx.view();
    proof {
        crate::intersect::lemma_measure(a@);
        crate::intersect::lemma_measure(b@);
        lemma_ext_shapes(st, a@, b@, fuel as nat);
    }
    let ghost bound = size(a@) + size(b@);
    match (a, b) {
        (_, Type::Union(_)) => ext_to_union(ctx, a, b, fuel),
        (Type::Tuple(x), Type::Tuple(y)) => {
            if x.types.len() != y.types.len() {
                return Extends::No;
            }
            assert forall|i: int| 0 <= i < x.types@.len() implies size(#[trigger] x.types@[i]@)
                < size(a@) by {
                assert(tys(x.types@)[i] == x.types@[i]@);
            }
            assert forall|i: int| 0 <= i < y.types@.len() implies size(#[trigger] y.types@[i]@)
                < size(b@) by {
                assert(tys(y.types@)[i] == y.types@[i]@);
            }
            let rs = results_pairs(ctx, &x.types, &y.types, fuel, Ghost(bound));
            all_exec(&rs)
        },
        (Type::Tuple(x), Type::Array(y)) => {
            assert forall|i: int| 0 <= i < x.types@.len() implies size(#[trigger] x.types@[i]@)
                < size(a@) by {
                assert(tys(x.types@)[i] == x.types@[i]@);
            }
            let rs = results_each(ctx, &x.types, &y.0, fuel, Ghost(bound));
            match all_exec(&rs) {
                Extends::Yes(bs) => Extends::Yes(group_slots_exec(bs)),
                other => other,
            }
        },
        (Type::Tuple(_), _) => Extends::No,
        (Type::Enum(e), Type::Enum(f)) => yes_or_no_exec(crate::assign::enum_covers(e, f)),
        (Type::Enum(e), Type::Interface(y)) => {
            let ghost yv = y.view();
            assert(b@ == Ty::Interface(yv));
            assert forall|j: int| 0 <= j < y.fields@.len() implies size(#[trigger] y.fields@[j].typ@)
                < size(b@) by {
                assert(yv.fields[j] == y.fields@[j].view());
                assert(size(yv.fields[j].typ) < size(b@));
            }
            let rs = crate::assign::verdicts_members(ctx, e, &y.fields, fuel, Ghost(bound));
            match crate::assign::all_of_exec(&rs) {
                Some(true) => yes_or_no_exec(true),
                Some(false) => Extends::No,
                None => Extends::Unknown,
            }
        },
        (Type::Enum(_), _) => Extends::No,
        (Type::Interface(x), Type::Interface(y)) => {
            let ghost xv = x.view();
            let ghost yv = y.view();
            assert(a@ == Ty::Interface(xv));
            assert(b@ == Ty::Interface(yv));
            assert forall|i: int| 0 <= i < x.fields@.len() implies size(#[trigger] x.fields@[i].typ@)
                < size(a@) by {
                assert(xv.fields[i] == x.fields@[i].view());
                assert(size(xv.fields[i].typ) < size(a@));
            }
            assert forall|j: int| 0 <= j < y.fields@.len() implies size(#[trigger] y.fields@[j].typ@)
                < size(b@) by {
                assert(yv.fields[j] == y.fields@[j].view());
                assert(size(yv.fields[j].typ) < size(b@));
            }
            let rs = results_fields(ctx, &x.fields, &y.fields, fuel, Ghost(bound));
            all_exec(&rs)
        },
        (Type::Interface(_), _) => Extends::No,
        _ => yes_or_no_exec(a.identical(b)),
    }
}

#[verifier::spinoff_prover]
fn ext_to_union(ctx: &ResolveState, a: &Type, b: &Type, fuel: u64) -> (r: Extends)
    requires
        ext_structural(a@, b@),
        b@ is Union,
    ensures
        r.view() == ext(ctx.view(), a@, b@, fuel as nat),
    decreases fuel, size(a@) + size(b@), 1nat,
{
    let ghost st = ctx.view();
    proof {
        crate::intersect::lemma_measure(a@);
        crate::intersect::lemma_measure(b@);
        lemma_ext_shapes(st, a@, b@, fuel as nat);
    }
    let ghost bound = size(a@) + size(b@);
    let u = match b {
        Type::Union(u) => u,
        _ => {
            return Extends::Unknown;
        },
    };
    let ts = a.iter_unions();
    let ghost os = tys(u.types@);
    let ghost rows = ext_rows(st, tys(ts@), os, fuel as nat, bound);
    assert forall|i: int| 0 <= i < ts@.len() implies size(#[trigger] ts@[i]@) <= size(a@) by {
        assert(tys(ts@)[i] == ts@[i]@);
    }
    assert forall|j: int| 0 <= j < u.types@.len() implies size(#[trigger] u.types@[j]@) < size(b@) by {
        assert(os[j] == u.types@[j]@);
    }
    let mut all: Vec<Extends> = Vec::new();
    let mut i: usize = 0;
    assert(rows.subrange(0, 0).flatten_alt() =~= Seq::<Ext>::empty());
    assert(exts(all@) =~= Seq::<Ext>::empty());
    while i < ts.len()
        invariant
            st == ctx.view(),
            os == tys(u.types@),
            bound == size(a@) + size(b@),
            rows == ext_rows(st, tys(ts@), os, fuel as nat, bound),
            rows.len() == ts@.len(),
            i <= ts@.len(),
            forall|i: int| 0 <= i < ts@.len() ==> size(#[trigger] ts@[i]@) <= size(a@),
            forall|j: int| 0 <= j < u.types@.len() ==> size(#[trigger] u.types@[j]@) < size(b@),
            exts(all@) == rows.subrange(0, i as int).flatten_alt(),
            ext(st, a@, b@, fuel as nat) == ext_any(rows.flatten_alt()),
        decreases ts@.len() - i,
    {
        let mut row = results_to_each(ctx, &ts[i], &u.types, fuel, Ghost(bound));
        assert(tys(ts@)[i as int] == ts@[i as int]@);
        let ghost before = all@;
        proof {
            let s = rows.subrange(0, i + 1);
            assert(s.drop_last() =~= rows.subrange(0, i as int));
            assert(s.last() == rows[i as int]);
            assert(exts(row@) == rows[i as int]);
        }
        all.append(&mut row);
        assert(exts(all@) =~= exts(before) + rows[i as int]);
        i += 1;
    }
    assert(rows.subrange(0, rows.len() as int) =~= rows);
    any_exec(&all)
}

fn results_pairs(ctx: &ResolveState, xs: &Vec<Type>, ys: &Vec<Type>, fuel: u64, Ghost(bound): Ghost<nat>) -> (r: Vec<Extends>)
    requires
        xs@.len() == ys@.len(),
        forall|i: int| 0 <= i < xs@.len() ==> size(#[trigger] xs@[i]@) + size(ys@[i]@) < bound,
    ensures
        exts(r@) == ext_pairs(ctx.view(), tys(xs@), tys(ys@), fuel as nat, bound),
    decreases fuel, bound, 0nat,
{
    let mut out: Vec<Extends> = Vec::new();
    let mut i: usize = 0;
    while i < xs.len()
        invariant
            xs@.len() == ys@.len(),
            i <= xs@.len(),
            out@.len() == i,
            forall|i: int| 0 <= i < xs@.len() ==> size(#[trigger] xs@[i]@) + size(ys@[i]@) < bound,
            forall|k: int| 0 <= k < i ==> (#[trigger] out@[k]).view() == ext(ctx.view(), xs@[k]@, ys@[k]@, fuel as nat),
        decreases xs@.len() - i,
    {
        assert(size(xs@[i as int]@) + size(ys@[i as int]@) < bound);
        let v = ext_within(ctx, &xs[i], &ys[i], fuel);
        out.push(v);
        i += 1;
    }
    reveal_with_fuel(ext, 1);
    assert forall|k: int| 0 <= k < xs@.len() implies exts(out@)[k] == ext_pairs(
        ctx.view(),
        tys(xs@),
        tys(ys@),
        fuel as nat,
        bound,
    )[k] by {
        assert(tys(xs@)[k] == xs@[k]@);
        assert(tys(ys@)[k] == ys@[k]@);
    }
    assert(exts(out@) =~= ext_pairs(ctx.view(), tys(xs@), tys(ys@), fuel as nat, bound));
    out
}

fn results_each(ctx: &ResolveState, xs: &Vec<Type>, y: &Type, fuel: u64, Ghost(bound): Ghost<nat>) -> (r: Vec<Extends>)
    requires
        forall|i: int| 0 <= i < xs@.len() ==> size(#[trigger] xs@[i]@) + size(y@) < bound,
    ensures
        exts(r@) == ext_each(ctx.view(), tys(xs@), y@, fuel as nat, bound),
    decreases fuel, bound, 0nat,
{
    let mut out: Vec<Extends> = Vec::new();
    let mut i: usize = 0;
    while i < xs.len()
        invariant
            i <= xs@.len(),
            out@.len() == i,
            forall|i: int| 0 <= i < xs@.len() ==> size(#[trigger] xs@[i]@) + size(y@) < bound,
            forall|k: int| 0 <= k < i ==> (#[trigger] out@[k]).view() == ext(ctx.view(), xs@[k]@, y@, fuel as nat),
        decreases xs@.len() - i,
    {
        assert(size(xs@[i as int]@) + size(y@) < bound);
        let v = ext_within(ctx, &xs[i], y, fuel);
        out.push(v);
        i += 1;
    }
    reveal_with_fuel(ext, 1);
    assert forall|k: int| 0 <= k < xs@.len() implies exts(out@)[k] == ext_each(
        ctx.view(),
        tys(xs@),
        y@,
        fuel as nat,
        bound,
    )[k] by {
        assert(tys(xs@)[k] == xs@[k]@);
    }
    assert(exts(out@) =~= ext_each(ctx.view(), tys(xs@), y@, fuel as nat, bound));
    out
}

fn results_to_each(ctx: &ResolveState, x: &Type, os: &Vec<Type>, fuel: u64, Ghost(bound): Ghost<nat>) -> (r: Vec<Extends>)
    requires
        forall|j: int| 0 <= j < os@.len() ==> size(x@) + size(#[trigger] os@[j]@) < bound,
    ensures
        exts(r@) == ext_to_each(ctx.view(), x@, tys(os@), fuel as nat, bound),
    decreases fuel, bound, 0nat,
{
    let mut out: Vec<Extends> = Vec::new();
    let mut j: usize = 0;
    while j < os.len()
        invariant
            j <= os@.len(),
            out@.len() == j,
            forall|j: int| 0 <= j < os@.len() ==> size(x@) + size(#[trigger] os@[j]@) < bound,
            forall|k: int| 0 <= k < j ==> (#[trigger] out@[k]).view() == ext(ctx.view(), x@, os@[k]@, fuel as nat),
        decreases os@.len() - j,
    {
        assert(size(x@) + size(os@[j as int]@) < bound);
        let v = ext_within(ctx, x, &os[j], fuel);
        out.push(v);
        j += 1;
    }
    reveal_with_fuel(ext, 1);
    assert forall|k: int| 0 <= k < os@.len() implies exts(out@)[k] == ext_to_each(
        ctx.view(),
        x@,
        tys(os@),
        fuel as nat,
        bound,
    )[k] by {
        assert(tys(os@)[k] == os@[k]@);
    }
    assert(exts(out@) =~= ext_to_each(ctx.view(), x@, tys(os@), fuel as nat, bound));
    out
}

fn results_fields(
    ctx: &ResolveState,
    xf: &Vec<crate::types::InterfaceField>,
    yf: &Vec<crate::types::InterfaceField>,
    fuel: u64,
    Ghost(bound): Ghost<nat>,
) -> (r: Vec<Extends>)
    requires
        forall|i: int, j: int|
            0 <= i < xf@.len() && 0 <= j < yf@.len() ==> size(#[trigger] xf@[i].typ@) + size(
                #[trigger] yf@[j].typ@,
            ) < bound,
    ensures
        exts(r@) == ext_fields(ctx.view(), fields_view(xf@), fields_view(yf@), fuel as nat, bound),
    decreases fuel, bound, 0nat,
{
    let ghost xv = fields_view(xf@);
    let ghost yv = fields_view(yf@);
    let ghost want = ext_fields(ctx.view(), xv, yv, fuel as nat, bound);
    let mut out: Vec<Extends> = Vec::new();
    let mut j: usize = 0;
    while j < yf.len()
        invariant
            xv == fields_view(xf@),
            yv == fields_view(yf@),
            want == ext_fields(ctx.view(), xv, yv, fuel as nat, bound),
            want.len() == yf@.len(),
            j <= yf@.len(),
            out@.len() == j,
            forall|i: int, j: int|
                0 <= i < xf@.len() && 0 <= j < yf@.len() ==> size(#[trigger] xf@[i].typ@) + size(
                    #[trigger] yf@[j].typ@,
                ) < bound,
            forall|k: int| 0 <= k < j ==> (#[trigger] out@[k]).view() == want[k],
        decreases yf@.len() - j,
    {
        let g = &yf[j];
        assert(yv[j as int] == g.view());
        let v = match crate::identity::find_last_named(xf, &g.name) {
            Some(k) => {
                proof {
                    crate::identity::lemma_last_named_bounds(xv, g.name.view());
                }
                assert(xv[k as int] == xf@[k as int].view());
                assert(size(xf@[k as int].typ@) + size(yf@[j as int].typ@) < bound);
                ext_within(ctx, &xf[k].typ, &g.typ, fuel)
            },
            None => Extends::No,
        };
        out.push(v);
        reveal_with_fuel(ext, 1);
        assert(out@[j as int].view() == want[j as int]);
        j += 1;
    }
    assert(exts(out@) =~= want);
    out
}

} // verus!
