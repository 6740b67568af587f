//! The resolution context: what each named type, with its type arguments,
//! stands for.
use vstd::prelude::*;
use crate::identity::identical;
use crate::types::{Basic, Named, ObjectRef, Ty, Type};

verus! {

/// How many named types one algebra call expands, one inside the other,
/// before it gives up with its conservative answer. This bounds the
/// expansion of aliases that refer to themselves.
pub const EXPANSION_LIMIT: u64 = 64;

/// A named type and the structural type it stands for.
#[derive(Debug)]
pub struct Expansion {
    pub named: Named,
    pub underlying: Type,
}

/// The resolution context: the known expansions of named types, with their
/// type arguments already substituted.
#[derive(Debug)]
pub struct ResolveState {
    pub expansions: Vec<Expansion>,
}

/// The position, from `j` on, of the first expansion whose named type is
/// identical to `n`, or -1.
pub open spec fn first_expansion(st: Seq<(Ty, Ty)>, n: Ty, j: int) -> int
    decreases st.len() - j,
{
    if j < 0 || j >= st.len() {
        -1
    } else if identical(st[j].0, n) {
        j
    } else {
        first_expansion(st, n, j + 1)
    }
}

/// What the named type `n` stands for in the context `st`: the first known
/// expansion of an identical named type, else `unknown`.
pub open spec fn expand(st: Seq<(Ty, Ty)>, n: Ty) -> Ty {
    let j = first_expansion(st, n, 0);
    if j >= 0 {
        st[j].1
    } else {
        Ty::Basic(Basic::Unknown)
    }
}

impl ResolveState {
    pub open spec fn view(&self) -> Seq<(Ty, Ty)> {
        self.expansions@.map_values(|e: Expansion| (e.named.view(), e.underlying@))
    }

    /// An empty context.
    pub fn new() -> (r: ResolveState)
        ensures
            r.view() == Seq::<(Ty, Ty)>::empty(),
    {
        let r = ResolveState { expansions: Vec::new() };
        assert(r.view() =~= Seq::<(Ty, Ty)>::empty());
        r
    }

    /// Records that `named` stands for `underlying`. An expansion recorded
    /// earlier for an identical named type takes precedence.
    pub fn add(&mut self, named: Named, underlying: Type)
        ensures
            final(self).view() == old(self).view().push((named.view(), underlying@)),
    {
        let ghost n = named.view();
        let ghost u = underlying@;
        self.expansions.push(Expansion { named, underlying });
        assert(self.view() =~= old(self).view().push((n, u)));
    }
}

impl Named {
    pub fn new(obj: ObjectRef, type_arguments: Vec<Type>) -> (r: Named)
        ensures
            r.obj == obj,
            r.type_arguments == type_arguments,
    {
        Named { obj, type_arguments }
    }

    /// The structural type this named type stands for in `state`.
    pub fn underlying(&self, state: &ResolveState) -> (r: Type)
        ensures
            r@ == expand(state.view(), self.view()),
    {
        let ghost st = state.view();
        let mut j: usize = 0;
        while j < state.expansions.len()
            invariant
                st == state.view(),
                j <= st.len(),
                first_expansion(st, self.view(), 0) == first_expansion(st, self.view(), j as int),
            decreases st.len() - j,
        {
            let e = &state.expansions[j];
            if e.named.identical(self) {
                return e.underlying.duplicate();
            }
            j += 1;
        }
        Type::Basic(Basic::Unknown)
    }
}

} // verus!
