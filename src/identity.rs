//! Structural identity of types.
use vstd::prelude::*;
use vstd::multiset::Multiset;
use crate::types::{
    fields_view, members_view, tys, Basic, ClassType, Custom, EnumType, Expr, Field, FieldName, Gen, Generic, Iface,
    Interface, InterfaceField, Intersection, Literal, Lit, Mapped, Member, Name, Named, NumberLit, Ty, Type,
    TypeParam, WireSpec,
};

verus! {

broadcast use vstd::seq_lib::group_to_multiset_ensures;

/// The canonical form of `m * 2^e`: an odd mantissa, or zero with exponent
/// zero.
pub open spec fn canonical_number(m: int, e: int) -> (int, int)
    decreases (if m < 0 {
        -m
    } else {
        m
    }),
{
    if m == 0 {
        (0, 0)
    } else if m % 2 == 0 {
        canonical_number(m / 2, e + 1)
    } else {
        (m, e)
    }
}

/// Equality of literal values; numbers compare by value.
pub open spec fn lit_eq(a: Lit, b: Lit) -> bool {
    match (a, b) {
        (Lit::Str(x), Lit::Str(y)) => x == y,
        (Lit::Bool(x), Lit::Bool(y)) => x == y,
        (Lit::Num(m1, e1), Lit::Num(m2, e2)) => canonical_number(m1, e1) == canonical_number(m2, e2),
        (Lit::BigInt(x), Lit::BigInt(y)) => x == y,
        _ => false,
    }
}

pub open spec fn abs_int(m: int) -> int {
    if m < 0 {
        -m
    } else {
        m
    }
}

impl NumberLit {
    /// The canonical form of this number: an odd mantissa, or zero with
    /// exponent zero.
    pub fn canonical(&self) -> (r: (i64, i128))
        ensures
            (r.0 as int, r.1 as int) == canonical_number(self.mantissa as int, self.exponent as int),
    {
        let mut m: i64 = self.mantissa;
        let mut e: i128 = self.exponent as i128;
        if m == 0 {
            return (0, 0);
        }
        while m % 2 == 0
            invariant
                m != 0,
                e >= self.exponent as int,
                (e - self.exponent) + abs_int(m as int) <= abs_int(self.mantissa as int),
                canonical_number(m as int, e as int) == canonical_number(
                    self.mantissa as int,
                    self.exponent as int,
                ),
            decreases abs_int(m as int),
        {
            assert(m as int == 2 * (m as int / 2));
            m = m / 2;
            e = e + 1;
        }
        (m, e)
    }
}

/// The position of the last field of `fs` named `name`, or -1.
pub open spec fn last_named(fs: Seq<Field>, name: Name) -> int
    decreases fs.len(),
{
    if fs.len() == 0 {
        -1
    } else if fs.last().name == name {
        fs.len() - 1
    } else {
        last_named(fs.drop_last(), name)
    }
}

/// Positional identity of two sequences, over the length of the shorter one.
pub open spec fn zip_identical(xs: Seq<Ty>, ys: Seq<Ty>) -> bool
    decreases xs, 0nat,
{
    forall|i: int| 0 <= i < xs.len() && i < ys.len() ==> identical(xs[i], ys[i])
}

/// Identity of two interfaces: the same number of fields, each field of `y`
/// identical to the field of `x` with its name, and identical index
/// signatures. Call signatures are not compared.
pub open spec fn iface_identical(x: Iface, y: Iface) -> bool
    decreases x, 0nat,
{
    &&& x.fields.len() == y.fields.len()
    &&& (x.index is Some) == (y.index is Some)
    &&& forall|j: int|
        0 <= j < y.fields.len() ==> {
            let k = last_named(x.fields, (#[trigger] y.fields[j]).name);
            &&& 0 <= k < x.fields.len()
            &&& x.fields[k].optional == y.fields[j].optional
            &&& identical(x.fields[k].typ, y.fields[j].typ)
        }
    &&& match (x.index, y.index) {
        (Some(p), Some(q)) => identical(*p.0, *q.0) && identical(*p.1, *q.1),
        _ => true,
    }
}

/// Structural identity of two types.
pub open spec fn identical(a: Ty, b: Ty) -> bool
    decreases a, 1nat,
{
    match (a, b) {
        (Ty::Basic(x), Ty::Basic(y)) => x == y,
        (Ty::Array(x), Ty::Array(y)) => identical(*x, *y),
        (Ty::Interface(x), Ty::Interface(y)) => iface_identical(x, y),
        (Ty::Union(xs), Ty::Union(ys)) => zip_identical(xs, ys),
        (Ty::Tuple(xs), Ty::Tuple(ys)) => zip_identical(xs, ys),
        (Ty::Literal(x), Ty::Literal(y)) => lit_eq(x, y),
        (Ty::Class(x), Ty::Class(y)) => x == y,
        (Ty::Named(x, xs), Ty::Named(y, ys)) => x.id == y.id && xs.len() == ys.len()
            && zip_identical(xs, ys),
        (Ty::Optional(x), Ty::Optional(y)) => identical(*x, *y),
        (Ty::This, Ty::This) => true,
        (Ty::Generic(Gen::TypeParam(i, c)), Ty::Generic(Gen::TypeParam(j, d))) => i == j
            && match (c, d) {
            (Some(c), Some(d)) => identical(*c, *d),
            (None, None) => true,
            _ => false,
        },
        (Ty::Generic(Gen::Mapped(x1, x2, _)), Ty::Generic(Gen::Mapped(y1, y2, _))) => identical(
            *x1,
            *y1,
        ) && identical(*x2, *y2),
        (Ty::Generic(Gen::Index(x1, x2)), Ty::Generic(Gen::Index(y1, y2))) => identical(*x1, *y1)
            && identical(*x2, *y2),
        (Ty::Generic(Gen::MappedKey), Ty::Generic(Gen::MappedKey)) => true,
        (Ty::Generic(Gen::Keyof(x)), Ty::Generic(Gen::Keyof(y))) => identical(*x, *y),
        (
            Ty::Generic(Gen::Conditional(x1, x2, x3, x4)),
            Ty::Generic(Gen::Conditional(y1, y2, y3, y4)),
        ) => identical(*x1, *y1) && identical(*x2, *y2) && identical(*x3, *y3) && identical(
            *x4,
            *y4,
        ),
        (Ty::Generic(Gen::Intersection(x1, x2)), Ty::Generic(Gen::Intersection(y1, y2))) => identical(
            *x1,
            *y1,
        ) && identical(*x2, *y2),
        (Ty::Generic(Gen::Inferred(i)), Ty::Generic(Gen::Inferred(j))) => i == j,
        (Ty::Validation(x), Ty::Validation(y)) => x == y,
        (Ty::Validated(x, e), Ty::Validated(y, f)) => identical(*x, *y) && e == f,
        (Ty::Enum(x), Ty::Enum(y)) => same_members(x, y),
        (Ty::Wire(l1, x, n1), Ty::Wire(l2, y, n2)) => l1 == l2 && n1 == n2 && identical(*x, *y),
        _ => false,
    }
}

/// Two enums have the same members when they have as many, and each member
/// (name and value) occurs as often in one as in the other, in any order.
pub open spec fn same_members(x: Seq<Member>, y: Seq<Member>) -> bool {
    x.len() == y.len() && x.to_multiset() == y.to_multiset()
}

pub fn literal_eq(a: &Literal, b: &Literal) -> (r: bool)
    ensures
        r == lit_eq(a.view(), b.view()),
{
    match (a, b) {
        (Literal::String(x), Literal::String(y)) => *x == *y,
        (Literal::Boolean(x), Literal::Boolean(y)) => *x == *y,
        (Literal::Number(x), Literal::Number(y)) => {
            let (m1, e1) = x.canonical();
            let (m2, e2) = y.canonical();
            m1 == m2 && e1 == e2
        },
        (Literal::BigInt(x), Literal::BigInt(y)) => *x == *y,
        _ => false,
    }
}

impl FieldName {
    /// Whether two field names are the same.
    pub fn same(&self, other: &FieldName) -> (r: bool)
        ensures
            r == (self.view() == other.view()),
    {
        match (self, other) {
            (FieldName::String(a), FieldName::String(b)) => *a == *b,
            (FieldName::Symbol(a), FieldName::Symbol(b)) => *a == *b,
            _ => false,
        }
    }

    /// Whether this is the string name `s`.
    pub fn eq_str(&self, s: &str) -> (r: bool)
        ensures
            r == (self.view() == Name::Str(s@)),
    {
        match self {
            FieldName::String(a) => {
                let a: &str = a.as_str();
                str_equal(a, s)
            },
            FieldName::Symbol(_) => false,
        }
    }
}

impl PartialEq for FieldName {
    fn eq(&self, other: &FieldName) -> (r: bool) {
        self.same(other)
    }
}

impl vstd::std_specs::cmp::PartialEqSpecImpl for FieldName {
    open spec fn obeys_eq_spec() -> bool {
        true
    }

    open spec fn eq_spec(&self, other: &FieldName) -> bool {
        self.view() == other.view()
    }
}

impl Eq for FieldName {

}

/// Whether two strings hold the same characters.
pub fn str_equal(a: &str, b: &str) -> (r: bool)
    ensures
        r == (a@ == b@),
{
    let n = a.unicode_len();
    if n != b.unicode_len() {
        return false;
    }
    let mut i: usize = 0;
    while i < n
        invariant
            n == a@.len(),
            n == b@.len(),
            i <= n,
            forall|j: int| 0 <= j < i ==> a@[j] == b@[j],
        decreases n - i,
    {
        if a.get_char(i) != b.get_char(i) {
            return false;
        }
        i += 1;
    }
    assert(a@ =~= b@);
    true
}

/// The position of the last field in `fields` with the given name.
pub fn find_last_named(fields: &Vec<InterfaceField>, name: &FieldName) -> (r: Option<usize>)
    ensures
        match r {
            Some(k) => k as int == last_named(fields_view(fields@), name.view()),
            None => last_named(fields_view(fields@), name.view()) == -1,
        },
{
    let mut i: usize = fields.len();
    proof {
        assert(fields_view(fields@).subrange(0, i as int) =~= fields_view(fields@));
    }
    while i > 0
        invariant
            i <= fields@.len(),
            last_named(fields_view(fields@), name.view()) == last_named(
                fields_view(fields@).subrange(0, i as int),
                name.view(),
            ),
        decreases i,
    {
        let ghost fs = fields_view(fields@).subrange(0, i as int);
        if fields[i - 1].name.same(name) {
            return Some(i - 1);
        }
        proof {
            assert(fs.drop_last() =~= fields_view(fields@).subrange(0, i - 1));
        }
        i -= 1;
    }
    None
}

pub fn zip_identical_exec(xs: &Vec<Type>, ys: &Vec<Type>) -> (r: bool)
    ensures
        r == zip_identical(tys(xs@), tys(ys@)),
    decreases xs,
{
    let mut i: usize = 0;
    while i < xs.len() && i < ys.len()
        invariant
            i <= xs@.len(),
            forall|j: int| 0 <= j < i && j < ys@.len() ==> identical(xs@[j]@, ys@[j]@),
        decreases xs@.len() - i,
    {
        proof {
            vstd::std_specs::vec::axiom_vec_index_decreases(*xs, i as int);
        }
        if !xs[i].identical(&ys[i]) {
            assert(tys(xs@)[i as int] == xs@[i as int]@);
            assert(tys(ys@)[i as int] == ys@[i as int]@);
            return false;
        }
        i += 1;
    }
    assert forall|j: int| 0 <= j < tys(xs@).len() && j < tys(ys@).len() implies identical(
        tys(xs@)[j],
        tys(ys@)[j],
    ) by {
        assert(tys(xs@)[j] == xs@[j]@);
        assert(tys(ys@)[j] == ys@[j]@);
    }
    true
}

impl Interface {
    pub fn identical(&self, other: &Interface) -> (r: bool)
        ensures
            r == iface_identical(self.view(), other.view()),
        decreases self,
    {
        let ghost x = self.view();
        let ghost y = other.view();
        assert(x.fields.len() == self.fields@.len());
        assert(y.fields.len() == other.fields@.len());
        if self.fields.len() != other.fields.len() {
            return false;
        }
        if self.index.is_some() != other.index.is_some() {
            return false;
        }
        let mut j: usize = 0;
        while j < other.fields.len()
            invariant
                x == self.view(),
                y == other.view(),
                x.fields.len() == self.fields@.len(),
                y.fields.len() == other.fields@.len(),
                j <= other.fields@.len(),
                forall|jj: int|
                    0 <= jj < j ==> {
                        let k = last_named(x.fields, (#[trigger] y.fields[jj]).name);
                        &&& 0 <= k < x.fields.len()
                        &&& x.fields[k].optional == y.fields[jj].optional
                        &&& identical(x.fields[k].typ, y.fields[jj].typ)
                    },
            decreases other.fields@.len() - j,
        {
            let f = &other.fields[j];
            assert(y.fields[j as int] == f.view());
            match find_last_named(&self.fields, &f.name) {
                Some(k) => {
                    proof {
                        lemma_last_named_bounds(x.fields, f.name.view());
                        vstd::std_specs::vec::axiom_vec_index_decreases(self.fields, k as int);
                    }
                    let s = &self.fields[k];
                    assert(x.fields[k as int] == s.view());
                    if s.optional != f.optional || !s.typ.identical(&f.typ) {
                        return false;
                    }
                },
                None => {
                    return false;
                },
            }
            j += 1;
        }
        match (&self.index, &other.index) {
            (Some(p), Some(q)) => p.0.identical(&q.0) && p.1.identical(&q.1),
            _ => true,
        }
    }
}

/// The last field with a name is a field of the sequence, and has the name.
pub proof fn lemma_last_named_bounds(fs: Seq<Field>, name: Name)
    ensures
        -1 <= last_named(fs, name) < fs.len(),
        last_named(fs, name) >= 0 ==> fs[last_named(fs, name)].name == name,
        last_named(fs, name) == -1 ==> forall|i: int| 0 <= i < fs.len() ==> fs[i].name != name,
    decreases fs.len(),
{
    if fs.len() > 0 && fs.last().name != name {
        lemma_last_named_bounds(fs.drop_last(), name);
        assert forall|i: int| 0 <= i < fs.len() - 1 implies fs[i] == fs.drop_last()[i] by {}
    }
}

impl ClassType {
    /// Two classes are identical when they have the same methods in the same
    /// order.
    pub fn identical(&self, other: &ClassType) -> (r: bool)
        ensures
            r == (self.view() == other.view()),
    {
        if self.methods.len() != other.methods.len() {
            assert(self.view().len() != other.view().len());
            return false;
        }
        let mut i: usize = 0;
        while i < self.methods.len()
            invariant
                i <= self.methods@.len(),
                self.methods@.len() == other.methods@.len(),
                forall|j: int| 0 <= j < i ==> self.methods@[j]@ == other.methods@[j]@,
            decreases self.methods@.len() - i,
        {
            if self.methods[i] != other.methods[i] {
                assert(self.view()[i as int] != other.view()[i as int]);
                return false;
            }
            i += 1;
        }
        assert(self.view() =~= other.view());
        true
    }
}

fn members_equal(a: &crate::types::EnumMember, b: &crate::types::EnumMember) -> (r: bool)
    ensures
        r == (members_view(seq![*a])[0] == members_view(seq![*b])[0]),
{
    let same_value = match (&a.value, &b.value) {
        (crate::types::EnumValue::String(x), crate::types::EnumValue::String(y)) => *x == *y,
        (crate::types::EnumValue::Number(x), crate::types::EnumValue::Number(y)) => *x == *y,
        _ => false,
    };
    a.name == b.name && same_value
}

impl EnumType {
    /// Two enums are identical when they have the same members, with the same
    /// values, in any order.
    pub fn identical(&self, other: &EnumType) -> (r: bool)
        ensures
            r == same_members(self.view(), other.view()),
    {
        let ghost xv = self.view();
        let ghost ov = other.view();
        let n = self.members.len();
        if n != other.members.len() {
            return false;
        }
        let mut rest: Vec<usize> = Vec::new();
        let mut k: usize = 0;
        while k < n
            invariant
                n == ov.len(),
                ov == other.view(),
                k <= n,
                rest@.len() == k,
                forall|j: int| 0 <= j < k ==> rest@[j] == j,
            decreases n - k,
        {
            rest.push(k);
            k += 1;
        }
        assert(Seq::new(rest@.len(), |j: int| ov[rest@[j] as int]) =~= ov);
        assert(xv.subrange(0, 0) =~= Seq::<Member>::empty());
        assert(xv.subrange(0, 0).to_multiset() =~= Multiset::<Member>::empty());
        let mut i: usize = 0;
        while i < n
            invariant
                n == xv.len(),
                n == ov.len(),
                xv == self.view(),
                ov == other.view(),
                i <= n,
                forall|j: int| 0 <= j < rest@.len() ==> rest@[j] < n,
                xv.subrange(0, i as int).to_multiset().add(
                    Seq::new(rest@.len(), |j: int| ov[rest@[j] as int]).to_multiset(),
                ) == ov.to_multiset(),
            decreases n - i,
        {
            let ghost rs = Seq::new(rest@.len(), |j: int| ov[rest@[j] as int]);
            let ghost pre = xv.subrange(0, i as int);
            let ghost x = xv[i as int];
            assert(xv.subrange(0, i + 1) =~= pre.push(x));
            let mut found = false;
            let mut j: usize = 0;
            while j < rest.len()
                invariant_except_break
                    !found,
                invariant
                    rs == Seq::new(rest@.len(), |j: int| ov[rest@[j] as int]),
                    forall|j: int| 0 <= j < rest@.len() ==> rest@[j] < n,
                    n == ov.len(),
                    ov == other.view(),
                    x == self.view()[i as int],
                    i < n,
                    n == self.members@.len(),
                    j <= rest@.len(),
                    forall|t: int| 0 <= t < j ==> rs[t] != x,
                ensures
                    found ==> j < rest@.len() && rs[j as int] == x,
                    !found ==> j == rest@.len(),
                decreases rest@.len() - j,
            {
                assert(members_view(seq![self.members@[i as int]])[0] == x);
                assert(members_view(seq![other.members@[rest@[j as int] as int]])[0] == rs[j as int]);
                if members_equal(&self.members[i], &other.members[rest[j]]) {
                    assert(rs[j as int] == x);
                    found = true;
                    break;
                }
                j += 1;
            }
            if !found {
                proof {
                    assert forall|t: int| 0 <= t < rs.len() implies rs[t] != x by {}
                    assert(!rs.contains(x));
                    assert(rs.to_multiset().count(x) == 0);
                    vstd::seq_lib::lemma_multiset_commutative(xv.subrange(0, i + 1), xv.subrange(i + 1, n as int));
                    assert(xv.subrange(0, i + 1) + xv.subrange(i + 1, n as int) =~= xv);
                    assert(ov.to_multiset().count(x) == pre.to_multiset().count(x));
                    assert(xv.to_multiset().count(x) >= pre.push(x).to_multiset().count(x));
                }
                return false;
            }
            proof {
                assert(rs[j as int] == x);
                assert(Seq::new((rest@.len() - 1) as nat, |t: int| ov[rest@.remove(j as int)[t] as int]) =~= rs.remove(j as int));
                assert(pre.push(x).to_multiset().add(rs.remove(j as int).to_multiset()) =~= pre.to_multiset().add(rs.to_multiset()));
            }
            rest.remove(j);
            i += 1;
        }
        assert(xv.subrange(0, n as int) =~= xv);
        proof {
            let rs = Seq::new(rest@.len(), |j: int| ov[rest@[j] as int]);
            assert(xv.to_multiset().add(rs.to_multiset()).len() == xv.to_multiset().len() + rs.to_multiset().len());
            assert(rs.len() == 0);
        }
        assert(Seq::new(rest@.len(), |j: int| ov[rest@[j] as int]).to_multiset() =~= Multiset::<Member>::empty());
        assert(xv.to_multiset() =~= ov.to_multiset());
        true
    }
}

impl Named {
    pub fn identical(&self, other: &Named) -> (r: bool)
        ensures
            r == identical(self.view(), other.view()),
        decreases self,
    {
        if self.obj.id != other.obj.id || self.type_arguments.len() != other.type_arguments.len() {
            return false;
        }
        zip_identical_exec(&self.type_arguments, &other.type_arguments)
    }
}

impl TypeParam {
    pub fn identical(&self, other: &TypeParam) -> (r: bool)
        ensures
            r == identical(
                Type::Generic(Generic::TypeParam(*self)).view(),
                Type::Generic(Generic::TypeParam(*other)).view(),
            ),
        decreases self,
    {
        self.idx == other.idx && match (&self.constraint, &other.constraint) {
            (Some(a), Some(b)) => a.identical(b),
            (None, None) => true,
            _ => false,
        }
    }
}

impl Generic {
    pub fn identical(&self, other: &Generic) -> (r: bool)
        ensures
            r == identical(Type::Generic(*self).view(), Type::Generic(*other).view()),
        decreases self,
    {
        match (self, other) {
            (Generic::TypeParam(a), Generic::TypeParam(b)) => a.identical(b),
            (Generic::Mapped(a), Generic::Mapped(b)) => a.in_type.identical(&b.in_type)
                && a.value_type.identical(&b.value_type),
            (Generic::Index(a), Generic::Index(b)) => a.source.identical(&b.source)
                && a.index.identical(&b.index),
            (Generic::MappedKeyType(_), Generic::MappedKeyType(_)) => true,
            (Generic::Keyof(a), Generic::Keyof(b)) => a.0.identical(&b.0),
            (Generic::Conditional(a), Generic::Conditional(b)) => a.check_type.identical(
                &b.check_type,
            ) && a.extends_type.identical(&b.extends_type) && a.true_type.identical(&b.true_type)
                && a.false_type.identical(&b.false_type),
            (Generic::Intersection(a), Generic::Intersection(b)) => a.x.identical(&b.x)
                && a.y.identical(&b.y),
            (Generic::Inferred(a), Generic::Inferred(b)) => a.0 == b.0,
            _ => false,
        }
    }
}

impl InterfaceField {
    /// Two fields are identical when they have the same name, identical
    /// types and the same optionality.
    pub fn identical(&self, other: &InterfaceField) -> (r: bool)
        ensures
            r == (self.name.view() == other.name.view() && identical(self.typ@, other.typ@)
                && self.optional == other.optional),
    {
        self.name.same(&other.name) && self.typ.identical(&other.typ) && self.optional == other.optional
    }
}

impl Mapped {
    /// Two mapped types are identical when their key and value types are.
    pub fn identical(&self, other: &Mapped) -> (r: bool)
        ensures
            r == (identical(self.in_type@, other.in_type@) && identical(
                self.value_type@,
                other.value_type@,
            )),
    {
        self.in_type.identical(&other.in_type) && self.value_type.identical(&other.value_type)
    }
}

impl Intersection {
    /// Two deferred intersections are identical when their operands are, in
    /// order.
    pub fn identical(&self, other: &Intersection) -> (r: bool)
        ensures
            r == (identical(self.x@, other.x@) && identical(self.y@, other.y@)),
    {
        self.x.identical(&other.x) && self.y.identical(&other.y)
    }
}

impl WireSpec {
    /// Two wire specifications are identical when they name the same
    /// location and name override, and identical underlying types.
    pub fn identical(&self, other: &WireSpec) -> (r: bool)
        ensures
            r == identical(
                Type::Custom(Custom::WireSpec(*self)).view(),
                Type::Custom(Custom::WireSpec(*other)).view(),
            ),
        decreases self,
    {
        let same_name = match (&self.name_override, &other.name_override) {
            (Some(x), Some(y)) => *x == *y,
            (None, None) => true,
            _ => false,
        };
        self.location == other.location && same_name && self.underlying.identical(&other.underlying)
    }
}

impl Custom {
    pub fn identical(&self, other: &Custom) -> (r: bool)
        ensures
            r == identical(Type::Custom(*self).view(), Type::Custom(*other).view()),
        decreases self,
    {
        match (self, other) {
            (Custom::WireSpec(a), Custom::WireSpec(b)) => a.identical(b),
        }
    }
}

/// The type carried by a validated type, with its predicate; any other type
/// as it is, with none.
pub fn unwrap_validated(typ: &Type) -> (r: (&Type, Option<&crate::types::Expr>))
    ensures
        match typ@ {
            Ty::Validated(t, e) => r.0@ == *t && r.1 == Some(&e),
            _ => r.0 == typ && r.1 is None,
        },
{
    match typ {
        Type::Validated(v) => (&v.typ, Some(&v.expr)),
        _ => (typ, None),
    }
}

impl Expr {
    /// Whether two predicates are the same expression.
    pub fn same(&self, other: &Expr) -> (r: bool)
        ensures
            r == (*self == *other),
        decreases self,
    {
        match (self, other) {
            (Expr::Rule(a), Expr::Rule(b)) => *a == *b,
            (Expr::And(a1, a2), Expr::And(b1, b2)) => a1.same(b1) && a2.same(b2),
            (Expr::Or(a1, a2), Expr::Or(b1, b2)) => a1.same(b1) && a2.same(b2),
            _ => false,
        }
    }
}

impl Type {
    pub fn is_void(&self) -> (r: bool)
        ensures
            r == (self@ == Ty::Basic(Basic::Void)),
    {
        match self {
            Type::Basic(Basic::Void) => true,
            _ => false,
        }
    }

    /// Structural identity.
    pub fn identical(&self, other: &Type) -> (r: bool)
        ensures
            r == identical(self@, other@),
        decreases self,
    {
        match (self, other) {
            (Type::Basic(a), Type::Basic(b)) => *a == *b,
            (Type::Array(a), Type::Array(b)) => a.0.identical(&b.0),
            (Type::Interface(a), Type::Interface(b)) => a.identical(b),
            (Type::Union(a), Type::Union(b)) => zip_identical_exec(&a.types, &b.types),
            (Type::Tuple(a), Type::Tuple(b)) => zip_identical_exec(&a.types, &b.types),
            (Type::Literal(a), Type::Literal(b)) => literal_eq(a, b),
            (Type::Class(a), Type::Class(b)) => a.identical(b),
            (Type::Named(a), Type::Named(b)) => a.identical(b),
            (Type::Optional(a), Type::Optional(b)) => a.0.identical(&b.0),
            (Type::This(_), Type::This(_)) => true,
            (Type::Generic(a), Type::Generic(b)) => a.identical(b),
            (Type::Enum(a), Type::Enum(b)) => a.identical(b),
            (Type::Custom(a), Type::Custom(b)) => a.identical(b),
            (Type::Validation(a), Type::Validation(b)) => a.same(b),
            (Type::Validated(a), Type::Validated(b)) => a.typ.identical(&b.typ) && a.expr.same(
                &b.expr,
            ),
            _ => false,
        }
    }
}

} // verus!
