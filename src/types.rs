//! The type model: executable values, their mathematical views, and copies
//! that are proved to keep the view.
use vstd::prelude::*;

verus! {

/// The index of a type argument.
#[derive(Debug, Clone, Copy, PartialEq, Eq, Hash, Structural)]
pub struct TypeArgId(pub usize);

/// A type of the checked language.
#[derive(Debug)]
pub enum Type {
    /// strings, etc
    Basic(Basic),
    /// T[], Array<T>
    Array(Array),
    /// { foo: string }
    Interface(Interface),
    /// a | b | c
    Union(Union),
    /// [string, number]
    Tuple(Tuple),
    /// "foo"
    Literal(Literal),
    /// class Foo {}
    Class(ClassType),
    /// enum Foo {}
    Enum(EnumType),
    /// A named type, with optional type arguments.
    Named(Named),
    /// e.g. "string?" in tuples
    Optional(Optional),
    /// The polymorphic `this` type.
    This(This),
    Generic(Generic),
    /// A standalone validation expression.
    Validation(Expr),
    /// A type with validation applied to it.
    Validated(Validated),
    /// A custom type of some kind.
    Custom(Custom),
}

#[derive(Debug)]
pub struct Array(pub Box<Type>);

#[derive(Debug)]
pub struct Optional(pub Box<Type>);

#[derive(Debug)]
pub struct Tuple {
    pub types: Vec<Type>,
}

#[derive(Debug)]
pub struct Union {
    pub types: Vec<Type>,
}

#[derive(Debug)]
pub struct Validated {
    pub typ: Box<Type>,
    pub expr: Expr,
}

/// A validation predicate. The rules themselves belong to the validation
/// component; here a rule is known by its identifier.
#[derive(Debug)]
pub enum Expr {
    Rule(u64),
    And(Box<Expr>, Box<Expr>),
    Or(Box<Expr>, Box<Expr>),
}

#[derive(Debug)]
pub enum Custom {
    /// A specification of how the type should be encoded on the wire.
    WireSpec(WireSpec),
}

#[derive(Debug)]
pub struct WireSpec {
    /// What location in the request should be used for this field.
    pub location: WireLocation,
    /// The underlying type this is.
    pub underlying: Box<Type>,
    /// Whether this specifies a name override.
    pub name_override: Option<String>,
}

#[derive(Debug, Clone, Copy, PartialEq, Eq, Hash, Structural)]
pub enum WireLocation {
    Query,
    Header,
    PubSubAttr,
    Cookie,
}

#[derive(Debug, Clone, Copy, PartialEq, Eq, Hash, Structural)]
pub enum Basic {
    Any,
    String,
    Boolean,
    Number,
    Object,
    BigInt,
    Date,
    Symbol,
    Undefined,
    Null,
    Void,
    Unknown,
    Never,
}

/// The keyword that names a basic kind.
pub open spec fn keyword(b: Basic) -> Seq<char> {
    match b {
        Basic::Any => "any"@,
        Basic::String => "string"@,
        Basic::Boolean => "boolean"@,
        Basic::Number => "number"@,
        Basic::Object => "object"@,
        Basic::BigInt => "bigint"@,
        Basic::Date => "Date"@,
        Basic::Symbol => "symbol"@,
        Basic::Undefined => "undefined"@,
        Basic::Null => "null"@,
        Basic::Void => "void"@,
        Basic::Unknown => "unknown"@,
        Basic::Never => "never"@,
    }
}

impl Basic {
    /// The keyword that names this kind.
    pub fn as_str(&self) -> (r: &'static str)
        ensures
            r@ == keyword(*self),
    {
        match self {
            Basic::Any => "any",
            Basic::String => "string",
            Basic::Boolean => "boolean",
            Basic::Number => "number",
            Basic::Object => "object",
            Basic::BigInt => "bigint",
            Basic::Date => "Date",
            Basic::Symbol => "symbol",
            Basic::Undefined => "undefined",
            Basic::Null => "null",
            Basic::Void => "void",
            Basic::Unknown => "unknown",
            Basic::Never => "never",
        }
    }
}

/// A literal type.
#[derive(Debug, Clone)]
pub enum Literal {
    String(String),
    Boolean(bool),
    Number(NumberLit),
    BigInt(String),
}

/// The value of a number literal, `mantissa * 2^exponent`. Every finite
/// double and every 64-bit integer has such a form; one value has many, and
/// literals compare by value.
#[derive(Debug, Clone, Copy, PartialEq, Eq, Hash, Structural)]
pub struct NumberLit {
    pub mantissa: i64,
    pub exponent: i32,
}

#[derive(Debug)]
pub struct Interface {
    /// Explicitly defined fields.
    pub fields: Vec<InterfaceField>,
    /// Set for index signature types, like `[key: string]: number`.
    pub index: Option<(Box<Type>, Box<Type>)>,
    /// Callable signature, like `(a: number): string`:
    /// the arguments, then the returns.
    pub call: Option<(Vec<Type>, Vec<Type>)>,
}

/// The name of an interface field: a string, or a symbol known by the
/// identifier of its declaration.
#[derive(Debug, Clone, Hash)]
pub enum FieldName {
    String(String),
    Symbol(u64),
}

#[derive(Debug)]
pub struct InterfaceField {
    pub name: FieldName,
    pub optional: bool,
    pub typ: Type,
}

#[derive(Debug, Clone)]
pub struct ClassType {
    pub methods: Vec<String>,
}

#[derive(Debug, Clone)]
pub struct EnumType {
    pub members: Vec<EnumMember>,
}

#[derive(Debug, Clone)]
pub struct EnumMember {
    pub name: String,
    pub value: EnumValue,
}

#[derive(Debug, Clone)]
pub enum EnumValue {
    String(String),
    Number(i64),
}

/// The identity of a declaration: its own stable id and that of the module
/// that owns it.
#[derive(Debug, Clone, Copy, PartialEq, Eq, Hash, Structural)]
pub struct ObjectRef {
    pub id: u64,
    pub module_id: u64,
}

#[derive(Debug)]
pub struct Named {
    pub obj: ObjectRef,
    pub type_arguments: Vec<Type>,
}

#[derive(Debug)]
pub enum Generic {
    /// A reference to a generic type parameter.
    TypeParam(TypeParam),
    /// An index lookup, like `T[U]`, where at least one of the types is a generic.
    Index(Index),
    /// A mapped type.
    Mapped(Mapped),
    /// A reference to the 'key' type when evaluating a mapped type.
    MappedKeyType(MappedKeyType),
    Keyof(Keyof),
    Conditional(Conditional),
    /// An intersection that is not resolved yet.
    Intersection(Intersection),
    /// A reference to an inferred type parameter, by its slot.
    Inferred(Inferred),
}

#[derive(Debug)]
pub struct Index {
    pub source: Box<Type>,
    pub index: Box<Type>,
}

/// A reference to an inferred type parameter, by its slot.
#[derive(Debug, Clone, Copy, PartialEq, Eq, Hash, Structural)]
pub struct Inferred(pub usize);

#[derive(Debug)]
pub struct Keyof(pub Box<Type>);

#[derive(Debug, Clone, Copy, PartialEq, Eq, Hash, Structural)]
pub struct This;

#[derive(Debug, Clone, Copy, PartialEq, Eq, Hash, Structural)]
pub struct MappedKeyType;

#[derive(Debug)]
pub struct TypeParam {
    /// The index of the type parameter in the current scope.
    pub idx: usize,
    /// Any additional constraint on the type parameter.
    pub constraint: Option<Box<Type>>,
}

#[derive(Debug)]
pub struct Mapped {
    /// The type being evaluated to find property names.
    pub in_type: Box<Type>,
    /// The value of each property in the mapped type.
    pub value_type: Box<Type>,
    /// Whether to force fields to be optional (Some(true)), to make them
    /// required (Some(false)), or to keep them as they are (None).
    pub optional: Option<bool>,
}

#[derive(Debug)]
pub struct Intersection {
    pub x: Box<Type>,
    pub y: Box<Type>,
}

#[derive(Debug)]
pub struct Conditional {
    pub check_type: Box<Type>,
    pub extends_type: Box<Type>,
    pub true_type: Box<Type>,
    pub false_type: Box<Type>,
}

// ---------------------------------------------------------------------------
// The mathematical model.

/// The view of a `Type`.
pub enum Ty {
    Basic(Basic),
    Array(Box<Ty>),
    Interface(Iface),
    Union(Seq<Ty>),
    Tuple(Seq<Ty>),
    Literal(Lit),
    Class(Seq<Seq<char>>),
    Enum(Seq<Member>),
    Named(ObjectRef, Seq<Ty>),
    Optional(Box<Ty>),
    This,
    Generic(Gen),
    Validation(Expr),
    Validated(Box<Ty>, Expr),
    Wire(WireLocation, Box<Ty>, Option<Seq<char>>),
}

pub enum Lit {
    Str(Seq<char>),
    Bool(bool),
    Num(int, int),
    BigInt(Seq<char>),
}

pub enum Name {
    Str(Seq<char>),
    Symbol(u64),
}

pub struct Field {
    pub name: Name,
    pub optional: bool,
    pub typ: Ty,
}

pub struct Iface {
    pub fields: Seq<Field>,
    pub index: Option<(Box<Ty>, Box<Ty>)>,
    pub call: Option<(Seq<Ty>, Seq<Ty>)>,
}

pub enum MemberValue {
    Str(Seq<char>),
    Num(i64),
}

pub struct Member {
    pub name: Seq<char>,
    pub value: MemberValue,
}

pub enum Gen {
    TypeParam(usize, Option<Box<Ty>>),
    Index(Box<Ty>, Box<Ty>),
    Mapped(Box<Ty>, Box<Ty>, Option<bool>),
    MappedKey,
    Keyof(Box<Ty>),
    Conditional(Box<Ty>, Box<Ty>, Box<Ty>, Box<Ty>),
    Intersection(Box<Ty>, Box<Ty>),
    Inferred(usize),
}

/// The views of a sequence of types.
pub open spec fn tys(s: Seq<Type>) -> Seq<Ty>
    decreases s,
{
    Seq::new(s.len(), |i: int| if 0 <= i < s.len() { s[i].view() } else { Ty::This })
}

pub open spec fn fields_view(s: Seq<InterfaceField>) -> Seq<Field>
    decreases s,
{
    Seq::new(
        s.len(),
        |i: int|
            if 0 <= i < s.len() {
                Field { name: s[i].name.view(), optional: s[i].optional, typ: s[i].typ.view() }
            } else {
                Field { name: Name::Symbol(0), optional: false, typ: Ty::This }
            },
    )
}

pub open spec fn strs(s: Seq<String>) -> Seq<Seq<char>> {
    s.map_values(|x: String| x@)
}

pub open spec fn members_view(s: Seq<EnumMember>) -> Seq<Member> {
    s.map_values(|m: EnumMember| Member { name: m.name@, value: m.value.view() })
}

impl Type {
    pub open spec fn view(&self) -> Ty
        decreases self,
    {
        match self {
            Type::Basic(b) => Ty::Basic(*b),
            Type::Array(a) => Ty::Array(Box::new(a.0.view())),
            Type::Interface(i) => Ty::Interface(
                Iface {
                    fields: fields_view(i.fields@),
                    index: match &i.index {
                        Some(p) => Some((Box::new(p.0.view()), Box::new(p.1.view()))),
                        None => None,
                    },
                    call: match &i.call {
                        Some(p) => Some((tys(p.0@), tys(p.1@))),
                        None => None,
                    },
                },
            ),
            Type::Union(u) => Ty::Union(tys(u.types@)),
            Type::Tuple(t) => Ty::Tuple(tys(t.types@)),
            Type::Literal(l) => Ty::Literal(l.view()),
            Type::Class(c) => Ty::Class(strs(c.methods@)),
            Type::Enum(e) => Ty::Enum(members_view(e.members@)),
            Type::Named(n) => Ty::Named(n.obj, tys(n.type_arguments@)),
            Type::Optional(o) => Ty::Optional(Box::new(o.0.view())),
            Type::This(_) => Ty::This,
            Type::Generic(g) => Ty::Generic(
                match g {
                    Generic::TypeParam(p) => Gen::TypeParam(
                        p.idx,
                        match &p.constraint {
                            Some(c) => Some(Box::new(c.view())),
                            None => None,
                        },
                    ),
                    Generic::Index(x) => Gen::Index(
                        Box::new(x.source.view()),
                        Box::new(x.index.view()),
                    ),
                    Generic::Mapped(m) => Gen::Mapped(
                        Box::new(m.in_type.view()),
                        Box::new(m.value_type.view()),
                        m.optional,
                    ),
                    Generic::MappedKeyType(_) => Gen::MappedKey,
                    Generic::Keyof(k) => Gen::Keyof(Box::new(k.0.view())),
                    Generic::Conditional(c) => Gen::Conditional(
                        Box::new(c.check_type.view()),
                        Box::new(c.extends_type.view()),
                        Box::new(c.true_type.view()),
                        Box::new(c.false_type.view()),
                    ),
                    Generic::Intersection(x) => Gen::Intersection(
                        Box::new(x.x.view()),
                        Box::new(x.y.view()),
                    ),
                    Generic::Inferred(i) => Gen::Inferred(i.0),
                },
            ),
            Type::Validation(e) => Ty::Validation(*e),
            Type::Validated(v) => Ty::Validated(Box::new(v.typ.view()), v.expr),
            Type::Custom(Custom::WireSpec(w)) => Ty::Wire(
                w.location,
                Box::new(w.underlying.view()),
                match &w.name_override {
                    Some(s) => Some(s@),
                    None => None,
                },
            ),
        }
    }
}

impl Literal {
    pub open spec fn view(&self) -> Lit {
        match self {
            Literal::String(s) => Lit::Str(s@),
            Literal::Boolean(b) => Lit::Bool(*b),
            Literal::Number(n) => Lit::Num(n.mantissa as int, n.exponent as int),
            Literal::BigInt(s) => Lit::BigInt(s@),
        }
    }
}

impl FieldName {
    pub open spec fn view(&self) -> Name {
        match self {
            FieldName::String(s) => Name::Str(s@),
            FieldName::Symbol(id) => Name::Symbol(*id),
        }
    }
}

impl InterfaceField {
    pub open spec fn view(&self) -> Field {
        Field { name: self.name.view(), optional: self.optional, typ: self.typ.view() }
    }
}

impl Interface {
    pub open spec fn view(&self) -> Iface {
        Iface {
            fields: fields_view(self.fields@),
            index: match &self.index {
                Some(p) => Some((Box::new(p.0.view()), Box::new(p.1.view()))),
                None => None,
            },
            call: match &self.call {
                Some(p) => Some((tys(p.0@), tys(p.1@))),
                None => None,
            },
        }
    }
}

impl EnumValue {
    pub open spec fn view(&self) -> MemberValue {
        match self {
            EnumValue::String(s) => MemberValue::Str(s@),
            EnumValue::Number(n) => MemberValue::Num(*n),
        }
    }
}

impl EnumType {
    pub open spec fn view(&self) -> Seq<Member> {
        members_view(self.members@)
    }
}

impl ClassType {
    pub open spec fn view(&self) -> Seq<Seq<char>> {
        strs(self.methods@)
    }
}

impl Named {
    pub open spec fn view(&self) -> Ty {
        Ty::Named(self.obj, tys(self.type_arguments@))
    }
}

} // verus!
