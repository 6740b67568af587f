use typealgebra::cron::{parse_schedule, CronExpr, CronJobSchedule, ScheduleError};
use typealgebra::extends::Extends;
use typealgebra::intersect::{intersect, CALL_NOTE};
use typealgebra::jsonc::strip_jsonc_comments;
use typealgebra::paths::{file_candidates, PathVal, TsConfigPathResolver};
use typealgebra::resolve::ResolveState;
use typealgebra::types::{
    ClassType, Conditional, Index, Intersection, Keyof, MappedKeyType,
    Array, Basic, EnumMember, EnumType, EnumValue, Expr, FieldName, Generic, Inferred, Interface,
    InterfaceField, Literal, Named, NumberLit, ObjectRef, Optional, Tuple, Type, TypeParam, Union,
    Validated,
};
use typealgebra::union::simplify_union;

fn basic(b: Basic) -> Type {
    Type::Basic(b)
}

fn lit_str(s: &str) -> Type {
    Type::Literal(Literal::String(s.to_string()))
}

fn field(name: &str, typ: Type) -> InterfaceField {
    InterfaceField { name: FieldName::String(name.to_string()), optional: false, typ }
}

fn iface(fields: Vec<InterfaceField>) -> Type {
    Type::Interface(Interface { fields, index: None, call: None })
}

fn type_param(idx: usize) -> Type {
    Type::Generic(Generic::TypeParam(TypeParam { idx, constraint: None }))
}

fn union(types: Vec<Type>) -> Type {
    Type::Union(Union { types })
}

#[test]
fn identical_is_reflexive_on_samples() {
    let samples = vec![
        basic(Basic::String),
        lit_str("a"),
        Type::Array(Array(Box::new(basic(Basic::Number)))),
        union(vec![basic(Basic::Number), lit_str("x")]),
        iface(vec![field("a", basic(Basic::Number)), field("b", basic(Basic::String))]),
        Type::Optional(Optional(Box::new(basic(Basic::Boolean)))),
        type_param(0),
    ];
    for t in &samples {
        assert!(t.identical(t));
    }
}

#[test]
fn identical_distinguishes_kinds() {
    assert!(!basic(Basic::String).identical(&basic(Basic::Number)));
    assert!(!basic(Basic::String).identical(&lit_str("a")));
}

#[test]
fn identical_interfaces_ignore_field_order() {
    let a = iface(vec![field("a", basic(Basic::Number)), field("b", basic(Basic::String))]);
    let b = iface(vec![field("b", basic(Basic::String)), field("a", basic(Basic::Number))]);
    assert!(a.identical(&b));
    let c = iface(vec![field("a", basic(Basic::Number))]);
    assert!(!a.identical(&c));
}

#[test]
fn union_zip_ignores_extra_members() {
    let a = union(vec![basic(Basic::String), basic(Basic::Number)]);
    let b = union(vec![basic(Basic::String)]);
    assert!(a.identical(&b));
}

#[test]
fn number_literals_compare_by_value() {
    let one = Literal::Number(NumberLit { mantissa: 1, exponent: 0 });
    let also_one = Literal::Number(NumberLit { mantissa: 4, exponent: -2 });
    let two = Literal::Number(NumberLit { mantissa: 1, exponent: 1 });
    assert!(Type::Literal(one.clone()).identical(&Type::Literal(also_one)));
    assert!(!Type::Literal(one).identical(&Type::Literal(two)));
}

#[test]
fn literal_widening() {
    let merged = lit_str("a").union_merge(&basic(Basic::String));
    assert!(matches!(merged, Some(Type::Basic(Basic::String))));
    let merged = basic(Basic::String).union_merge(&lit_str("a"));
    assert!(matches!(merged, Some(Type::Basic(Basic::String))));
    assert!(lit_str("a").union_merge(&basic(Basic::Number)).is_none());
}

#[test]
fn any_absorbs_in_union_merge() {
    assert!(matches!(
        basic(Basic::Number).union_merge(&basic(Basic::Any)),
        Some(Type::Basic(Basic::Any))
    ));
}

#[test]
fn validations_merge_with_or() {
    let merged = Type::Validation(Expr::Rule(1)).union_merge(&Type::Validation(Expr::Rule(2)));
    match merged {
        Some(Type::Validation(Expr::Or(a, b))) => {
            assert!(matches!(*a, Expr::Rule(1)));
            assert!(matches!(*b, Expr::Rule(2)));
        }
        _ => panic!("expected a merged validation"),
    }
    let validated = Type::Validated(Validated {
        typ: Box::new(basic(Basic::Number)),
        expr: Expr::Rule(1),
    });
    match validated.union_merge(&Type::Validation(Expr::Rule(2))) {
        Some(Type::Validated(v)) => {
            assert!(matches!(*v.typ, Type::Basic(Basic::Number)));
            assert!(matches!(v.expr, Expr::Or(_, _)));
        }
        _ => panic!("expected a validated type"),
    }
}

#[test]
fn union_idempotence() {
    let t = iface(vec![field("a", basic(Basic::Number))]);
    let r = simplify_union(vec![t.duplicate(), t.duplicate()]);
    assert!(r.identical(&t));
}

#[test]
fn never_elimination() {
    let r = simplify_union(vec![basic(Basic::Never), basic(Basic::String)]);
    assert!(matches!(r, Type::Basic(Basic::String)));
    let r = simplify_union(vec![basic(Basic::Never)]);
    assert!(matches!(r, Type::Basic(Basic::Never)));
    let r = simplify_union(vec![]);
    assert!(matches!(r, Type::Basic(Basic::Never)));
}

#[test]
fn simplify_union_keeps_distinct_members() {
    let r = simplify_union(vec![basic(Basic::String), basic(Basic::Number), lit_str("a")]);
    match r {
        Type::Union(u) => {
            assert_eq!(u.types.len(), 2);
            assert!(matches!(u.types[0], Type::Basic(Basic::String)));
            assert!(matches!(u.types[1], Type::Basic(Basic::Number)));
        }
        _ => panic!("expected a union"),
    }
}

#[test]
fn intersect_absorption() {
    let ctx = ResolveState::new();
    let mut notes = Vec::new();
    let t = iface(vec![field("a", basic(Basic::Number))]);
    let r = intersect(&ctx, &t, &basic(Basic::Unknown), &mut notes);
    assert!(r.identical(&t));
    let r = intersect(&ctx, &t, &basic(Basic::Never), &mut notes);
    assert!(matches!(r, Type::Basic(Basic::Never)));
    let r = intersect(&ctx, &t, &basic(Basic::Any), &mut notes);
    assert!(matches!(r, Type::Basic(Basic::Any)));
    assert!(notes.is_empty());
}

#[test]
fn intersect_interfaces_fieldwise() {
    let ctx = ResolveState::new();
    let mut notes = Vec::new();
    let a = iface(vec![field("a", basic(Basic::Number))]);
    let b = iface(vec![field("a", basic(Basic::String))]);
    let r = intersect(&ctx, &a, &b, &mut notes);
    let want = iface(vec![field("a", basic(Basic::Never))]);
    assert!(r.identical(&want));
}

#[test]
fn intersect_interfaces_adds_fields() {
    let ctx = ResolveState::new();
    let mut notes = Vec::new();
    let a = iface(vec![field("a", basic(Basic::Number))]);
    let b = iface(vec![field("b", basic(Basic::String))]);
    match intersect(&ctx, &a, &b, &mut notes) {
        Type::Interface(i) => {
            assert_eq!(i.fields.len(), 2);
            assert!(i.fields[0].name.eq_str("a"));
            assert!(i.fields[1].name.eq_str("b"));
        }
        _ => panic!("expected an interface"),
    }
}

#[test]
fn intersect_call_signatures_leave_a_note() {
    let ctx = ResolveState::new();
    let mut notes = Vec::new();
    let a = Type::Interface(Interface { fields: vec![], index: None, call: Some((vec![], vec![])) });
    let b = Type::Interface(Interface { fields: vec![], index: None, call: Some((vec![], vec![])) });
    match intersect(&ctx, &a, &b, &mut notes) {
        Type::Interface(i) => assert!(i.call.is_none()),
        _ => panic!("expected an interface"),
    }
    assert_eq!(notes, vec![CALL_NOTE.to_string()]);
}

#[test]
fn intersect_literal_and_basic() {
    let ctx = ResolveState::new();
    let mut notes = Vec::new();
    let r = intersect(&ctx, &lit_str("a"), &basic(Basic::String), &mut notes);
    assert!(r.identical(&lit_str("a")));
    let r = intersect(&ctx, &lit_str("a"), &basic(Basic::Number), &mut notes);
    assert!(matches!(r, Type::Basic(Basic::Never)));
    let r = intersect(&ctx, &basic(Basic::String), &basic(Basic::Number), &mut notes);
    assert!(matches!(r, Type::Basic(Basic::Never)));
}

#[test]
fn intersect_distributes_over_unions() {
    let ctx = ResolveState::new();
    let mut notes = Vec::new();
    let u = union(vec![basic(Basic::String), basic(Basic::Number)]);
    let r = intersect(&ctx, &u, &basic(Basic::String), &mut notes);
    assert!(matches!(r, Type::Basic(Basic::String)));
}

#[test]
fn intersect_generic_is_deferred() {
    let ctx = ResolveState::new();
    let mut notes = Vec::new();
    let r = intersect(&ctx, &type_param(0), &basic(Basic::String), &mut notes);
    assert!(matches!(r, Type::Generic(Generic::Intersection(_))));
}

#[test]
fn intersect_expands_named_types() {
    let mut ctx = ResolveState::new();
    let obj = ObjectRef { id: 7, module_id: 1 };
    ctx.add(Named::new(obj, vec![]), basic(Basic::String));
    let mut notes = Vec::new();
    let named = Type::Named(Named::new(obj, vec![]));
    let r = intersect(&ctx, &named, &basic(Basic::String), &mut notes);
    assert!(matches!(r, Type::Basic(Basic::String)));
}

#[test]
fn width_subtyping() {
    let ctx = ResolveState::new();
    let wide = iface(vec![field("a", basic(Basic::Number)), field("b", basic(Basic::String))]);
    let narrow = iface(vec![field("a", basic(Basic::Number))]);
    assert_eq!(wide.assignable(&ctx, &narrow), Some(true));
    assert_eq!(narrow.assignable(&ctx, &wide), Some(false));
}

#[test]
fn enum_to_interface_assignability() {
    let ctx = ResolveState::new();
    let e = Type::Enum(EnumType {
        members: vec![
            EnumMember { name: "X".to_string(), value: EnumValue::String("x".to_string()) },
            EnumMember { name: "Y".to_string(), value: EnumValue::String("y".to_string()) },
        ],
    });
    let good = iface(vec![field("X", lit_str("x"))]);
    let bad = iface(vec![field("X", lit_str("z"))]);
    assert_eq!(e.assignable(&ctx, &good), Some(true));
    assert_eq!(e.assignable(&ctx, &bad), Some(false));
}

#[test]
fn indeterminate_propagation() {
    let ctx = ResolveState::new();
    let a = iface(vec![field("a", type_param(0)), field("b", basic(Basic::String))]);
    let b = iface(vec![field("a", basic(Basic::Number)), field("b", basic(Basic::String))]);
    assert_eq!(a.assignable(&ctx, &b), None);
}

#[test]
fn undefined_is_assignable_to_optional() {
    let ctx = ResolveState::new();
    let opt = Type::Optional(Optional(Box::new(basic(Basic::Number))));
    assert_eq!(basic(Basic::Undefined).assignable(&ctx, &opt), Some(true));
    assert!(matches!(basic(Basic::Undefined).extends(&ctx, &opt), Extends::Yes(b) if b.is_empty()));
}

#[test]
fn assignable_absorbing_targets() {
    let ctx = ResolveState::new();
    assert_eq!(basic(Basic::String).assignable(&ctx, &basic(Basic::Any)), Some(true));
    assert_eq!(basic(Basic::String).assignable(&ctx, &basic(Basic::Never)), Some(false));
    assert_eq!(lit_str("a").assignable(&ctx, &basic(Basic::String)), Some(true));
}

#[test]
fn assignable_to_union() {
    let ctx = ResolveState::new();
    let u = union(vec![basic(Basic::String), basic(Basic::Number)]);
    assert_eq!(basic(Basic::Number).assignable(&ctx, &u), Some(true));
    assert_eq!(basic(Basic::Boolean).assignable(&ctx, &u), Some(false));
    let both = union(vec![basic(Basic::Number), basic(Basic::String)]);
    assert_eq!(both.assignable(&ctx, &u), Some(true));
}

#[test]
fn tuple_assignability() {
    let ctx = ResolveState::new();
    let t = Type::Tuple(Tuple { types: vec![basic(Basic::Number), basic(Basic::String)] });
    let short = Type::Tuple(Tuple { types: vec![basic(Basic::Number)] });
    assert_eq!(t.assignable(&ctx, &short), Some(false));
    let arr = Type::Array(Array(Box::new(basic(Basic::Number))));
    assert_eq!(t.assignable(&ctx, &arr), Some(false));
}

#[test]
fn tuple_array_extension_inference() {
    let ctx = ResolveState::new();
    let t = Type::Tuple(Tuple { types: vec![basic(Basic::Number), basic(Basic::String)] });
    let target = Type::Array(Array(Box::new(Type::Generic(Generic::Inferred(Inferred(0))))));
    match t.extends(&ctx, &target) {
        Extends::Yes(bindings) => {
            assert_eq!(bindings.len(), 1);
            assert_eq!(bindings[0].0, 0);
            let want = union(vec![basic(Basic::Number), basic(Basic::String)]);
            assert!(bindings[0].1.identical(&want));
        }
        _ => panic!("expected yes"),
    }
}

#[test]
fn optional_string_does_not_extend_undefined() {
    let ctx = ResolveState::new();
    let opt = Type::Optional(Optional(Box::new(basic(Basic::String))));
    assert!(matches!(opt.extends(&ctx, &basic(Basic::Undefined)), Extends::No));
}

#[test]
fn extension_with_generic_is_unknown() {
    let ctx = ResolveState::new();
    assert!(matches!(type_param(0).extends(&ctx, &basic(Basic::String)), Extends::Unknown));
}

#[test]
fn enum_value_to_literal() {
    let l = EnumValue::Number(3).to_literal();
    assert!(matches!(l, Literal::Number(NumberLit { mantissa: 3, exponent: 0 })));
    assert!(matches!(EnumValue::String("q".to_string()).to_type(), Type::Literal(Literal::String(s)) if s == "q"));
}

#[test]
fn void_check() {
    assert!(basic(Basic::Void).is_void());
    assert!(!basic(Basic::Null).is_void());
}

#[test]
fn iter_unions_flattens() {
    let t = union(vec![
        basic(Basic::String),
        Type::Optional(Optional(Box::new(basic(Basic::Number)))),
    ]);
    let parts = t.iter_unions();
    assert_eq!(parts.len(), 3);
    assert!(matches!(parts[2], Type::Basic(Basic::Undefined)));
}

#[test]
fn strip_line_and_block_comments() {
    let input = "{\n  // comment\n  \"a\": 1, /* inner */ \"b\": \"x//y\"\n}";
    let out = strip_jsonc_comments(input, false);
    assert_eq!(out, "{\n\n  \"a\": 1,  \"b\": \"x//y\"\n}\n");
}

#[test]
fn strip_preserving_locations() {
    let out = strip_jsonc_comments("a/*b*/c", true);
    assert_eq!(out, "a      c\n");
}

#[test]
fn path_val_parsing() {
    match PathVal::from_string("@app/*.ts".to_string()) {
        PathVal::Wildcard { prefix, suffix } => {
            assert_eq!(prefix, "@app/");
            assert_eq!(suffix, ".ts");
        }
        _ => panic!("expected a wildcard"),
    }
    let exact = PathVal::from("lib".to_string());
    assert!(matches!(&exact, PathVal::Exact(s) if s == "lib"));
    assert_eq!(exact.prefix_len(), 3);
}

#[test]
fn resolver_orders_and_maps() {
    let r = TsConfigPathResolver::from_config(
        "/proj",
        None,
        vec![
            ("@a/*".to_string(), vec!["src/a/*".to_string()]),
            ("@a/long/*".to_string(), vec!["src/long/*".to_string(), "fixed".to_string()]),
        ],
    );
    assert_eq!(r.base(), "/proj");
    let c = r.resolve_candidates("@a/long/x");
    assert_eq!(c, vec!["src/long/x".to_string(), "fixed".to_string(), "src/a/long/x".to_string()]);
}

#[test]
fn schedule_rules() {
    assert!(matches!(parse_schedule(Some(120), None), Ok(CronJobSchedule::Every(2))));
    assert_eq!(parse_schedule(Some(90), None).err(), Some(ScheduleError::NotWholeMinutes));
    assert_eq!(parse_schedule(Some(60 * 60 * 25), None).err(), Some(ScheduleError::LongerThanDay));
    assert!(matches!(parse_schedule(Some(60 * 60 * 24), None), Ok(CronJobSchedule::Every(1440))));
    assert_eq!(parse_schedule(None, None).err(), Some(ScheduleError::Missing));
    let e = CronExpr("* * * * *".to_string());
    assert_eq!(parse_schedule(Some(60), Some(e.clone())).err(), Some(ScheduleError::Both));
    assert!(matches!(parse_schedule(None, Some(e)), Ok(CronJobSchedule::Cron(c)) if c.0 == "* * * * *"));
}

#[test]
fn cron_expressions_are_checked() {
    assert!(CronExpr::parse("*/5 * * * *").is_ok());
    assert!(CronExpr::parse("not a cron").is_err());
}

#[test]
fn file_candidates_by_extension() {
    assert_eq!(file_candidates(Some("js")), vec!["js.ts", "js.tsx", "js.d.ts", "js.js", "js.jsx"]);
    assert_eq!(file_candidates(Some("mjs")), vec!["mjs.mts", "mjs.d.mts", "mjs.mjs"]);
    let none = file_candidates(None);
    assert_eq!(none.len(), 12);
    assert_eq!(none[0], "ts");
    assert_eq!(none[11], "");
    let other = file_candidates(Some("json"));
    assert_eq!(other[0], "json.ts");
    assert_eq!(other[11], "");
}

#[test]
fn inference_groups_slots_in_order() {
    let ctx = ResolveState::new();
    let pair = |a: Basic, b: Basic| Type::Tuple(Tuple { types: vec![basic(a), basic(b)] });
    let source = Type::Tuple(Tuple {
        types: vec![pair(Basic::Number, Basic::String), pair(Basic::Boolean, Basic::Number)],
    });
    let slots = Type::Tuple(Tuple {
        types: vec![
            Type::Generic(Generic::Inferred(Inferred(1))),
            Type::Generic(Generic::Inferred(Inferred(0))),
        ],
    });
    let target = Type::Array(Array(Box::new(slots)));
    match source.extends(&ctx, &target) {
        Extends::Yes(bindings) => {
            assert_eq!(bindings.len(), 2);
            assert_eq!(bindings[0].0, 0);
            assert!(bindings[0].1.identical(&union(vec![basic(Basic::String), basic(Basic::Number)])));
            assert_eq!(bindings[1].0, 1);
            assert!(bindings[1].1.identical(&union(vec![basic(Basic::Number), basic(Basic::Boolean)])));
        }
        _ => panic!("expected yes"),
    }
}

#[test]
fn resolver_joins_base_url() {
    let r = TsConfigPathResolver::from_config("/proj", Some("src".to_string()), vec![]);
    assert_eq!(r.base(), "/proj/src");
}

#[test]
fn unwrap_validated_strips_one_layer() {
    let v = Type::Validated(Validated { typ: Box::new(basic(Basic::Number)), expr: Expr::Rule(3) });
    let (t, e) = typealgebra::identity::unwrap_validated(&v);
    assert!(matches!(t, Type::Basic(Basic::Number)));
    assert!(matches!(e, Some(Expr::Rule(3))));
    let plain = basic(Basic::String);
    let (t, e) = typealgebra::identity::unwrap_validated(&plain);
    assert!(matches!(t, Type::Basic(Basic::String)));
    assert!(e.is_none());
}

#[test]
fn field_identity() {
    let a = field("a", basic(Basic::Number));
    let b = field("a", basic(Basic::Number));
    let c = InterfaceField { name: FieldName::String("a".to_string()), optional: true, typ: basic(Basic::Number) };
    assert!(a.identical(&b));
    assert!(!a.identical(&c));
}

#[test]
fn named_types_compare_by_declaration() {
    let a = Named::new(ObjectRef { id: 1, module_id: 1 }, vec![basic(Basic::String)]);
    let b = Named::new(ObjectRef { id: 1, module_id: 2 }, vec![basic(Basic::String)]);
    let c = Named::new(ObjectRef { id: 2, module_id: 1 }, vec![basic(Basic::String)]);
    assert!(a.identical(&b));
    assert!(!a.identical(&c));
}

#[test]
fn intersect_interfaces_keep_field_order() {
    let ctx = ResolveState::new();
    let mut notes = Vec::new();
    let a = iface(vec![field("b", basic(Basic::Number)), field("a", basic(Basic::String))]);
    let b = iface(vec![field("c", basic(Basic::Boolean)), field("a", basic(Basic::String))]);
    match intersect(&ctx, &a, &b, &mut notes) {
        Type::Interface(i) => {
            assert_eq!(i.fields.len(), 3);
            assert!(i.fields[0].name.eq_str("b"));
            assert!(i.fields[1].name.eq_str("a"));
            assert!(matches!(i.fields[1].typ, Type::Basic(Basic::String)));
            assert!(i.fields[2].name.eq_str("c"));
        }
        _ => panic!("expected an interface"),
    }
}

#[test]
fn basic_names() {
    assert_eq!(Basic::BigInt.as_str(), "bigint");
    assert_eq!(Basic::Date.as_str(), "Date");
    assert_eq!(Basic::Never.as_str(), "never");
}

#[test]
fn identity_is_reflexive_on_every_kind() {
    let samples = vec![
        Type::Validation(Expr::Or(Box::new(Expr::Rule(1)), Box::new(Expr::Rule(2)))),
        Type::Validated(Validated { typ: Box::new(basic(Basic::Number)), expr: Expr::Rule(4) }),
        Type::Generic(Generic::Index(Index {
            source: Box::new(type_param(0)),
            index: Box::new(lit_str("k")),
        })),
        Type::Generic(Generic::Keyof(Keyof(Box::new(type_param(1))))),
        Type::Generic(Generic::Inferred(Inferred(2))),
        Type::Generic(Generic::MappedKeyType(MappedKeyType)),
        Type::Generic(Generic::Intersection(Intersection {
            x: Box::new(type_param(0)),
            y: Box::new(basic(Basic::String)),
        })),
        Type::Generic(Generic::Conditional(Conditional {
            check_type: Box::new(type_param(0)),
            extends_type: Box::new(basic(Basic::String)),
            true_type: Box::new(lit_str("y")),
            false_type: Box::new(lit_str("n")),
        })),
        Type::Class(ClassType { methods: vec!["run".to_string()] }),
    ];
    for t in &samples {
        assert!(t.identical(t));
    }
    assert!(!Type::Validation(Expr::Rule(1)).identical(&Type::Validation(Expr::Rule(2))));
    assert!(!Type::Generic(Generic::Inferred(Inferred(0)))
        .identical(&Type::Generic(Generic::Inferred(Inferred(1)))));
}

#[test]
fn union_idempotence_for_validated() {
    let t = Type::Validated(Validated { typ: Box::new(basic(Basic::Number)), expr: Expr::Rule(4) });
    let r = simplify_union(vec![t.duplicate(), t.duplicate()]);
    assert!(r.identical(&t));
}

#[test]
fn enum_identity_ignores_member_order() {
    let m = |n: &str, v: &str| EnumMember { name: n.to_string(), value: EnumValue::String(v.to_string()) };
    let a = EnumType { members: vec![m("X", "x"), m("Y", "y")] };
    let b = EnumType { members: vec![m("Y", "y"), m("X", "x")] };
    let c = EnumType { members: vec![m("X", "x"), m("X", "x")] };
    assert!(a.identical(&b));
    assert!(!a.identical(&c));
    assert!(Type::Enum(a).identical(&Type::Enum(b)));
}

#[test]
fn union_target_is_consulted_for_tuples_enums_interfaces() {
    let ctx = ResolveState::new();
    let empty = Type::Tuple(Tuple { types: vec![] });
    let u = union(vec![basic(Basic::String), Type::Tuple(Tuple { types: vec![] })]);
    assert_eq!(empty.assignable(&ctx, &u), Some(true));
    assert!(matches!(empty.extends(&ctx, &u), Extends::Yes(b) if b.is_empty()));
    let i = iface(vec![field("a", basic(Basic::Number))]);
    let ui = union(vec![basic(Basic::Null), iface(vec![field("a", basic(Basic::Number))])]);
    assert_eq!(i.assignable(&ctx, &ui), Some(true));
}

#[test]
fn enum_to_interface_needs_every_named_member() {
    let ctx = ResolveState::new();
    let e = Type::Enum(EnumType {
        members: vec![EnumMember { name: "X".to_string(), value: EnumValue::String("x".to_string()) }],
    });
    let other = iface(vec![field("Z", lit_str("x"))]);
    assert_eq!(e.assignable(&ctx, &other), Some(false));
}

#[test]
fn tuple_against_array_no_beats_unknown() {
    let ctx = ResolveState::new();
    let t = Type::Tuple(Tuple { types: vec![type_param(0), basic(Basic::String)] });
    let arr = Type::Array(Array(Box::new(basic(Basic::Number))));
    assert_eq!(t.assignable(&ctx, &arr), Some(false));
    assert!(matches!(t.extends(&ctx, &arr), Extends::No));
    let t2 = Type::Tuple(Tuple { types: vec![type_param(0), basic(Basic::Number)] });
    assert_eq!(t2.assignable(&ctx, &arr), None);
    assert!(matches!(t2.extends(&ctx, &arr), Extends::Unknown));
}

#[test]
fn intersect_interface_mismatches() {
    let ctx = ResolveState::new();
    let mut notes = Vec::new();
    let i = iface(vec![field("a", basic(Basic::Number))]);
    let r = intersect(&ctx, &i, &basic(Basic::String), &mut notes);
    assert!(matches!(r, Type::Basic(Basic::Never)));
    let c = Type::Class(ClassType { methods: vec![] });
    let r = intersect(&ctx, &i, &c, &mut notes);
    assert!(matches!(r, Type::Generic(Generic::Intersection(_))));
}

#[test]
fn one_call_signature_leaves_no_note() {
    let ctx = ResolveState::new();
    let mut notes = Vec::new();
    let a = Type::Interface(Interface { fields: vec![], index: None, call: Some((vec![], vec![])) });
    let b = Type::Interface(Interface { fields: vec![], index: None, call: None });
    match intersect(&ctx, &a, &b, &mut notes) {
        Type::Interface(i) => assert!(i.call.is_none()),
        _ => panic!("expected an interface"),
    }
    assert!(notes.is_empty());
}

#[test]
fn schedule_error_messages() {
    assert_eq!(ScheduleError::LongerThanDay.message(), "`every` must be at most 24 hours");
    assert_eq!(
        ScheduleError::Both.message(),
        "expected either `every` or `schedule` to be set, not both"
    );
}

#[test]
fn one_note_per_met_pair_with_call_signatures() {
    let ctx = ResolveState::new();
    let mut notes = Vec::new();
    let callable = |f: &str| Type::Interface(Interface {
        fields: vec![field(f, basic(Basic::Number))],
        index: None,
        call: Some((vec![], vec![])),
    });
    let u = union(vec![callable("a"), callable("b")]);
    let _ = intersect(&ctx, &u, &callable("c"), &mut notes);
    assert_eq!(notes.len(), 2);
    assert!(notes.iter().all(|n| n == CALL_NOTE));
}
