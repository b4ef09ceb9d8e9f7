use bevy_mod_scripting_derive::binops::{binary_op_supported, op_key_string};
use bevy_mod_scripting_derive::derive_flags::{
    auto_method_source, copy_supported, unary_source, GeneratedMethod,
};
use bevy_mod_scripting_derive::globals::globals_are_supported;
use bevy_mod_scripting_derive::model::{
    AutoMethod, BinaryOp, CopyInvocation, DeriveFlag, LuaMethod, MethodType, Newtype,
    NewtypeList, NewtypeVariation, OpName, Operand, Receiver, Reference, TypeModel, UnaryOp,
};
use bevy_mod_scripting_derive::unions::LuaImplementor;
use indexmap::IndexMap;

fn s(x: &str) -> String {
    x.to_string()
}

fn method_table(entries: Vec<(String, Vec<LuaMethod>)>) -> IndexMap<String, Vec<LuaMethod>> {
    entries.into_iter().collect()
}

fn plain(text: &str) -> TypeModel {
    TypeModel { text: s(text), reference: None, base: Some(s(text)) }
}

fn reference(text: &str, elem: &str, mutable: bool) -> TypeModel {
    TypeModel {
        text: s(text),
        reference: Some(Reference { mutable, elem: s(elem) }),
        base: Some(s(elem)),
    }
}

fn newtype(wrapper: &str, path: &str, first: &str, last: &str, variation: NewtypeVariation) -> Newtype {
    Newtype {
        wrapper_type: s(wrapper),
        base_type_ident: s(last),
        base_type: s(path),
        base_first_ident: s(first),
        base_last_segment: s(last),
        base_last_ident: s(last),
        base_type_key: s(&path.replace(' ', "")),
        variation,
        docstrings: vec![s("\"A vector\"")],
        additional_lua_functions: None,
    }
}

fn vec2() -> Newtype {
    newtype("LuaVec2", "bevy :: math :: Vec2", "bevy", "Vec2", NewtypeVariation::Value)
}

fn method(key: &str, is_static: bool, call: &str, test: Option<&str>) -> LuaMethod {
    LuaMethod {
        method_type: MethodType { is_static, is_mut: false, is_function: false, key: s(key) },
        call_expr: s(call),
        applied_closure: s(&format!("({})(r,c)", key)),
        test: test.map(s),
    }
}

fn op(meta: &str, symbol: &str) -> OpName {
    OpName { metamethod: s(meta), symbol: s(symbol) }
}

fn source(g: &GeneratedMethod) -> &str {
    match g {
        GeneratedMethod::Source(t) => t.as_str(),
        GeneratedMethod::Copied { .. } => panic!("expected source text"),
    }
}

#[test]
fn newtype_definition_by_variation() {
    let mut g = LuaImplementor::new();
    assert_eq!(
        g.generate_newtype_definition(&vec2()),
        "pub type LuaVec2 = crate::LuaWrapper<Vec2>;"
    );
    let r = newtype("LuaEntity", "bevy :: ecs :: Entity", "bevy", "Entity", NewtypeVariation::Ref);
    assert_eq!(
        g.generate_newtype_definition(&r),
        "pub type LuaEntity = crate::LuaWrapper<Entity>;"
    );
    let p = newtype("f32", "f32", "f32", "f32", NewtypeVariation::Primitive);
    assert_eq!(g.generate_newtype_definition(&p), "");
}

#[test]
fn newtype_implementation_registers_instance_methods() {
    let mut g = LuaImplementor::new();
    let fns = vec![
        method("\"len\"", false, "methods.add_method(\"len\", f);", None),
        method("\"new\"", true, "methods.add_function(\"new\", g);", None),
        method("\"abs\"", false, "methods.add_method(\"abs\", h);", None),
    ];
    assert_eq!(
        g.generate_newtype_implementation(&vec2(), &fns),
        "impl tealr::mlu::TealData for LuaVec2 { fn add_methods<'lua, T: tealr::mlu::TealDataMethods<'lua, Self>>(methods: &mut T) { methods.document_type(\"A vector\");methods.add_method(\"len\", f); methods.add_method(\"abs\", h); } } impl_tealr_type!(LuaVec2);"
    );
    let p = newtype("f32", "f32", "f32", "f32", NewtypeVariation::Primitive);
    assert_eq!(g.generate_newtype_implementation(&p, &fns), "");
}

#[test]
fn newtype_functions_are_the_extra_functions() {
    let mut g = LuaImplementor::new();
    let mut nt = vec2();
    assert!(g.generate_newtype_functions(&nt).is_empty());
    let extra = vec![method("\"new\"", true, "c1", None), method("\"x\"", false, "c2", None)];
    nt.additional_lua_functions = Some(extra.clone());
    assert_eq!(g.generate_newtype_functions(&nt), extra);
    nt.variation = NewtypeVariation::Primitive;
    assert!(g.generate_newtype_functions(&nt).is_empty());
}

#[test]
fn auto_method_by_shared_reference() {
    let m = AutoMethod {
        ident: s("length"),
        args: vec![],
        receiver: Some(Receiver { reference: true, mutable: false }),
        out: None,
        docstrings: vec![s("#[doc = \"len\"]")],
    };
    assert_eq!(
        auto_method_source(&vec2(), &m),
        "#[doc = \"len\"] \"length\" =>|_,s, ():()| Ok(LuaVec2::new(s.val(|s| s.length())))"
    );
}

#[test]
fn auto_method_static_clones_wrapper_arguments() {
    let m = AutoMethod {
        ident: s("new"),
        args: vec![plain("f32"), plain("LuaVec3")],
        receiver: None,
        out: Some(plain("f32")),
        docstrings: vec![],
    };
    assert_eq!(
        auto_method_source(&vec2(), &m),
        " static fn \"new\" =>|_, (a_0, a_1):(f32, LuaVec3)| Ok(Vec2::new(a_0, a_1.clone()))"
    );
}

#[test]
fn auto_method_borrows_reference_arguments() {
    let m = AutoMethod {
        ident: s("mul_assign"),
        args: vec![reference("& mut LuaVec2", "LuaVec2", true), reference("& f32", "f32", false)],
        receiver: Some(Receiver { reference: true, mutable: true }),
        out: Some(plain("LuaQuat")),
        docstrings: vec![],
    };
    assert_eq!(
        auto_method_source(&vec2(), &m),
        " mut \"mul_assign\" =>|_,s, (a_0, a_1):(LuaVec2, f32)| Ok(a_1.val(|a_1| a_0.val_mut(|a_0| LuaQuat::new(s.val_mut(|s| s.mul_assign(a_0, a_1))))))"
    );
}

#[test]
fn auto_method_by_value_receiver() {
    let m = AutoMethod {
        ident: s("normalize"),
        args: vec![],
        receiver: Some(Receiver { reference: false, mutable: false }),
        out: None,
        docstrings: vec![],
    };
    assert_eq!(
        auto_method_source(&vec2(), &m),
        " \"normalize\" =>|_,s, ():()| Ok(LuaVec2::new(s.clone().normalize()))"
    );
}

#[test]
fn unary_operator_metamethod() {
    let u = UnaryOp { op: op("Unm", "-"), reference: false, return_type: None };
    assert_eq!(
        unary_source(&vec2(), &u),
        "(mlua::MetaMethod::Unm) => |_,ud,()|{ return Ok(LuaVec2::new(-ud.clone())) }"
    );
    let u = UnaryOp { op: op("Unm", "-"), reference: true, return_type: Some(plain("f32")) };
    assert_eq!(
        unary_source(&vec2(), &u),
        "(mlua::MetaMethod::Unm) => |_,ud,()|{ return Ok(-(&ud.clone())) }"
    );
}

#[test]
fn to_string_flags() {
    let mut g = LuaImplementor::new();
    let out = g.generate_derive_flag_functions(
        &vec2(),
        &vec![DeriveFlag::DebugToString, DeriveFlag::DisplayToString],
        &IndexMap::new(),
    );
    assert_eq!(out.len(), 2);
    assert_eq!(
        source(&out[0]),
        "(mlua::MetaMethod::ToString) => |_,s,()| Ok(format!(\"{:?}\",s))"
    );
    assert_eq!(
        source(&out[1]),
        "(mlua::MetaMethod::ToString) => |_,s,()| Ok(format!(\"{}\",s))"
    );
    assert_eq!(g.additional_globals(), "");
}

#[test]
fn copy_flag_copies_matching_methods() {
    let entries = vec![
        (s("LuaVec2"), vec![method("\"x\"", false, "a", None)]),
        (
            s("LuaVec3"),
            vec![
                method("\"len\"", false, "m1", None),
                method("\"new\"", true, "m2", None),
                method("\"len\"", false, "m3", None),
            ],
        ),
    ];
    let inv = CopyInvocation {
        target: s("LuaVec3"),
        identifier: MethodType { is_static: false, is_mut: false, is_function: false, key: s("\"len\"") },
        args: vec![s("Vec3 -> Vec2")],
    };
    assert!(copy_supported(&method_table(entries.clone()), &inv));
    let mut g = LuaImplementor::new();
    let out = g.generate_derive_flag_functions(&vec2(), &vec![DeriveFlag::Copy(vec![inv])], &method_table(entries.clone()));
    assert_eq!(
        out,
        vec![
            GeneratedMethod::Copied { method: entries[1].1[0].clone(), args: vec![s("Vec3 -> Vec2")] },
            GeneratedMethod::Copied { method: entries[1].1[2].clone(), args: vec![s("Vec3 -> Vec2")] },
        ]
    );
}

#[test]
fn copy_requests_that_cannot_be_met_are_refused() {
    let entries = vec![(s("LuaVec3"), vec![method("\"len\"", false, "m1", None)])];
    let missing_target = CopyInvocation {
        target: s("LuaQuat"),
        identifier: MethodType { is_static: false, is_mut: false, is_function: false, key: s("\"len\"") },
        args: vec![],
    };
    let missing_method = CopyInvocation {
        target: s("LuaVec3"),
        identifier: MethodType { is_static: true, is_mut: false, is_function: false, key: s("\"len\"") },
        args: vec![],
    };
    assert!(!copy_supported(&method_table(entries.clone()), &missing_target));
    assert!(!copy_supported(&method_table(entries.clone()), &missing_method));
    assert!(!LuaImplementor::new().derive_flags_supported(&vec2(), &method_table(entries.clone()), &vec![DeriveFlag::Copy(vec![missing_method])]));
    assert!(LuaImplementor::new().derive_flags_supported(&vec2(), &method_table(entries.clone()), &vec![DeriveFlag::DebugToString]));
}

fn self_value() -> Operand {
    Operand::SelfValue { reference: false }
}

#[test]
fn binary_operators_dispatch_on_unions() {
    let add = BinaryOp {
        op: op("Add", "+"),
        lhs: self_value(),
        rhs: Operand::Typed(plain("LuaVec2")),
        return_type: None,
    };
    let mul_r = BinaryOp {
        op: op("Mul", "*"),
        lhs: self_value(),
        rhs: Operand::Typed(plain("f32")),
        return_type: None,
    };
    let mul_l = BinaryOp {
        op: op("Mul", "*"),
        lhs: Operand::Typed(plain("f32")),
        rhs: self_value(),
        return_type: None,
    };
    let flags = vec![DeriveFlag::BinOps(vec![add, mul_r, mul_l])];
    assert!(LuaImplementor::new().derive_flags_supported(&vec2(), &IndexMap::new(), &flags));
    let mut g = LuaImplementor::new();
    let out = g.generate_derive_flag_functions(&vec2(), &flags, &IndexMap::new());
    assert_eq!(out.len(), 2);
    let err_side = |meta: &str, side: &str| {
        format!(
            " _ => Err(tealr::mlu::mlua::Error::RuntimeError(format!(\"tried to `{{}}` `{{}}` with another argument on the `{{}}` side, but its type is not supported\", stringify!({}), stringify!(LuaVec2), \"{}\"))) }}",
            meta, side
        )
    };
    let rh = format!(
        "match v {{ UnionLuaVec2::LuaVec2(v) => Ok(UnionLuaVec2::LuaVec2(LuaVec2::new((ud.clone()) + v.clone()))),{}",
        err_side("Add", "right")
    );
    let lh = format!("match v {{ {}", err_side("Add", "left"));
    let expected_add = format!(
        "fn (mlua::MetaMethod::Add) => |ctx, (lhs,rhs) :(UnionLuaVec2,UnionLuaVec2)| {{ match (lhs,rhs) {{ (UnionLuaVec2::LuaVec2(ud),v) => {{{}}}, (v,UnionLuaVec2::LuaVec2(ud)) => {{{}}}, _ => Err(tealr::mlu::mlua::Error::RuntimeError(format!(\"tried to `{{}}` two arguments, none of which are of type `{{}}` \", stringify!(Add), stringify!(LuaVec2)))) }} }}",
        rh, lh
    );
    assert_eq!(source(&out[0]), expected_add);
    let mul = source(&out[1]);
    assert!(mul.starts_with(
        "fn (mlua::MetaMethod::Mul) => |ctx, (lhs,rhs) :(Unionf32LuaVec2,Unionf32LuaVec2)| { match (lhs,rhs) { (Unionf32LuaVec2::LuaVec2(ud),v) => {match v { Unionf32LuaVec2::f32(v) => Ok(UnionLuaVec2::LuaVec2(LuaVec2::new((ud.clone()) * v))),"
    ));
    assert!(mul.contains(
        "(v,Unionf32LuaVec2::LuaVec2(ud)) => {match v { Unionf32LuaVec2::f32(v) => Ok(UnionLuaVec2::LuaVec2(LuaVec2::new(v * (ud.clone())))),"
    ));
    assert_eq!(
        g.additional_globals(),
        "create_union_mlua!(pub enum UnionLuaVec2 = LuaVec2);\ncreate_union_mlua!(pub enum Unionf32LuaVec2 = f32 | LuaVec2);\n"
    );
}

#[test]
fn binary_operator_with_borrowed_operands_and_plain_result() {
    let dot = BinaryOp {
        op: op("Mul", "*"),
        lhs: Operand::SelfValue { reference: true },
        rhs: Operand::Typed(reference("& LuaVec2", "LuaVec2", false)),
        return_type: Some(plain("f32")),
    };
    let mut g = LuaImplementor::new();
    let out = g.generate_derive_flag_functions(&vec2(), &vec![DeriveFlag::BinOps(vec![dot])], &IndexMap::new());
    assert!(source(&out[0]).contains(
        "UnionLuaVec2::LuaVec2(v) => Ok(Unionf32::f32(&ud.clone() * (&v.clone()))),"
    ));
    assert!(source(&out[0]).contains("(v,UnionLuaVec2::LuaVec2(ud)) =>"));
}

#[test]
fn operators_without_a_typed_side_are_refused() {
    let bad = BinaryOp { op: op("Add", "+"), lhs: self_value(), rhs: self_value(), return_type: None };
    assert!(!binary_op_supported(&bad));
    let untyped_result = BinaryOp {
        op: op("Add", "+"),
        lhs: self_value(),
        rhs: Operand::Typed(plain("f32")),
        return_type: Some(TypeModel { text: s("[f32; 2]"), reference: None, base: None }),
    };
    assert!(!binary_op_supported(&untyped_result));
    assert!(!LuaImplementor::new().derive_flags_supported(&vec2(), &IndexMap::new(), &vec![DeriveFlag::BinOps(vec![bad])]));
}

fn globals_input() -> (NewtypeList, Vec<(String, Vec<LuaMethod>)>) {
    let mut prim = newtype("f32", "f32", "f32", "f32", NewtypeVariation::Primitive);
    prim.additional_lua_functions = Some(vec![
        method("\"from\"", true, "f1", None),
        method("\"to\"", true, "f2", None),
    ]);
    let entity = newtype("LuaEntity", "bevy :: ecs :: Entity", "bevy", "Entity", NewtypeVariation::Ref);
    let list = NewtypeList { new_types: vec![vec2(), prim, entity], additional_types: vec![s("MyType")] };
    let all = vec![
        (
            s("LuaVec2"),
            vec![
                method("\"new\"", true, "methods.add_function(\"new\", n);", Some("#[test] fn t1(){}")),
                method("\"len\"", false, "methods.add_method(\"len\", l);", None),
            ],
        ),
        (s("LuaEntity"), vec![method("\"id\"", false, "methods.add_method(\"id\", i);", Some("#[test] fn t2(){}"))]),
    ];
    (list, all)
}

#[test]
fn globals_hold_tables_provider_tests_and_unions() {
    let (list, all) = globals_input();
    assert!(globals_are_supported(&list, &method_table(all.clone())));
    let mut g = LuaImplementor::new();
    g.generate_register_union(&vec![s("f32")]);
    let text = g.generate_globals(&list, method_table(all));
    assert!(text.starts_with("use bevy :: math :: Vec2; use bevy :: ecs :: Entity; struct BevyAPIGlobals;"));
    assert!(text.contains("instance_collector.document_instance(concat!(\"Global methods for \", stringify!(Vec2))); instance_collector.add_instance(stringify!(Vec2).into(), |_| Ok(LuaVec2Globals))?; Ok(()) } } struct LuaVec2Globals; impl tealr::mlu::TealData for LuaVec2Globals { fn add_methods<'lua,T: tealr::mlu::TealDataMethods<'lua,Self>>(methods: &mut T) { methods.document_type(concat!(\"Global methods for \", \"Vec2\")); methods.add_function(\"new\", n); } } impl_tealr_type!(LuaVec2Globals); #[derive(Default)]"));
    assert!(text.contains("tw.document_global_instance::<BevyAPIGlobals>().unwrap().process_type::<LuaVec2>().process_type::<LuaEntity>().process_type::<LuaVec2Globals>().process_type::<MyType>() ) ) } }"));
    assert!(text.contains("phf_map!{ \"bevy::math::Vec2\" => |r,c| { let usr = c.create_userdata(LuaVec2::base_to_self(r)).unwrap(); Value::UserData(usr) }, \"f32\" => (\"to\")(r,c), };"));
    assert!(text.contains("phf_map!{ \"bevy::math::Vec2\" => |r,c,n| { if let Value::UserData(v) = n { let mut v = v.borrow_mut::<LuaVec2>()?; LuaVec2::apply_self_to_base(v.deref_mut(),r); Ok(()) } else { Err(Error::RuntimeError(\"Invalid type\".to_owned())) } }, \"f32\" => (\"from\")(r,c), };"));
    assert!(text.contains("#[cfg(test)] mod gen_test { use bevy::prelude::*; use bevy::math::*; use bevy :: math :: Vec2; use bevy :: ecs :: Entity; #[test] pub fn test_wrapper_keys(){ assert_eq!(std::any::type_name::<Vec2>(),\"bevy::math::Vec2\"); assert_eq!(std::any::type_name::<f32>(),\"f32\"); assert_eq!(std::any::type_name::<Entity>(),\"bevy::ecs::Entity\"); } #[test] fn t1(){} #[test] fn t2(){} }"));
    assert!(text.ends_with(" create_union_mlua!(pub enum Unionf32 = f32);\n"));
}

#[test]
fn globals_need_conversions_and_byte_boundaries() {
    let (mut list, all) = globals_input();
    list.new_types[1].additional_lua_functions = Some(vec![method("\"from\"", true, "f1", None)]);
    assert!(!globals_are_supported(&list, &method_table(all.clone())));
    let (list, mut all) = globals_input();
    all[0].0 = s("ab\u{e9}");
    assert!(!globals_are_supported(&list, &method_table(all.clone())));
    all[0].0 = s("a\u{e9}x");
    assert!(globals_are_supported(&list, &method_table(all.clone())));
}

#[test]
fn global_table_key_keeps_names_without_lua_prefix() {
    let (list, mut all) = globals_input();
    all[0].0 = s("MyVec");
    let mut g = LuaImplementor::new();
    let text = g.generate_globals(&list, method_table(all));
    assert!(text.contains("stringify!(MyVec).into(), |_| Ok(MyVecGlobals))?;"));
    assert!(text.contains("methods.document_type(concat!(\"Global methods for \", \"ec\"));"));
}

#[test]
fn many_arguments_get_distinct_names() {
    let m = AutoMethod {
        ident: s("f"),
        args: (0..12).map(|_| plain("u8")).collect(),
        receiver: None,
        out: Some(plain("u8")),
        docstrings: vec![],
    };
    let text = auto_method_source(&vec2(), &m);
    assert!(text.contains(
        "(a_0, a_1, a_2, a_3, a_4, a_5, a_6, a_7, a_8, a_9, a_10, a_11):(u8, u8, u8, u8, u8, u8, u8, u8, u8, u8, u8, u8)"
    ));
    assert!(text.ends_with("Ok(Vec2::f(a_0, a_1, a_2, a_3, a_4, a_5, a_6, a_7, a_8, a_9, a_10, a_11))"));
}

#[test]
fn flags_yield_methods_in_flag_order() {
    let auto = |name: &str| AutoMethod {
        ident: s(name),
        args: vec![],
        receiver: Some(Receiver { reference: true, mutable: false }),
        out: Some(plain("f32")),
        docstrings: vec![],
    };
    let flags = vec![
        DeriveFlag::AutoMethods(vec![auto("x"), auto("y"), auto("z")]),
        DeriveFlag::UnaryOps(vec![UnaryOp { op: op("Unm", "-"), reference: false, return_type: None }]),
        DeriveFlag::DisplayToString,
    ];
    let mut g = LuaImplementor::new();
    let out = g.generate_derive_flag_functions(&vec2(), &flags, &IndexMap::new());
    assert_eq!(out.len(), 5);
    assert_eq!(source(&out[0]), " \"x\" =>|_,s, ():()| Ok(s.val(|s| s.x()))");
    assert_eq!(source(&out[2]), " \"z\" =>|_,s, ():()| Ok(s.val(|s| s.z()))");
    assert!(source(&out[3]).starts_with("(mlua::MetaMethod::Unm)"));
    assert!(source(&out[4]).contains("format!(\"{}\",s)"));
    assert_eq!(g.additional_globals(), "");
}

#[test]
fn primitive_newtypes_generate_no_wrapper_items() {
    let mut g = LuaImplementor::new();
    let mut p = newtype("f32", "f32", "f32", "f32", NewtypeVariation::Primitive);
    p.additional_lua_functions = Some(vec![method("\"from\"", true, "c", None)]);
    assert_eq!(g.generate_newtype_definition(&p), "");
    assert_eq!(g.generate_newtype_implementation(&p, &vec![method("\"x\"", false, "c", None)]), "");
    assert!(g.generate_newtype_functions(&p).is_empty());
}

#[test]
fn operator_identifiers_must_be_identifiers() {
    let not_ident = BinaryOp {
        op: op("Add", "+"),
        lhs: self_value(),
        rhs: Operand::Typed(TypeModel { text: s("2D"), reference: None, base: Some(s("2D")) }),
        return_type: None,
    };
    let g = LuaImplementor::new();
    assert!(binary_op_supported(&not_ident));
    assert!(!g.derive_flags_supported(&vec2(), &IndexMap::new(), &vec![DeriveFlag::BinOps(vec![not_ident])]));
    let bad_result = UnaryOp {
        op: op("Unm", "-"),
        reference: false,
        return_type: Some(TypeModel { text: s("x"), reference: None, base: Some(s("")) }),
    };
    assert!(!g.derive_flags_supported(&vec2(), &IndexMap::new(), &vec![DeriveFlag::UnaryOps(vec![bad_result])]));
    let good = UnaryOp { op: op("Unm", "-"), reference: false, return_type: None };
    assert!(g.derive_flags_supported(&vec2(), &IndexMap::new(), &vec![DeriveFlag::UnaryOps(vec![good])]));
}

#[test]
fn flags_in_two_calls_equal_one_call() {
    let add = || BinaryOp {
        op: op("Add", "+"),
        lhs: self_value(),
        rhs: Operand::Typed(plain("f32")),
        return_type: None,
    };
    let f1 = vec![DeriveFlag::BinOps(vec![add()]), DeriveFlag::DebugToString];
    let f2 = vec![DeriveFlag::BinOps(vec![add()])];
    let mut split = LuaImplementor::new();
    let mut a = split.generate_derive_flag_functions(&vec2(), &f1, &IndexMap::new());
    a.extend(split.generate_derive_flag_functions(&vec2(), &f2, &IndexMap::new()));
    let mut whole = LuaImplementor::new();
    let mut both = f1.clone();
    both.extend(f2.clone());
    let b = whole.generate_derive_flag_functions(&vec2(), &both, &IndexMap::new());
    assert_eq!(a, b);
    assert_eq!(split.additional_globals(), whole.additional_globals());
    assert_eq!(split.generate_derive_flag_functions(&vec2(), &vec![], &IndexMap::new()), vec![]);
}

#[test]
fn global_tables_need_identifiers() {
    let (list, mut all) = globals_input();
    all[0].0 = s("Lua");
    assert!(!globals_are_supported(&list, &method_table(all.clone())));
    all[0].0 = s("Lua2D");
    assert!(!globals_are_supported(&list, &method_table(all.clone())));
    all[0].0 = s("Lua_2D");
    assert!(globals_are_supported(&list, &method_table(all.clone())));
}

#[test]
fn operators_are_grouped_by_operator() {
    let with = |symbol: &str, ty: &str| BinaryOp {
        op: op("Add", symbol),
        lhs: self_value(),
        rhs: Operand::Typed(plain(ty)),
        return_type: None,
    };
    let flags = vec![DeriveFlag::BinOps(vec![with("+", "f32"), with("-", "f32"), with("+", "u8")])];
    let mut g = LuaImplementor::new();
    let out = g.generate_derive_flag_functions(&vec2(), &flags, &IndexMap::new());
    assert_eq!(out.len(), 2);
    let first = source(&out[0]);
    assert!(first.starts_with("fn (mlua::MetaMethod::Add) => |ctx, (lhs,rhs) :(UnionLuaVec2,Unionf32u8)|"));
    assert!(first.contains("Unionf32u8::f32(v) => Ok(UnionLuaVec2::LuaVec2(LuaVec2::new((ud.clone()) + v))),"));
    assert!(first.contains("Unionf32u8::u8(v) => Ok(UnionLuaVec2::LuaVec2(LuaVec2::new((ud.clone()) + v))),"));
    assert!(!first.contains(" - v"));
    let second = source(&out[1]);
    assert!(second.starts_with("fn (mlua::MetaMethod::Add) => |ctx, (lhs,rhs) :(UnionLuaVec2,Unionf32)|"));
    assert!(second.contains("Unionf32::f32(v) => Ok(UnionLuaVec2::LuaVec2(LuaVec2::new((ud.clone()) - v))),"));
    assert!(!second.contains(" + v"));
}

#[test]
fn derive_flags_are_generated_only_when_supported() {
    let not_ident = BinaryOp {
        op: op("Add", "+"),
        lhs: self_value(),
        rhs: Operand::Typed(TypeModel { text: s("2D"), reference: None, base: Some(s("2D")) }),
        return_type: None,
    };
    let mut g = LuaImplementor::new();
    g.generate_register_union(&vec![s("f32")]);
    let before = g.additional_globals().to_string();
    assert_eq!(g.try_generate_derive_flag_functions(&vec2(), &vec![DeriveFlag::BinOps(vec![not_ident])], &IndexMap::new()), None);
    assert_eq!(g.additional_globals(), before);
    let add = BinaryOp {
        op: op("Add", "+"),
        lhs: self_value(),
        rhs: Operand::Typed(plain("f32")),
        return_type: None,
    };
    let flags = vec![DeriveFlag::BinOps(vec![add]), DeriveFlag::DebugToString];
    let mut reference_generator = LuaImplementor::new();
    reference_generator.generate_register_union(&vec![s("f32")]);
    let expected = reference_generator.generate_derive_flag_functions(&vec2(), &flags, &IndexMap::new());
    let got = g.try_generate_derive_flag_functions(&vec2(), &flags, &IndexMap::new());
    assert_eq!(got, Some(expected));
    assert_eq!(g.additional_globals(), reference_generator.additional_globals());
}

#[test]
fn globals_are_generated_only_when_supported() {
    let (list, mut all) = globals_input();
    let mut g = LuaImplementor::new();
    let expected = g.generate_globals(&list, method_table(all.clone()));
    assert_eq!(g.try_generate_globals(&list, method_table(all.clone())), Some(expected));
    all[0].0 = s("Lua2D");
    assert_eq!(g.try_generate_globals(&list, method_table(all)), None);
}

#[test]
fn operator_keys_tell_operators_apart() {
    assert_eq!(op_key_string(&op("Add", "+")), "3:Add+");
    assert_eq!(op_key_string(&op("Add", "+")), op_key_string(&op("Add", "+")));
    assert_ne!(op_key_string(&op("Add", "+")), op_key_string(&op("Ad", "d+")));
    assert_ne!(op_key_string(&op("Add", "+")), op_key_string(&op("Add", "-")));
    assert_ne!(op_key_string(&op("Sub", "-")), op_key_string(&op("Unm", "-")));
}
