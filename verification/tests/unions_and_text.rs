use bevy_mod_scripting_derive::text::{
    after_three_bytes, decimal_string, find_text, has_lua_prefix, join_strings, literal_of,
    white_space, without_white_space,
};
use bevy_mod_scripting_derive::idents::{ident_text_ok, identifier};
use bevy_mod_scripting_derive::tokens::into_tokens;
use bevy_mod_scripting_derive::unions::{unique_names, LuaImplementor};

fn strings(v: &[&str]) -> Vec<String> {
    v.iter().map(|s| s.to_string()).collect()
}

#[test]
fn union_name_joins_unique_members_in_order() {
    let mut g = LuaImplementor::new();
    let name = g.generate_register_union(&strings(&["LuaVec2", "f32", "LuaVec2", "u8", "f32"]));
    assert_eq!(name, "UnionLuaVec2f32u8");
    assert_eq!(
        g.additional_globals(),
        "create_union_mlua!(pub enum UnionLuaVec2f32u8 = LuaVec2 | f32 | u8);\n"
    );
}

#[test]
fn registering_twice_declares_once() {
    let mut g = LuaImplementor::new();
    let a = g.generate_register_union(&strings(&["f32", "LuaVec2"]));
    let after_first = g.additional_globals().to_string();
    let b = g.generate_register_union(&strings(&["f32", "LuaVec2"]));
    assert_eq!(a, b);
    assert_eq!(g.additional_globals(), after_first);
}

#[test]
fn repeated_members_name_the_same_union() {
    let mut g = LuaImplementor::new();
    let a = g.generate_register_union(&strings(&["f32", "f32", "LuaVec2"]));
    let b = g.generate_register_union(&strings(&["f32", "LuaVec2", "LuaVec2"]));
    assert_eq!(a, "Unionf32LuaVec2");
    assert_eq!(a, b);
    assert_eq!(
        g.additional_globals(),
        "create_union_mlua!(pub enum Unionf32LuaVec2 = f32 | LuaVec2);\n"
    );
}

#[test]
fn different_unions_are_declared_in_order() {
    let mut g = LuaImplementor::new();
    g.generate_register_union(&strings(&["u8"]));
    g.generate_register_union(&strings(&["u16", "u8"]));
    g.generate_register_union(&strings(&["u8"]));
    assert_eq!(
        g.additional_globals(),
        "create_union_mlua!(pub enum Unionu8 = u8);\ncreate_union_mlua!(pub enum Unionu16u8 = u16 | u8);\n"
    );
}

#[test]
fn empty_union_has_bare_name() {
    let mut g = LuaImplementor::new();
    assert!(g.register_supported(&Vec::new()));
    let name = g.generate_register_union(&Vec::new());
    assert_eq!(name, "Union");
    assert_eq!(g.additional_globals(), "create_union_mlua!(pub enum Union = );\n");
}

#[test]
fn union_members_must_be_identifiers() {
    let mut g = LuaImplementor::new();
    assert!(!g.register_supported(&strings(&["2D"])));
    assert!(!g.register_supported(&strings(&["a b"])));
    assert!(!g.register_supported(&strings(&["a", ""])));
    assert!(g.register_supported(&strings(&["a"])));
    g.generate_register_union(&strings(&["a"]));
    assert!(g.register_supported(&strings(&["a", ""])));
    assert_eq!(g.generate_register_union(&strings(&["a", ""])), "Uniona");
    assert_eq!(g.additional_globals(), "create_union_mlua!(pub enum Uniona = a);\n");
}

#[test]
fn identifiers() {
    assert!(identifier("_"));
    assert!(identifier("a1"));
    assert!(identifier("\u{e9}t\u{e9}"));
    assert!(!identifier("1a"));
    assert!(!identifier(""));
    assert!(!identifier("a-b"));
    assert!(ident_text_ok("r#type"));
    assert!(!ident_text_ok("r#self"));
    assert!(!ident_text_ok("r#"));
}

#[test]
fn unique_names_keeps_first_occurrences() {
    assert_eq!(
        unique_names(&strings(&["b", "a", "b", "c", "a"])),
        strings(&["b", "a", "c"])
    );
    assert_eq!(unique_names(&Vec::new()), Vec::<String>::new());
}

#[test]
fn module_name_is_lua() {
    assert_eq!(LuaImplementor::module_name(), "lua");
}

#[test]
fn join_puts_separator_between_parts() {
    assert_eq!(join_strings(&strings(&["a", "b", "c"]), ", "), "a, b, c");
    assert_eq!(join_strings(&strings(&["a"]), ", "), "a");
    assert_eq!(join_strings(&Vec::new(), ", "), "");
}

#[test]
fn decimal_numerals() {
    assert_eq!(decimal_string(0), "0");
    assert_eq!(decimal_string(7), "7");
    assert_eq!(decimal_string(10), "10");
    assert_eq!(decimal_string(1203), "1203");
}

#[test]
fn literals_escape_quotes_and_backslashes() {
    assert_eq!(literal_of("Vec2"), "\"Vec2\"");
    assert_eq!(literal_of("a\"b\\c"), "\"a\\\"b\\\\c\"");
    assert_eq!(literal_of(""), "\"\"");
}

#[test]
fn white_space_is_removed() {
    assert_eq!(without_white_space("bevy :: math :: Vec2"), "bevy::math::Vec2");
    assert_eq!(without_white_space(" a\tb\nc\u{3000}d\u{a0}"), "abcd");
    assert!(white_space('\u{2028}'));
    assert!(!white_space('x'));
}

#[test]
fn lua_prefix_and_search() {
    assert!(has_lua_prefix("LuaVec2"));
    assert!(!has_lua_prefix("Lu"));
    assert!(!has_lua_prefix("luaVec2"));
    assert!(find_text("UnionLuaVec2f32", "LuaVec2"));
    assert!(!find_text("Unionf32", "LuaVec2"));
    assert!(find_text("abc", ""));
}

#[test]
fn three_bytes_are_skipped_on_a_boundary() {
    assert_eq!(after_three_bytes("LuaVec2"), "Vec2");
    assert_eq!(after_three_bytes("a\u{e9}b"), "b");
    assert_eq!(after_three_bytes("abc"), "");
}

#[test]
fn generated_text_lexes_into_tokens() {
    let mut g = LuaImplementor::new();
    g.generate_register_union(&strings(&["f32", "LuaVec2"]));
    let tokens = into_tokens(g.additional_globals());
    assert!(tokens.is_ok());
    assert!(tokens.unwrap().to_string().contains("create_union_mlua"));
    assert!(into_tokens("\"unterminated").is_err());
}
