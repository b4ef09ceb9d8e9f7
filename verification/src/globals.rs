//! The global items of the Lua API: conversion tables between script
//! values and world values, the global method tables of wrappers with
//! static methods, the API provider, and the generated tests.

use vstd::prelude::*;
use crate::model::{LuaMethod, Newtype, NewtypeList};
use crate::newtype_gen::{static_calls, calls_of_kind};
use crate::text::{
    views, join, concat, starts_with_lua, string_literal, strip_white_space, splits_at_bytes,
    skip_bytes, utf8_len, lemma_views_push, join_strings, concat_strings, has_lua_prefix, literal_of,
    without_white_space, after_three_bytes,
};
use crate::unions::LuaImplementor;
use crate::idents::{ident_ok, ident_text_ok};
use crate::method_table::{table_entries, table_to_vec};
use indexmap::IndexMap;

verus! {

/// The position of the first method of `ms` with key `key`, or -1.
pub open spec fn first_with_key(ms: Seq<LuaMethod>, key: Seq<char>) -> int
    decreases ms.len(),
{
    if ms.len() == 0 {
        -1
    } else {
        let i = first_with_key(ms.drop_last(), key);
        if i >= 0 {
            i
        } else if ms.last().method_type.key@ == key {
            ms.len() - 1
        } else {
            -1
        }
    }
}

/// The extra Lua functions of a newtype, or none.
pub open spec fn extra_functions(nt: Newtype) -> Seq<LuaMethod> {
    match nt.additional_lua_functions {
        Some(f) => f@,
        None => Seq::empty(),
    }
}

/// The applied closure of the first extra function with key `key`.
pub open spec fn primitive_closure(nt: Newtype, key: Seq<char>) -> Seq<char> {
    extra_functions(nt)[first_with_key(extra_functions(nt), key)].applied_closure@
}

/// The closure that writes a script value back into a world value.
pub open spec fn from_value_closure(w: Seq<char>) -> Seq<char> {
    "|r,c,n| { if let Value::UserData(v) = n { let mut v = v.borrow_mut::<"@ + w + ">()?; "@ + w
        + "::apply_self_to_base(v.deref_mut(),r); Ok(()) } else { Err(Error::RuntimeError(\"Invalid type\".to_owned())) } }"@
}

/// The closure that makes a script value from a world value.
pub open spec fn to_value_closure(w: Seq<char>) -> Seq<char> {
    "|r,c| { let usr = c.create_userdata("@ + w + "::base_to_self(r)).unwrap(); Value::UserData(usr) }"@
}

/// The conversion table entry of a newtype, keyed by the string literal of
/// its lookup key, in the direction from script to world (`from_lua`) or
/// back; none for a reference wrapper.
pub open spec fn lua_entry(nt: Newtype, from_lua: bool) -> Option<Seq<char>> {
    if nt.variation is Value {
        Some(
            string_literal(nt.base_type_key@) + " => "@ + (if from_lua {
                from_value_closure(nt.wrapper_type@)
            } else {
                to_value_closure(nt.wrapper_type@)
            }),
        )
    } else if nt.variation is Primitive {
        Some(
            string_literal(nt.base_type_key@) + " => "@ + primitive_closure(
                nt,
                if from_lua {
                    "\"from\""@
                } else {
                    "\"to\""@
                },
            ),
        )
    } else {
        None
    }
}

/// The conversion table entries of the newtypes, in order.
pub open spec fn lua_entries(nts: Seq<Newtype>, from_lua: bool) -> Seq<Seq<char>>
    decreases nts.len(),
{
    if nts.len() == 0 {
        Seq::empty()
    } else {
        match lua_entry(nts.last(), from_lua) {
            Some(e) => lua_entries(nts.drop_last(), from_lua).push(e),
            None => lua_entries(nts.drop_last(), from_lua),
        }
    }
}

/// The two conversion tables.
pub open spec fn lookup_tables(nts: Seq<Newtype>) -> Seq<char> {
    "pub static BEVY_TO_LUA: Map<&'static str, for<'l> fn(&crate::ScriptRef,&'l Lua) -> tealr::mlu::mlua::Value<'l> > = phf_map!{ "@
        + join(lua_entries(nts, false), ", "@)
        + ", }; pub static APPLY_LUA_TO_BEVY: Map<&'static str, for<'l> fn(&mut crate::ScriptRef,&'l Lua, tealr::mlu::mlua::Value<'l>) -> Result<(),tealr::mlu::mlua::Error> > = phf_map!{ "@
        + join(lua_entries(nts, true), ", "@) + ", };"@
}

/// Whether a wrapper has static methods, and so a global method table.
pub open spec fn has_statics(e: (String, Vec<LuaMethod>)) -> bool {
    static_calls(e.1@).len() > 0
}

/// The name of the global method table of wrapper `name`.
pub open spec fn globals_ident(name: Seq<char>) -> Seq<char> {
    name + "Globals"@
}

/// The global name of the table: the wrapper's name without its `Lua`
/// prefix.
pub open spec fn global_key(name: Seq<char>) -> Seq<char> {
    if starts_with_lua(name) {
        name.skip(3)
    } else {
        name
    }
}

/// The global method table of a wrapper with static methods.
pub open spec fn module_text(e: (String, Vec<LuaMethod>)) -> Seq<char> {
    let ident = globals_ident(e.0@);
    "struct "@ + ident + "; impl tealr::mlu::TealData for "@ + ident
        + " { fn add_methods<'lua,T: tealr::mlu::TealDataMethods<'lua,Self>>(methods: &mut T) { methods.document_type(concat!(\"Global methods for \", "@
        + string_literal(skip_bytes(e.0@, 3)) + ")); "@ + join(static_calls(e.1@), " "@)
        + " } } impl_tealr_type!("@ + ident + ");"@
}

/// The registration of the global method table of a wrapper.
pub open spec fn instance_text(e: (String, Vec<LuaMethod>)) -> Seq<char> {
    let key = global_key(e.0@);
    "instance_collector.document_instance(concat!(\"Global methods for \", stringify!("@ + key
        + "))); instance_collector.add_instance(stringify!("@ + key + ").into(), |_| Ok("@
        + globals_ident(e.0@) + "))?;"@
}

/// What each wrapper with static methods contributes, in order: its table
/// (`part` 0), its registration (1) or its table's name (2).
pub open spec fn static_items(all: Seq<(String, Vec<LuaMethod>)>, part: nat) -> Seq<Seq<char>>
    decreases all.len(),
{
    if all.len() == 0 {
        Seq::empty()
    } else if has_statics(all.last()) {
        static_items(all.drop_last(), part).push(
            if part == 0 {
                module_text(all.last())
            } else if part == 1 {
                instance_text(all.last())
            } else {
                globals_ident(all.last().0@)
            },
        )
    } else {
        static_items(all.drop_last(), part)
    }
}

/// The names of the wrapper types, primitives left out.
pub open spec fn userdata_names(nts: Seq<Newtype>) -> Seq<Seq<char>>
    decreases nts.len(),
{
    if nts.len() == 0 {
        Seq::empty()
    } else if nts.last().variation is Primitive {
        userdata_names(nts.drop_last())
    } else {
        userdata_names(nts.drop_last()).push(nts.last().wrapper_type@)
    }
}

/// The documentation step for type `n`.
pub open spec fn process_type(n: Seq<char>) -> Seq<char> {
    ".process_type::<"@ + n + ">()"@
}

/// The API provider: it registers the global tables and documents every
/// wrapper, global table and extra type.
pub open spec fn api_provider(list: NewtypeList, all: Seq<(String, Vec<LuaMethod>)>) -> Seq<char> {
    "struct BevyAPIGlobals; impl tealr::mlu::ExportInstances for BevyAPIGlobals { fn add_instances<'lua, T: tealr::mlu::InstanceCollector<'lua>>( instance_collector: &mut T, ) -> mlua::Result<()> { "@
        + join(static_items(all, 1), " "@) + " Ok(()) } } "@ + join(static_items(all, 0), " "@)
        + " #[derive(Default)] pub struct LuaBevyAPIProvider; impl crate::APIProvider for LuaBevyAPIProvider{ type Target = ::std::sync::Mutex<Lua>; type DocTarget = crate::LuaDocFragment; fn attach_api(&mut self, c: &mut <Self as crate::APIProvider>::Target) -> Result<(),crate::ScriptError> { let lua_ctx = c.lock().expect(\"Could not get lock on script context\"); tealr::mlu::set_global_env::<BevyAPIGlobals>(&lua_ctx)?; Ok(()) } fn get_doc_fragment(&self) -> Option<Self::DocTarget> { Some(crate::LuaDocFragment::new(|tw| tw.document_global_instance::<BevyAPIGlobals>().unwrap()"@
        + concat(userdata_names(list.new_types@).map_values(|n: Seq<char>| process_type(n)))
        + concat(static_items(all, 2).map_values(|n: Seq<char>| process_type(n))) + concat(
        views(list.additional_types@).map_values(|n: Seq<char>| process_type(n)),
    ) + " ) ) } }"@
}

/// The check that the lookup key of a newtype names its base type.
pub open spec fn key_assert(nt: Newtype) -> Seq<char> {
    "assert_eq!(std::any::type_name::<"@ + nt.base_last_ident@ + ">(),"@ + string_literal(
        strip_white_space(nt.base_type@),
    ) + ");"@
}

/// The imports of the base types whose path starts at `bevy`.
pub open spec fn import_items(nts: Seq<Newtype>) -> Seq<Seq<char>>
    decreases nts.len(),
{
    if nts.len() == 0 {
        Seq::empty()
    } else if nts.last().base_first_ident@ == "bevy"@ {
        import_items(nts.drop_last()).push("use "@ + nts.last().base_type@ + ";"@)
    } else {
        import_items(nts.drop_last())
    }
}

/// The tests generated for the methods of `ms`, in order.
pub open spec fn method_tests(ms: Seq<LuaMethod>) -> Seq<Seq<char>>
    decreases ms.len(),
{
    if ms.len() == 0 {
        Seq::empty()
    } else {
        match ms.last().test {
            Some(t) => method_tests(ms.drop_last()).push(t@),
            None => method_tests(ms.drop_last()),
        }
    }
}

/// The tests generated for all methods of all wrappers, in order.
pub open spec fn all_tests(all: Seq<(String, Vec<LuaMethod>)>) -> Seq<Seq<char>>
    decreases all.len(),
{
    if all.len() == 0 {
        Seq::empty()
    } else {
        all_tests(all.drop_last()) + method_tests(all.last().1@)
    }
}

/// The test module.
pub open spec fn tests_text(list: NewtypeList, all: Seq<(String, Vec<LuaMethod>)>) -> Seq<char> {
    "#[cfg(test)] mod gen_test { use bevy::prelude::*; use bevy::math::*; "@ + join(
        import_items(list.new_types@),
        " "@,
    ) + " #[test] pub fn test_wrapper_keys(){ "@ + join(
        list.new_types@.map_values(|nt: Newtype| key_assert(nt)),
        " "@,
    ) + " } "@ + join(all_tests(all), " "@) + " }"@
}

/// All global items: the imports, the API provider, the conversion tables,
/// the tests, and the union declarations made so far (`globals`).
pub open spec fn globals_text(globals: Seq<char>, list: NewtypeList, all: Seq<(String, Vec<LuaMethod>)>) -> Seq<char> {
    join(import_items(list.new_types@), " "@) + " "@ + api_provider(list, all) + " "@
        + lookup_tables(list.new_types@) + " "@ + tests_text(list, all) + " "@ + globals
}

/// A newtype's conversions can be generated: a primitive declares extra
/// functions with keys `"from"` and `"to"`.
pub open spec fn newtype_globals_ok(nt: Newtype) -> bool {
    nt.variation is Primitive ==> {
        &&& nt.additional_lua_functions is Some
        &&& first_with_key(extra_functions(nt), "\"from\""@) >= 0
        &&& first_with_key(extra_functions(nt), "\"to\""@) >= 0
    }
}

/// The global items can be generated: every newtype's conversions can, and
/// so can the global table of every wrapper with static methods.
pub open spec fn globals_supported(list: NewtypeList, all: Seq<(String, Vec<LuaMethod>)>) -> bool {
    &&& forall|k: int| 0 <= k < list.new_types@.len() ==> newtype_globals_ok(#[trigger] list.new_types@[k])
    &&& forall|k: int| 0 <= k < all.len() && has_statics(#[trigger] all[k]) ==> static_entry_ok(all[k].0@)
}

/// The global table of wrapper `name` can be generated: `format_ident!`
/// accepts its name and its global name, and the name has a character
/// boundary after its third byte.
pub open spec fn static_entry_ok(name: Seq<char>) -> bool {
    &&& ident_ok(globals_ident(name))
    &&& ident_ok(global_key(name))
    &&& splits_at_bytes(name, 3)
}

/// The position of the first method of `ms` with key `key`, or `None`.
pub fn find_method_with_key(ms: &Vec<LuaMethod>, key: &String) -> (res: Option<usize>)
    ensures
        match res {
            Some(i) => i == first_with_key(ms@, key@) && i < ms@.len(),
            None => first_with_key(ms@, key@) == -1,
        },
{
    let n = ms.len();
    let mut i: usize = 0;
    while i < n
        invariant
            n == ms@.len(),
            i <= n,
            first_with_key(ms@.take(i as int), key@) == -1,
        decreases n - i,
    {
        assert(ms@.take(i + 1).drop_last() =~= ms@.take(i as int));
        if ms[i].method_type.key == *key {
            proof {
                lemma_first_with_key_prefix(ms@, key@, (i + 1) as int);
            }
            return Some(i);
        }
        i = i + 1;
    }
    assert(ms@.take(n as int) =~= ms@);
    None
}

/// A key found within a prefix is found at the same place in the whole.
proof fn lemma_first_with_key_prefix(ms: Seq<LuaMethod>, key: Seq<char>, k: int)
    requires
        0 <= k <= ms.len(),
        first_with_key(ms.take(k), key) >= 0,
    ensures
        first_with_key(ms, key) == first_with_key(ms.take(k), key),
    decreases ms.len() - k,
{
    if k < ms.len() {
        assert(ms.take(k + 1).drop_last() =~= ms.take(k));
        lemma_first_with_key_prefix(ms, key, k + 1);
    } else {
        assert(ms.take(k) =~= ms);
    }
}

/// The conversion table entry of `nt`.
fn lua_entry_string(nt: &Newtype, from_lua: bool) -> (res: Option<String>)
    requires
        newtype_globals_ok(*nt),
    ensures
        match lua_entry(*nt, from_lua) {
            Some(e) => res is Some && res->0@ == e,
            None => res is None,
        },
{
    if nt.variation.is_value() {
        let w = nt.wrapper_type.as_str();
        let mut c = String::new();
        if from_lua {
            c = String::from_str("|r,c,n| { if let Value::UserData(v) = n { let mut v = v.borrow_mut::<");
            c.append(w);
            c.append(">()?; ");
            c.append(w);
            c.append("::apply_self_to_base(v.deref_mut(),r); Ok(()) } else { Err(Error::RuntimeError(\"Invalid type\".to_owned())) } }");
        } else {
            c = String::from_str("|r,c| { let usr = c.create_userdata(");
            c.append(w);
            c.append("::base_to_self(r)).unwrap(); Value::UserData(usr) }");
        }
        let mut e = literal_of(nt.base_type_key.as_str());
        e.append(" => ");
        e.append(c.as_str());
        Some(e)
    } else if nt.variation.is_primitive() {
        let key = String::from_str(if from_lua {
            "\"from\""
        } else {
            "\"to\""
        });
        match &nt.additional_lua_functions {
            Some(ms) => {
                match find_method_with_key(ms, &key) {
                    Some(j) => {
                        let mut e = literal_of(nt.base_type_key.as_str());
                        e.append(" => ");
                        e.append(ms[j].applied_closure.as_str());
                        Some(e)
                    },
                    None => {
                        proof {
                            assert(false);
                        }
                        None
                    },
                }
            },
            None => {
                proof {
                    assert(false);
                }
                None
            },
        }
    } else {
        None
    }
}

/// The conversion table entries of the newtypes.
fn lua_entry_strings(nts: &Vec<Newtype>, from_lua: bool) -> (res: Vec<String>)
    requires
        forall|k: int| 0 <= k < nts@.len() ==> newtype_globals_ok(#[trigger] nts@[k]),
    ensures
        views(res@) == lua_entries(nts@, from_lua),
{
    let mut res: Vec<String> = Vec::new();
    let n = nts.len();
    let mut i: usize = 0;
    while i < n
        invariant
            n == nts@.len(),
            forall|k: int| 0 <= k < nts@.len() ==> newtype_globals_ok(#[trigger] nts@[k]),
            i <= n,
            views(res@) == lua_entries(nts@.take(i as int), from_lua),
        decreases n - i,
    {
        assert(nts@.take(i + 1).drop_last() =~= nts@.take(i as int));
        assert(nts@.take(i + 1).last() == nts@[i as int]);
        match lua_entry_string(&nts[i], from_lua) {
            Some(e) => {
                proof {
                    lemma_views_push(res@, e);
                }
                res.push(e);
            },
            None => {},
        }
        i = i + 1;
    }
    assert(nts@.take(n as int) =~= nts@);
    res
}

/// The two conversion tables.
fn lookup_tables_string(nts: &Vec<Newtype>) -> (res: String)
    requires
        forall|k: int| 0 <= k < nts@.len() ==> newtype_globals_ok(#[trigger] nts@[k]),
    ensures
        res@ == lookup_tables(nts@),
{
    let to_lua = join_strings(&lua_entry_strings(nts, false), ", ");
    let from_lua = join_strings(&lua_entry_strings(nts, true), ", ");
    let mut res = String::from_str("pub static BEVY_TO_LUA: Map<&'static str, for<'l> fn(&crate::ScriptRef,&'l Lua) -> tealr::mlu::mlua::Value<'l> > = phf_map!{ ");
    res.append(to_lua.as_str());
    res.append(", }; pub static APPLY_LUA_TO_BEVY: Map<&'static str, for<'l> fn(&mut crate::ScriptRef,&'l Lua, tealr::mlu::mlua::Value<'l>) -> Result<(),tealr::mlu::mlua::Error> > = phf_map!{ ");
    res.append(from_lua.as_str());
    res.append(", };");
    res
}

/// The name of the global method table of wrapper `name`.
fn globals_ident_string(name: &String) -> (res: String)
    ensures
        res@ == globals_ident(name@),
{
    let mut res = String::from_str(name.as_str());
    res.append("Globals");
    res
}

/// The global name of the table of wrapper `name`.
fn global_key_string(name: &String) -> (res: String)
    ensures
        res@ == global_key(name@),
{
    if has_lua_prefix(name.as_str()) {
        let n = name.as_str().unicode_len();
        let s = name.as_str().substring_char(3, n);
        assert(s@ =~= name@.skip(3));
        String::from_str(s)
    } else {
        name.clone()
    }
}

/// What the wrapper `e`, which has static methods, contributes as `part`.
fn static_item_string(e: &(String, Vec<LuaMethod>), part: usize) -> (res: String)
    requires
        has_statics(*e),
        splits_at_bytes(e.0@, 3),
    ensures
        res@ == (if part == 0 {
            module_text(*e)
        } else if part == 1 {
            instance_text(*e)
        } else {
            globals_ident(e.0@)
        }),
{
    let ident = globals_ident_string(&e.0);
    if part == 0 {
        let calls = join_strings(&calls_of_kind(&e.1, true), " ");
        let tail = after_three_bytes(e.0.as_str());
        let lit = literal_of(tail);
        let mut res = String::from_str("struct ");
        res.append(ident.as_str());
        res.append("; impl tealr::mlu::TealData for ");
        res.append(ident.as_str());
        res.append(" { fn add_methods<'lua,T: tealr::mlu::TealDataMethods<'lua,Self>>(methods: &mut T) { methods.document_type(concat!(\"Global methods for \", ");
        res.append(lit.as_str());
        res.append(")); ");
        res.append(calls.as_str());
        res.append(" } } impl_tealr_type!(");
        res.append(ident.as_str());
        res.append(");");
        res
    } else if part == 1 {
        let key = global_key_string(&e.0);
        let mut res = String::from_str("instance_collector.document_instance(concat!(\"Global methods for \", stringify!(");
        res.append(key.as_str());
        res.append("))); instance_collector.add_instance(stringify!(");
        res.append(key.as_str());
        res.append(").into(), |_| Ok(");
        res.append(ident.as_str());
        res.append("))?;");
        res
    } else {
        ident
    }
}

/// What the wrappers with static methods contribute as `part`, in order.
fn static_item_strings(all: &Vec<(String, Vec<LuaMethod>)>, part: usize) -> (res: Vec<String>)
    requires
        forall|k: int| 0 <= k < all@.len() && has_statics(#[trigger] all@[k]) ==> static_entry_ok(all@[k].0@),
    ensures
        views(res@) == static_items(all@, part as nat),
{
    let mut res: Vec<String> = Vec::new();
    let n = all.len();
    let mut i: usize = 0;
    while i < n
        invariant
            n == all@.len(),
            forall|k: int| 0 <= k < all@.len() && has_statics(#[trigger] all@[k]) ==> static_entry_ok(all@[k].0@),
            i <= n,
            views(res@) == static_items(all@.take(i as int), part as nat),
        decreases n - i,
    {
        assert(all@.take(i + 1).drop_last() =~= all@.take(i as int));
        assert(all@.take(i + 1).last() == all@[i as int]);
        let statics = calls_of_kind(&all[i].1, true);
        if statics.len() > 0 {
            assert(has_statics(all@[i as int]));
            let p = static_item_string(&all[i], part);
            proof {
                lemma_views_push(res@, p);
            }
            res.push(p);
        }
        i = i + 1;
    }
    assert(all@.take(n as int) =~= all@);
    res
}

/// The names of the wrapper types, primitives left out.
fn userdata_name_strings(nts: &Vec<Newtype>) -> (res: Vec<String>)
    ensures
        views(res@) == userdata_names(nts@),
{
    let mut res: Vec<String> = Vec::new();
    let n = nts.len();
    let mut i: usize = 0;
    while i < n
        invariant
            n == nts@.len(),
            i <= n,
            views(res@) == userdata_names(nts@.take(i as int)),
        decreases n - i,
    {
        assert(nts@.take(i + 1).drop_last() =~= nts@.take(i as int));
        assert(nts@.take(i + 1).last() == nts@[i as int]);
        if !nts[i].variation.is_primitive() {
            let p = nts[i].wrapper_type.clone();
            proof {
                lemma_views_push(res@, p);
            }
            res.push(p);
        }
        i = i + 1;
    }
    assert(nts@.take(n as int) =~= nts@);
    res
}

/// The documentation steps for the types `names`.
fn process_types(names: &Vec<String>) -> (res: String)
    ensures
        res@ == concat(views(names@).map_values(|n: Seq<char>| process_type(n))),
{
    let ghost all = views(names@).map_values(|n: Seq<char>| process_type(n));
    let mut parts: Vec<String> = Vec::new();
    let n = names.len();
    let mut i: usize = 0;
    while i < n
        invariant
            n == names@.len(),
            all == views(names@).map_values(|n: Seq<char>| process_type(n)),
            i <= n,
            views(parts@) == all.take(i as int),
        decreases n - i,
    {
        let mut p = String::from_str(".process_type::<");
        p.append(names[i].as_str());
        p.append(">()");
        assert(p@ == all[i as int]);
        proof {
            lemma_views_push(parts@, p);
        }
        parts.push(p);
        assert(all.take(i as int).push(all[i as int]) =~= all.take(i + 1));
        i = i + 1;
    }
    assert(all.take(n as int) =~= all);
    concat_strings(&parts)
}

/// The API provider.
fn api_provider_string(list: &NewtypeList, all: &Vec<(String, Vec<LuaMethod>)>) -> (res: String)
    requires
        forall|k: int| 0 <= k < all@.len() && has_statics(#[trigger] all@[k]) ==> static_entry_ok(all@[k].0@),
    ensures
        res@ == api_provider(*list, all@),
{
    let instances = join_strings(&static_item_strings(all, 1), " ");
    let modules = join_strings(&static_item_strings(all, 0), " ");
    let userdata = process_types(&userdata_name_strings(&list.new_types));
    let proxies = process_types(&static_item_strings(all, 2));
    let external = process_types(&list.additional_types);
    let mut res = String::from_str("struct BevyAPIGlobals; impl tealr::mlu::ExportInstances for BevyAPIGlobals { fn add_instances<'lua, T: tealr::mlu::InstanceCollector<'lua>>( instance_collector: &mut T, ) -> mlua::Result<()> { ");
    res.append(instances.as_str());
    res.append(" Ok(()) } } ");
    res.append(modules.as_str());
    res.append(" #[derive(Default)] pub struct LuaBevyAPIProvider; impl crate::APIProvider for LuaBevyAPIProvider{ type Target = ::std::sync::Mutex<Lua>; type DocTarget = crate::LuaDocFragment; fn attach_api(&mut self, c: &mut <Self as crate::APIProvider>::Target) -> Result<(),crate::ScriptError> { let lua_ctx = c.lock().expect(\"Could not get lock on script context\"); tealr::mlu::set_global_env::<BevyAPIGlobals>(&lua_ctx)?; Ok(()) } fn get_doc_fragment(&self) -> Option<Self::DocTarget> { Some(crate::LuaDocFragment::new(|tw| tw.document_global_instance::<BevyAPIGlobals>().unwrap()");
    res.append(userdata.as_str());
    res.append(proxies.as_str());
    res.append(external.as_str());
    res.append(" ) ) } }");
    res
}

/// The imports of the base types whose path starts at `bevy`.
fn import_strings(nts: &Vec<Newtype>) -> (res: Vec<String>)
    ensures
        views(res@) == import_items(nts@),
{
    let bevy = String::from_str("bevy");
    let mut res: Vec<String> = Vec::new();
    let n = nts.len();
    let mut i: usize = 0;
    while i < n
        invariant
            n == nts@.len(),
            bevy@ == "bevy"@,
            i <= n,
            views(res@) == import_items(nts@.take(i as int)),
        decreases n - i,
    {
        assert(nts@.take(i + 1).drop_last() =~= nts@.take(i as int));
        assert(nts@.take(i + 1).last() == nts@[i as int]);
        if nts[i].base_first_ident == bevy {
            let mut p = String::from_str("use ");
            p.append(nts[i].base_type.as_str());
            p.append(";");
            proof {
                lemma_views_push(res@, p);
            }
            res.push(p);
        }
        i = i + 1;
    }
    assert(nts@.take(n as int) =~= nts@);
    res
}

/// The checks that the lookup keys name their base types.
fn key_assert_strings(nts: &Vec<Newtype>) -> (res: Vec<String>)
    ensures
        views(res@) == nts@.map_values(|nt: Newtype| key_assert(nt)),
{
    let ghost all = nts@.map_values(|nt: Newtype| key_assert(nt));
    let mut res: Vec<String> = Vec::new();
    let n = nts.len();
    let mut i: usize = 0;
    while i < n
        invariant
            n == nts@.len(),
            all == nts@.map_values(|nt: Newtype| key_assert(nt)),
            i <= n,
            views(res@) == all.take(i as int),
        decreases n - i,
    {
        let key = without_white_space(nts[i].base_type.as_str());
        let lit = literal_of(key.as_str());
        let mut p = String::from_str("assert_eq!(std::any::type_name::<");
        p.append(nts[i].base_last_ident.as_str());
        p.append(">(),");
        p.append(lit.as_str());
        p.append(");");
        assert(p@ == all[i as int]);
        proof {
            lemma_views_push(res@, p);
        }
        res.push(p);
        assert(all.take(i as int).push(all[i as int]) =~= all.take(i + 1));
        i = i + 1;
    }
    assert(all.take(n as int) =~= all);
    res
}

/// Appends the tests generated for the methods of `ms` to `out`.
fn push_method_tests(ms: &Vec<LuaMethod>, out: &mut Vec<String>)
    ensures
        views(final(out)@) == views(old(out)@) + method_tests(ms@),
{
    let ghost start = views(out@);
    let n = ms.len();
    let mut i: usize = 0;
    while i < n
        invariant
            n == ms@.len(),
            i <= n,
            views(out@) == start + method_tests(ms@.take(i as int)),
        decreases n - i,
    {
        assert(ms@.take(i + 1).drop_last() =~= ms@.take(i as int));
        assert(ms@.take(i + 1).last() == ms@[i as int]);
        match &ms[i].test {
            Some(t) => {
                let p = t.clone();
                proof {
                    lemma_views_push(out@, p);
                }
                out.push(p);
                assert(start + method_tests(ms@.take(i + 1)) =~= (start + method_tests(
                    ms@.take(i as int),
                )).push(p@));
            },
            None => {},
        }
        i = i + 1;
    }
    assert(ms@.take(n as int) =~= ms@);
}

/// The tests generated for all methods of all wrappers.
fn test_strings(all: &Vec<(String, Vec<LuaMethod>)>) -> (res: Vec<String>)
    ensures
        views(res@) == all_tests(all@),
{
    let mut res: Vec<String> = Vec::new();
    let n = all.len();
    let mut i: usize = 0;
    assert(views(res@) =~= Seq::<Seq<char>>::empty());
    while i < n
        invariant
            n == all@.len(),
            i <= n,
            views(res@) == all_tests(all@.take(i as int)),
        decreases n - i,
    {
        assert(all@.take(i + 1).drop_last() =~= all@.take(i as int));
        assert(all@.take(i + 1).last() == all@[i as int]);
        push_method_tests(&all[i].1, &mut res);
        i = i + 1;
    }
    assert(all@.take(n as int) =~= all@);
    res
}

/// The test module.
fn tests_string(list: &NewtypeList, all: &Vec<(String, Vec<LuaMethod>)>) -> (res: String)
    ensures
        res@ == tests_text(*list, all@),
{
    let imports = join_strings(&import_strings(&list.new_types), " ");
    let asserts = join_strings(&key_assert_strings(&list.new_types), " ");
    let tests = join_strings(&test_strings(all), " ");
    let mut res = String::from_str("#[cfg(test)] mod gen_test { use bevy::prelude::*; use bevy::math::*; ");
    res.append(imports.as_str());
    res.append(" #[test] pub fn test_wrapper_keys(){ ");
    res.append(asserts.as_str());
    res.append(" } ");
    res.append(tests.as_str());
    res.append(" }");
    res
}

/// Decides `newtype_globals_ok`.
fn newtype_globals_supported(nt: &Newtype) -> (res: bool)
    ensures
        res == newtype_globals_ok(*nt),
{
    if !nt.variation.is_primitive() {
        return true;
    }
    match &nt.additional_lua_functions {
        Some(ms) => {
            let from = String::from_str("\"from\"");
            let to = String::from_str("\"to\"");
            find_method_with_key(ms, &from).is_some() && find_method_with_key(ms, &to).is_some()
        },
        None => false,
    }
}

/// Decides `splits_at_bytes(s, 3)`.
fn splits_after_three_bytes(s: &str) -> (res: bool)
    ensures
        res == splits_at_bytes(s@, 3),
{
    let n = s.unicode_len();
    let mut i: usize = 0;
    let mut left: u32 = 3;
    assert(s@.skip(0) =~= s@);
    while left > 0
        invariant
            n == s@.len(),
            i <= n,
            left <= 3,
            splits_at_bytes(s@, 3) == splits_at_bytes(s@.skip(i as int), left as int),
        decreases left,
    {
        if i == n {
            return false;
        }
        let c = s.get_char(i);
        assert(s@.skip(i as int)[0] == c);
        assert(s@.skip(i as int).drop_first() =~= s@.skip(i + 1));
        let u = c as u32;
        let w: u32 = if u < 0x80 {
            1
        } else if u < 0x800 {
            2
        } else if u < 0x10000 {
            3
        } else {
            4
        };
        if w > left {
            assert(w == utf8_len(c));
            assert(!splits_at_bytes(s@.skip(i as int).drop_first(), left - w));
            return false;
        }
        left = left - w;
        i = i + 1;
    }
    true
}

/// Decides `static_entry_ok`.
fn static_entry_supported(name: &String) -> (res: bool)
    ensures
        res == static_entry_ok(name@),
{
    let ident = globals_ident_string(name);
    let key = global_key_string(name);
    ident_text_ok(ident.as_str()) && ident_text_ok(key.as_str()) && splits_after_three_bytes(name.as_str())
}

/// Decides `globals_supported`: whether the global items for `list` and
/// the wrappers' methods `all_functions` can be generated.
pub fn globals_are_supported(list: &NewtypeList, all_functions: &IndexMap<String, Vec<LuaMethod>>) -> (res: bool)
    ensures
        res == globals_supported(*list, table_entries(*all_functions)),
{
    let all = table_to_vec(all_functions);
    let nts = &list.new_types;
    let n = nts.len();
    let mut i: usize = 0;
    while i < n
        invariant
            n == nts@.len(),
            nts == list.new_types,
            i <= n,
            forall|k: int| 0 <= k < i ==> newtype_globals_ok(#[trigger] nts@[k]),
        decreases n - i,
    {
        if !newtype_globals_supported(&nts[i]) {
            assert(!newtype_globals_ok(nts@[i as int]));
            return false;
        }
        i = i + 1;
    }
    let m = all.len();
    let mut j: usize = 0;
    while j < m
        invariant
            m == all@.len(),
            all@ == table_entries(*all_functions),
            j <= m,
            forall|k: int| 0 <= k < j && has_statics(#[trigger] all@[k]) ==> static_entry_ok(all@[k].0@),
        decreases m - j,
    {
        let statics = calls_of_kind(&all[j].1, true);
        if statics.len() > 0 && !static_entry_supported(&all[j].0) {
            assert(has_statics(all@[j as int]));
            return false;
        }
        j = j + 1;
    }
    true
}

impl LuaImplementor {
    /// All global items: the imports of `bevy` base types, the API
    /// provider, the conversion tables, the generated tests, and the union
    /// declarations registered so far.
    pub fn generate_globals(&mut self, new_types: &NewtypeList, all_functions: IndexMap<String, Vec<LuaMethod>>) -> (res: String)
        requires
            globals_supported(*new_types, table_entries(all_functions)),
        ensures
            *final(self) == *old(self),
            res@ == globals_text(old(self)@.globals, *new_types, table_entries(all_functions)),
    {
        let all = table_to_vec(&all_functions);
        let imports = join_strings(&import_strings(&new_types.new_types), " ");
        let api = api_provider_string(new_types, &all);
        let tables = lookup_tables_string(&new_types.new_types);
        let tests = tests_string(new_types, &all);
        let mut res = String::from_str(imports.as_str());
        res.append(" ");
        res.append(api.as_str());
        res.append(" ");
        res.append(tables.as_str());
        res.append(" ");
        res.append(tests.as_str());
        res.append(" ");
        res.append(self.additional_globals());
        res
    }

    /// Generates the global items when every newtype's names are accepted
    /// (`globals_supported`, tested first); otherwise returns `None`.
    pub fn try_generate_globals(&mut self, new_types: &NewtypeList, all_functions: IndexMap<String, Vec<LuaMethod>>) -> (res:
        Option<String>)
        ensures
            *final(self) == *old(self),
            res is Some <==> globals_supported(*new_types, table_entries(all_functions)),
            res matches Some(t) ==> t@ == globals_text(old(self)@.globals, *new_types, table_entries(all_functions)),
    {
        if globals_are_supported(new_types, &all_functions) {
            Some(self.generate_globals(new_types, all_functions))
        } else {
            None
        }
    }
}

/// The global items end with every union declaration registered so far, so
/// each union used by a generated metamethod is declared exactly where the
/// globals are emitted.
pub proof fn law_globals_end_with_unions(globals: Seq<char>, list: NewtypeList, all: Seq<(String, Vec<LuaMethod>)>)
    ensures
        globals_text(globals, list, all).len() >= globals.len(),
        globals_text(globals, list, all).subrange(
            globals_text(globals, list, all).len() - globals.len(),
            globals_text(globals, list, all).len() as int,
        ) == globals,
{
    let t = globals_text(globals, list, all);
    assert(t.subrange(t.len() - globals.len(), t.len() as int) =~= globals);
}

} // verus!
