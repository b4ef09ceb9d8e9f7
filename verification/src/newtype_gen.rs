//! The per-newtype items: the wrapper alias, the `TealData` implementation
//! and the list of extra Lua functions.

use vstd::prelude::*;
use crate::model::{Newtype, LuaMethod, duplicate_methods};
use crate::text::{lemma_views_push, views, join, concat, join_strings, concat_strings};
use crate::unions::LuaImplementor;

verus! {

/// The alias that defines a wrapper type; nothing for a primitive.
pub open spec fn newtype_definition(nt: Newtype) -> Seq<char> {
    if nt.variation is Primitive {
        Seq::empty()
    } else {
        "pub type "@ + nt.wrapper_type@ + " = crate::LuaWrapper<"@ + nt.base_type_ident@ + ">;"@
    }
}

/// The statement that documents a type with the doc string `doc`.
pub open spec fn doc_call(doc: Seq<char>) -> Seq<char> {
    "methods.document_type("@ + doc + ");"@
}

/// The registration calls of the methods that are not static, in order.
pub open spec fn instance_calls(fns: Seq<LuaMethod>) -> Seq<Seq<char>>
    decreases fns.len(),
{
    if fns.len() == 0 {
        Seq::empty()
    } else if fns.last().method_type.is_static {
        instance_calls(fns.drop_last())
    } else {
        instance_calls(fns.drop_last()).push(fns.last().call_expr@)
    }
}

/// The registration calls of the static methods, in order.
pub open spec fn static_calls(fns: Seq<LuaMethod>) -> Seq<Seq<char>>
    decreases fns.len(),
{
    if fns.len() == 0 {
        Seq::empty()
    } else if fns.last().method_type.is_static {
        static_calls(fns.drop_last()).push(fns.last().call_expr@)
    } else {
        static_calls(fns.drop_last())
    }
}

/// The `TealData` implementation that exposes a wrapper's documentation and
/// its non-static methods to Lua; nothing for a primitive.
pub open spec fn newtype_implementation(nt: Newtype, fns: Seq<LuaMethod>) -> Seq<char> {
    if nt.variation is Primitive {
        Seq::empty()
    } else {
        "impl tealr::mlu::TealData for "@ + nt.wrapper_type@
            + " { fn add_methods<'lua, T: tealr::mlu::TealDataMethods<'lua, Self>>(methods: &mut T) { "@
            + concat(views(nt.docstrings@).map_values(|d: Seq<char>| doc_call(d))) + join(
            instance_calls(fns),
            " "@,
        ) + " } } impl_tealr_type!("@ + nt.wrapper_type@ + ");"@
    }
}

/// The extra Lua functions of a newtype; none for a primitive.
pub open spec fn newtype_functions(nt: Newtype) -> Seq<LuaMethod> {
    if nt.variation is Primitive {
        Seq::empty()
    } else {
        match nt.additional_lua_functions {
            Some(f) => f@,
            None => Seq::empty(),
        }
    }
}

/// The documentation statements for the doc strings `docs`.
pub fn doc_calls(docs: &Vec<String>) -> (res: String)
    ensures
        res@ == concat(views(docs@).map_values(|d: Seq<char>| doc_call(d))),
{
    let mut parts: Vec<String> = Vec::new();
    let ghost all = views(docs@).map_values(|d: Seq<char>| doc_call(d));
    let n = docs.len();
    let mut i: usize = 0;
    while i < n
        invariant
            n == docs@.len(),
            all == views(docs@).map_values(|d: Seq<char>| doc_call(d)),
            i <= n,
            views(parts@) == all.take(i as int),
        decreases n - i,
    {
        let mut p = String::from_str("methods.document_type(");
        p.append(docs[i].as_str());
        p.append(");");
        assert(all[i as int] == doc_call(docs@[i as int]@));
        assert(p@ == doc_call(docs@[i as int]@));
        proof {
            lemma_views_push(parts@, p);
        }
        parts.push(p);
        assert(all.take(i as int).push(all[i as int]) =~= all.take(i + 1));
        i = i + 1;
    }
    assert(all.take(n as int) =~= all);
    concat_strings(&parts)
}

/// The registration calls of the methods in `fns` whose kind is static
/// (`want_static`) or not.
pub fn calls_of_kind(fns: &Vec<LuaMethod>, want_static: bool) -> (res: Vec<String>)
    ensures
        want_static ==> views(res@) == static_calls(fns@),
        !want_static ==> views(res@) == instance_calls(fns@),
{
    let mut res: Vec<String> = Vec::new();
    let n = fns.len();
    let mut i: usize = 0;
    while i < n
        invariant
            n == fns@.len(),
            i <= n,
            want_static ==> views(res@) == static_calls(fns@.take(i as int)),
            !want_static ==> views(res@) == instance_calls(fns@.take(i as int)),
        decreases n - i,
    {
        assert(fns@.take(i + 1).drop_last() =~= fns@.take(i as int));
        if fns[i].method_type.is_static == want_static {
            res.push(fns[i].call_expr.clone());
            assert(views(res@) =~= views(res@.drop_last()).push(fns@[i as int].call_expr@));
        }
        i = i + 1;
    }
    assert(fns@.take(n as int) =~= fns@);
    res
}

impl LuaImplementor {
    /// The name of the scripting language these bindings are for.
    pub fn module_name() -> (res: &'static str)
        ensures
            res@ == "lua"@,
    {
        "lua"
    }

    /// The alias that defines the wrapper type of `newtype`.
    pub fn generate_newtype_definition(&mut self, newtype: &Newtype) -> (res: String)
        ensures
            *final(self) == *old(self),
            res@ == newtype_definition(*newtype),
    {
        if newtype.variation.is_primitive() {
            String::new()
        } else {
            let mut res = String::from_str("pub type ");
            res.append(newtype.wrapper_type.as_str());
            res.append(" = crate::LuaWrapper<");
            res.append(newtype.base_type_ident.as_str());
            res.append(">;");
            res
        }
    }

    /// The `TealData` implementation of the wrapper of `newtype`, registering
    /// its documentation and the non-static methods among `functions`.
    pub fn generate_newtype_implementation(&mut self, newtype: &Newtype, functions: &Vec<LuaMethod>) -> (res: String)
        ensures
            *final(self) == *old(self),
            res@ == newtype_implementation(*newtype, functions@),
    {
        if newtype.variation.is_primitive() {
            return String::new();
        }
        let docs = doc_calls(&newtype.docstrings);
        let calls = calls_of_kind(functions, false);
        let joined = join_strings(&calls, " ");
        let mut res = String::from_str("impl tealr::mlu::TealData for ");
        res.append(newtype.wrapper_type.as_str());
        res.append(" { fn add_methods<'lua, T: tealr::mlu::TealDataMethods<'lua, Self>>(methods: &mut T) { ");
        res.append(docs.as_str());
        res.append(joined.as_str());
        res.append(" } } impl_tealr_type!(");
        res.append(newtype.wrapper_type.as_str());
        res.append(");");
        res
    }

    /// The extra Lua functions declared with `new_type`.
    pub fn generate_newtype_functions(&mut self, new_type: &Newtype) -> (res: Vec<LuaMethod>)
        ensures
            *final(self) == *old(self),
            res@ == newtype_functions(*new_type),
    {
        if new_type.variation.is_primitive() {
            return Vec::new();
        }
        match &new_type.additional_lua_functions {
            Some(f) => duplicate_methods(f),
            None => Vec::new(),
        }
    }
}

/// A primitive newtype has no wrapper: no alias, no `TealData`
/// implementation and no extra Lua functions are generated for it, whatever
/// methods are offered.
pub proof fn law_primitive_generates_nothing(nt: Newtype, fns: Seq<LuaMethod>)
    requires
        nt.variation is Primitive,
    ensures
        newtype_definition(nt) == Seq::<char>::empty(),
        newtype_implementation(nt, fns) == Seq::<char>::empty(),
        newtype_functions(nt) == Seq::<LuaMethod>::empty(),
{
}

/// Every method is registered exactly once between the wrapper's
/// `TealData` implementation and its global table: the calls of the static
/// and of the non-static methods together are as many as the methods.
pub proof fn law_calls_partition_methods(fns: Seq<LuaMethod>)
    ensures
        static_calls(fns).len() + instance_calls(fns).len() == fns.len(),
    decreases fns.len(),
{
    if fns.len() > 0 {
        law_calls_partition_methods(fns.drop_last());
    }
}

/// The wrapper's `TealData` implementation registers exactly the calls of
/// the methods that are not static, in their order, whatever their other
/// flags (functions and metamethods included); the global table gets
/// exactly the calls of the static ones.
pub proof fn law_calls_split_by_static(fns: Seq<LuaMethod>)
    ensures
        instance_calls(fns) == fns.filter(|m: LuaMethod| !m.method_type.is_static).map_values(
            |m: LuaMethod| m.call_expr@,
        ),
        static_calls(fns) == fns.filter(|m: LuaMethod| m.method_type.is_static).map_values(
            |m: LuaMethod| m.call_expr@,
        ),
    decreases fns.len(),
{
    reveal(Seq::filter);
    if fns.len() > 0 {
        law_calls_split_by_static(fns.drop_last());
        let p = fns.drop_last();
        let fi = p.filter(|m: LuaMethod| !m.method_type.is_static);
        let fs = p.filter(|m: LuaMethod| m.method_type.is_static);
        if fns.last().method_type.is_static {
            assert(fns.filter(|m: LuaMethod| m.method_type.is_static) == fs.push(fns.last()));
            assert(fs.push(fns.last()).map_values(|m: LuaMethod| m.call_expr@) =~= fs.map_values(
                |m: LuaMethod| m.call_expr@,
            ).push(fns.last().call_expr@));
        } else {
            assert(fns.filter(|m: LuaMethod| !m.method_type.is_static) == fi.push(fns.last()));
            assert(fi.push(fns.last()).map_values(|m: LuaMethod| m.call_expr@) =~= fi.map_values(
                |m: LuaMethod| m.call_expr@,
            ).push(fns.last().call_expr@));
        }
    }
}

} // verus!
