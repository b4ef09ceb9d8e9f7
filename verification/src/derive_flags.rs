//! The Lua methods that derive flags ask for: `ToString` metamethods,
//! automatically exposed methods, copies of other wrappers' methods, and
//! unary and binary operator metamethods.

use vstd::prelude::*;
use crate::model::{
    AutoMethod, BinaryOp, CopyInvocation, DeriveFlag, LuaMethod, MethodType, Newtype, TypeModel,
    UnaryOp, same_method_type, duplicate_strings,
};
use crate::binops::{
    binary_op_ok, binary_op_supported, binops_ok, binops_output, law_binops_one_per_operator, op_keys,
    law_groups_independent,
};
use crate::idents::{ident_ok, ident_text_ok};
use crate::method_table::{table_entries, table_get};
use indexmap::IndexMap;
use crate::unions::{ImplementorState, LuaImplementor, dedup, grows, lemma_grows_trans, lemma_grows_refl};
use crate::text::{
    views, join, decimal, starts_with_lua, string_literal, lemma_views_push, join_strings,
    decimal_string, has_lua_prefix, literal_of, law_decimal_injective,
};

verus! {

/// A generated Lua method: source text for the method macro, or a copy of
/// a method of another wrapper together with the macro arguments to
/// rebind in it.
#[derive(Debug, Clone, PartialEq, Eq)]
pub enum GeneratedMethod {
    Source(String),
    Copied { method: LuaMethod, args: Vec<String> },
}

/// What a generated method is, as plain values.
pub enum MethodOutput {
    Source(Seq<char>),
    Copied(LuaMethod, Seq<Seq<char>>),
}

impl View for GeneratedMethod {
    type V = MethodOutput;

    open spec fn view(&self) -> MethodOutput {
        match self {
            GeneratedMethod::Source(s) => MethodOutput::Source(s@),
            GeneratedMethod::Copied { method, args } => MethodOutput::Copied(*method, views(args@)),
        }
    }
}

/// The views of a list of generated methods.
pub open spec fn outputs(v: Seq<GeneratedMethod>) -> Seq<MethodOutput> {
    v.map_values(|g: GeneratedMethod| g@)
}

/// Pushing a generated method pushes its view.
pub proof fn lemma_outputs_push(s: Seq<GeneratedMethod>, x: GeneratedMethod)
    ensures
        outputs(s.push(x)) == outputs(s).push(x@),
{
    assert(outputs(s.push(x)) =~= outputs(s).push(x@));
}

/// The `ToString` metamethod that formats with `Debug`.
pub open spec fn debug_to_string_text() -> Seq<char> {
    "(mlua::MetaMethod::ToString) => |_,s,()| Ok(format!(\"{:?}\",s))"@
}

/// The `ToString` metamethod that formats with `Display`.
pub open spec fn display_to_string_text() -> Seq<char> {
    "(mlua::MetaMethod::ToString) => |_,s,()| Ok(format!(\"{}\",s))"@
}

/// The name of the `i`-th closure argument.
pub open spec fn arg_ident(i: nat) -> Seq<char> {
    "a_"@ + decimal(i)
}

/// How the `i`-th argument is passed on: wrappers taken by value are
/// cloned.
pub open spec fn call_arg(i: nat, a: TypeModel) -> Seq<char> {
    if starts_with_lua(a.text@) && a.reference is None {
        arg_ident(i) + ".clone()"@
    } else {
        arg_ident(i)
    }
}

/// How the arguments are passed on, in order.
pub open spec fn call_args(args: Seq<TypeModel>) -> Seq<Seq<char>> {
    Seq::new(args.len(), |i: int| call_arg(i as nat, args[i]))
}

/// The names of the first `n` closure arguments.
pub open spec fn arg_idents(n: nat) -> Seq<Seq<char>> {
    Seq::new(n, |i: int| arg_ident(i as nat))
}

/// An argument type with its outer reference removed.
pub open spec fn unreferenced(a: TypeModel) -> Seq<char> {
    match a.reference {
        Some(r) => r.elem@,
        None => a.text@,
    }
}

/// The call of the exposed method on the wrapped value.
pub open spec fn method_call(nt: Newtype, m: AutoMethod) -> Seq<char> {
    let args = join(call_args(m.args@), ", "@);
    match m.receiver {
        Some(r) => if r.reference && r.mutable {
            "s.val_mut(|s| s."@ + m.ident@ + "("@ + args + "))"@
        } else if r.reference {
            "s.val(|s| s."@ + m.ident@ + "("@ + args + "))"@
        } else {
            "s.clone()."@ + m.ident@ + "("@ + args + ")"@
        },
        None => nt.base_last_segment@ + "::"@ + m.ident@ + "("@ + args + ")"@,
    }
}

/// The call with its result wrapped: in the declared output wrapper when the
/// output is a wrapper, unwrapped for another declared output, and in this
/// newtype's wrapper when no output is declared.
pub open spec fn wrapped_call(nt: Newtype, m: AutoMethod) -> Seq<char> {
    let call = method_call(nt, m);
    match m.out {
        Some(o) => if starts_with_lua(o.text@) {
            o.text@ + "::new("@ + call + ")"@
        } else {
            call
        },
        None => nt.wrapper_type@ + "::new("@ + call + ")"@,
    }
}

/// `inner` inside the borrows of the reference arguments among the first
/// `k` arguments, the last one outermost.
pub open spec fn borrow_args(args: Seq<TypeModel>, k: nat, inner: Seq<char>) -> Seq<char>
    decreases k,
{
    if k == 0 {
        inner
    } else {
        let prev = borrow_args(args, (k - 1) as nat, inner);
        match args[k - 1].reference {
            Some(r) => arg_ident((k - 1) as nat) + "."@ + (if r.mutable {
                "val_mut"@
            } else {
                "val"@
            }) + "(|"@ + arg_ident((k - 1) as nat) + "| "@ + prev + ")"@,
            None => prev,
        }
    }
}

/// The Lua method that exposes the method `m` of the base type.
pub open spec fn auto_method_text(nt: Newtype, m: AutoMethod) -> Seq<char> {
    let is_static = m.receiver is None;
    let mutable = match m.receiver {
        Some(r) => r.mutable,
        None => false,
    };
    join(views(m.docstrings@), " "@) + " "@ + (if is_static {
        "static "@
    } else {
        ""@
    }) + (if mutable {
        "mut "@
    } else {
        ""@
    }) + (if is_static {
        "fn "@
    } else {
        ""@
    }) + string_literal(m.ident@) + " =>|_,"@ + (if is_static {
        ""@
    } else {
        "s,"@
    }) + " ("@ + join(arg_idents(m.args.len() as nat), ", "@) + "):("@ + join(
        m.args@.map_values(|a: TypeModel| unreferenced(a)),
        ", "@,
    ) + ")| Ok("@ + borrow_args(m.args@, m.args.len() as nat, wrapped_call(nt, m)) + ")"@
}

/// The result type of an operator: its declared type, else the wrapper.
pub open spec fn return_base(nt: Newtype, rt: Option<TypeModel>) -> Seq<char> {
    match rt {
        Some(t) => match t.base {
            Some(b) => b@,
            None => Seq::empty(),
        },
        None => nt.wrapper_type@,
    }
}

/// Whether a declared result type, if any, has a base identifier.
pub open spec fn return_type_ok(rt: Option<TypeModel>) -> bool {
    match rt {
        Some(t) => t.base is Some,
        None => true,
    }
}

/// `body` wrapped in the result wrapper `rs` when `rs` is a wrapper.
pub open spec fn wrap_if_wrapper(rs: Seq<char>, body: Seq<char>) -> Seq<char> {
    if starts_with_lua(rs) {
        rs + "::new("@ + body + ")"@
    } else {
        body
    }
}

/// The metamethod for a unary operator.
pub open spec fn unary_text(nt: Newtype, u: UnaryOp) -> Seq<char> {
    let operand = if u.reference {
        "(&ud.clone())"@
    } else {
        "ud.clone()"@
    };
    "(mlua::MetaMethod::"@ + u.op.metamethod@ + ") => |_,ud,()|{ return Ok("@ + wrap_if_wrapper(
        return_base(nt, u.return_type),
        u.op.symbol@ + operand,
    ) + ") }"@
}

/// The position of the first entry of `table` under `key`, or -1.
pub open spec fn table_index(table: Seq<(String, Vec<LuaMethod>)>, key: Seq<char>) -> int
    decreases table.len(),
{
    if table.len() == 0 {
        -1
    } else {
        let i = table_index(table.drop_last(), key);
        if i >= 0 {
            i
        } else if table.last().0@ == key {
            table.len() - 1
        } else {
            -1
        }
    }
}

/// The methods of `ms` of kind `t`, in order.
pub open spec fn matching_methods(ms: Seq<LuaMethod>, t: MethodType) -> Seq<LuaMethod>
    decreases ms.len(),
{
    if ms.len() == 0 {
        Seq::empty()
    } else if same_method_type(t, ms.last().method_type) {
        matching_methods(ms.drop_last(), t).push(ms.last())
    } else {
        matching_methods(ms.drop_last(), t)
    }
}

/// The methods that a copy request selects.
pub open spec fn copy_selection(table: Seq<(String, Vec<LuaMethod>)>, inv: CopyInvocation) -> Seq<LuaMethod> {
    matching_methods(table[table_index(table, inv.target@)].1@, inv.identifier)
}

/// A copy request can be met: its target exists and has a method of the
/// requested kind.
pub open spec fn copy_ok(table: Seq<(String, Vec<LuaMethod>)>, inv: CopyInvocation) -> bool {
    table_index(table, inv.target@) >= 0 && copy_selection(table, inv).len() > 0
}

/// The copies that a copy request makes.
pub open spec fn copy_output(table: Seq<(String, Vec<LuaMethod>)>, inv: CopyInvocation) -> Seq<MethodOutput> {
    copy_selection(table, inv).map_values(|m: LuaMethod| MethodOutput::Copied(m, views(inv.args@)))
}

/// The copies that a list of copy requests makes, in order.
pub open spec fn copies_output(table: Seq<(String, Vec<LuaMethod>)>, invs: Seq<CopyInvocation>) -> Seq<MethodOutput>
    decreases invs.len(),
{
    if invs.len() == 0 {
        Seq::empty()
    } else {
        copies_output(table, invs.drop_last()) + copy_output(table, invs.last())
    }
}

/// The name of the `i`-th closure argument.
fn arg_ident_string(i: usize) -> (res: String)
    ensures
        res@ == arg_ident(i as nat),
{
    let mut res = String::from_str("a_");
    let d = decimal_string(i);
    res.append(d.as_str());
    res
}

/// Joins the names of the first `n` closure arguments.
fn joined_arg_idents(n: usize) -> (res: String)
    ensures
        res@ == join(arg_idents(n as nat), ", "@),
{
    let mut parts: Vec<String> = Vec::new();
    let mut i: usize = 0;
    while i < n
        invariant
            i <= n,
            views(parts@) == arg_idents(i as nat),
        decreases n - i,
    {
        let p = arg_ident_string(i);
        proof {
            lemma_views_push(parts@, p);
        }
        parts.push(p);
        assert(arg_idents(i as nat).push(arg_ident(i as nat)) =~= arg_idents((i + 1) as nat));
        i = i + 1;
    }
    join_strings(&parts, ", ")
}

/// Joins the passed-on arguments.
fn joined_call_args(args: &Vec<TypeModel>) -> (res: String)
    ensures
        res@ == join(call_args(args@), ", "@),
{
    let mut parts: Vec<String> = Vec::new();
    let n = args.len();
    let mut i: usize = 0;
    while i < n
        invariant
            n == args@.len(),
            i <= n,
            views(parts@) == call_args(args@.take(i as int)),
        decreases n - i,
    {
        let mut p = arg_ident_string(i);
        if has_lua_prefix(args[i].text.as_str()) && args[i].reference.is_none() {
            p.append(".clone()");
        }
        assert(p@ == call_arg(i as nat, args@[i as int]));
        proof {
            lemma_views_push(parts@, p);
        }
        parts.push(p);
        assert(call_args(args@.take(i as int)).push(call_arg(i as nat, args@[i as int]))
            =~= call_args(args@.take(i + 1)));
        i = i + 1;
    }
    assert(args@.take(n as int) =~= args@);
    join_strings(&parts, ", ")
}

/// Joins the argument types with their outer references removed.
fn joined_unreferenced(args: &Vec<TypeModel>) -> (res: String)
    ensures
        res@ == join(args@.map_values(|a: TypeModel| unreferenced(a)), ", "@),
{
    let mut parts: Vec<String> = Vec::new();
    let ghost all = args@.map_values(|a: TypeModel| unreferenced(a));
    let n = args.len();
    let mut i: usize = 0;
    while i < n
        invariant
            n == args@.len(),
            all == args@.map_values(|a: TypeModel| unreferenced(a)),
            i <= n,
            views(parts@) == all.take(i as int),
        decreases n - i,
    {
        let p = match &args[i].reference {
            Some(r) => r.elem.clone(),
            None => args[i].text.clone(),
        };
        assert(p@ == all[i as int]);
        proof {
            lemma_views_push(parts@, p);
        }
        parts.push(p);
        assert(all.take(i as int).push(all[i as int]) =~= all.take(i + 1));
        i = i + 1;
    }
    assert(all.take(n as int) =~= all);
    join_strings(&parts, ", ")
}

/// The Lua method that exposes the method `m` of the base type of `nt`.
pub fn auto_method_source(nt: &Newtype, m: &AutoMethod) -> (res: String)
    ensures
        res@ == auto_method_text(*nt, *m),
{
    let args = joined_call_args(&m.args);
    let mut call = String::new();
    match &m.receiver {
        Some(r) => {
            if r.reference && r.mutable {
                call = String::from_str("s.val_mut(|s| s.");
                call.append(m.ident.as_str());
                call.append("(");
                call.append(args.as_str());
                call.append("))");
            } else if r.reference {
                call = String::from_str("s.val(|s| s.");
                call.append(m.ident.as_str());
                call.append("(");
                call.append(args.as_str());
                call.append("))");
            } else {
                call = String::from_str("s.clone().");
                call.append(m.ident.as_str());
                call.append("(");
                call.append(args.as_str());
                call.append(")");
            }
        },
        None => {
            call = String::from_str(nt.base_last_segment.as_str());
            call.append("::");
            call.append(m.ident.as_str());
            call.append("(");
            call.append(args.as_str());
            call.append(")");
        },
    }
    assert(call@ == method_call(*nt, *m));
    let mut inner = match &m.out {
        Some(o) => {
            if has_lua_prefix(o.text.as_str()) {
                let mut w = String::from_str(o.text.as_str());
                w.append("::new(");
                w.append(call.as_str());
                w.append(")");
                w
            } else {
                call
            }
        },
        None => {
            let mut w = String::from_str(nt.wrapper_type.as_str());
            w.append("::new(");
            w.append(call.as_str());
            w.append(")");
            w
        },
    };
    let ghost wrapped = wrapped_call(*nt, *m);
    assert(inner@ == wrapped);
    let n = m.args.len();
    let mut k: usize = 0;
    while k < n
        invariant
            n == m.args@.len(),
            k <= n,
            wrapped == wrapped_call(*nt, *m),
            inner@ == borrow_args(m.args@, k as nat, wrapped),
        decreases n - k,
    {
        match &m.args[k].reference {
            Some(r) => {
                let id = arg_ident_string(k);
                let mut w = String::from_str(id.as_str());
                w.append(".");
                w.append(if r.mutable {
                    "val_mut"
                } else {
                    "val"
                });
                w.append("(|");
                w.append(id.as_str());
                w.append("| ");
                w.append(inner.as_str());
                w.append(")");
                inner = w;
            },
            None => {},
        }
        k = k + 1;
    }
    let is_static = m.receiver.is_none();
    let mutable = match &m.receiver {
        Some(r) => r.mutable,
        None => false,
    };
    let docs = join_strings(&m.docstrings, " ");
    let mut res = String::from_str(docs.as_str());
    res.append(" ");
    res.append(if is_static {
        "static "
    } else {
        ""
    });
    res.append(if mutable {
        "mut "
    } else {
        ""
    });
    res.append(if is_static {
        "fn "
    } else {
        ""
    });
    let name = literal_of(m.ident.as_str());
    res.append(name.as_str());
    res.append(" =>|_,");
    res.append(if is_static {
        ""
    } else {
        "s,"
    });
    res.append(" (");
    let ids = joined_arg_idents(n);
    res.append(ids.as_str());
    res.append("):(");
    let tys = joined_unreferenced(&m.args);
    res.append(tys.as_str());
    res.append(")| Ok(");
    res.append(inner.as_str());
    res.append(")");
    res
}

/// The metamethod for the unary operator `u`.
pub fn unary_source(nt: &Newtype, u: &UnaryOp) -> (res: String)
    requires
        return_type_ok(u.return_type),
    ensures
        res@ == unary_text(*nt, *u),
{
    let mut body = String::from_str(u.op.symbol.as_str());
    body.append(if u.reference {
        "(&ud.clone())"
    } else {
        "ud.clone()"
    });
    let rs = return_base_string(nt, &u.return_type);
    let wrapped = wrap_if_wrapper_string(&rs, &body);
    let mut res = String::from_str("(mlua::MetaMethod::");
    res.append(u.op.metamethod.as_str());
    res.append(") => |_,ud,()|{ return Ok(");
    res.append(wrapped.as_str());
    res.append(") }");
    res
}

/// The result type of an operator: its declared type, else the wrapper.
pub fn return_base_string(nt: &Newtype, rt: &Option<TypeModel>) -> (res: String)
    requires
        return_type_ok(*rt),
    ensures
        res@ == return_base(*nt, *rt),
{
    match rt {
        Some(t) => match &t.base {
            Some(b) => b.clone(),
            None => String::new(),
        },
        None => nt.wrapper_type.clone(),
    }
}

/// `body` wrapped in the result wrapper `rs` when `rs` is a wrapper.
pub fn wrap_if_wrapper_string(rs: &String, body: &String) -> (res: String)
    ensures
        res@ == wrap_if_wrapper(rs@, body@),
{
    if has_lua_prefix(rs.as_str()) {
        let mut w = String::from_str(rs.as_str());
        w.append("::new(");
        w.append(body.as_str());
        w.append(")");
        w
    } else {
        body.clone()
    }
}

/// Appends the copies that the request `inv` makes from `table` to `out`.
pub fn push_copies(table: &IndexMap<String, Vec<LuaMethod>>, inv: &CopyInvocation, out: &mut Vec<GeneratedMethod>)
    requires
        copy_ok(table_entries(*table), *inv),
    ensures
        outputs(final(out)@) == outputs(old(out)@) + copy_output(table_entries(*table), *inv),
{
    let methods = match table_get(table, &inv.target) {
        Some(methods) => methods,
        None => {
            return;
        },
    };
    let ghost sel = copy_selection(table_entries(*table), *inv);
    let ghost start = outputs(out@);
    let n = methods.len();
    let mut i: usize = 0;
    while i < n
        invariant
            n == methods@.len(),
            i <= n,
            sel == matching_methods(methods@, inv.identifier),
            outputs(out@) == start + matching_methods(methods@.take(i as int), inv.identifier).map_values(
                |m: LuaMethod| MethodOutput::Copied(m, views(inv.args@)),
            ),
        decreases n - i,
    {
        assert(methods@.take(i + 1).drop_last() =~= methods@.take(i as int));
        let ghost before = outputs(out@);
        if inv.identifier.same_as(&methods[i].method_type) {
            let g = GeneratedMethod::Copied {
                method: methods[i].duplicate(),
                args: duplicate_strings(&inv.args),
            };
            proof {
                lemma_outputs_push(out@, g);
            }
            out.push(g);
            assert(matching_methods(methods@.take(i + 1), inv.identifier) == matching_methods(
                methods@.take(i as int),
                inv.identifier,
            ).push(methods@[i as int]));
            assert(outputs(out@) =~= start + matching_methods(methods@.take(i + 1), inv.identifier).map_values(
                |m: LuaMethod| MethodOutput::Copied(m, views(inv.args@)),
            ));
        } else {
            assert(matching_methods(methods@.take(i + 1), inv.identifier) == matching_methods(
                methods@.take(i as int),
                inv.identifier,
            ));
        }
        i = i + 1;
    }
    assert(methods@.take(n as int) =~= methods@);
}

/// A unary operator's metamethod can be generated: its declared result
/// type, if any, has a base identifier, and `format_ident!` accepts the
/// result's identifier.
pub open spec fn unary_ok(nt: Newtype, u: UnaryOp) -> bool {
    &&& return_type_ok(u.return_type)
    &&& ident_ok(return_base(nt, u.return_type))
}

/// A derive flag can be generated in state `st`: every copy request can be
/// met, every binary operator has a typed side with a base identifier and
/// its metamethods can be generated (`binops_ok`), and every unary
/// operator's can.
pub open spec fn flag_supported(
    st: ImplementorState,
    nt: Newtype,
    table: Seq<(String, Vec<LuaMethod>)>,
    f: DeriveFlag,
) -> bool {
    match f {
        DeriveFlag::Copy(invs) => forall|k: int| 0 <= k < invs@.len() ==> copy_ok(table, #[trigger] invs@[k]),
        DeriveFlag::BinOps(ops) => {
            &&& forall|k: int| 0 <= k < ops@.len() ==> binary_op_ok(#[trigger] ops@[k])
            &&& binops_ok(st, nt, ops@)
        },
        DeriveFlag::UnaryOps(us) => forall|k: int| 0 <= k < us@.len() ==> unary_ok(nt, #[trigger] us@[k]),
        _ => true,
    }
}

/// The flags can be generated one after another from state `st`.
pub open spec fn flags_supported(
    st: ImplementorState,
    nt: Newtype,
    table: Seq<(String, Vec<LuaMethod>)>,
    flags: Seq<DeriveFlag>,
) -> bool
    decreases flags.len(),
{
    if flags.len() == 0 {
        true
    } else {
        &&& flags_supported(st, nt, table, flags.drop_last())
        &&& flag_supported(flags_output(st, nt, flags.drop_last(), table).0, nt, table, flags.last())
    }
}

/// Flags that can be generated can be generated up to any point.
proof fn lemma_flags_supported_prefix(
    st: ImplementorState,
    nt: Newtype,
    table: Seq<(String, Vec<LuaMethod>)>,
    flags: Seq<DeriveFlag>,
    j: int,
)
    requires
        flags_supported(st, nt, table, flags),
        0 <= j <= flags.len(),
    ensures
        flags_supported(st, nt, table, flags.take(j)),
    decreases flags.len(),
{
    if j == flags.len() {
        assert(flags.take(j) =~= flags);
    } else {
        assert(flags.drop_last().take(j) =~= flags.take(j));
        lemma_flags_supported_prefix(st, nt, table, flags.drop_last(), j);
    }
}

/// The methods one derive flag generates, and the state after it.
pub open spec fn flag_output(st: ImplementorState, nt: Newtype, f: DeriveFlag, table: Seq<(String, Vec<LuaMethod>)>) -> (ImplementorState, Seq<MethodOutput>) {
    match f {
        DeriveFlag::DebugToString => (st, seq![MethodOutput::Source(debug_to_string_text())]),
        DeriveFlag::DisplayToString => (st, seq![MethodOutput::Source(display_to_string_text())]),
        DeriveFlag::AutoMethods(ms) => (
            st,
            ms@.map_values(|m: AutoMethod| MethodOutput::Source(auto_method_text(nt, m))),
        ),
        DeriveFlag::Copy(invs) => (st, copies_output(table, invs@)),
        DeriveFlag::BinOps(ops) => binops_output(st, nt, ops@),
        DeriveFlag::UnaryOps(us) => (
            st,
            us@.map_values(|u: UnaryOp| MethodOutput::Source(unary_text(nt, u))),
        ),
    }
}

/// The methods a list of derive flags generates, flag by flag, and the
/// state after them.
pub open spec fn flags_output(st: ImplementorState, nt: Newtype, flags: Seq<DeriveFlag>, table: Seq<(String, Vec<LuaMethod>)>) -> (ImplementorState, Seq<MethodOutput>)
    decreases flags.len(),
{
    if flags.len() == 0 {
        (st, Seq::empty())
    } else {
        let (st1, o1) = flags_output(st, nt, flags.drop_last(), table);
        let (st2, o2) = flag_output(st1, nt, flags.last(), table);
        (st2, o1 + o2)
    }
}

/// Whether some method of `ms` has kind `t`.
fn has_matching(ms: &Vec<LuaMethod>, t: &MethodType) -> (res: bool)
    ensures
        res == (matching_methods(ms@, *t).len() > 0),
{
    let n = ms.len();
    let mut i: usize = 0;
    while i < n
        invariant
            n == ms@.len(),
            i <= n,
            matching_methods(ms@.take(i as int), *t).len() == 0,
        decreases n - i,
    {
        assert(ms@.take(i + 1).drop_last() =~= ms@.take(i as int));
        if t.same_as(&ms[i].method_type) {
            proof {
                lemma_matching_prefix(ms@, *t, (i + 1) as int);
            }
            return true;
        }
        i = i + 1;
    }
    assert(ms@.take(n as int) =~= ms@);
    false
}

/// A match within a prefix is a match in the whole sequence.
proof fn lemma_matching_prefix(ms: Seq<LuaMethod>, t: MethodType, k: int)
    requires
        0 <= k <= ms.len(),
        matching_methods(ms.take(k), t).len() > 0,
    ensures
        matching_methods(ms, t).len() > 0,
    decreases ms.len() - k,
{
    if k < ms.len() {
        assert(ms.take(k + 1).drop_last() =~= ms.take(k));
        lemma_matching_prefix(ms, t, k + 1);
    } else {
        assert(ms.take(k) =~= ms);
    }
}

/// Decides `copy_ok`.
pub fn copy_supported(table: &IndexMap<String, Vec<LuaMethod>>, inv: &CopyInvocation) -> (res: bool)
    ensures
        res == copy_ok(table_entries(*table), *inv),
{
    match table_get(table, &inv.target) {
        Some(methods) => has_matching(methods, &inv.identifier),
        None => false,
    }
}

/// Decides `return_type_ok`.
pub fn return_type_supported(rt: &Option<TypeModel>) -> (res: bool)
    ensures
        res == return_type_ok(*rt),
{
    match rt {
        Some(t) => t.base.is_some(),
        None => true,
    }
}

/// Decides `unary_ok`.
pub fn unary_supported(nt: &Newtype, u: &UnaryOp) -> (res: bool)
    ensures
        res == unary_ok(*nt, *u),
{
    if !return_type_supported(&u.return_type) {
        return false;
    }
    let rb = return_base_string(nt, &u.return_type);
    ident_text_ok(rb.as_str())
}

impl LuaImplementor {
    /// Decides `flag_supported` for `f` in this generator's state, and
    /// registers the flag's unions when it holds.
    fn flag_is_supported(&mut self, nt: &Newtype, table: &IndexMap<String, Vec<LuaMethod>>, f: &DeriveFlag) -> (res: bool)
        requires
            old(self).wf(),
        ensures
            final(self).wf(),
            res == flag_supported(old(self)@, *nt, table_entries(*table), *f),
            res ==> final(self)@ == flag_output(old(self)@, *nt, *f, table_entries(*table)).0,
    {
        match f {
            DeriveFlag::Copy(invs) => {
                let n = invs.len();
                let mut i: usize = 0;
                while i < n
                    invariant
                        n == invs@.len(),
                        *f == DeriveFlag::Copy(*invs),
                        self.wf(),
                        self@ == old(self)@,
                        i <= n,
                        forall|k: int| 0 <= k < i ==> copy_ok(table_entries(*table), #[trigger] invs@[k]),
                    decreases n - i,
                {
                    if !copy_supported(table, &invs[i]) {
                        assert(!copy_ok(table_entries(*table), invs@[i as int]));
                        assert(f->Copy_0 == *invs);
                        return false;
                    }
                    i = i + 1;
                }
                true
            },
            DeriveFlag::BinOps(ops) => {
                self.binops_supported(nt, ops)
            },
            DeriveFlag::UnaryOps(us) => {
                let n = us.len();
                let mut i: usize = 0;
                while i < n
                    invariant
                        n == us@.len(),
                        *f == DeriveFlag::UnaryOps(*us),
                        self.wf(),
                        self@ == old(self)@,
                        i <= n,
                        forall|k: int| 0 <= k < i ==> unary_ok(*nt, #[trigger] us@[k]),
                    decreases n - i,
                {
                    if !unary_supported(nt, &us[i]) {
                        assert(!unary_ok(*nt, us@[i as int]));
                        assert(f->UnaryOps_0 == *us);
                        return false;
                    }
                    i = i + 1;
                }
                true
            },
            _ => true,
        }
    }

    /// Decides `flags_supported`: whether the methods for `flags` can be
    /// generated for `new_type` from this generator's state, against the
    /// methods of `table`.
    pub fn derive_flags_supported(
        &self,
        new_type: &Newtype,
        table: &IndexMap<String, Vec<LuaMethod>>,
        flags: &Vec<DeriveFlag>,
    ) -> (res: bool)
        requires
            self.wf(),
        ensures
            res == flags_supported(self@, *new_type, table_entries(*table), flags@),
    {
        let mut scratch = self.duplicate();
        let ghost start = self@;
        let n = flags.len();
        let mut i: usize = 0;
        assert(flags@.take(0) =~= Seq::<DeriveFlag>::empty());
        while i < n
            invariant
                n == flags@.len(),
                start == self@,
                i <= n,
                scratch.wf(),
                flags_supported(start, *new_type, table_entries(*table), flags@.take(i as int)),
                scratch@ == flags_output(start, *new_type, flags@.take(i as int), table_entries(*table)).0,
            decreases n - i,
        {
            assert(flags@.take(i + 1).drop_last() =~= flags@.take(i as int));
            assert(flags@.take(i + 1).last() == flags@[i as int]);
            if !scratch.flag_is_supported(new_type, table, &flags[i]) {
                proof {
                    if flags_supported(start, *new_type, table_entries(*table), flags@) {
                        lemma_flags_supported_prefix(start, *new_type, table_entries(*table), flags@, i + 1);
                    }
                }
                return false;
            }
            i = i + 1;
        }
        assert(flags@.take(n as int) =~= flags@);
        true
    }
}

impl LuaImplementor {
    /// Appends the methods that flag `f` generates to `out`.
    fn push_flag_methods(
        &mut self,
        nt: &Newtype,
        f: &DeriveFlag,
        table: &IndexMap<String, Vec<LuaMethod>>,
        out: &mut Vec<GeneratedMethod>,
    )
        requires
            old(self).wf(),
            flag_supported(old(self)@, *nt, table_entries(*table), *f),
        ensures
            final(self).wf(),
            (final(self)@, outputs(final(out)@)) == {
                let (st, o) = flag_output(old(self)@, *nt, *f, table_entries(*table));
                (st, outputs(old(out)@) + o)
            },
    {
        let ghost start = outputs(out@);
        match f {
            DeriveFlag::DebugToString => {
                let g = GeneratedMethod::Source(
                    String::from_str("(mlua::MetaMethod::ToString) => |_,s,()| Ok(format!(\"{:?}\",s))"),
                );
                proof {
                    lemma_outputs_push(out@, g);
                }
                out.push(g);
                assert(outputs(out@) =~= start + seq![MethodOutput::Source(debug_to_string_text())]);
            },
            DeriveFlag::DisplayToString => {
                let g = GeneratedMethod::Source(
                    String::from_str("(mlua::MetaMethod::ToString) => |_,s,()| Ok(format!(\"{}\",s))"),
                );
                proof {
                    lemma_outputs_push(out@, g);
                }
                out.push(g);
                assert(outputs(out@) =~= start + seq![MethodOutput::Source(display_to_string_text())]);
            },
            DeriveFlag::AutoMethods(ms) => {
                let ghost all = ms@.map_values(|m: AutoMethod| MethodOutput::Source(auto_method_text(*nt, m)));
                let n = ms.len();
                let mut i: usize = 0;
                while i < n
                    invariant
                        n == ms@.len(),
                        all == ms@.map_values(|m: AutoMethod| MethodOutput::Source(auto_method_text(*nt, m))),
                        i <= n,
                        outputs(out@) == start + all.take(i as int),
                    decreases n - i,
                {
                    let g = GeneratedMethod::Source(auto_method_source(nt, &ms[i]));
                    proof {
                        lemma_outputs_push(out@, g);
                    }
                    out.push(g);
                    assert(start + all.take(i + 1) =~= (start + all.take(i as int)).push(all[i as int]));
                    i = i + 1;
                }
                assert(all.take(n as int) =~= all);
            },
            DeriveFlag::Copy(invs) => {
                let n = invs.len();
                let mut i: usize = 0;
                while i < n
                    invariant
                        n == invs@.len(),
                        forall|k: int| 0 <= k < invs@.len() ==> copy_ok(table_entries(*table), #[trigger] invs@[k]),
                        i <= n,
                        outputs(out@) == start + copies_output(table_entries(*table), invs@.take(i as int)),
                    decreases n - i,
                {
                    assert(invs@.take(i + 1).drop_last() =~= invs@.take(i as int));
                    push_copies(table, &invs[i], out);
                    assert(start + copies_output(table_entries(*table), invs@.take(i + 1)) =~= start + copies_output(
                        table_entries(*table),
                        invs@.take(i as int),
                    ) + copy_output(table_entries(*table), invs@[i as int]));
                    i = i + 1;
                }
                assert(invs@.take(n as int) =~= invs@);
            },
            DeriveFlag::BinOps(ops) => {
                self.push_binops(nt, ops, out);
            },
            DeriveFlag::UnaryOps(us) => {
                let ghost all = us@.map_values(|u: UnaryOp| MethodOutput::Source(unary_text(*nt, u)));
                let n = us.len();
                let mut i: usize = 0;
                while i < n
                    invariant
                        n == us@.len(),
                        forall|k: int| 0 <= k < us@.len() ==> unary_ok(*nt, #[trigger] us@[k]),
                        all == us@.map_values(|u: UnaryOp| MethodOutput::Source(unary_text(*nt, u))),
                        i <= n,
                        outputs(out@) == start + all.take(i as int),
                    decreases n - i,
                {
                    let g = GeneratedMethod::Source(unary_source(nt, &us[i]));
                    proof {
                        lemma_outputs_push(out@, g);
                    }
                    out.push(g);
                    assert(start + all.take(i + 1) =~= (start + all.take(i as int)).push(all[i as int]));
                    i = i + 1;
                }
                assert(all.take(n as int) =~= all);
            },
        }
    }

    /// The Lua methods that the derive flags of `new_type` ask for, flag by
    /// flag; copies are looked up among `functions_so_far`, the methods of
    /// the wrappers generated before. Unions used by operator metamethods
    /// are registered on the way.
    pub fn generate_derive_flag_functions(
        &mut self,
        new_type: &Newtype,
        derive_flags: &Vec<DeriveFlag>,
        functions_so_far: &IndexMap<String, Vec<LuaMethod>>,
    ) -> (res: Vec<GeneratedMethod>)
        requires
            old(self).wf(),
            flags_supported(old(self)@, *new_type, table_entries(*functions_so_far), derive_flags@),
        ensures
            final(self).wf(),
            (final(self)@, outputs(res@)) == flags_output(
                old(self)@,
                *new_type,
                derive_flags@,
                table_entries(*functions_so_far),
            ),
    {
        let mut out: Vec<GeneratedMethod> = Vec::new();
        let ghost start = self@;
        let n = derive_flags.len();
        let mut i: usize = 0;
        assert(outputs(out@) =~= Seq::<MethodOutput>::empty());
        while i < n
            invariant
                n == derive_flags@.len(),
                flags_supported(start, *new_type, table_entries(*functions_so_far), derive_flags@),
                i <= n,
                self.wf(),
                (self@, outputs(out@)) == flags_output(
                    start,
                    *new_type,
                    derive_flags@.take(i as int),
                    table_entries(*functions_so_far),
                ),
            decreases n - i,
        {
            assert(derive_flags@.take(i + 1).drop_last() =~= derive_flags@.take(i as int));
            assert(derive_flags@.take(i + 1).last() == derive_flags@[i as int]);
            proof {
                lemma_flags_supported_prefix(start, *new_type, table_entries(*functions_so_far), derive_flags@, i + 1);
            }
            self.push_flag_methods(new_type, &derive_flags[i], functions_so_far, &mut out);
            i = i + 1;
        }
        assert(derive_flags@.take(n as int) =~= derive_flags@);
        out
    }

    /// Generates the methods for `derive_flags` when they can be generated
    /// (`flags_supported`, tested first); otherwise returns `None` and
    /// leaves the generator as it was.
    pub fn try_generate_derive_flag_functions(
        &mut self,
        new_type: &Newtype,
        derive_flags: &Vec<DeriveFlag>,
        functions_so_far: &IndexMap<String, Vec<LuaMethod>>,
    ) -> (res: Option<Vec<GeneratedMethod>>)
        requires
            old(self).wf(),
        ensures
            final(self).wf(),
            res is Some <==> flags_supported(old(self)@, *new_type, table_entries(*functions_so_far), derive_flags@),
            res matches Some(v) ==> (final(self)@, outputs(v@)) == flags_output(
                old(self)@,
                *new_type,
                derive_flags@,
                table_entries(*functions_so_far),
            ),
            res is None ==> *final(self) == *old(self),
    {
        if self.derive_flags_supported(new_type, functions_so_far, derive_flags) {
            Some(self.generate_derive_flag_functions(new_type, derive_flags, functions_so_far))
        } else {
            None
        }
    }
}

/// Only operator flags touch the generator's state, and the state only
/// grows: every union registered before stays, in place and unique, and
/// every global declared before stays at the start of the globals.
pub proof fn law_flags_only_grow_state(
    st: ImplementorState,
    nt: Newtype,
    flags: Seq<DeriveFlag>,
    table: Seq<(String, Vec<LuaMethod>)>,
)
    ensures
        grows(st, flags_output(st, nt, flags, table).0),
        (forall|k: int| 0 <= k < flags.len() ==> !(#[trigger] flags[k] is BinOps))
            ==> flags_output(st, nt, flags, table).0 == st,
    decreases flags.len(),
{
    if flags.len() == 0 {
        lemma_grows_refl(st);
    } else {
        law_flags_only_grow_state(st, nt, flags.drop_last(), table);
        let (st1, _) = flags_output(st, nt, flags.drop_last(), table);
        let f = flags.last();
        match f {
            DeriveFlag::BinOps(ops) => {
                law_binops_one_per_operator(st1, nt, ops@);
                lemma_grows_trans(st, st1, flag_output(st1, nt, f, table).0);
            },
            _ => {},
        }
        if forall|k: int| 0 <= k < flags.len() ==> !(#[trigger] flags[k] is BinOps) {
            assert(!(flags[flags.len() - 1] is BinOps));
            assert forall|k: int| 0 <= k < flags.drop_last().len() implies !(#[trigger] flags.drop_last()[k] is BinOps) by {
                assert(flags.drop_last()[k] == flags[k]);
            }
        }
    }
}

/// How many methods one flag yields: one `ToString` metamethod, one method
/// per exposed method, one metamethod per unary operator, one per distinct
/// binary operator, and one copy per selected method of each request.
pub proof fn law_flag_method_count(
    st: ImplementorState,
    nt: Newtype,
    f: DeriveFlag,
    table: Seq<(String, Vec<LuaMethod>)>,
)
    ensures
        flag_output(st, nt, f, table).1.len() == match f {
            DeriveFlag::DebugToString => 1,
            DeriveFlag::DisplayToString => 1,
            DeriveFlag::AutoMethods(ms) => ms@.len() as int,
            DeriveFlag::UnaryOps(us) => us@.len() as int,
            DeriveFlag::BinOps(ops) => dedup(op_keys(ops@)).len() as int,
            DeriveFlag::Copy(invs) => copies_count(table, invs@),
        },
{
    match f {
        DeriveFlag::BinOps(ops) => {
            law_binops_one_per_operator(st, nt, ops@);
        },
        DeriveFlag::Copy(invs) => {
            lemma_copies_count(table, invs@);
        },
        _ => {},
    }
}

/// The total number of methods that a list of copy requests selects.
pub open spec fn copies_count(table: Seq<(String, Vec<LuaMethod>)>, invs: Seq<CopyInvocation>) -> int
    decreases invs.len(),
{
    if invs.len() == 0 {
        0
    } else {
        copies_count(table, invs.drop_last()) + copy_selection(table, invs.last()).len()
    }
}

proof fn lemma_copies_count(table: Seq<(String, Vec<LuaMethod>)>, invs: Seq<CopyInvocation>)
    ensures
        copies_output(table, invs).len() == copies_count(table, invs),
    decreases invs.len(),
{
    if invs.len() > 0 {
        lemma_copies_count(table, invs.drop_last());
    }
}

/// The closure arguments of a generated method have pairwise different
/// names.
pub proof fn law_arg_idents_distinct(n: nat)
    ensures
        arg_idents(n).no_duplicates(),
{
    assert forall|i: int, j: int| 0 <= i < n && 0 <= j < n && i != j implies arg_idents(n)[i] != arg_idents(n)[j] by {
        let a = arg_ident(i as nat);
        let b = arg_ident(j as nat);
        if a == b {
            let k = "a_"@.len() as int;
            assert(decimal(i as nat) =~= a.subrange(k, a.len() as int));
            assert(decimal(j as nat) =~= b.subrange(k, b.len() as int));
            law_decimal_injective(i as nat, j as nat);
        }
    }
}

/// Deriving two lists of flags one after the other is deriving their
/// concatenation: the methods come out in order and the state ends the
/// same; and the concatenation can be generated exactly when the first
/// list can, and the second can from the state the first leaves. No flags
/// give no methods and leave the state as it was.
pub proof fn law_flags_compose(
    st: ImplementorState,
    nt: Newtype,
    f1: Seq<DeriveFlag>,
    f2: Seq<DeriveFlag>,
    table: Seq<(String, Vec<LuaMethod>)>,
)
    ensures
        flags_output(st, nt, Seq::empty(), table) == (st, Seq::<MethodOutput>::empty()),
        flags_output(st, nt, f1 + f2, table) == {
            let (s1, o1) = flags_output(st, nt, f1, table);
            let (s2, o2) = flags_output(s1, nt, f2, table);
            (s2, o1 + o2)
        },
        flags_supported(st, nt, table, f1 + f2) == (flags_supported(st, nt, table, f1)
            && flags_supported(flags_output(st, nt, f1, table).0, nt, table, f2)),
    decreases f2.len(),
{
    let (s1, o1) = flags_output(st, nt, f1, table);
    if f2.len() == 0 {
        assert(f1 + f2 =~= f1);
        assert(o1 + Seq::<MethodOutput>::empty() =~= o1);
    } else {
        law_flags_compose(st, nt, f1, f2.drop_last(), table);
        assert((f1 + f2).drop_last() =~= f1 + f2.drop_last());
        assert((f1 + f2).last() == f2.last());
        let (s2, o2) = flags_output(s1, nt, f2.drop_last(), table);
        let (s3, o3) = flag_output(s2, nt, f2.last(), table);
        assert(o1 + o2 + o3 =~= o1 + (o2 + o3));
    }
}

/// The methods that flags generate do not depend on the generator's state.
pub proof fn law_flags_output_independent(
    st1: ImplementorState,
    st2: ImplementorState,
    nt: Newtype,
    flags: Seq<DeriveFlag>,
    table: Seq<(String, Vec<LuaMethod>)>,
)
    ensures
        flags_output(st1, nt, flags, table).1 == flags_output(st2, nt, flags, table).1,
    decreases flags.len(),
{
    if flags.len() > 0 {
        law_flags_output_independent(st1, st2, nt, flags.drop_last(), table);
        let a = flags_output(st1, nt, flags.drop_last(), table).0;
        let b = flags_output(st2, nt, flags.drop_last(), table).0;
        match flags.last() {
            DeriveFlag::BinOps(ops) => {
                law_groups_independent(a, b, nt, ops@, dedup(op_keys(ops@)));
            },
            _ => {},
        }
    }
}

/// The methods of `ms` of kind `t` are those with the same staticness,
/// mutability, function flag and key, in order.
proof fn lemma_matching_methods_filter(ms: Seq<LuaMethod>, t: MethodType)
    ensures
        matching_methods(ms, t) == ms.filter(
            |m: LuaMethod|
                m.method_type.is_static == t.is_static && m.method_type.is_mut == t.is_mut
                    && m.method_type.is_function == t.is_function && m.method_type.key@ == t.key@,
        ),
    decreases ms.len(),
{
    reveal(Seq::filter);
    if ms.len() > 0 {
        lemma_matching_methods_filter(ms.drop_last(), t);
    }
}

/// A copy request copies exactly the methods of its target that have the
/// requested kind and the requested key, in their order, each carrying the
/// request's arguments: a method under another key is never copied.
pub proof fn law_copies_match_request(table: Seq<(String, Vec<LuaMethod>)>, inv: CopyInvocation)
    requires
        table_index(table, inv.target@) >= 0,
    ensures
        copy_output(table, inv) == table[table_index(table, inv.target@)].1@.filter(
            |m: LuaMethod|
                m.method_type.is_static == inv.identifier.is_static && m.method_type.is_mut
                    == inv.identifier.is_mut && m.method_type.is_function == inv.identifier.is_function
                    && m.method_type.key@ == inv.identifier.key@,
        ).map_values(|m: LuaMethod| MethodOutput::Copied(m, views(inv.args@))),
        forall|i: int|
            0 <= i < copy_output(table, inv).len() ==> (#[trigger] copy_output(table, inv)[i] matches MethodOutput::Copied(
                m,
                a,
            ) && m.method_type.key@ == inv.identifier.key@ && m.method_type.is_static == inv.identifier.is_static
                && m.method_type.is_mut == inv.identifier.is_mut && m.method_type.is_function
                == inv.identifier.is_function && a == views(inv.args@)),
{
    let ms = table[table_index(table, inv.target@)].1@;
    lemma_matching_methods_filter(ms, inv.identifier);
    let f = ms.filter(
        |m: LuaMethod|
            m.method_type.is_static == inv.identifier.is_static && m.method_type.is_mut == inv.identifier.is_mut
                && m.method_type.is_function == inv.identifier.is_function && m.method_type.key@
                == inv.identifier.key@,
    );
    ms.filter_lemma(
        |m: LuaMethod|
            m.method_type.is_static == inv.identifier.is_static && m.method_type.is_mut == inv.identifier.is_mut
                && m.method_type.is_function == inv.identifier.is_function && m.method_type.key@
                == inv.identifier.key@,
    );
    assert forall|i: int| 0 <= i < copy_output(table, inv).len() implies (#[trigger] copy_output(
        table,
        inv,
    )[i] matches MethodOutput::Copied(m, a) && m.method_type.key@ == inv.identifier.key@
        && m.method_type.is_static == inv.identifier.is_static && m.method_type.is_mut == inv.identifier.is_mut
        && m.method_type.is_function == inv.identifier.is_function && a == views(inv.args@)) by {
        assert(copy_output(table, inv)[i] == MethodOutput::Copied(f[i], views(inv.args@)));
    }
}

/// An exposed method's call is wrapped according to its declared output
/// alone, for static functions exactly as for methods with a receiver:
/// `T::new(call)` for an output `T` whose name starts with `Lua`, the bare
/// call for another output, and `Wrapper::new(call)` with no output.
pub proof fn law_auto_method_wrapping(nt: Newtype, m: AutoMethod)
    ensures
        (match m.out {
            Some(o) => if o.text@.len() >= 3 && o.text@[0] == 'L' && o.text@[1] == 'u' && o.text@[2] == 'a' {
                wrapped_call(nt, m) == o.text@ + "::new("@ + method_call(nt, m) + ")"@
            } else {
                wrapped_call(nt, m) == method_call(nt, m)
            },
            None => wrapped_call(nt, m) == nt.wrapper_type@ + "::new("@ + method_call(nt, m) + ")"@,
        }),
{
}

/// A unary metamethod returns `R::new(op ud)` exactly when the result's base
/// name `R` starts with `Lua`, and the bare `op ud` otherwise, whether `R`
/// was declared or is the wrapper by default.
pub proof fn law_unary_wrapping(nt: Newtype, u: UnaryOp)
    ensures
        ({
            let r = return_base(nt, u.return_type);
            let body = u.op.symbol@ + (if u.reference {
                "(&ud.clone())"@
            } else {
                "ud.clone()"@
            });
            unary_text(nt, u) == "(mlua::MetaMethod::"@ + u.op.metamethod@ + ") => |_,ud,()|{ return Ok("@ + (if r.len()
                >= 3 && r[0] == 'L' && r[1] == 'u' && r[2] == 'a' {
                r + "::new("@ + body + ")"@
            } else {
                body
            }) + ") }"@
        }),
{
}

/// Declaring the wrapper itself as a unary operator's result gives the same
/// metamethod as leaving the result out.
pub proof fn law_unary_declared_wrapper_as_default(nt: Newtype, u: UnaryOp, t: TypeModel)
    requires
        t.base matches Some(b) && b@ == nt.wrapper_type@,
    ensures
        unary_text(nt, UnaryOp { op: u.op, reference: u.reference, return_type: Some(t) }) == unary_text(
            nt,
            UnaryOp { op: u.op, reference: u.reference, return_type: None },
        ),
{
}

} // verus!
