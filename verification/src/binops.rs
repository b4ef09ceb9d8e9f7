//! Binary operator metamethods: operators are grouped by operator in an
//! `IndexMap` from operator key to positions (`group_map`); each
//! group dispatches on a union of the accepted argument types, with the
//! wrapped value tried on the left first.

use vstd::prelude::*;
use crate::model::{BinaryOp, Newtype, OpName, Operand, TypeModel};
use crate::idents::{ident_ok, ident_text_ok};
use crate::text::{
    views, concat, contains_text, starts_with_lua, lemma_views_push, concat_strings, find_text, has_lua_prefix, decimal,
    decimal_string, is_digit, lemma_decimal_digits, law_decimal_injective,
};
use crate::unions::{
    ImplementorState, LuaImplementor, register_union, register_ok, dedup, grows, lemma_grows_trans,
    lemma_grows_refl, law_register_grows, law_dedup_unique_same_elements,
};
use crate::group_map::{
    group_entries, entry_index, entry_views, lemma_entry_index, new_group_map, group_map_insert, group_map_into_vec,
};
use crate::derive_flags::{
    GeneratedMethod, MethodOutput, outputs, lemma_outputs_push, return_base, return_type_ok,
    wrap_if_wrapper, return_base_string, wrap_if_wrapper_string, return_type_supported,
};

verus! {

/// The side of an operator that is not the wrapped value: the left one
/// when both are other types; none when both are the wrapped value.
pub open spec fn typed_side(o: BinaryOp) -> Option<TypeModel> {
    match o.lhs {
        Operand::Typed(t) => Some(t),
        Operand::SelfValue { .. } => match o.rhs {
            Operand::Typed(t) => Some(t),
            Operand::SelfValue { .. } => None,
        },
    }
}

/// The base identifier of the typed side.
pub open spec fn typed_base(o: BinaryOp) -> Seq<char> {
    match typed_side(o) {
        Some(t) => match t.base {
            Some(b) => b@,
            None => Seq::empty(),
        },
        None => Seq::empty(),
    }
}

/// An operator can be generated: it has a typed side with a base
/// identifier, and its declared result type, if any, has one too.
pub open spec fn binary_op_ok(o: BinaryOp) -> bool {
    &&& typed_side(o) matches Some(t) && t.base is Some
    &&& return_type_ok(o.return_type)
}

/// Whether the wrapped value stands on the left of the operator.
pub open spec fn receiver_on_lhs(o: BinaryOp) -> bool {
    o.lhs is SelfValue
}

/// How an operand is written in the generated body; `wrapper` says whether
/// the argument type is a wrapper, which is then cloned out of the union.
pub open spec fn operand_text(x: Operand, wrapper: bool) -> Seq<char> {
    match x {
        Operand::SelfValue { reference } => if reference {
            "&ud.clone()"@
        } else {
            "(ud.clone())"@
        },
        Operand::Typed(t) => {
            let inner = if wrapper {
                "v.clone()"@
            } else {
                "v"@
            };
            if t.reference is Some {
                "(&"@ + inner + ")"@
            } else {
                inner
            }
        },
    }
}

/// The expression that applies the operator.
pub open spec fn op_body(o: BinaryOp) -> Seq<char> {
    let w = starts_with_lua(typed_base(o));
    operand_text(o.lhs, w) + " "@ + o.op.symbol@ + " "@ + operand_text(o.rhs, w)
}

/// The match arm that handles operator `o` when the other argument arrives
/// in union `arg_type`; the result goes into union `ret_arg`.
pub open spec fn handler_arm(nt: Newtype, o: BinaryOp, arg_type: Seq<char>, ret_arg: Seq<char>) -> Seq<char> {
    let rs = return_base(nt, o.return_type);
    arg_type + "::"@ + typed_base(o) + "(v) => Ok("@ + ret_arg + "::"@ + rs + "("@ + wrap_if_wrapper(
        rs,
        op_body(o),
    ) + ")),"@
}

/// The key by which operators are grouped: the metamethod's length in
/// decimal, a colon, the metamethod and the symbol. Two operators have the
/// same key exactly when they are the same operator
/// (`law_op_key_identifies_operator`).
pub open spec fn op_key(o: OpName) -> Seq<char> {
    decimal(o.metamethod@.len()) + ":"@ + o.metamethod@ + o.symbol@
}

/// The keys of the operators of `ops`, in order.
pub open spec fn op_keys(ops: Seq<BinaryOp>) -> Seq<Seq<char>> {
    ops.map_values(|o: BinaryOp| op_key(o.op))
}

/// The metamethod of a group of operators: that of its first operator.
pub open spec fn group_meta(group: Seq<BinaryOp>) -> Seq<char> {
    if group.len() > 0 {
        group[0].op.metamethod@
    } else {
        Seq::empty()
    }
}

/// The operators of `ops` whose key is `key`, in order.
pub open spec fn ops_with_key(ops: Seq<BinaryOp>, key: Seq<char>) -> Seq<BinaryOp>
    decreases ops.len(),
{
    if ops.len() == 0 {
        Seq::empty()
    } else if op_key(ops.last().op) == key {
        ops_with_key(ops.drop_last(), key).push(ops.last())
    } else {
        ops_with_key(ops.drop_last(), key)
    }
}

/// The operators of `ops` with the wrapped value on the left (`on_lhs`) or
/// not, in order.
pub open spec fn ops_by_side(ops: Seq<BinaryOp>, on_lhs: bool) -> Seq<BinaryOp>
    decreases ops.len(),
{
    if ops.len() == 0 {
        Seq::empty()
    } else if receiver_on_lhs(ops.last()) == on_lhs {
        ops_by_side(ops.drop_last(), on_lhs).push(ops.last())
    } else {
        ops_by_side(ops.drop_last(), on_lhs)
    }
}

/// The members of the union for one side: the typed sides' identifiers,
/// and the wrapper itself when the group also has operators of the other
/// side.
pub open spec fn side_union(nt: Newtype, side: Seq<BinaryOp>, group_len: nat) -> Seq<Seq<char>> {
    let us = side.map_values(|o: BinaryOp| typed_base(o));
    if group_len != us.len() {
        us.push(nt.wrapper_type@)
    } else {
        us
    }
}

/// The dispatch on the other argument for one side: the new state, the
/// `match` text and the union the argument arrives in.
pub open spec fn side_handlers(
    st: ImplementorState,
    nt: Newtype,
    side: Seq<BinaryOp>,
    group_len: nat,
    side_lit: Seq<char>,
    meta: Seq<char>,
    ret_arg: Seq<char>,
) -> (ImplementorState, Seq<char>, Seq<char>) {
    let (st1, arg) = register_union(st, side_union(nt, side, group_len));
    let arms = concat(side.map_values(|o: BinaryOp| handler_arm(nt, o, arg, ret_arg)));
    (
        st1,
        "match v { "@ + arms
            + " _ => Err(tealr::mlu::mlua::Error::RuntimeError(format!(\"tried to `{}` `{}` with another argument on the `{}` side, but its type is not supported\", stringify!("@
            + meta + "), stringify!("@ + nt.wrapper_type@ + "), "@ + side_lit + "))) }"@,
        arg,
    )
}

/// The metamethod for a group of operators that are the same operator.
pub open spec fn group_output(st: ImplementorState, nt: Newtype, group: Seq<BinaryOp>) -> (ImplementorState, Seq<char>) {
    let meta = group_meta(group);
    let w = nt.wrapper_type@;
    let lhs_union = ops_by_side(group, false);
    let rhs_union = ops_by_side(group, true);
    let (st1, ret_arg) = register_union(st, group.map_values(|o: BinaryOp| return_base(nt, o.return_type)));
    let (st2, rh, rhs_arg) = side_handlers(st1, nt, rhs_union, group.len(), "\"right\""@, meta, ret_arg);
    let (st3, lh, lhs_arg) = side_handlers(st2, nt, lhs_union, group.len(), "\"left\""@, meta, ret_arg);
    let rh2 = if contains_text(lhs_arg, w) {
        "("@ + lhs_arg + "::"@ + w + "(ud),v) => {"@ + rh + "},"@
    } else {
        ""@
    };
    let lh2 = if contains_text(rhs_arg, w) {
        "(v,"@ + rhs_arg + "::"@ + w + "(ud)) => {"@ + lh + "},"@
    } else {
        ""@
    };
    (
        st3,
        "fn (mlua::MetaMethod::"@ + meta + ") => |ctx, (lhs,rhs) :("@ + lhs_arg + ","@ + rhs_arg
            + ")| { match (lhs,rhs) { "@ + rh2 + " "@ + lh2
            + " _ => Err(tealr::mlu::mlua::Error::RuntimeError(format!(\"tried to `{}` two arguments, none of which are of type `{}` \", stringify!("@
            + meta + "), stringify!("@ + w + ")))) } }"@,
    )
}

/// The metamethods for the groups with the operator keys `keys`, in order.
pub open spec fn groups_output(st: ImplementorState, nt: Newtype, ops: Seq<BinaryOp>, keys: Seq<Seq<char>>) -> (ImplementorState, Seq<MethodOutput>)
    decreases keys.len(),
{
    if keys.len() == 0 {
        (st, Seq::empty())
    } else {
        let (st1, out1) = groups_output(st, nt, ops, keys.drop_last());
        let (st2, text) = group_output(st1, nt, ops_with_key(ops, keys.last()));
        (st2, out1.push(MethodOutput::Source(text)))
    }
}

/// The metamethods for a list of operators: one per distinct operator, in
/// the order of each operator's first occurrence.
pub open spec fn binops_output(st: ImplementorState, nt: Newtype, ops: Seq<BinaryOp>) -> (ImplementorState, Seq<MethodOutput>) {
    groups_output(st, nt, ops, dedup(op_keys(ops)))
}

/// The metamethod for a group can be generated in state `st`:
/// `format_ident!` accepts every typed side's and result's identifier, and
/// the three unions can be registered in turn.
pub open spec fn group_ok(st: ImplementorState, nt: Newtype, group: Seq<BinaryOp>) -> bool {
    let meta = group_meta(group);
    let rets = group.map_values(|o: BinaryOp| return_base(nt, o.return_type));
    let (st1, ret_arg) = register_union(st, rets);
    let (st2, rh, rhs_arg) = side_handlers(st1, nt, ops_by_side(group, true), group.len(), "\"right\""@, meta, ret_arg);
    &&& forall|k: int| 0 <= k < group.len() ==> ident_ok(typed_base(#[trigger] group[k])) && ident_ok(
        return_base(nt, group[k].return_type),
    )
    &&& register_ok(st, rets)
    &&& register_ok(st1, side_union(nt, ops_by_side(group, true), group.len()))
    &&& register_ok(st2, side_union(nt, ops_by_side(group, false), group.len()))
}

/// The metamethods for the groups `keys` can be generated in turn.
pub open spec fn groups_ok(st: ImplementorState, nt: Newtype, ops: Seq<BinaryOp>, keys: Seq<Seq<char>>) -> bool
    decreases keys.len(),
{
    if keys.len() == 0 {
        true
    } else {
        &&& groups_ok(st, nt, ops, keys.drop_last())
        &&& group_ok(groups_output(st, nt, ops, keys.drop_last()).0, nt, ops_with_key(ops, keys.last()))
    }
}

/// The metamethods for a list of binary operators can be generated in
/// state `st`.
pub open spec fn binops_ok(st: ImplementorState, nt: Newtype, ops: Seq<BinaryOp>) -> bool {
    groups_ok(st, nt, ops, dedup(op_keys(ops)))
}

/// Generation possible for some groups is possible for each prefix of them.
proof fn lemma_groups_ok_prefix(st: ImplementorState, nt: Newtype, ops: Seq<BinaryOp>, keys: Seq<Seq<char>>, j: int)
    requires
        groups_ok(st, nt, ops, keys),
        0 <= j <= keys.len(),
    ensures
        groups_ok(st, nt, ops, keys.take(j)),
    decreases keys.len(),
{
    if j == keys.len() {
        assert(keys.take(j) =~= keys);
    } else {
        assert(keys.drop_last().take(j) =~= keys.take(j));
        lemma_groups_ok_prefix(st, nt, ops, keys.drop_last(), j);
    }
}

/// The operators at the positions `idx`.
pub open spec fn index_ops(ops: Seq<BinaryOp>, idx: Seq<usize>) -> Seq<BinaryOp> {
    idx.map_values(|j: usize| ops[j as int])
}

/// All positions lie within `ops`.
pub open spec fn in_bounds(ops: Seq<BinaryOp>, idx: Seq<usize>) -> bool {
    forall|k: int| 0 <= k < idx.len() ==> idx[k] < ops.len()
}

/// Decides `binary_op_ok`.
pub fn binary_op_supported(o: &BinaryOp) -> (res: bool)
    ensures
        res == binary_op_ok(*o),
{
    let typed_ok = match &o.lhs {
        Operand::Typed(t) => t.base.is_some(),
        Operand::SelfValue { .. } => match &o.rhs {
            Operand::Typed(t) => t.base.is_some(),
            Operand::SelfValue { .. } => false,
        },
    };
    typed_ok && return_type_supported(&o.return_type)
}

/// The key of operator `o`.
pub fn op_key_string(o: &OpName) -> (res: String)
    ensures
        res@ == op_key(*o),
{
    let mut res = decimal_string(o.metamethod.as_str().unicode_len());
    res.append(":");
    res.append(o.metamethod.as_str());
    res.append(o.symbol.as_str());
    res
}

/// Two operators have the same key exactly when they have the same
/// metamethod and the same symbol.
pub proof fn law_op_key_identifies_operator(a: OpName, b: OpName)
    ensures
        op_key(a) == op_key(b) <==> (a.metamethod@ == b.metamethod@ && a.symbol@ == b.symbol@),
{
    reveal_strlit(":");
    if op_key(a) == op_key(b) {
        let da = decimal(a.metamethod@.len());
        let db = decimal(b.metamethod@.len());
        lemma_decimal_digits(a.metamethod@.len());
        lemma_decimal_digits(b.metamethod@.len());
        let ka = op_key(a);
        let kb = op_key(b);
        assert(ka[da.len() as int] == ':');
        assert(kb[db.len() as int] == ':');
        assert(!is_digit(':'));
        if da.len() < db.len() {
            assert(kb[da.len() as int] == db[da.len() as int]);
            assert(is_digit(db[da.len() as int]));
        } else if db.len() < da.len() {
            assert(ka[db.len() as int] == da[db.len() as int]);
            assert(is_digit(da[db.len() as int]));
        }
        assert(da =~= ka.take(da.len() as int));
        assert(db =~= kb.take(db.len() as int));
        law_decimal_injective(a.metamethod@.len(), b.metamethod@.len());
        let n = a.metamethod@.len();
        let rest = ka.skip(da.len() as int + 1);
        assert(rest =~= a.metamethod@ + a.symbol@);
        assert(rest =~= b.metamethod@ + b.symbol@);
        assert(a.metamethod@ =~= rest.take(n as int));
        assert(b.metamethod@ =~= rest.take(n as int));
        assert(a.symbol@ =~= rest.skip(n as int));
        assert(b.symbol@ =~= rest.skip(n as int));
    }
}

/// The operators with key `key` all have that key.
proof fn lemma_ops_with_key_keys(ops: Seq<BinaryOp>, key: Seq<char>)
    ensures
        forall|t: int| 0 <= t < ops_with_key(ops, key).len() ==> op_key(#[trigger] ops_with_key(ops, key)[t].op) == key,
    decreases ops.len(),
{
    if ops.len() > 0 {
        lemma_ops_with_key_keys(ops.drop_last(), key);
    }
}

/// A group holds one operator only: each of its members has the group's
/// key, the group's metamethod (`group_meta`, which the group's text names)
/// and the symbol of its first member.
pub proof fn law_group_is_one_operator(ops: Seq<BinaryOp>, key: Seq<char>)
    ensures
        forall|t: int| 0 <= t < ops_with_key(ops, key).len() ==> ({
            let o = #[trigger] ops_with_key(ops, key)[t];
            &&& op_key(o.op) == key
            &&& o.op.metamethod@ == group_meta(ops_with_key(ops, key))
            &&& o.op.symbol@ == ops_with_key(ops, key)[0].op.symbol@
        }),
{
    let g = ops_with_key(ops, key);
    lemma_ops_with_key_keys(ops, key);
    assert forall|t: int| 0 <= t < g.len() implies ({
        let o = #[trigger] g[t];
        &&& op_key(o.op) == key
        &&& o.op.metamethod@ == group_meta(g)
        &&& o.op.symbol@ == g[0].op.symbol@
    }) by {
        law_op_key_identifies_operator(g[t].op, g[0].op);
    }
}

/// The positions of the operators of `ops` with key `key`, in order.
pub open spec fn key_positions(ops: Seq<BinaryOp>, key: Seq<char>) -> Seq<usize>
    decreases ops.len(),
{
    if ops.len() == 0 {
        Seq::empty()
    } else if op_key(ops.last().op) == key {
        key_positions(ops.drop_last(), key).push((ops.len() - 1) as usize)
    } else {
        key_positions(ops.drop_last(), key)
    }
}

/// The groups of `ops`: each distinct key with the positions of its
/// operators, in order of first occurrence.
pub open spec fn op_groups(ops: Seq<BinaryOp>) -> Seq<(Seq<char>, Seq<usize>)> {
    dedup(op_keys(ops)).map_values(|k: Seq<char>| (k, key_positions(ops, k)))
}

/// The positions under a key pick out the operators with that key.
proof fn lemma_key_positions(ops: Seq<BinaryOp>, key: Seq<char>)
    requires
        ops.len() <= usize::MAX,
    ensures
        in_bounds(ops, key_positions(ops, key)),
        index_ops(ops, key_positions(ops, key)) == ops_with_key(ops, key),
    decreases ops.len(),
{
    if ops.len() > 0 {
        let p = ops.drop_last();
        lemma_key_positions(p, key);
        let kp = key_positions(p, key);
        assert(index_ops(ops, kp) =~= index_ops(p, kp));
        if op_key(ops.last().op) == key {
            assert(index_ops(ops, kp.push((ops.len() - 1) as usize)) =~= index_ops(ops, kp).push(ops.last()));
        }
    }
}

/// A key that no operator has has no positions.
proof fn lemma_key_positions_absent(ops: Seq<BinaryOp>, key: Seq<char>)
    requires
        !op_keys(ops).contains(key),
    ensures
        key_positions(ops, key) == Seq::<usize>::empty(),
    decreases ops.len(),
{
    if ops.len() > 0 {
        let p = ops.drop_last();
        assert(op_keys(ops)[ops.len() - 1] == op_key(ops.last().op));
        if op_keys(p).contains(key) {
            let t = choose|t: int| 0 <= t < op_keys(p).len() && op_keys(p)[t] == key;
            assert(op_keys(ops)[t] == op_keys(p)[t]);
        }
        lemma_key_positions_absent(p, key);
    }
}

/// One more operator joins the group of its key, or opens a new group at
/// the end.
proof fn lemma_op_groups_push(p: Seq<BinaryOp>, o: BinaryOp)
    requires
        p.len() < usize::MAX,
    ensures
        ({
            let e = op_groups(p);
            let k = op_key(o.op);
            let j = entry_index(e, k);
            op_groups(p.push(o)) == if j >= 0 {
                e.update(j, (k, e[j].1.push(p.len() as usize)))
            } else {
                e.push((k, seq![p.len() as usize]))
            }
        }),
{
    let q = p.push(o);
    let k = op_key(o.op);
    let e = op_groups(p);
    let d = dedup(op_keys(p));
    assert(q.drop_last() =~= p);
    assert(op_keys(q).drop_last() =~= op_keys(p));
    assert(op_keys(q).last() == k);
    law_dedup_unique_same_elements(op_keys(p));
    lemma_entry_index(e, k);
    assert forall|x: Seq<char>| #[trigger] key_positions(q, x) == (if x == k {
        key_positions(p, x).push(p.len() as usize)
    } else {
        key_positions(p, x)
    }) by {}
    let j = entry_index(e, k);
    if j >= 0 {
        assert(e[j].0 == d[j]);
        assert(d.contains(k));
        assert(dedup(op_keys(q)) == d);
        assert forall|t: int| 0 <= t < d.len() implies #[trigger] op_groups(q)[t] == e.update(
            j,
            (k, e[j].1.push(p.len() as usize)),
        )[t] by {
            if t != j {
                assert(d[t] != d[j]);
            }
        }
        assert(op_groups(q) =~= e.update(j, (k, e[j].1.push(p.len() as usize))));
    } else {
        if d.contains(k) {
            let t = choose|t: int| 0 <= t < d.len() && d[t] == k;
            assert(e[t].0 == d[t]);
        }
        assert(dedup(op_keys(q)) == d.push(k));
        lemma_key_positions_absent(p, k);
        assert forall|t: int| 0 <= t < d.len() implies #[trigger] op_groups(q)[t] == e[t] by {
            assert(d[t] != k);
        }
        assert(op_groups(q) =~= e.push((k, seq![p.len() as usize])));
    }
}

/// The operators of `ops` grouped by key, each group with the positions of
/// its operators, in order of first appearance.
fn group_operators(ops: &Vec<BinaryOp>) -> (res: Vec<(String, Vec<usize>)>)
    ensures
        entry_views(res@) == op_groups(ops@),
{
    let mut map = new_group_map();
    let n = ops.len();
    let mut i: usize = 0;
    assert(op_groups(ops@.take(0)) =~= Seq::<(Seq<char>, Seq<usize>)>::empty());
    while i < n
        invariant
            n == ops@.len(),
            i <= n,
            group_entries(map) == op_groups(ops@.take(i as int)),
        decreases n - i,
    {
        let key = op_key_string(&ops[i].op);
        let ghost e = group_entries(map);
        let ghost j = entry_index(e, key@);
        proof {
            lemma_entry_index(e, key@);
        }
        let previous = group_map_insert(&mut map, key.clone(), Vec::new());
        let ghost e1 = group_entries(map);
        let mut positions = match previous {
            Some(v) => v,
            None => Vec::new(),
        };
        positions.push(i);
        proof {
            lemma_entry_index(e1, key@);
            if j >= 0 {
                assert(e1[j].0 == key@);
                assert forall|t: int| 0 <= t < j implies #[trigger] e1[t].0 != key@ by {
                    assert(e1[t] == e[t]);
                }
                assert(entry_index(e1, key@) == j);
                assert(positions@ == e[j].1.push(i));
            } else {
                assert(e1[e.len() as int].0 == key@);
                assert forall|t: int| 0 <= t < e.len() implies #[trigger] e1[t].0 != key@ by {
                    assert(e1[t] == e[t]);
                }
                assert(entry_index(e1, key@) == e.len());
                assert(positions@ =~= seq![i]);
            }
        }
        group_map_insert(&mut map, key, positions);
        proof {
            assert(ops@.take(i + 1) =~= ops@.take(i as int).push(ops@[i as int]));
            lemma_op_groups_push(ops@.take(i as int), ops@[i as int]);
            if j >= 0 {
                assert(group_entries(map) =~= e.update(j, (key@, e[j].1.push(i))));
            } else {
                assert(group_entries(map) =~= e.push((key@, seq![i])));
            }
        }
        i = i + 1;
    }
    assert(ops@.take(n as int) =~= ops@);
    group_map_into_vec(map)
}

/// The `i`-th group holds the operators with the `i`-th distinct key.
proof fn lemma_group_entry(ops: Seq<BinaryOp>, groups: Seq<(String, Vec<usize>)>, i: int)
    requires
        entry_views(groups) == op_groups(ops),
        0 <= i < groups.len(),
        ops.len() <= usize::MAX,
    ensures
        in_bounds(ops, groups[i].1@),
        index_ops(ops, groups[i].1@) == ops_with_key(ops, dedup(op_keys(ops))[i]),
{
    let kv = dedup(op_keys(ops));
    assert(entry_views(groups).len() == groups.len());
    assert(op_groups(ops).len() == kv.len());
    assert(entry_views(groups)[i] == (groups[i].0@, groups[i].1@));
    assert(op_groups(ops)[i] == (kv[i], key_positions(ops, kv[i])));
    assert(groups[i].1@ == key_positions(ops, kv[i]));
    lemma_key_positions(ops, kv[i]);
}

/// The positions among `group` of the operators with the wrapped value on
/// the left (`on_lhs`) or not.
fn positions_by_side(ops: &Vec<BinaryOp>, group: &Vec<usize>, on_lhs: bool) -> (res: Vec<usize>)
    requires
        in_bounds(ops@, group@),
    ensures
        in_bounds(ops@, res@),
        index_ops(ops@, res@) == ops_by_side(index_ops(ops@, group@), on_lhs),
{
    let mut res: Vec<usize> = Vec::new();
    let ghost g = index_ops(ops@, group@);
    let n = group.len();
    let mut i: usize = 0;
    while i < n
        invariant
            n == group@.len(),
            g == index_ops(ops@, group@),
            in_bounds(ops@, group@),
            i <= n,
            in_bounds(ops@, res@),
            index_ops(ops@, res@) == ops_by_side(g.take(i as int), on_lhs),
        decreases n - i,
    {
        assert(g.take(i + 1).drop_last() =~= g.take(i as int));
        assert(g.take(i + 1).last() == ops@[group@[i as int] as int]);
        let j = group[i];
        let left = match &ops[j].lhs {
            Operand::SelfValue { .. } => true,
            Operand::Typed(_) => false,
        };
        if left == on_lhs {
            res.push(j);
            assert(index_ops(ops@, res@) =~= ops_by_side(g.take(i as int), on_lhs).push(ops@[j as int]));
        }
        i = i + 1;
    }
    assert(g.take(n as int) =~= g);
    res
}

/// The base identifier of the typed side of `o`.
fn typed_base_string(o: &BinaryOp) -> (res: String)
    requires
        binary_op_ok(*o),
    ensures
        res@ == typed_base(*o),
{
    let t = match &o.lhs {
        Operand::Typed(t) => t,
        Operand::SelfValue { .. } => match &o.rhs {
            Operand::Typed(t) => t,
            Operand::SelfValue { .. } => {
                proof {
                    assert(false);
                }
                return String::new();
            },
        },
    };
    match &t.base {
        Some(b) => b.clone(),
        None => String::new(),
    }
}

/// How operand `x` is written in the generated body.
fn operand_string(x: &Operand, wrapper: bool) -> (res: String)
    ensures
        res@ == operand_text(*x, wrapper),
{
    match x {
        Operand::SelfValue { reference } => String::from_str(if *reference {
            "&ud.clone()"
        } else {
            "(ud.clone())"
        }),
        Operand::Typed(t) => {
            let inner = if wrapper {
                "v.clone()"
            } else {
                "v"
            };
            if t.reference.is_some() {
                let mut s = String::from_str("(&");
                s.append(inner);
                s.append(")");
                s
            } else {
                String::from_str(inner)
            }
        },
    }
}

/// The match arm for operator `o`.
fn handler_arm_string(nt: &Newtype, o: &BinaryOp, arg_type: &String, ret_arg: &String) -> (res: String)
    requires
        binary_op_ok(*o),
    ensures
        res@ == handler_arm(*nt, *o, arg_type@, ret_arg@),
{
    let tb = typed_base_string(o);
    let w = has_lua_prefix(tb.as_str());
    let l = operand_string(&o.lhs, w);
    let r = operand_string(&o.rhs, w);
    let mut body = String::from_str(l.as_str());
    body.append(" ");
    body.append(o.op.symbol.as_str());
    body.append(" ");
    body.append(r.as_str());
    assert(body@ == op_body(*o));
    let rs = return_base_string(nt, &o.return_type);
    let wrapped = wrap_if_wrapper_string(&rs, &body);
    let mut res = String::from_str(arg_type.as_str());
    res.append("::");
    res.append(tb.as_str());
    res.append("(v) => Ok(");
    res.append(ret_arg.as_str());
    res.append("::");
    res.append(rs.as_str());
    res.append("(");
    res.append(wrapped.as_str());
    res.append(")),");
    res
}

/// The members of the union for the operators at `side`.
fn side_union_strings(nt: &Newtype, ops: &Vec<BinaryOp>, side: &Vec<usize>, group_len: usize) -> (res: Vec<String>)
    requires
        in_bounds(ops@, side@),
        forall|k: int| 0 <= k < ops@.len() ==> binary_op_ok(#[trigger] ops@[k]),
    ensures
        views(res@) == side_union(*nt, index_ops(ops@, side@), group_len as nat),
{
    let ghost sops = index_ops(ops@, side@);
    let mut us: Vec<String> = Vec::new();
    let n = side.len();
    let mut i: usize = 0;
    while i < n
        invariant
            n == side@.len(),
            sops == index_ops(ops@, side@),
            in_bounds(ops@, side@),
            forall|k: int| 0 <= k < ops@.len() ==> binary_op_ok(#[trigger] ops@[k]),
            i <= n,
            views(us@) == sops.take(i as int).map_values(|o: BinaryOp| typed_base(o)),
        decreases n - i,
    {
        let p = typed_base_string(&ops[side[i]]);
        proof {
            lemma_views_push(us@, p);
        }
        us.push(p);
        assert(sops.take(i + 1).map_values(|o: BinaryOp| typed_base(o)) =~= sops.take(
            i as int,
        ).map_values(|o: BinaryOp| typed_base(o)).push(typed_base(sops[i as int])));
        i = i + 1;
    }
    assert(sops.take(n as int) =~= sops);
    if group_len != n {
        let w = nt.wrapper_type.clone();
        proof {
            lemma_views_push(us@, w);
        }
        us.push(w);
    }
    assert(views(us@) == side_union(*nt, sops, group_len as nat));
    us
}

/// The members of the result union of the operators at `group`.
fn return_union_strings(nt: &Newtype, ops: &Vec<BinaryOp>, group: &Vec<usize>) -> (res: Vec<String>)
    requires
        in_bounds(ops@, group@),
        forall|k: int| 0 <= k < ops@.len() ==> binary_op_ok(#[trigger] ops@[k]),
    ensures
        views(res@) == index_ops(ops@, group@).map_values(|o: BinaryOp| return_base(*nt, o.return_type)),
{
    let ghost g = index_ops(ops@, group@);
    let ghost all_ret = g.map_values(|o: BinaryOp| return_base(*nt, o.return_type));
    let mut rets: Vec<String> = Vec::new();
    let n = group.len();
    let mut i: usize = 0;
    while i < n
        invariant
            n == group@.len(),
            g == index_ops(ops@, group@),
            in_bounds(ops@, group@),
            forall|k: int| 0 <= k < ops@.len() ==> binary_op_ok(#[trigger] ops@[k]),
            all_ret == g.map_values(|o: BinaryOp| return_base(*nt, o.return_type)),
            i <= n,
            views(rets@) == all_ret.take(i as int),
        decreases n - i,
    {
        let p = return_base_string(nt, &ops[group[i]].return_type);
        proof {
            lemma_views_push(rets@, p);
        }
        rets.push(p);
        assert(all_ret.take(i as int).push(all_ret[i as int]) =~= all_ret.take(i + 1));
        i = i + 1;
    }
    assert(all_ret.take(n as int) =~= all_ret);
    rets
}

impl LuaImplementor {
    /// The dispatch on the other argument for the operators at `side`.
    fn side_handler_strings(
        &mut self,
        nt: &Newtype,
        ops: &Vec<BinaryOp>,
        side: &Vec<usize>,
        group_len: usize,
        side_lit: &str,
        meta: &String,
        ret_arg: &String,
    ) -> (res: (String, String))
        requires
            old(self).wf(),
            in_bounds(ops@, side@),
            forall|k: int| 0 <= k < ops@.len() ==> binary_op_ok(#[trigger] ops@[k]),
            register_ok(old(self)@, side_union(*nt, index_ops(ops@, side@), group_len as nat)),
        ensures
            final(self).wf(),
            (final(self)@, res.0@, res.1@) == side_handlers(
                old(self)@,
                *nt,
                index_ops(ops@, side@),
                group_len as nat,
                side_lit@,
                meta@,
                ret_arg@,
            ),
    {
        let ghost sops = index_ops(ops@, side@);
        let us = side_union_strings(nt, ops, side, group_len);
        let n = side.len();
        let arg = self.generate_register_union(&us);
        let ghost all_arms = sops.map_values(|o: BinaryOp| handler_arm(*nt, o, arg@, ret_arg@));
        let mut arms: Vec<String> = Vec::new();
        let mut i: usize = 0;
        while i < n
            invariant
                n == side@.len(),
                sops == index_ops(ops@, side@),
                in_bounds(ops@, side@),
                forall|k: int| 0 <= k < ops@.len() ==> binary_op_ok(#[trigger] ops@[k]),
                all_arms == sops.map_values(|o: BinaryOp| handler_arm(*nt, o, arg@, ret_arg@)),
                i <= n,
                views(arms@) == all_arms.take(i as int),
            decreases n - i,
        {
            let p = handler_arm_string(nt, &ops[side[i]], &arg, ret_arg);
            proof {
                lemma_views_push(arms@, p);
            }
            arms.push(p);
            assert(all_arms.take(i as int).push(all_arms[i as int]) =~= all_arms.take(i + 1));
            i = i + 1;
        }
        assert(all_arms.take(n as int) =~= all_arms);
        let joined = concat_strings(&arms);
        let mut text = String::from_str("match v { ");
        text.append(joined.as_str());
        text.append(" _ => Err(tealr::mlu::mlua::Error::RuntimeError(format!(\"tried to `{}` `{}` with another argument on the `{}` side, but its type is not supported\", stringify!(");
        text.append(meta.as_str());
        text.append("), stringify!(");
        text.append(nt.wrapper_type.as_str());
        text.append("), ");
        text.append(side_lit);
        text.append("))) }");
        (text, arg)
    }

    /// The metamethod for the operators of `ops` at the positions `group`.
    fn binop_group_source(&mut self, nt: &Newtype, ops: &Vec<BinaryOp>, group: &Vec<usize>) -> (res: String)
        requires
            old(self).wf(),
            in_bounds(ops@, group@),
            forall|k: int| 0 <= k < ops@.len() ==> binary_op_ok(#[trigger] ops@[k]),
            group_ok(old(self)@, *nt, index_ops(ops@, group@)),
        ensures
            final(self).wf(),
            (final(self)@, res@) == group_output(old(self)@, *nt, index_ops(ops@, group@)),
    {
        let ghost g = index_ops(ops@, group@);
        let meta = if group.len() > 0 {
            ops[group[0]].op.metamethod.clone()
        } else {
            String::new()
        };
        assert(meta@ == group_meta(g));
        let lhs_union = positions_by_side(ops, group, false);
        let rhs_union = positions_by_side(ops, group, true);
        let rets = return_union_strings(nt, ops, group);
        let n = group.len();
        let ret_arg = self.generate_register_union(&rets);
        let (rh, rhs_arg) = self.side_handler_strings(nt, ops, &rhs_union, n, "\"right\"", &meta, &ret_arg);
        let (lh, lhs_arg) = self.side_handler_strings(nt, ops, &lhs_union, n, "\"left\"", &meta, &ret_arg);
        let w = &nt.wrapper_type;
        let rh2 = if find_text(lhs_arg.as_str(), w.as_str()) {
            let mut s = String::from_str("(");
            s.append(lhs_arg.as_str());
            s.append("::");
            s.append(w.as_str());
            s.append("(ud),v) => {");
            s.append(rh.as_str());
            s.append("},");
            s
        } else {
            String::from_str("")
        };
        let lh2 = if find_text(rhs_arg.as_str(), w.as_str()) {
            let mut s = String::from_str("(v,");
            s.append(rhs_arg.as_str());
            s.append("::");
            s.append(w.as_str());
            s.append("(ud)) => {");
            s.append(lh.as_str());
            s.append("},");
            s
        } else {
            String::from_str("")
        };
        let mut res = String::from_str("fn (mlua::MetaMethod::");
        res.append(meta.as_str());
        res.append(") => |ctx, (lhs,rhs) :(");
        res.append(lhs_arg.as_str());
        res.append(",");
        res.append(rhs_arg.as_str());
        res.append(")| { match (lhs,rhs) { ");
        res.append(rh2.as_str());
        res.append(" ");
        res.append(lh2.as_str());
        res.append(" _ => Err(tealr::mlu::mlua::Error::RuntimeError(format!(\"tried to `{}` two arguments, none of which are of type `{}` \", stringify!(");
        res.append(meta.as_str());
        res.append("), stringify!(");
        res.append(w.as_str());
        res.append(")))) } }");
        res
    }

    /// Appends the metamethods for the binary operators `ops` to `out`.
    pub fn push_binops(&mut self, nt: &Newtype, ops: &Vec<BinaryOp>, out: &mut Vec<GeneratedMethod>)
        requires
            old(self).wf(),
            forall|k: int| 0 <= k < ops@.len() ==> binary_op_ok(#[trigger] ops@[k]),
            binops_ok(old(self)@, *nt, ops@),
        ensures
            final(self).wf(),
            (final(self)@, outputs(final(out)@)) == {
                let (st, o) = binops_output(old(self)@, *nt, ops@);
                (st, outputs(old(out)@) + o)
            },
    {
        let n = ops.len();
        let groups = group_operators(ops);
        let ghost kv = dedup(op_keys(ops@));
        let ghost start_state = self@;
        let ghost start_out = outputs(out@);
        let m = groups.len();
        assert(m == kv.len()) by {
            assert(entry_views(groups@).len() == groups@.len());
        }
        let mut i: usize = 0;
        while i < m
            invariant
                n == ops@.len(),
                m == groups@.len(),
                m == kv.len(),
                entry_views(groups@) == op_groups(ops@),
                kv == dedup(op_keys(ops@)),
                forall|k: int| 0 <= k < ops@.len() ==> binary_op_ok(#[trigger] ops@[k]),
                groups_ok(start_state, *nt, ops@, kv),
                i <= m,
                self.wf(),
                (self@, outputs(out@)) == {
                    let (st, o) = groups_output(start_state, *nt, ops@, kv.take(i as int));
                    (st, start_out + o)
                },
            decreases m - i,
        {
            assert(kv.take(i + 1).drop_last() =~= kv.take(i as int));
            proof {
                lemma_groups_ok_prefix(start_state, *nt, ops@, kv, i + 1);
                lemma_group_entry(ops@, groups@, i as int);
            }
            let text = self.binop_group_source(nt, ops, &groups[i].1);
            let g = GeneratedMethod::Source(text);
            proof {
                lemma_outputs_push(out@, g);
            }
            out.push(g);
            proof {
                let (st0, o0) = groups_output(start_state, *nt, ops@, kv.take(i as int));
                assert(start_out + o0.push(MethodOutput::Source(text@)) =~= (start_out + o0).push(
                    MethodOutput::Source(text@),
                ));
            }
            i = i + 1;
        }
        assert(kv.take(m as int) =~= kv);
    }
}

impl LuaImplementor {
    /// Decides `group_ok` for the operators of `ops` at the positions
    /// `group`, registering the group's unions on the way when it holds.
    fn group_supported(&mut self, nt: &Newtype, ops: &Vec<BinaryOp>, group: &Vec<usize>) -> (res: bool)
        requires
            old(self).wf(),
            in_bounds(ops@, group@),
            forall|k: int| 0 <= k < ops@.len() ==> binary_op_ok(#[trigger] ops@[k]),
        ensures
            final(self).wf(),
            res == group_ok(old(self)@, *nt, index_ops(ops@, group@)),
            res ==> final(self)@ == group_output(old(self)@, *nt, index_ops(ops@, group@)).0,
    {
        let ghost st = self@;
        let ghost g = index_ops(ops@, group@);
        let n = group.len();
        let mut i: usize = 0;
        while i < n
            invariant
                n == group@.len(),
                g == index_ops(ops@, group@),
                in_bounds(ops@, group@),
                forall|k: int| 0 <= k < ops@.len() ==> binary_op_ok(#[trigger] ops@[k]),
                self.wf(),
                self@ == st,
                st == old(self)@,
                i <= n,
                forall|k: int| 0 <= k < i ==> ident_ok(typed_base(#[trigger] g[k])) && ident_ok(
                    return_base(*nt, g[k].return_type),
                ),
            decreases n - i,
        {
            let o = &ops[group[i]];
            let tb = typed_base_string(o);
            let rb = return_base_string(nt, &o.return_type);
            if !ident_text_ok(tb.as_str()) || !ident_text_ok(rb.as_str()) {
                assert(g[i as int] == ops@[group@[i as int] as int]);
                assert(!(ident_ok(typed_base(g[i as int])) && ident_ok(return_base(*nt, g[i as int].return_type))));
                assert(!group_ok(st, *nt, g));
                return false;
            }
            i = i + 1;
        }
        let lhs_union = positions_by_side(ops, group, false);
        let rhs_union = positions_by_side(ops, group, true);
        let rets = return_union_strings(nt, ops, group);
        if !self.register_supported(&rets) {
            return false;
        }
        let ret_arg = self.generate_register_union(&rets);
        let rhs_members = side_union_strings(nt, ops, &rhs_union, n);
        if !self.register_supported(&rhs_members) {
            return false;
        }
        let rhs_arg = self.generate_register_union(&rhs_members);
        let lhs_members = side_union_strings(nt, ops, &lhs_union, n);
        if !self.register_supported(&lhs_members) {
            return false;
        }
        let lhs_arg = self.generate_register_union(&lhs_members);
        true
    }

    /// Decides whether the metamethods for `ops` can be generated
    /// (`binary_op_ok` for each and `binops_ok`), registering their unions
    /// on the way when they can.
    #[verifier::rlimit(50)]
    pub(crate) fn binops_supported(&mut self, nt: &Newtype, ops: &Vec<BinaryOp>) -> (res: bool)
        requires
            old(self).wf(),
        ensures
            final(self).wf(),
            res == ((forall|k: int| 0 <= k < ops@.len() ==> binary_op_ok(#[trigger] ops@[k]))
                && binops_ok(old(self)@, *nt, ops@)),
            res ==> final(self)@ == binops_output(old(self)@, *nt, ops@).0,
    {
        let n = ops.len();
        let mut i: usize = 0;
        while i < n
            invariant
                n == ops@.len(),
                i <= n,
                self.wf(),
                self@ == old(self)@,
                forall|k: int| 0 <= k < i ==> binary_op_ok(#[trigger] ops@[k]),
            decreases n - i,
        {
            if !binary_op_supported(&ops[i]) {
                assert(!binary_op_ok(ops@[i as int]));
                return false;
            }
            i = i + 1;
        }
        let groups = group_operators(ops);
        let ghost kv = dedup(op_keys(ops@));
        let ghost start = self@;
        let m = groups.len();
        assert(m == kv.len()) by {
            assert(entry_views(groups@).len() == groups@.len());
        }
        let mut j: usize = 0;
        assert(kv.take(0) =~= Seq::<Seq<char>>::empty());
        while j < m
            invariant
                n == ops@.len(),
                m == groups@.len(),
                m == kv.len(),
                entry_views(groups@) == op_groups(ops@),
                kv == dedup(op_keys(ops@)),
                forall|k: int| 0 <= k < ops@.len() ==> binary_op_ok(#[trigger] ops@[k]),
                j <= m,
                self.wf(),
                start == old(self)@,
                groups_ok(start, *nt, ops@, kv.take(j as int)),
                self@ == groups_output(start, *nt, ops@, kv.take(j as int)).0,
            decreases m - j,
        {
            assert(kv.take(j + 1).drop_last() =~= kv.take(j as int));
            assert(kv.take(j + 1).last() == kv[j as int]);
            proof {
                lemma_group_entry(ops@, groups@, j as int);
            }
            if !self.group_supported(nt, ops, &groups[j].1) {
                proof {
                    if groups_ok(start, *nt, ops@, kv) {
                        lemma_groups_ok_prefix(start, *nt, ops@, kv, j + 1);
                    }
                }
                return false;
            }
            j = j + 1;
        }
        assert(kv.take(m as int) =~= kv);
        true
    }
}

/// The metamethod for one group only adds unions and globals.
proof fn lemma_group_grows(st: ImplementorState, nt: Newtype, group: Seq<BinaryOp>)
    ensures
        grows(st, group_output(st, nt, group).0),
{
    let meta = group_meta(group);
    let lhs_union = ops_by_side(group, false);
    let rhs_union = ops_by_side(group, true);
    let rets = group.map_values(|o: BinaryOp| return_base(nt, o.return_type));
    let (st1, ret_arg) = register_union(st, rets);
    law_register_grows(st, rets);
    let (st2, rh, rhs_arg) = side_handlers(st1, nt, rhs_union, group.len(), "\"right\""@, meta, ret_arg);
    law_register_grows(st1, side_union(nt, rhs_union, group.len()));
    let (st3, lh, lhs_arg) = side_handlers(st2, nt, lhs_union, group.len(), "\"left\""@, meta, ret_arg);
    law_register_grows(st2, side_union(nt, lhs_union, group.len()));
    lemma_grows_trans(st, st1, st2);
    lemma_grows_trans(st, st2, st3);
}

/// The metamethods for the groups `keys`: one per key, each a source text,
/// and the state only grows.
proof fn lemma_groups_grow(st: ImplementorState, nt: Newtype, ops: Seq<BinaryOp>, keys: Seq<Seq<char>>)
    ensures
        grows(st, groups_output(st, nt, ops, keys).0),
        groups_output(st, nt, ops, keys).1.len() == keys.len(),
        forall|i: int| 0 <= i < keys.len() ==> #[trigger] groups_output(st, nt, ops, keys).1[i] is Source,
    decreases keys.len(),
{
    if keys.len() == 0 {
        lemma_grows_refl(st);
    } else {
        lemma_groups_grow(st, nt, ops, keys.drop_last());
        let (st1, out1) = groups_output(st, nt, ops, keys.drop_last());
        lemma_group_grows(st1, nt, ops_with_key(ops, keys.last()));
        let (st2, _) = group_output(st1, nt, ops_with_key(ops, keys.last()));
        lemma_grows_trans(st, st1, st2);
        let out = groups_output(st, nt, ops, keys).1;
        assert forall|i: int| 0 <= i < keys.len() implies #[trigger] out[i] is Source by {
            if i < keys.len() - 1 {
                assert(out[i] == out1[i]);
            }
        }
    }
}

/// Binary operators yield one metamethod per distinct operator (distinct
/// key, see `law_op_key_identifies_operator`), and registering their unions
/// only adds unions and globals, keeping union names unique.
pub proof fn law_binops_one_per_operator(st: ImplementorState, nt: Newtype, ops: Seq<BinaryOp>)
    ensures
        grows(st, binops_output(st, nt, ops).0),
        binops_output(st, nt, ops).1.len() == dedup(op_keys(ops)).len(),
        forall|i: int| 0 <= i < binops_output(st, nt, ops).1.len() ==> #[trigger] binops_output(st, nt, ops).1[i] is Source,
{
    lemma_groups_grow(st, nt, ops, dedup(op_keys(ops)));
}

/// The unions that the metamethod of a group dispatches on and answers
/// with: the result union, the right-hand union and the left-hand union.
pub open spec fn group_unions(st: ImplementorState, nt: Newtype, group: Seq<BinaryOp>) -> Seq<Seq<char>> {
    let meta = group_meta(group);
    let (st1, ret_arg) = register_union(st, group.map_values(|o: BinaryOp| return_base(nt, o.return_type)));
    let (st2, rh, rhs_arg) = side_handlers(st1, nt, ops_by_side(group, true), group.len(), "\"right\""@, meta, ret_arg);
    let (st3, lh, lhs_arg) = side_handlers(st2, nt, ops_by_side(group, false), group.len(), "\"left\""@, meta, ret_arg);
    seq![ret_arg, rhs_arg, lhs_arg]
}

/// A union recorded in a state stays recorded in every state that
/// extends it.
proof fn lemma_grows_keeps(a: ImplementorState, b: ImplementorState, u: Seq<char>)
    requires
        grows(a, b),
        a.unions.contains(u),
    ensures
        b.unions.contains(u),
{
    let i = choose|i: int| 0 <= i < a.unions.len() && a.unions[i] == u;
    assert(b.unions.subrange(0, a.unions.len() as int)[i] == b.unions[i]);
}

/// Every union that a generated operator metamethod names is declared in
/// the generator's state afterwards.
pub proof fn law_group_unions_declared(st: ImplementorState, nt: Newtype, group: Seq<BinaryOp>)
    ensures
        forall|k: int| 0 <= k < 3 ==> group_output(st, nt, group).0.unions.contains(
            #[trigger] group_unions(st, nt, group)[k],
        ),
{
    let rets = group.map_values(|o: BinaryOp| return_base(nt, o.return_type));
    let (st1, ret_arg) = register_union(st, rets);
    law_register_grows(st, rets);
    let ru = side_union(nt, ops_by_side(group, true), group.len());
    let (st2, rhs_arg) = register_union(st1, ru);
    law_register_grows(st1, ru);
    let lu = side_union(nt, ops_by_side(group, false), group.len());
    let (st3, lhs_arg) = register_union(st2, lu);
    law_register_grows(st2, lu);
    lemma_grows_keeps(st1, st2, ret_arg);
    lemma_grows_keeps(st2, st3, ret_arg);
    lemma_grows_keeps(st2, st3, rhs_arg);
    assert(group_output(st, nt, group).0 == st3);
    assert(group_unions(st, nt, group) == seq![ret_arg, rhs_arg, lhs_arg]);
}

/// The text of a group's metamethod does not depend on the generator's
/// state: union names follow from their members alone.
pub proof fn law_group_text_independent(st1: ImplementorState, st2: ImplementorState, nt: Newtype, group: Seq<BinaryOp>)
    ensures
        group_output(st1, nt, group).1 == group_output(st2, nt, group).1,
{
}

/// The metamethods for the groups `keys` do not depend on the generator's
/// state.
pub proof fn law_groups_independent(st1: ImplementorState, st2: ImplementorState, nt: Newtype, ops: Seq<BinaryOp>, keys: Seq<Seq<char>>)
    ensures
        groups_output(st1, nt, ops, keys).1 == groups_output(st2, nt, ops, keys).1,
    decreases keys.len(),
{
    if keys.len() > 0 {
        law_groups_independent(st1, st2, nt, ops, keys.drop_last());
        let a = groups_output(st1, nt, ops, keys.drop_last()).0;
        let b = groups_output(st2, nt, ops, keys.drop_last()).0;
        law_group_text_independent(a, b, nt, ops_with_key(ops, keys.last()));
    }
}

/// A binary operator's match arm puts `R::new(op)` into the result union
/// exactly when the result's base name `R` starts with `Lua`, and the bare
/// `op` otherwise, whether `R` was declared or is the wrapper by default.
pub proof fn law_binop_arm_wrapping(nt: Newtype, o: BinaryOp, arg_type: Seq<char>, ret_arg: Seq<char>)
    ensures
        ({
            let r = return_base(nt, o.return_type);
            handler_arm(nt, o, arg_type, ret_arg) == arg_type + "::"@ + typed_base(o) + "(v) => Ok("@ + ret_arg
                + "::"@ + r + "("@ + (if r.len() >= 3 && r[0] == 'L' && r[1] == 'u' && r[2] == 'a' {
                r + "::new("@ + op_body(o) + ")"@
            } else {
                op_body(o)
            }) + ")),"@
        }),
{
}

/// Declaring the wrapper itself as a binary operator's result gives the
/// same match arm as leaving the result out.
pub proof fn law_binop_declared_wrapper_as_default(
    nt: Newtype,
    o: BinaryOp,
    t: TypeModel,
    arg_type: Seq<char>,
    ret_arg: Seq<char>,
)
    requires
        t.base matches Some(b) && b@ == nt.wrapper_type@,
    ensures
        handler_arm(nt, BinaryOp { op: o.op, lhs: o.lhs, rhs: o.rhs, return_type: Some(t) }, arg_type, ret_arg)
            == handler_arm(nt, BinaryOp { op: o.op, lhs: o.lhs, rhs: o.rhs, return_type: None }, arg_type, ret_arg),
{
}

} // verus!
