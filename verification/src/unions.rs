//! Registration of the `Union...` argument types that the generated
//! metamethods accept: each distinct union is declared exactly once.

use vstd::prelude::*;
use indexmap::IndexSet;
use crate::name_set::{set_items, new_name_set, name_set_contains, name_set_insert, clone_name_set};
use crate::text::{views, join, concat, join_strings, concat_strings};
use crate::idents::{ident_ok, ident_text_ok};

verus! {

/// `s` with every element after its first occurrence removed.
pub open spec fn dedup(s: Seq<Seq<char>>) -> Seq<Seq<char>>
    decreases s.len(),
{
    if s.len() == 0 {
        s
    } else {
        let d = dedup(s.drop_last());
        if d.contains(s.last()) {
            d
        } else {
            d.push(s.last())
        }
    }
}

/// The name of the union over the given type names.
pub open spec fn union_name(idents: Seq<Seq<char>>) -> Seq<char> {
    "Union"@ + concat(dedup(idents))
}

/// The declaration of union `name` with the given members.
pub open spec fn union_declaration(name: Seq<char>, members: Seq<Seq<char>>) -> Seq<char> {
    "create_union_mlua!(pub enum "@ + name + " = "@ + join(members, " | "@) + ");\n"@
}

/// The state of a generator: the union names declared so far, in order, and
/// the text of the extra global items.
pub struct ImplementorState {
    pub unions: Seq<Seq<char>>,
    pub globals: Seq<char>,
}

/// Registering a union over `idents` in state `st`: the new state and the
/// union's name. A union already declared is left as it is.
pub open spec fn register_union(st: ImplementorState, idents: Seq<Seq<char>>) -> (ImplementorState, Seq<char>) {
    let name = union_name(idents);
    if st.unions.contains(name) {
        (st, name)
    } else {
        (
            ImplementorState {
                unions: st.unions.push(name),
                globals: st.globals + union_declaration(name, dedup(idents)),
            },
            name,
        )
    }
}

/// The union over `idents` can be registered in state `st`:
/// `format_ident!` accepts its name and, when it is new, each of its
/// members.
pub open spec fn register_ok(st: ImplementorState, idents: Seq<Seq<char>>) -> bool {
    &&& ident_ok(union_name(idents))
    &&& !st.unions.contains(union_name(idents)) ==> forall|k: int|
        0 <= k < dedup(idents).len() ==> ident_ok(#[trigger] dedup(idents)[k])
}

/// The declarations of the unions `unions` with the members `members`, in
/// order.
pub open spec fn union_declarations(unions: Seq<Seq<char>>, members: Seq<Seq<Seq<char>>>) -> Seq<char>
    decreases unions.len(),
{
    if unions.len() == 0 || members.len() == 0 {
        Seq::empty()
    } else {
        union_declarations(unions.drop_last(), members.drop_last()) + union_declaration(
            unions.last(),
            members.last(),
        )
    }
}

/// The extra globals of `st` are exactly one declaration per registered
/// union, in order, each union named after its members, none repeated.
pub open spec fn declares_each_union(st: ImplementorState) -> bool {
    exists|ms: Seq<Seq<Seq<char>>>|
        {
            &&& ms.len() == st.unions.len()
            &&& st.globals == union_declarations(st.unions, ms)
            &&& forall|i: int|
                0 <= i < ms.len() ==> (#[trigger] ms[i]).no_duplicates() && st.unions[i] == "Union"@
                    + concat(ms[i])
        }
}

/// Registration keeps the extra globals one declaration per registered
/// union, in order.
pub proof fn law_register_keeps_declarations(st: ImplementorState, idents: Seq<Seq<char>>)
    requires
        declares_each_union(st),
    ensures
        declares_each_union(register_union(st, idents).0),
{
    let (st1, name) = register_union(st, idents);
    if !st.unions.contains(name) {
        let ms = choose|ms: Seq<Seq<Seq<char>>>|
            {
                &&& ms.len() == st.unions.len()
                &&& st.globals == union_declarations(st.unions, ms)
                &&& forall|i: int|
                    0 <= i < ms.len() ==> (#[trigger] ms[i]).no_duplicates() && st.unions[i]
                        == "Union"@ + concat(ms[i])
            };
        let d = dedup(idents);
        law_dedup_unique_same_elements(idents);
        let ms1 = ms.push(d);
        assert(ms1.drop_last() =~= ms);
        assert(st1.unions.drop_last() =~= st.unions);
        assert(st1.globals == union_declarations(st1.unions, ms1));
        assert forall|i: int| 0 <= i < ms1.len() implies (#[trigger] ms1[i]).no_duplicates()
            && st1.unions[i] == "Union"@ + concat(ms1[i]) by {
            if i < ms.len() {
                assert(ms1[i] == ms[i]);
                assert(st1.unions[i] == st.unions[i]);
            }
        }
        assert(ms1.len() == st1.unions.len());
    }
}

/// The Lua code generator: the unions declared so far and the extra global
/// items that declare them.
pub struct LuaImplementor {
    implemented_unions: IndexSet<String>,
    additional_globals: String,
}

impl View for LuaImplementor {
    type V = ImplementorState;

    closed spec fn view(&self) -> ImplementorState {
        ImplementorState {
            unions: set_items(self.implemented_unions),
            globals: self.additional_globals@,
        }
    }
}

impl LuaImplementor {
    /// Well-formedness: no union is declared twice, and the extra globals
    /// hold exactly one declaration per union, in order.
    pub open spec fn wf(&self) -> bool {
        &&& self@.unions.no_duplicates()
        &&& declares_each_union(self@)
    }

    /// A generator that has declared nothing yet.
    pub fn new() -> (res: Self)
        ensures
            res.wf(),
            res@.unions == Seq::<Seq<char>>::empty(),
            res@.globals == Seq::<char>::empty(),
    {
        let res = LuaImplementor { implemented_unions: new_name_set(), additional_globals: String::new() };
        proof {
            let ms = Seq::<Seq<Seq<char>>>::empty();
            assert(union_declarations(res@.unions, ms) == res@.globals);
        }
        res
    }

    /// A copy of this generator.
    pub fn duplicate(&self) -> (res: Self)
        requires
            self.wf(),
        ensures
            res.wf(),
            res@ == self@,
    {
        LuaImplementor {
            implemented_unions: clone_name_set(&self.implemented_unions),
            additional_globals: self.additional_globals.clone(),
        }
    }

    /// Decides `register_ok` for the union over `type_idents`.
    pub fn register_supported(&self, type_idents: &Vec<String>) -> (res: bool)
        ensures
            res == register_ok(self@, views(type_idents@)),
    {
        let unique_idents = unique_names(type_idents);
        let mut name = String::from_str("Union");
        let joined = concat_strings(&unique_idents);
        name.append(joined.as_str());
        assert(name@ =~= union_name(views(type_idents@)));
        if !ident_text_ok(name.as_str()) {
            return false;
        }
        if name_set_contains(&self.implemented_unions, &name) {
            return true;
        }
        let n = unique_idents.len();
        let mut i: usize = 0;
        while i < n
            invariant
                n == unique_idents@.len(),
                views(unique_idents@) == dedup(views(type_idents@)),
                ident_ok(union_name(views(type_idents@))),
                !self@.unions.contains(union_name(views(type_idents@))),
                i <= n,
                forall|k: int| 0 <= k < i ==> ident_ok(#[trigger] dedup(views(type_idents@))[k]),
            decreases n - i,
        {
            if !ident_text_ok(unique_idents[i].as_str()) {
                assert(!ident_ok(dedup(views(type_idents@))[i as int]));
                return false;
            }
            i = i + 1;
        }
        true
    }

    /// The text of the extra global items declared so far.
    pub fn additional_globals(&self) -> (res: &str)
        ensures
            res@ == self@.globals,
    {
        self.additional_globals.as_str()
    }

    /// Declares the union over `type_idents` (duplicates removed, first
    /// occurrences kept in order) unless an identical union exists, and
    /// returns the union's name.
    pub fn generate_register_union(&mut self, type_idents: &Vec<String>) -> (name: String)
        requires
            old(self).wf(),
            register_ok(old(self)@, views(type_idents@)),
        ensures
            final(self).wf(),
            (final(self)@, name@) == register_union(old(self)@, views(type_idents@)),
    {
        let unique_idents = unique_names(type_idents);
        let mut name = String::new();
        name.append("Union");
        let joined = concat_strings(&unique_idents);
        name.append(joined.as_str());
        assert(name@ =~= union_name(views(type_idents@)));
        if !name_set_contains(&self.implemented_unions, &name) {
            let ghost before = self@;
            name_set_insert(&mut self.implemented_unions, name.clone());
            let members = join_strings(&unique_idents, " | ");
            self.additional_globals.append("create_union_mlua!(pub enum ");
            self.additional_globals.append(name.as_str());
            self.additional_globals.append(" = ");
            self.additional_globals.append(members.as_str());
            self.additional_globals.append(");\n");
            proof {
                assert(self@.globals =~= before.globals + union_declaration(name@, dedup(views(type_idents@))));
                assert(self@.unions == before.unions.push(name@));
                lemma_push_fresh_unique(before.unions, name@);
                law_register_keeps_declarations(before, views(type_idents@));
            }
        }
        name
    }
}

/// Pushing an element not yet present keeps a sequence free of duplicates.
proof fn lemma_push_fresh_unique(s: Seq<Seq<char>>, x: Seq<char>)
    requires
        s.no_duplicates(),
        !s.contains(x),
    ensures
        s.push(x).no_duplicates(),
{
    assert forall|i: int, j: int| 0 <= i < s.len() + 1 && 0 <= j < s.len() + 1 && i != j
        implies s.push(x)[i] != s.push(x)[j] by {
        if i == s.len() {
            assert(s.contains(s[j]));
        } else if j == s.len() {
            assert(s.contains(s[i]));
        }
    }
}

/// Removing repeats leaves no element twice and keeps exactly the elements
/// of the input.
pub proof fn law_dedup_unique_same_elements(s: Seq<Seq<char>>)
    ensures
        dedup(s).no_duplicates(),
        forall|x: Seq<char>| dedup(s).contains(x) <==> s.contains(x),
        dedup(s).len() <= s.len(),
    decreases s.len(),
{
    if s.len() > 0 {
        let p = s.drop_last();
        law_dedup_unique_same_elements(p);
        let d = dedup(p);
        if !d.contains(s.last()) {
            lemma_push_fresh_unique(d, s.last());
        }
        assert forall|x: Seq<char>| dedup(s).contains(x) <==> s.contains(x) by {
            if s.contains(x) {
                let k = choose|k: int| 0 <= k < s.len() && s[k] == x;
                if k < s.len() - 1 {
                    assert(p[k] == x);
                    assert(p.contains(x));
                    assert(d.contains(x));
                    if !d.contains(s.last()) {
                        let j = choose|j: int| 0 <= j < d.len() && d[j] == x;
                        assert(d.push(s.last())[j] == x);
                    }
                } else {
                    if !d.contains(s.last()) {
                        assert(d.push(s.last())[d.len() as int] == x);
                    }
                }
            }
            if dedup(s).contains(x) {
                let j = choose|j: int| 0 <= j < dedup(s).len() && dedup(s)[j] == x;
                if d.contains(x) {
                    assert(p.contains(x));
                    let k = choose|k: int| 0 <= k < p.len() && p[k] == x;
                    assert(s[k] == x);
                } else {
                    assert(x == s.last());
                    assert(s[s.len() - 1] == x);
                }
            }
        }
    }
}

/// A sequence without repeats is its own `dedup`.
pub proof fn lemma_dedup_of_unique(s: Seq<Seq<char>>)
    requires
        s.no_duplicates(),
    ensures
        dedup(s) == s,
    decreases s.len(),
{
    if s.len() > 0 {
        let p = s.drop_last();
        assert(p.no_duplicates());
        lemma_dedup_of_unique(p);
        if p.contains(s.last()) {
            let k = choose|k: int| 0 <= k < p.len() && p[k] == s.last();
            assert(s[k] == s[s.len() - 1]);
        }
        assert(p.push(s.last()) =~= s);
    }
}

/// Removing repeats twice is the same as removing them once.
pub proof fn law_dedup_idempotent(s: Seq<Seq<char>>)
    ensures
        dedup(dedup(s)) == dedup(s),
{
    law_dedup_unique_same_elements(s);
    lemma_dedup_of_unique(dedup(s));
}

/// Repeated type names change nothing: the union over a list is the union
/// over the list with its repeats removed, under the same name and with the
/// same declaration.
pub proof fn law_union_ignores_repeats(st: ImplementorState, idents: Seq<Seq<char>>)
    ensures
        union_name(dedup(idents)) == union_name(idents),
        register_union(st, dedup(idents)) == register_union(st, idents),
{
    law_dedup_idempotent(idents);
}

/// Registering the same union twice declares it once: the second call
/// returns the same name and leaves the state unchanged.
pub proof fn law_register_idempotent(st: ImplementorState, idents: Seq<Seq<char>>)
    ensures
        register_union(register_union(st, idents).0, idents)
            == (register_union(st, idents).0, register_union(st, idents).1),
{
    let (st1, n1) = register_union(st, idents);
    if !st.unions.contains(n1) {
        assert(st1.unions[st.unions.len() as int] == n1);
    }
}

/// The state `b` extends the state `a`: the unions of `a` come first in
/// `b`, the globals of `a` begin those of `b`, and unions stay unique.
pub open spec fn grows(a: ImplementorState, b: ImplementorState) -> bool {
    &&& a.unions.is_prefix_of(b.unions)
    &&& a.globals.is_prefix_of(b.globals)
    &&& a.unions.no_duplicates() ==> b.unions.no_duplicates()
}

/// Extending is transitive.
pub proof fn lemma_grows_trans(a: ImplementorState, b: ImplementorState, c: ImplementorState)
    requires
        grows(a, b),
        grows(b, c),
    ensures
        grows(a, c),
{
    assert(a.unions =~= c.unions.subrange(0, a.unions.len() as int)) by {
        assert forall|i: int| 0 <= i < a.unions.len() implies a.unions[i] == c.unions[i] by {
            assert(a.unions[i] == b.unions.subrange(0, a.unions.len() as int)[i]);
            assert(b.unions[i] == c.unions.subrange(0, b.unions.len() as int)[i]);
        }
    }
    assert(a.globals =~= c.globals.subrange(0, a.globals.len() as int)) by {
        assert forall|i: int| 0 <= i < a.globals.len() implies a.globals[i] == c.globals[i] by {
            assert(a.globals[i] == b.globals.subrange(0, a.globals.len() as int)[i]);
            assert(b.globals[i] == c.globals.subrange(0, b.globals.len() as int)[i]);
        }
    }
}

/// Every state extends itself.
pub proof fn lemma_grows_refl(a: ImplementorState)
    ensures
        grows(a, a),
{
    assert(a.unions =~= a.unions.subrange(0, a.unions.len() as int));
    assert(a.globals =~= a.globals.subrange(0, a.globals.len() as int));
}

/// Registration only adds: earlier unions and globals stay in place, every
/// union name stays unique, and the returned name is recorded.
pub proof fn law_register_grows(st: ImplementorState, idents: Seq<Seq<char>>)
    ensures
        grows(st, register_union(st, idents).0),
        register_union(st, idents).0.unions.contains(register_union(st, idents).1),
{
    let (st1, n1) = register_union(st, idents);
    if !st.unions.contains(n1) {
        if st.unions.no_duplicates() {
            lemma_push_fresh_unique(st.unions, n1);
        }
        assert(st1.unions[st.unions.len() as int] == n1);
        assert(st.globals =~= st1.globals.subrange(0, st.globals.len() as int));
        assert(st.unions =~= st1.unions.subrange(0, st.unions.len() as int));
    } else {
        lemma_grows_refl(st);
    }
}

/// The names of `idents` with repeats removed, first occurrences in order.
pub fn unique_names(idents: &Vec<String>) -> (res: Vec<String>)
    ensures
        views(res@) == dedup(views(idents@)),
{
    let mut seen = new_name_set();
    let mut res: Vec<String> = Vec::new();
    let ghost all = views(idents@);
    let n = idents.len();
    let mut i: usize = 0;
    while i < n
        invariant
            n == idents@.len(),
            all == views(idents@),
            i <= n,
            set_items(seen) == dedup(all.take(i as int)),
            views(res@) == dedup(all.take(i as int)),
        decreases n - i,
    {
        assert(all.take(i + 1).drop_last() =~= all.take(i as int));
        assert(all.take(i + 1).last() == idents@[i as int]@);
        let name = idents[i].clone();
        if name_set_insert(&mut seen, name.clone()) {
            res.push(name);
            assert(views(res@) =~= dedup(all.take(i as int)).push(idents@[i as int]@));
        }
        i = i + 1;
    }
    assert(all.take(n as int) =~= all);
    res
}

} // verus!
