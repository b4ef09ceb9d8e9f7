//! Plain-value model of what the generators read: newtypes, their derive
//! flags, the Rust types that appear in method signatures, and the Lua
//! methods already registered for each wrapper.

use vstd::prelude::*;

verus! {

/// How a newtype wraps its base type.
#[derive(Debug, Clone, PartialEq, Eq)]
pub enum NewtypeVariation {
    /// A wrapper that owns a value of the base type.
    Value,
    /// A wrapper around a reference into the world.
    Ref,
    /// A base type that Lua holds as a primitive; no wrapper type exists.
    Primitive,
}

impl NewtypeVariation {
    /// Whether this is the primitive variation.
    pub fn is_primitive(&self) -> (res: bool)
        ensures
            res == (*self is Primitive),
    {
        match self {
            NewtypeVariation::Primitive => true,
            _ => false,
        }
    }

    /// Whether this is the value variation.
    pub fn is_value(&self) -> (res: bool)
        ensures
            res == (*self is Value),
    {
        match self {
            NewtypeVariation::Value => true,
            _ => false,
        }
    }
}

/// The outer reference of a reference type `&T` or `&mut T`.
#[derive(Debug, Clone, PartialEq, Eq)]
pub struct Reference {
    /// Whether the reference is `&mut`.
    pub mutable: bool,
    /// The source text of the referenced type `T`.
    pub elem: String,
}

/// A Rust type as written in a signature.
#[derive(Debug, Clone, PartialEq, Eq)]
pub struct TypeModel {
    /// The type's source text.
    pub text: String,
    /// The outer reference, when the type is a reference.
    pub reference: Option<Reference>,
    /// The name of the type's base identifier (the last path segment with
    /// any reference removed), when the type has one.
    pub base: Option<String>,
}

/// The `self` receiver of a method.
#[derive(Debug, Clone, PartialEq, Eq)]
pub struct Receiver {
    /// Whether the receiver is borrowed (`&self` or `&mut self`).
    pub reference: bool,
    /// Whether the receiver is mutable (`&mut self` or `mut self`).
    pub mutable: bool,
}

/// A method of the base type to expose automatically.
#[derive(Debug, Clone, PartialEq, Eq)]
pub struct AutoMethod {
    /// The method's name.
    pub ident: String,
    /// The types of its arguments, without the receiver.
    pub args: Vec<TypeModel>,
    /// Its receiver; `None` for an associated function.
    pub receiver: Option<Receiver>,
    /// Its declared output type, if one was given.
    pub out: Option<TypeModel>,
    /// Its doc attributes, as source text.
    pub docstrings: Vec<String>,
}

/// An operator: the Lua metamethod that it becomes and its Rust symbol.
#[derive(Debug, Clone, PartialEq, Eq)]
pub struct OpName {
    /// The name of the `mlua::MetaMethod` variant, e.g. `Add`.
    pub metamethod: String,
    /// The Rust operator, e.g. `+`.
    pub symbol: String,
}

/// One side of a binary operator.
#[derive(Debug, Clone, PartialEq, Eq)]
pub enum Operand {
    /// The wrapped value itself, borrowed or not.
    SelfValue { reference: bool },
    /// An argument of another type.
    Typed(TypeModel),
}

/// A binary operator implemented by the base type.
#[derive(Debug, Clone, PartialEq, Eq)]
pub struct BinaryOp {
    pub op: OpName,
    pub lhs: Operand,
    pub rhs: Operand,
    /// The declared result type; the wrapper itself when absent.
    pub return_type: Option<TypeModel>,
}

/// A unary operator implemented by the base type.
#[derive(Debug, Clone, PartialEq, Eq)]
pub struct UnaryOp {
    pub op: OpName,
    /// Whether the operand is borrowed.
    pub reference: bool,
    /// The declared result type; the wrapper itself when absent.
    pub return_type: Option<TypeModel>,
}

/// The kind and key of a Lua method, by which methods are found again.
#[derive(Debug, Clone, PartialEq, Eq)]
pub struct MethodType {
    pub is_static: bool,
    pub is_mut: bool,
    pub is_function: bool,
    /// The method's key: a string literal (`"name"`) or a metamethod path.
    pub key: String,
}

/// A Lua method already registered for a wrapper.
#[derive(Debug, Clone, PartialEq, Eq)]
pub struct LuaMethod {
    pub method_type: MethodType,
    /// Its registration call on the method collector `methods`.
    pub call_expr: String,
    /// Its closure applied to its arguments.
    pub applied_closure: String,
    /// The test code generated for it under the wrapper whose table entry
    /// lists it, if any; a copy listed under another wrapper carries the
    /// test generated for that wrapper.
    pub test: Option<String>,
}

/// A request to copy the methods of another wrapper.
#[derive(Debug, Clone, PartialEq, Eq)]
pub struct CopyInvocation {
    /// The name of the wrapper whose methods are copied.
    pub target: String,
    /// The kind and key of the methods to copy.
    pub identifier: MethodType,
    /// The macro arguments to rebind in each copy.
    pub args: Vec<String>,
}

/// A derive flag on a newtype declaration.
#[derive(Debug, Clone, PartialEq, Eq)]
pub enum DeriveFlag {
    DebugToString,
    DisplayToString,
    AutoMethods(Vec<AutoMethod>),
    Copy(Vec<CopyInvocation>),
    BinOps(Vec<BinaryOp>),
    UnaryOps(Vec<UnaryOp>),
}

/// A newtype declaration.
#[derive(Debug, Clone, PartialEq, Eq)]
pub struct Newtype {
    /// The name of the wrapper type, e.g. `LuaVec2`.
    pub wrapper_type: String,
    /// The identifier of the base type used in the wrapper alias.
    pub base_type_ident: String,
    /// The source text of the base type's full path.
    pub base_type: String,
    /// The identifier of the first segment of that path.
    pub base_first_ident: String,
    /// The last segment of that path, with its generic arguments.
    pub base_last_segment: String,
    /// The identifier of the last segment of that path.
    pub base_last_ident: String,
    /// The run-time lookup key of the base type (its path as a string);
    /// the conversion tables write it as a string literal.
    pub base_type_key: String,
    pub variation: NewtypeVariation,
    /// The type's doc strings, as string literals.
    pub docstrings: Vec<String>,
    /// Lua functions declared with the newtype, if any.
    pub additional_lua_functions: Option<Vec<LuaMethod>>,
}

/// All newtype declarations of one invocation.
#[derive(Debug, Clone, PartialEq, Eq)]
pub struct NewtypeList {
    pub new_types: Vec<Newtype>,
    /// Further types to document, as source text.
    pub additional_types: Vec<String>,
}

/// Whether two method kinds are the same.
pub open spec fn same_method_type(a: MethodType, b: MethodType) -> bool {
    &&& a.is_static == b.is_static
    &&& a.is_mut == b.is_mut
    &&& a.is_function == b.is_function
    &&& a.key@ == b.key@
}

impl MethodType {
    /// Decides `same_method_type`.
    pub fn same_as(&self, other: &MethodType) -> (res: bool)
        ensures
            res == same_method_type(*self, *other),
    {
        self.is_static == other.is_static && self.is_mut == other.is_mut && self.is_function
            == other.is_function && self.key == other.key
    }

    /// A copy of this method kind.
    pub fn duplicate(&self) -> (res: MethodType)
        ensures
            res == *self,
    {
        MethodType {
            is_static: self.is_static,
            is_mut: self.is_mut,
            is_function: self.is_function,
            key: self.key.clone(),
        }
    }
}

impl LuaMethod {
    /// A copy of this method.
    pub fn duplicate(&self) -> (res: LuaMethod)
        ensures
            res == *self,
    {
        let test = match &self.test {
            Some(t) => Some(t.clone()),
            None => None,
        };
        LuaMethod {
            method_type: self.method_type.duplicate(),
            call_expr: self.call_expr.clone(),
            applied_closure: self.applied_closure.clone(),
            test,
        }
    }
}

/// A copy of a list of methods.
pub fn duplicate_methods(v: &Vec<LuaMethod>) -> (res: Vec<LuaMethod>)
    ensures
        res@ == v@,
{
    let mut res: Vec<LuaMethod> = Vec::new();
    let n = v.len();
    let mut i: usize = 0;
    while i < n
        invariant
            n == v@.len(),
            i <= n,
            res@ == v@.take(i as int),
        decreases n - i,
    {
        res.push(v[i].duplicate());
        assert(res@ =~= v@.take(i + 1));
        i = i + 1;
    }
    assert(v@.take(n as int) =~= v@);
    res
}

/// A copy of a list of strings.
pub fn duplicate_strings(v: &Vec<String>) -> (res: Vec<String>)
    ensures
        res@ == v@,
{
    let mut res: Vec<String> = Vec::new();
    let n = v.len();
    let mut i: usize = 0;
    while i < n
        invariant
            n == v@.len(),
            i <= n,
            res@ == v@.take(i as int),
        decreases n - i,
    {
        res.push(v[i].clone());
        assert(res@ =~= v@.take(i + 1));
        i = i + 1;
    }
    assert(v@.take(n as int) =~= v@);
    res
}

} // verus!
