//! Types as the semantic analysis sees them, and scopes: frames of
//! variables and generic parameters, each frame inside its parent.
use vstd::prelude::*;
use crate::ast::{ASTBoundTyping, ASTVar};
use crate::names::NameMap;
use crate::text::str_eq;
use vstd::std_specs::cmp::PartialEqSpecImpl;

verus! {

/// A generic parameter: bound by a typing, or free.
pub enum VarTyping {
    Bound(ASTBoundTyping),
    Unbound(ASTVar),
}

/// A declared struct: its name, its fields' types and its generic
/// parameters.
pub struct StructStruct<'a> {
    pub name: String,
    pub fields: NameMap<TypeInstance<'a>>,
    pub generics: Vec<VarTyping>,
}

impl<'a> StructStruct<'a> {
    /// The struct applied to `generics`, optional when `nullable`.
    fn init(&'a self, generics: Vec<TypeInstance<'a>>, nullable: bool) -> (r: StructInstance<'a>)
        ensures
            r.structure == self,
            r.generics == generics,
            r.nullable == nullable,
    {
        StructInstance { generics, nullable, structure: self }
    }
}

/// A struct applied to type arguments.
pub struct StructInstance<'a> {
    pub structure: &'a StructStruct<'a>,
    pub generics: Vec<TypeInstance<'a>>,
    pub nullable: bool,
}

/// A function parameter: its name and type.
pub struct FunctionParameter<'a> {
    pub name: String,
    pub typedef: TypeInstance<'a>,
}

/// A function type: its parameters, return type and generic parameters.
pub struct FunctionInstance<'a> {
    pub params: Vec<FunctionParameter<'a>>,
    pub return_type: Box<TypeInstance<'a>>,
    pub generics: Vec<VarTyping>,
    pub nullable: bool,
}

/// A declared enum: its name and its variants' types.
pub struct EnumStruct<'a> {
    pub name: String,
    pub variants: NameMap<TypeInstance<'a>>,
}

/// One variant of an enum, as a type.
pub struct EnumVariant<'a> {
    pub enum_name: String,
    pub variant: String,
    pub variant_type: Box<TypeInstance<'a>>,
    pub nullable: bool,
}

/// Two enum variants are equal when they name the same variant of the same
/// enum.
impl<'a> PartialEq for EnumVariant<'a> {
    fn eq(&self, other: &Self) -> (r: bool) {
        str_eq(self.enum_name.as_str(), other.enum_name.as_str()) && str_eq(
            self.variant.as_str(),
            other.variant.as_str(),
        )
    }
}

impl<'a> PartialEqSpecImpl for EnumVariant<'a> {
    open spec fn obeys_eq_spec() -> bool {
        true
    }

    open spec fn eq_spec(&self, other: &Self) -> bool {
        self.enum_name@ == other.enum_name@ && self.variant@ == other.variant@
    }
}

/// A declared type alias: the type it stands for and its generic
/// parameters.
pub struct TypedefStruct<'a> {
    pub inner: TypeInstance<'a>,
    pub generics: Vec<VarTyping>,
}

/// A type given by some of its fields.
pub struct PartialInstance<'a> {
    pub fields: NameMap<TypeInstance<'a>>,
}

/// A type.
pub enum TypeInstance<'a> {
    Struct(StructInstance<'a>),
    Fn(FunctionInstance<'a>),
    Enum(EnumVariant<'a>),
    Partial(PartialInstance<'a>),
    Generic(String),
}

/// A type declaration.
pub enum TypeDeclaration<'a> {
    Struct(StructStruct<'a>),
    Enum(EnumStruct<'a>),
    Typedef(TypedefStruct<'a>),
}

/// A scope: a frame of variables and generic parameters, inside its parent.
pub struct Scope<'a> {
    pub parent: Option<Box<Scope<'a>>>,
    pub variables: NameMap<TypeInstance<'a>>,
    pub generics: NameMap<VarTyping>,
}

/// `key` is a variable of the scope or of one of its ancestors.
pub open spec fn scope_has<'a>(s: Scope<'a>, key: Seq<char>) -> bool
    decreases s,
{
    s.variables.map().contains_key(key) || match s.parent {
        Some(p) => scope_has(*p, key),
        None => false,
    }
}

/// `key` is a generic parameter of the scope or of one of its ancestors.
pub open spec fn scope_has_generic<'a>(s: Scope<'a>, key: Seq<char>) -> bool
    decreases s,
{
    s.generics.map().contains_key(key) || match s.parent {
        Some(p) => scope_has_generic(*p, key),
        None => false,
    }
}

/// The type of variable `key` in the innermost scope that has it.
pub open spec fn scope_get<'a>(s: Scope<'a>, key: Seq<char>) -> Option<TypeInstance<'a>>
    decreases s,
{
    if s.variables.map().contains_key(key) {
        Some(s.variables.map()[key])
    } else {
        match s.parent {
            Some(p) => scope_get(*p, key),
            None => None,
        }
    }
}

/// Generic parameter `key` of the innermost scope that has it.
pub open spec fn scope_get_generic<'a>(s: Scope<'a>, key: Seq<char>) -> Option<VarTyping>
    decreases s,
{
    if s.generics.map().contains_key(key) {
        Some(s.generics.map()[key])
    } else {
        match s.parent {
            Some(p) => scope_get_generic(*p, key),
            None => None,
        }
    }
}

/// A variable of a scope's own frame shadows any of the same name in an
/// enclosing scope; a name the frame lacks is looked up in the enclosing
/// scope, and is unknown where there is none. Generic parameters are found
/// the same way.
pub proof fn lemma_scope_shadowing<'a>(s: Scope<'a>, key: Seq<char>)
    ensures
        s.variables.map().contains_key(key) ==> scope_get(s, key) == Some(s.variables.map()[key]),
        !s.variables.map().contains_key(key) && s.parent is None ==> scope_get(s, key) is None,
        !s.variables.map().contains_key(key) && s.parent is Some ==> scope_get(s, key) == scope_get(
            *s.parent->0,
            key,
        ),
        s.generics.map().contains_key(key) ==> scope_get_generic(s, key) == Some(s.generics.map()[key]),
        !s.generics.map().contains_key(key) && s.parent is None ==> scope_get_generic(s, key) is None,
        !s.generics.map().contains_key(key) && s.parent is Some ==> scope_get_generic(s, key)
            == scope_get_generic(*s.parent->0, key),
{
}

/// A variable bound in an inner frame hides the outer binding of the same
/// name: looking it up from the inner frame gives the inner type, whatever
/// the outer scope holds.
pub proof fn lemma_inner_binding_wins<'a>(outer: Scope<'a>, inner: Scope<'a>, key: Seq<char>)
    requires
        inner.parent == Some(Box::new(outer)),
        inner.variables.map().contains_key(key),
    ensures
        scope_get(inner, key) == Some(inner.variables.map()[key]),
        scope_get(outer, key) is Some ==> scope_get(inner, key) is Some,
{
}

/// A name is known in a scope exactly when looking it up finds a type (and
/// the same for generic parameters).
pub proof fn lemma_has_iff_get<'a>(s: Scope<'a>, key: Seq<char>)
    ensures
        scope_has(s, key) <==> scope_get(s, key) is Some,
        scope_has_generic(s, key) <==> scope_get_generic(s, key) is Some,
    decreases s,
{
    match s.parent {
        Some(p) => lemma_has_iff_get(*p, key),
        None => {},
    }
}

/// `e` is an empty frame directly inside `s`.
pub open spec fn frame_over<'a>(e: Scope<'a>, s: Scope<'a>) -> bool {
    &&& e.parent == Some(Box::new(s))
    &&& e.variables.map() == Map::<Seq<char>, TypeInstance<'a>>::empty()
    &&& e.generics.map() == Map::<Seq<char>, VarTyping>::empty()
}

/// The scope that `s` lies in, if any.
pub open spec fn parent_scope<'a>(s: Scope<'a>) -> Option<Scope<'a>> {
    match s.parent {
        Some(p) => Some(*p),
        None => None,
    }
}

/// An empty frame changes no lookup, and leaving it gives back the scope
/// it was opened in: `s.extend().clear()` is `Some(s)`, and the extended
/// scope has, and gives, exactly what `s` has and gives.
pub proof fn lemma_extend_then_clear<'a>(s: Scope<'a>, e: Scope<'a>, key: Seq<char>)
    requires
        frame_over(e, s),
    ensures
        parent_scope(e) == Some(s),
        scope_has(e, key) == scope_has(s, key),
        scope_has_generic(e, key) == scope_has_generic(s, key),
        scope_get(e, key) == scope_get(s, key),
        scope_get_generic(e, key) == scope_get_generic(s, key),
{
}

impl<'a> Scope<'a> {
    /// A scope with no variable and no generic parameter, inside `parent`.
    pub fn new(parent: Option<Box<Scope<'a>>>) -> (s: Self)
        ensures
            s.parent == parent,
            s.variables.map() == Map::<Seq<char>, TypeInstance<'a>>::empty(),
            s.generics.map() == Map::<Seq<char>, VarTyping>::empty(),
    {
        Scope { parent, variables: NameMap::new(), generics: NameMap::new() }
    }

    /// An empty frame inside this scope.
    pub fn extend(self) -> (s: Self)
        ensures
            frame_over(s, self),
    {
        Scope { variables: NameMap::new(), generics: NameMap::new(), parent: Some(Box::new(self)) }
    }

    /// Leaves this frame: the scope it lies in, if any.
    pub fn clear(self) -> (r: Option<Self>)
        ensures
            r == parent_scope(self),
    {
        match self.parent {
            Some(parent) => Some(*parent),
            None => None,
        }
    }

    /// Whether `key` is a variable here or in an enclosing scope.
    pub fn has(&self, key: &str) -> (r: bool)
        ensures
            r == scope_has(*self, key@),
        decreases *self,
    {
        if self.variables.contains_key(key) {
            true
        } else {
            match &self.parent {
                Some(parent) => parent.has(key),
                None => false,
            }
        }
    }

    /// Whether `key` is a generic parameter here or in an enclosing scope.
    pub fn has_generic(&self, key: &str) -> (r: bool)
        ensures
            r == scope_has_generic(*self, key@),
        decreases *self,
    {
        if self.generics.contains_key(key) {
            true
        } else {
            match &self.parent {
                Some(parent) => parent.has_generic(key),
                None => false,
            }
        }
    }

    /// Generic parameter `key` of the innermost scope that has it.
    pub fn get_generic(&self, key: &str) -> (r: Option<&VarTyping>)
        ensures
            self.generics.map().contains_key(key@) ==> (r matches Some(g) && *g
                == self.generics.map()[key@]),
            !self.generics.map().contains_key(key@) && self.parent is None ==> r is None,
            match r {
                Some(g) => scope_get_generic(*self, key@) == Some(*g),
                None => scope_get_generic(*self, key@) is None,
            },
        decreases *self,
    {
        match self.generics.get(key) {
            Some(generic) => Some(generic),
            None => match &self.parent {
                Some(parent) => parent.get_generic(key),
                None => None,
            },
        }
    }

    /// The type of variable `key` in the innermost scope that has it.
    pub fn get(&self, key: &str) -> (r: Option<&TypeInstance<'a>>)
        ensures
            self.variables.map().contains_key(key@) ==> (r matches Some(t) && *t
                == self.variables.map()[key@]),
            !self.variables.map().contains_key(key@) && self.parent is None ==> r is None,
            match r {
                Some(t) => scope_get(*self, key@) == Some(*t),
                None => scope_get(*self, key@) is None,
            },
        decreases *self,
    {
        match self.variables.get(key) {
            Some(t) => Some(t),
            None => match &self.parent {
                Some(parent) => parent.get(key),
                None => None,
            },
        }
    }
}

} // verus!
