//! Symbols of the semantic analysis: what a name refers to, with flags.
use vstd::prelude::*;
use crate::ast::{ASTEnumDeclaration, ASTListTyping, ASTModifiers, ASTStruct, ASTType};
use crate::diagnostics::{DiagnosticId, err, error_is, str_views};
use crate::errors::{BaseError, Range};
use crate::names::NameMap;
use crate::text::{decimal, usize_to_string};

verus! {

/// The flag bit of a static symbol.
pub open spec fn static_bit() -> u32 {
    1
}

/// The flag bit of a constant symbol.
pub open spec fn const_bit() -> u32 {
    2
}

/// The flag bit of an optional symbol.
pub open spec fn optional_bit() -> u32 {
    4
}

/// The flag bit of a type parameter.
pub open spec fn type_param_bit() -> u32 {
    8
}

/// Flags of a symbol reference, as bits: static (1), const (2),
/// optional (4), type parameter (8).
#[derive(Clone, Copy)]
pub struct SymbolFlags {
    pub bits: u32,
}

impl SymbolFlags {
    /// No flag.
    pub fn empty() -> (f: Self)
        ensures
            f.bits == 0,
    {
        SymbolFlags { bits: 0 }
    }

    /// Whether all bits of `other` are set.
    pub fn contains(&self, other: SymbolFlags) -> (r: bool)
        ensures
            r == (self.bits & other.bits == other.bits),
    {
        self.bits & other.bits == other.bits
    }

    /// Sets (with `value`) or clears the bits of `other`.
    pub fn set(&mut self, other: SymbolFlags, value: bool)
        ensures
            final(self).bits == if value {
                old(self).bits | other.bits
            } else {
                old(self).bits & !other.bits
            },
    {
        if value {
            self.bits = self.bits | other.bits;
        } else {
            self.bits = self.bits & !other.bits;
        }
    }
}

/// A property of a struct symbol: its type and modifiers.
pub struct SymbolProperty {
    pub kind: SymbolRef,
    pub flags: ASTModifiers,
}

/// Holds the symbols of a program, by id.
pub trait SymbolCollector {
    /// The symbols held, by id.
    spec fn symbol_table(&self) -> Map<u32, Symbol>;

    /// Stores `sym` under its id.
    fn insert_symbol(&mut self, sym: Symbol)
        ensures
            final(self).symbol_table() == old(self).symbol_table().insert(sym.id, sym),
    ;

    /// The symbol with id `name`, if one is held.
    fn get_symbol(&self, name: &u32) -> (r: Option<&Symbol>)
        ensures
            match r {
                Some(sym) => self.symbol_table().contains_key(*name) && *sym == self.symbol_table()[*name],
                None => !self.symbol_table().contains_key(*name),
            },
    ;

    /// The symbol with id `name`, to change in place, if one is held.
    fn get_mut_symbol(&mut self, name: &u32) -> Option<&mut Symbol>;
}

/// `r` names a symbol of `table` and, when it names an instance, one that
/// the symbol has.
pub open spec fn resolves(r: SymbolRef, table: Map<u32, Symbol>) -> bool {
    &&& table.contains_key(r.id)
    &&& r.instance_id matches Some(i) ==> i < table[r.id].instances@.len()
}

/// What `r` is in `table`: the kind of its instance, or of its symbol.
pub open spec fn kind_in(r: SymbolRef, table: Map<u32, Symbol>) -> SymbolKind {
    match r.instance_id {
        Some(i) => table[r.id].instances@[i as int].kind,
        None => table[r.id].kind,
    }
}

/// Has the `static` modifier.
pub open spec fn is_static_prop(p: SymbolProperty) -> bool {
    p.flags.bits & 2 == 2
}

/// The static member `name` found through the implementations `impls`, in
/// order: the lookup stops at the first implementation that is a struct
/// without such a property (no result), or whose property is static.
pub open spec fn impl_member(impls: Seq<SymbolRef>, table: Map<u32, Symbol>, name: Seq<char>) -> Option<SymbolRef>
    decreases impls.len(),
{
    if impls.len() == 0 {
        None
    } else {
        match kind_in(impls[0], table) {
            SymbolKind::Struct(props) => if !props.map().contains_key(name) {
                None
            } else if is_static_prop(props.map()[name]) {
                Some(props.map()[name].kind)
            } else {
                impl_member(impls.drop_first(), table, name)
            },
            _ => impl_member(impls.drop_first(), table, name),
        }
    }
}

/// Every implementation that the lookup of `name` through `impls` reaches
/// resolves in `table`.
pub open spec fn impl_lookup_resolves(impls: Seq<SymbolRef>, table: Map<u32, Symbol>, name: Seq<char>) -> bool
    decreases impls.len(),
{
    if impls.len() == 0 {
        true
    } else {
        &&& resolves(impls[0], table)
        &&& match kind_in(impls[0], table) {
            SymbolKind::Struct(props) => if !props.map().contains_key(name) || is_static_prop(
                props.map()[name],
            ) {
                true
            } else {
                impl_lookup_resolves(impls.drop_first(), table, name)
            },
            _ => impl_lookup_resolves(impls.drop_first(), table, name),
        }
    }
}

/// Every implementation that the lookup of member `name` of `s` reaches
/// resolves in `table`.
pub open spec fn mod_type_resolves(s: Symbol, table: Map<u32, Symbol>, name: Seq<char>) -> bool {
    match s.kind {
        SymbolKind::Struct(props) => if !props.map().contains_key(name) || is_static_prop(
            props.map()[name],
        ) {
            true
        } else {
            impl_lookup_resolves(s.impls@, table, name)
        },
        SymbolKind::Enum(_) | SymbolKind::Module(_) => true,
        _ => impl_lookup_resolves(s.impls@, table, name),
    }
}

/// The member `name` of symbol `s` that names a type: a static property of
/// a struct, an enum member, a module's export, or a static property of
/// one of its implementations.
pub open spec fn mod_type(s: Symbol, table: Map<u32, Symbol>, name: Seq<char>) -> Option<SymbolRef> {
    match s.kind {
        SymbolKind::Struct(props) => if !props.map().contains_key(name) {
            None
        } else if is_static_prop(props.map()[name]) {
            Some(props.map()[name].kind)
        } else {
            impl_member(s.impls@, table, name)
        },
        SymbolKind::Enum(members) => if members.map().contains_key(name) {
            Some(members.map()[name])
        } else {
            None
        },
        SymbolKind::Module(exported) => if exported.map().contains_key(name) {
            Some(exported.map()[name])
        } else {
            None
        },
        _ => impl_member(s.impls@, table, name),
    }
}

/// Something that names a symbol.
pub trait ToSymbol {
    /// The id of the symbol named.
    spec fn symbol_id(&self) -> u32;

    /// The symbol named, which `collector` must hold.
    fn to_symbol<'a, C: SymbolCollector>(&self, collector: &'a C) -> (r: &'a Symbol)
        requires
            collector.symbol_table().contains_key(self.symbol_id()),
        ensures
            *r == collector.symbol_table()[self.symbol_id()],
    ;
}

impl ToSymbol for u32 {
    open spec fn symbol_id(&self) -> u32 {
        *self
    }

    fn to_symbol<'a, C: SymbolCollector>(&self, collector: &'a C) -> (r: &'a Symbol) {
        collector.get_symbol(self).unwrap()
    }
}

impl ToSymbol for SymbolRef {
    open spec fn symbol_id(&self) -> u32 {
        self.id
    }

    fn to_symbol<'a, C: SymbolCollector>(&self, collector: &'a C) -> (r: &'a Symbol) {
        collector.get_symbol(&self.id).unwrap()
    }
}

/// What a symbol is.
pub enum SymbolKind {
    Struct(NameMap<SymbolProperty>),
    Enum(NameMap<SymbolRef>),
    Fn { parameters: NameMap<SymbolRef>, return_type: SymbolRef },
    Module(NameMap<SymbolRef>),
    NoneValue,
}

impl SymbolKind {
    /// Whether the symbol is an enum.
    pub fn is_enum(&self) -> (r: bool)
        ensures
            r == (*self is Enum),
    {
        match self {
            SymbolKind::Enum(_) => true,
            _ => false,
        }
    }

    /// Whether the symbol is a struct.
    pub fn is_struct(&self) -> (r: bool)
        ensures
            r == (*self is Struct),
    {
        match self {
            SymbolKind::Struct(_) => true,
            _ => false,
        }
    }

    /// Whether the symbol is a function.
    pub fn is_fn(&self) -> (r: bool)
        ensures
            r == (*self is Fn),
    {
        match self {
            SymbolKind::Fn { .. } => true,
            _ => false,
        }
    }

    /// Whether the symbol is a module.
    pub fn is_module(&self) -> (r: bool)
        ensures
            r == (*self is Module),
    {
        match self {
            SymbolKind::Module(_) => true,
            _ => false,
        }
    }
}

/// A reference to a symbol (or to one of its instances), with flags.
#[derive(Clone, Copy)]
pub struct SymbolRef {
    pub id: u32,
    pub instance_id: Option<usize>,
    pub flags: SymbolFlags,
}

impl SymbolRef {
    /// The flag bits of the reference.
    pub open spec fn flag_bits(&self) -> u32 {
        self.flags.bits
    }

    /// Whether flag bit `b` is set.
    pub open spec fn has(&self, b: u32) -> bool {
        self.flag_bits() & b == b
    }

    /// A reference to symbol `id`, without flags.
    pub fn new_ref(id: u32) -> (r: Self)
        ensures
            r.id == id,
            r.instance_id is None,
            r.flag_bits() == 0,
    {
        SymbolRef { id, instance_id: None, flags: SymbolFlags::empty() }
    }

    /// A reference to instance `instance_id` of symbol `id`, without flags.
    pub fn new_instance(id: u32, instance_id: usize) -> (r: Self)
        ensures
            r.id == id,
            r.instance_id == Some(instance_id),
            r.flag_bits() == 0,
    {
        SymbolRef { id: id, instance_id: Some(instance_id), flags: SymbolFlags::empty() }
    }

    /// What the reference is: the kind of its instance, or of its symbol.
    pub fn get_kind<'a, T: SymbolCollector>(&self, collector: &'a T) -> (r: &'a SymbolKind)
        requires
            resolves(*self, collector.symbol_table()),
        ensures
            *r == kind_in(*self, collector.symbol_table()),
    {
        let sym = collector.get_symbol(&self.id).unwrap();
        match self.instance_id {
            Some(id) => &sym.instances[id].kind,
            None => &sym.kind,
        }
    }

    /// A value: a constant or a static.
    pub fn is_value(&self) -> (r: bool)
        ensures
            r == (self.has(const_bit()) || self.has(static_bit())),
    {
        let c = self.flags.contains(SymbolFlags { bits: 2 });
        let s = self.flags.contains(SymbolFlags { bits: 1 });
        c || s
    }

    /// Whether the reference is optional.
    pub fn is_optional(&self) -> (r: bool)
        ensures
            r == self.has(optional_bit()),
    {
        self.flags.contains(SymbolFlags { bits: 4 })
    }

    /// Whether the reference is a constant.
    pub fn is_const(&self) -> (r: bool)
        ensures
            r == self.has(const_bit()),
    {
        self.flags.contains(SymbolFlags { bits: 2 })
    }

    /// Whether the reference is a static.
    pub fn is_static(&self) -> (r: bool)
        ensures
            r == self.has(static_bit()),
    {
        self.flags.contains(SymbolFlags { bits: 1 })
    }

    /// Whether the reference is a type parameter.
    pub fn is_type_param(&self) -> (r: bool)
        ensures
            r == self.has(type_param_bit()),
    {
        self.flags.contains(SymbolFlags { bits: 8 })
    }

    /// The same reference, optional.
    pub fn make_optional(self) -> (r: Self)
        ensures
            r.id == self.id,
            r.instance_id == self.instance_id,
            r.flag_bits() == self.flag_bits() | optional_bit(),
    {
        let mut s = self;
        s.flags.set(SymbolFlags { bits: 4 }, true);
        s
    }

    /// The same reference, constant.
    pub fn make_const(self) -> (r: Self)
        ensures
            r.id == self.id,
            r.instance_id == self.instance_id,
            r.flag_bits() == self.flag_bits() | const_bit(),
    {
        let mut s = self;
        s.flags.set(SymbolFlags { bits: 2 }, true);
        s
    }

    /// The same reference, static.
    pub fn make_static(self) -> (r: Self)
        ensures
            r.id == self.id,
            r.instance_id == self.instance_id,
            r.flag_bits() == self.flag_bits() | static_bit(),
    {
        let mut s = self;
        s.flags.set(SymbolFlags { bits: 1 }, true);
        s
    }

    /// The same reference, as a type parameter.
    pub fn make_type_param(self) -> (r: Self)
        ensures
            r.id == self.id,
            r.instance_id == self.instance_id,
            r.flag_bits() == self.flag_bits() | type_param_bit(),
    {
        let mut s = self;
        s.flags.set(SymbolFlags { bits: 8 }, true);
        s
    }
}

/// Setting a flag makes it hold and leaves every other flag as it was:
/// after `make_const`, `is_const` and `is_value` hold, and `is_optional`,
/// `is_static` and `is_type_param` are unchanged (likewise for the other
/// `make_` functions).
pub proof fn lemma_set_flag(x: u32, b: u32, c: u32)
    requires
        b == 1 || b == 2 || b == 4 || b == 8,
        c == 1 || c == 2 || c == 4 || c == 8,
        b != c,
    ensures
        (x | b) & b == b,
        ((x | b) & c == c) == (x & c == c),
{
    assert((x | b) & b == b) by (bit_vector)
        requires
            b == 1 || b == 2 || b == 4 || b == 8,
    ;
    assert(((x | b) & c == c) == (x & c == c)) by (bit_vector)
        requires
            b == 1 || b == 2 || b == 4 || b == 8,
            c == 1 || c == 2 || c == 4 || c == 8,
            b != c,
    ;
}

/// A fresh reference has no flag set.
pub proof fn lemma_no_flags(b: u32)
    requires
        b == 1 || b == 2 || b == 4 || b == 8,
    ensures
        0u32 & b != b,
{
    assert(0u32 & b != b) by (bit_vector)
        requires
            b == 1 || b == 2 || b == 4 || b == 8,
    ;
}

/// Where a symbol was declared.
pub enum StatementOrExpression {
    EnumStatement(ASTEnumDeclaration),
    StructStatement(ASTStruct),
    TypeStatement(ASTType),
    NoneValue,
}

/// The instance has the same argument symbols as `params`.
pub open spec fn same_args(inst: SymbolInstance, params: Seq<SymbolRef>) -> bool {
    forall|m: int| 0 <= m < params.len() ==> (#[trigger] params[m]).id == inst.type_args@[m].id
}

/// The index of the first instance with the same argument symbols as
/// `params`, if there is one.
pub open spec fn first_instance(insts: Seq<SymbolInstance>, params: Seq<SymbolRef>) -> Option<int>
    decreases insts.len(),
{
    if insts.len() == 0 {
        None
    } else {
        match first_instance(insts.drop_last(), params) {
            Some(i) => Some(i),
            None => if same_args(insts.last(), params) {
                Some(insts.len() - 1)
            } else {
                None
            },
        }
    }
}

/// What asking `a` for the instance of the type arguments `params` does,
/// where `r` is the answer and `b` the symbol afterwards (see
/// [`Symbol::create_or_get_instance`]): only the instances may change; a
/// wrong number of arguments is refused at `range`; otherwise the first
/// instance with the same argument symbols is given back, or a new one is
/// added, numbered one past the count.
pub open spec fn instance_outcome(
    a: Symbol,
    params: Vec<SymbolRef>,
    range: Range,
    r: Result<SymbolRef, BaseError>,
    b: Symbol,
) -> bool {
    &&& b.id == a.id
    &&& b.name == a.name
    &&& b.kind == a.kind
    &&& b.type_params == a.type_params
    &&& b.declaration == a.declaration
    &&& b.impls == a.impls
    &&& params@.len() != a.type_params.map().dom().len() ==> {
        &&& r is Err
        &&& error_is(
            r->Err_0,
            DiagnosticId::InvalidAmountOfTypeParams,
            seq![decimal(a.type_params.map().dom().len()), decimal(params@.len())],
            range,
        )
        &&& b.instances == a.instances
    }
    &&& params@.len() == a.type_params.map().dom().len() ==> {
        match first_instance(a.instances@, params@) {
            Some(i) => {
                &&& r is Ok
                &&& r->Ok_0 == (SymbolRef {
                    id: a.id,
                    instance_id: Some(a.instances@[i].id),
                    flags: SymbolFlags { bits: 0 },
                })
                &&& b.instances == a.instances
            },
            None => {
                &&& r is Ok
                &&& r->Ok_0 == (SymbolRef {
                    id: a.id,
                    instance_id: Some((a.instances@.len() + 1) as usize),
                    flags: SymbolFlags { bits: 0 },
                })
                &&& b.instances@ == a.instances@.push(
                    (SymbolInstance {
                        id: (a.instances@.len() + 1) as usize,
                        kind: SymbolKind::NoneValue,
                        type_args: params,
                    }),
                )
            },
        }
    }
}

/// Two instances were asked for with the same argument symbols.
pub open spec fn same_ids(p: Seq<SymbolRef>, q: Seq<SymbolRef>) -> bool {
    p.len() == q.len() && forall|i: int| 0 <= i < p.len() ==> (#[trigger] p[i]).id == q[i].id
}

/// Which instance is found depends only on the argument symbols.
proof fn lemma_first_instance_ids(insts: Seq<SymbolInstance>, p: Seq<SymbolRef>, q: Seq<SymbolRef>)
    requires
        same_ids(p, q),
    ensures
        first_instance(insts, p) == first_instance(insts, q),
    decreases insts.len(),
{
    if insts.len() > 0 {
        lemma_first_instance_ids(insts.drop_last(), p, q);
        assert(same_args(insts.last(), p) == same_args(insts.last(), q)) by {
            if same_args(insts.last(), p) {
                assert forall|m: int| 0 <= m < q.len() implies (#[trigger] q[m]).id
                    == insts.last().type_args@[m].id by {
                    assert(p[m].id == q[m].id);
                }
            }
            if same_args(insts.last(), q) {
                assert forall|m: int| 0 <= m < p.len() implies (#[trigger] p[m]).id
                    == insts.last().type_args@[m].id by {
                    assert(p[m].id == q[m].id);
                }
            }
        }
    }
}

/// Asking a symbol twice for the instance of the same argument symbols
/// gives the same instance both times, and the second request adds none.
pub proof fn lemma_instance_asked_twice(
    s0: Symbol,
    s1: Symbol,
    s2: Symbol,
    p: Vec<SymbolRef>,
    q: Vec<SymbolRef>,
    g1: Range,
    g2: Range,
    r1: Result<SymbolRef, BaseError>,
    r2: Result<SymbolRef, BaseError>,
)
    requires
        instance_outcome(s0, p, g1, r1, s1),
        instance_outcome(s1, q, g2, r2, s2),
        p@.len() == s0.type_params.map().dom().len(),
        same_ids(p@, q@),
    ensures
        r1 is Ok,
        r2 == r1,
        s2.instances == s1.instances,
{
    lemma_instance_reused(s0.instances@, p);
    lemma_first_instance_range(s0.instances@, p@);
    lemma_first_instance_ids(s1.instances@, p@, q@);
}

/// Asking twice for an instance with the same arguments gives the same
/// instance: after the first call (which finds an instance for `args` or
/// adds one numbered one past the count), the second finds that instance.
pub proof fn lemma_instance_reused(insts: Seq<SymbolInstance>, args: Vec<SymbolRef>)
    ensures
        ({
            let params = args@;
            let after = match first_instance(insts, params) {
                Some(_) => insts,
                None => insts.push(
                    SymbolInstance {
                        id: (insts.len() + 1) as usize,
                        kind: SymbolKind::NoneValue,
                        type_args: args,
                    },
                ),
            };
            let first_id = match first_instance(insts, params) {
                Some(i) => insts[i].id,
                None => (insts.len() + 1) as usize,
            };
            first_instance(after, params) matches Some(j) && 0 <= j < after.len() && after[j].id
                == first_id
        }),
{
    let params = args@;
    lemma_first_instance_range(insts, params);
    if first_instance(insts, params) is None {
        let x = SymbolInstance {
            id: (insts.len() + 1) as usize,
            kind: SymbolKind::NoneValue,
            type_args: args,
        };
        assert(insts.push(x).drop_last() =~= insts);
        assert(same_args(x, params));
    }
}

/// The index `first_instance` finds lies within the instances.
proof fn lemma_first_instance_range(insts: Seq<SymbolInstance>, params: Seq<SymbolRef>)
    ensures
        first_instance(insts, params) matches Some(i) ==> 0 <= i < insts.len(),
    decreases insts.len(),
{
    if insts.len() > 0 {
        lemma_first_instance_range(insts.drop_last(), params);
    }
}

proof fn lemma_first_instance(insts: Seq<SymbolInstance>, params: Seq<SymbolRef>, k: int)
    requires
        0 <= k < insts.len(),
        same_args(insts[k], params),
        forall|j: int| 0 <= j < k ==> !same_args(#[trigger] insts[j], params),
    ensures
        first_instance(insts, params) == Some(k),
    decreases insts.len(),
{
    if k < insts.len() - 1 {
        let init = insts.drop_last();
        assert forall|j: int| 0 <= j < k implies !same_args(#[trigger] init[j], params) by {
            assert(init[j] == insts[j]);
        }
        assert(init[k] == insts[k]);
        lemma_first_instance(init, params, k);
    } else {
        lemma_no_instance(insts.drop_last(), params);
    }
}

proof fn lemma_no_instance(insts: Seq<SymbolInstance>, params: Seq<SymbolRef>)
    requires
        forall|j: int| 0 <= j < insts.len() ==> !same_args(#[trigger] insts[j], params),
    ensures
        first_instance(insts, params) is None,
    decreases insts.len(),
{
    if insts.len() > 0 {
        let init = insts.drop_last();
        assert forall|j: int| 0 <= j < init.len() implies !same_args(#[trigger] init[j], params) by {
            assert(init[j] == insts[j]);
        }
        lemma_no_instance(init, params);
        assert(!same_args(insts[insts.len() - 1], params));
    }
}

/// A symbol: its name, kind, type parameters, instances and declaration.
pub struct Symbol {
    pub name: String,
    pub id: u32,
    pub kind: SymbolKind,
    pub type_params: NameMap<Option<SymbolRef>>,
    pub instances: Vec<SymbolInstance>,
    pub declaration: StatementOrExpression,
    pub impls: Vec<SymbolRef>,
}

/// An instance of a generic symbol with its type arguments.
pub struct SymbolInstance {
    pub id: usize,
    pub kind: SymbolKind,
    pub type_args: Vec<SymbolRef>,
}

impl Symbol {
    /// A symbol of unknown kind with no type parameters, instances or impls.
    pub fn empty(id: u32, name: String, decl: StatementOrExpression) -> (s: Self)
        ensures
            s.id == id,
            s.name == name,
            s.kind is NoneValue,
            s.type_params.map() == Map::<Seq<char>, Option<SymbolRef>>::empty(),
            s.instances@.len() == 0,
            s.declaration == decl,
            s.impls@.len() == 0,
    {
        Self {
            id,
            name,
            kind: SymbolKind::NoneValue,
            type_params: NameMap::new(),
            instances: Vec::new(),
            declaration: decl,
            impls: Vec::new(),
        }
    }

    /// A reference to this symbol, without flags.
    pub fn to_ref(&self) -> (r: SymbolRef)
        ensures
            r.id == self.id,
            r.instance_id is None,
            r.flag_bits() == 0,
    {
        SymbolRef { id: self.id, instance_id: None, flags: SymbolFlags::empty() }
    }

    /// The member `name` of this symbol that names a type (see
    /// [`mod_type`]); every implementation looked through must resolve in
    /// `collector`.
    pub fn get_mod_type<'a, C: SymbolCollector>(&'a self, collector: &'a C, name: &str) -> (r: Option<&'a SymbolRef>)
        requires
            mod_type_resolves(*self, collector.symbol_table(), name@),
        ensures
            match r {
                Some(t) => mod_type(*self, collector.symbol_table(), name@) == Some(*t),
                None => mod_type(*self, collector.symbol_table(), name@) is None,
            },
    {
        let ghost table = collector.symbol_table();
        match &self.kind {
            SymbolKind::Struct(props) => {
                let prop = match props.get(name) {
                    Some(p) => p,
                    None => return None,
                };
                if prop.flags.contains(ASTModifiers::static_mod()) {
                    return Some(&prop.kind);
                }
            },
            SymbolKind::Enum(members) => return members.get(name),
            SymbolKind::Module(exported) => return exported.get(name),
            _ => {},
        }
        let mut i: usize = 0;
        assert(self.impls@.skip(0) =~= self.impls@);
        while i < self.impls.len()
            invariant
                i <= self.impls@.len(),
                table == collector.symbol_table(),
                impl_lookup_resolves(self.impls@.skip(i as int), table, name@),
                mod_type(*self, table, name@) == impl_member(self.impls@.skip(i as int), table, name@),
            decreases self.impls@.len() - i,
        {
            let implementation = &self.impls[i];
            proof {
                let rest = self.impls@.skip(i as int);
                assert(rest[0] == self.impls@[i as int]);
                assert(rest.drop_first() =~= self.impls@.skip(i + 1));
            }
            match implementation.get_kind(collector) {
                SymbolKind::Struct(properties) => {
                    let prop = match properties.get(name) {
                        Some(p) => p,
                        None => return None,
                    };
                    if prop.flags.contains(ASTModifiers::static_mod()) {
                        return Some(&prop.kind);
                    }
                },
                _ => {},
            }
            i = i + 1;
        }
        None
    }

    /// The instance of this symbol for the type arguments `params`: the
    /// first instance whose arguments are the same symbols, or a new one,
    /// numbered one past the count of instances so far. Fails, changing
    /// nothing, when the number of arguments is not the number of type
    /// parameters.
    pub fn create_or_get_instance(&mut self, params: Vec<SymbolRef>, ast: &ASTListTyping) -> (r: Result<SymbolRef, BaseError>)
        requires
            old(self).instances@.len() < usize::MAX,
            forall|i: int| 0 <= i < old(self).instances@.len() ==> (#[trigger] old(self).instances@[i]).type_args@.len()
                >= old(self).type_params.map().dom().len(),
        ensures
            instance_outcome(*old(self), params, ast.range, r, *final(self)),
    {
        let params_len = params.len();
        let type_params_len = self.type_params.len();
        if params_len != type_params_len {
            let expected = usize_to_string(type_params_len);
            let found = usize_to_string(params_len);
            let vars = vec![expected.as_str(), found.as_str()];
            assert(str_views(vars@) =~= seq![expected@, found@]);
            return Err(err(DiagnosticId::InvalidAmountOfTypeParams, ast.range, vars));
        }
        let mut k: usize = 0;
        while k < self.instances.len()
            invariant
                k <= self.instances@.len(),
                params_len == params@.len(),
                params@.len() == old(self).type_params.map().dom().len(),
                *self == *old(self),
                forall|i: int| 0 <= i < self.instances@.len() ==> (#[trigger] self.instances@[i]).type_args@.len()
                    >= params@.len(),
                forall|j: int| 0 <= j < k ==> !same_args(#[trigger] self.instances@[j], params@),
            decreases self.instances@.len() - k,
        {
            let instance = &self.instances[k];
            let mut matches = true;
            let mut ind: usize = 0;
            while ind < params_len
                invariant
                    ind <= params_len,
                    params_len == params@.len(),
                    instance.type_args@.len() >= params@.len(),
                    matches == forall|m: int| 0 <= m < ind ==> (#[trigger] params@[m]).id == instance.type_args@[m].id,
                decreases params_len - ind,
            {
                if params[ind].id != instance.type_args[ind].id {
                    matches = false;
                }
                ind = ind + 1;
            }
            if matches {
                proof {
                    assert(same_args(self.instances@[k as int], params@));
                    assert(first_instance(self.instances@, params@) == Some(k as int)) by {
                        lemma_first_instance(self.instances@, params@, k as int);
                    }
                }
                return Ok(SymbolRef::new_instance(self.id, instance.id));
            }
            k = k + 1;
        }
        proof {
            lemma_no_instance(self.instances@, params@);
        }
        let instance_id = self.instances.len() + 1;
        self.instances.push(SymbolInstance { id: instance_id, kind: SymbolKind::NoneValue, type_args: params });
        Ok(SymbolRef::new_instance(self.id, instance_id))
    }
}

} // verus!
