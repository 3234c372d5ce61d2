//! The type checker's store of symbols, kept by id in a hash map that uses
//! rustc-hash's fast hasher.
use vstd::prelude::*;
use std::hash::BuildHasherDefault;
use rustc_hash::{FxHashMap, FxHasher};
use crate::errors::BaseError;
use crate::module::Module;
use crate::symbol::{Symbol, SymbolCollector};

verus! {

/// rustc-hash's hasher, used only to build the hash map.
#[verifier::external_type_specification]
#[verifier::external_body]
pub struct ExFxHasher(FxHasher);

/// std's builder of default-constructed hashers.
#[verifier::external_type_specification]
#[verifier::external_body]
#[verifier::reject_recursive_types(H)]
pub struct ExBuildHasherDefault<H>(BuildHasherDefault<H>);

/// Symbols by id, in a hash map with the Fx hasher.
pub type SymbolMap = FxHashMap<u32, Symbol>;

/// `FxHashMap::default()` (std's `HashMap::default` with the Fx hasher
/// builder): a map with no entry.
#[verifier::external_body]
pub(crate) fn fx_new() -> (m: SymbolMap)
    ensures
        m@.dom() == Set::<u32>::empty(),
{
    FxHashMap::default()
}

/// `HashMap::get` on a map with the Fx hasher: the value of `k`, if it has
/// one. The Fx hasher hashes a key the same way every time, so the map
/// finds what was inserted under an equal key.
#[verifier::external_body]
pub(crate) fn fx_get<'a>(m: &'a SymbolMap, k: &u32) -> (r: Option<&'a Symbol>)
    ensures
        match r {
            Some(v) => m@.contains_key(*k) && *v == m@[*k],
            None => !m@.contains_key(*k),
        },
{
    m.get(k)
}

/// `HashMap::get_mut` on a map with the Fx hasher: the value of `k`, to
/// change in place, if it has one. What a change through the result does
/// to the map is not stated here.
#[verifier::external_body]
pub(crate) fn fx_get_mut<'a>(m: &'a mut SymbolMap, k: &u32) -> (r: Option<&'a mut Symbol>)
    ensures
        r is Some <==> old(m)@.contains_key(*k),
        r matches Some(v) ==> *v == old(m)@[*k],
{
    m.get_mut(k)
}

/// `HashMap::insert` on a map with the Fx hasher: `k` gets the value `v`
/// (the value it had is dropped).
#[verifier::external_body]
pub(crate) fn fx_insert(m: &mut SymbolMap, k: u32, v: Symbol)
    ensures
        final(m)@ == old(m)@.insert(k, v),
{
    m.insert(k, v);
}

/// The type checker: the symbols of the program, by id.
pub struct TypeChecker {
    pub symbols: SymbolMap,
}

impl SymbolCollector for TypeChecker {
    open spec fn symbol_table(&self) -> Map<u32, Symbol> {
        self.symbols@
    }

    fn insert_symbol(&mut self, sym: Symbol) {
        let id = sym.id;
        fx_insert(&mut self.symbols, id, sym);
    }

    fn get_symbol(&self, name: &u32) -> (r: Option<&Symbol>) {
        fx_get(&self.symbols, name)
    }

    fn get_mut_symbol(&mut self, name: &u32) -> (r: Option<&mut Symbol>)
        ensures
            r is Some <==> old(self).symbols@.contains_key(*name),
            r matches Some(sym) ==> *sym == old(self).symbols@[*name],
    {
        fx_get_mut(&mut self.symbols, name)
    }
}

impl TypeChecker {
    /// A type checker that holds no symbol.
    pub fn new() -> (c: Self)
        ensures
            c.symbols@ == Map::<u32, Symbol>::empty(),
    {
        TypeChecker { symbols: fx_new() }
    }

    /// Checks a module; every module passes so far.
    pub fn check_module(&mut self, module: &mut Module) -> (r: Result<(), BaseError>)
        ensures
            r is Ok,
            final(self).symbols@ == old(self).symbols@,
    {
        Ok(())
    }
}

} // verus!
