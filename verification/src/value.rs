//! Values of the semantic analysis: a symbol with value flags.
use vstd::prelude::*;
use crate::symbol::SymbolRef;

verus! {

/// Flags of a value, as bits: static (1), const (2).
#[derive(Clone, Copy)]
pub struct ValueFlags {
    pub bits: u32,
}

/// Something that stores values by name.
pub trait ValueCollector {
    fn get_value(&self, name: &str) -> Option<&Value>;

    fn set_value(&mut self, name: &str, value: Value);
}

/// A value: the symbol it has the type of, and its flags.
pub struct Value {
    pub kind: SymbolRef,
    pub flags: ValueFlags,
}

impl Value {
    /// A value of type `kind` without flags.
    pub fn new(kind: SymbolRef) -> (v: Self)
        ensures
            v.kind == kind,
            v.flags.bits == 0,
    {
        Self { kind, flags: ValueFlags { bits: 0 } }
    }
}

} // verus!
