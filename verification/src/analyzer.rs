//! The analyzer of declarations: the types a program declares, the scope it
//! is in, and the type errors found.
use vstd::prelude::*;
use crate::ast::{ASTListTyping, ASTStatement, ASTTypings};
use crate::errors::{BaseError, ErrorLabel, LoC, Range};
use crate::names::NameMap;
use crate::scope::{Scope, StructStruct, TypeDeclaration, TypeInstance, scope_has_generic};
use crate::type_error::{TypeErrors, type_error_text};

verus! {

/// The declared types, the current scope and the errors found so far.
pub struct LazyAnalyzer<'a> {
    pub scope: Scope<'a>,
    pub types: NameMap<TypeDeclaration<'a>>,
    pub errors: Vec<BaseError>,
}

/// The empty range at the start of the input.
pub open spec fn start_range() -> Range {
    Range { start: LoC { line: 0, col: 0, pos: 0 }, end: LoC { line: 0, col: 0, pos: 0 } }
}

/// The name of the generic parameter that typing `t` is, when it is a plain
/// name that `scope` knows as a generic parameter.
pub open spec fn generic_named<'a>(scope: Scope<'a>, t: ASTTypings) -> Option<Seq<char>> {
    match t {
        ASTTypings::Var(v) => if scope_has_generic(scope, v.value.value@) {
            Some(v.value.value@)
        } else {
            None
        },
        _ => None,
    }
}

/// The names of the typings of `ts`, in order, that are generic parameters
/// of `scope`.
pub open spec fn generic_names<'a>(scope: Scope<'a>, ts: Seq<ASTTypings>) -> Seq<Seq<char>>
    decreases ts.len(),
{
    if ts.len() == 0 {
        Seq::empty()
    } else {
        let init = generic_names(scope, ts.drop_last());
        match generic_named(scope, ts.last()) {
            Some(n) => init.push(n),
            None => init,
        }
    }
}

/// `e` reports type error `t` at range `r`, without labels.
pub open spec fn type_error_is(e: BaseError, t: TypeErrors, r: Range) -> bool {
    &&& e.msg@ == type_error_text(t)
    &&& e.range == r
    &&& e.labels@.len() == 0
}

impl<'a> LazyAnalyzer<'a> {
    /// An analyzer at the top scope, with no type and no error.
    pub fn new() -> (a: Self)
        ensures
            a.scope.parent is None,
            a.scope.variables.map().len() == 0,
            a.scope.generics.map().len() == 0,
            a.types.map().len() == 0,
            a.errors@.len() == 0,
    {
        LazyAnalyzer { scope: Scope::new(None), types: NameMap::new(), errors: Vec::new() }
    }

    /// Registers a struct declaration under its name, as a struct with no
    /// field and no generic parameter yet; a second struct of the same name
    /// is reported as an error instead. Other statements are left alone.
    pub fn register_type(&mut self, ast: &ASTStatement)
        ensures
            final(self).scope == old(self).scope,
            match ast {
                ASTStatement::Struct(structure) => {
                    let name = structure.name.value@;
                    if old(self).types.map().contains_key(name) {
                        &&& final(self).types == old(self).types
                        &&& final(self).errors@.len() == old(self).errors@.len() + 1
                        &&& final(self).errors@.drop_last() == old(self).errors@
                        &&& type_error_is(
                            final(self).errors@.last(),
                            TypeErrors::StructExists(structure.name.value),
                            structure.name.range,
                        )
                    } else {
                        &&& final(self).errors == old(self).errors
                        &&& final(self).types.map() == old(self).types.map().insert(
                            name,
                            final(self).types.map()[name],
                        )
                        &&& final(self).types.map()[name] matches TypeDeclaration::Struct(s)
                            && s.name@ == name && s.fields.map().len() == 0 && s.generics@.len() == 0
                    }
                },
                _ => final(self).types == old(self).types && final(self).errors == old(self).errors,
            },
    {
        match ast {
            ASTStatement::Struct(structure) => {
                if self.types.contains_key(structure.name.value.as_str()) {
                    let e = TypeErrors::StructExists(structure.name.value.clone());
                    self.error(e, structure.name.range);
                    return;
                }
                let declaration = TypeDeclaration::Struct(
                    StructStruct {
                        name: structure.name.value.clone(),
                        fields: NameMap::new(),
                        generics: Vec::new(),
                    },
                );
                self.types.insert(structure.name.value.clone(), declaration);
            },
            _ => {},
        }
    }

    /// The type a typing denotes. Only a plain name can denote one so far:
    /// a generic parameter of the scope is that parameter; a declared type
    /// is not implemented yet, and any other name does not exist.
    pub fn validate_type(&self, ast: &ASTTypings) -> (r: Result<TypeInstance<'a>, BaseError>)
        ensures
            match generic_named(self.scope, *ast) {
                Some(n) => r matches Ok(TypeInstance::Generic(g)) && g@ == n,
                None => r is Err,
            },
            match *ast {
                ASTTypings::Var(v) => !scope_has_generic(self.scope, v.value.value@) ==> if self.types.map().contains_key(v.value.value@) {
                    type_error_is(r->Err_0, TypeErrors::NotImplemented, v.range)
                } else {
                    type_error_is(r->Err_0, TypeErrors::TypeDoesntExist(v.value.value), v.range)
                },
                _ => type_error_is(r->Err_0, TypeErrors::NotImplemented, start_range()),
            },
    {
        match ast {
            ASTTypings::Var(var) => {
                if self.scope.has_generic(var.value.value.as_str()) {
                    return Ok(TypeInstance::Generic(var.value.value.clone()));
                }
                if self.types.contains_key(var.value.value.as_str()) {
                    Err(BaseError::new(TypeErrors::NotImplemented.message(), var.range))
                } else {
                    let e = TypeErrors::TypeDoesntExist(var.value.value.clone());
                    Err(BaseError::new(e.message(), var.range))
                }
            },
            _ => {
                let here = LoC { line: 0, col: 0, pos: 0 };
                Err(BaseError::new(TypeErrors::NotImplemented.message(), Range { start: here, end: here }))
            },
        }
    }

    /// The types of those typings of `generics` that denote one (see
    /// [`LazyAnalyzer::validate_type`]), in order.
    pub fn resolve_generics(&mut self, generics: &ASTListTyping) -> (r: Vec<TypeInstance<'a>>)
        ensures
            *final(self) == *old(self),
            r@.len() == generic_names(old(self).scope, generics.entries@).len(),
            forall|i: int| 0 <= i < r@.len() ==> ((#[trigger] r@[i]) matches TypeInstance::Generic(g)
                && g@ == generic_names(old(self).scope, generics.entries@)[i]),
    {
        let mut res: Vec<TypeInstance<'a>> = Vec::new();
        let mut i: usize = 0;
        assert(generics.entries@.take(0) =~= Seq::<ASTTypings>::empty());
        while i < generics.entries.len()
            invariant
                i <= generics.entries@.len(),
                *self == *old(self),
                res@.len() == generic_names(self.scope, generics.entries@.take(i as int)).len(),
                forall|k: int| 0 <= k < res@.len() ==> ((#[trigger] res@[k]) matches TypeInstance::Generic(g)
                    && g@ == generic_names(self.scope, generics.entries@.take(i as int))[k]),
            decreases generics.entries@.len() - i,
        {
            let typing = &generics.entries[i];
            let inst = self.validate_type(typing);
            proof {
                let t = generics.entries@.take(i + 1);
                assert(t.drop_last() =~= generics.entries@.take(i as int));
                assert(t.last() == generics.entries@[i as int]);
            }
            match inst {
                Ok(v) => res.push(v),
                Err(_) => {},
            }
            i = i + 1;
        }
        assert(generics.entries@.take(generics.entries@.len() as int) =~= generics.entries@);
        res
    }

    /// Records type error `err` at `range`.
    pub fn error(&mut self, err: TypeErrors, range: Range)
        ensures
            final(self).scope == old(self).scope,
            final(self).types == old(self).types,
            final(self).errors@.len() == old(self).errors@.len() + 1,
            final(self).errors@.drop_last() == old(self).errors@,
            type_error_is(final(self).errors@.last(), err, range),
    {
        let e = BaseError::new(err.message(), range);
        self.errors.push(e);
        assert(self.errors@.drop_last() =~= old(self).errors@);
    }

    /// Records type error `err` at `range` with `labels` (errors carry no
    /// highlighting, so `highlight` is not kept).
    pub fn error_lbl(&mut self, err: TypeErrors, range: Range, labels: Vec<ErrorLabel>, highlight: bool)
        ensures
            final(self).scope == old(self).scope,
            final(self).types == old(self).types,
            final(self).errors@ == old(self).errors@.push(final(self).errors@.last()),
            final(self).errors@.last().msg@ == type_error_text(err),
            final(self).errors@.last().range == range,
            final(self).errors@.last().labels == labels,
    {
        let e = BaseError::new_with_labels(err.message(), range, labels);
        self.errors.push(e);
    }
}

} // verus!
