//! Modules: the names a source file declares, imports and exports, and the
//! host that finds the modules a file imports.
use vstd::prelude::*;
use crate::ast::{ASTImportItem, ASTImportThing, ASTStatement};
use crate::diagnostics::{DiagnosticId, err, str_views};
use crate::errors::{BaseError, ErrorCollector, Range};
use crate::names::NameMap;
use crate::parser::{LazyResult, Parser, lemma_reads_len, read_errors, read_statements, reads_in_order};
use crate::path::file_dir_and_join;
use crate::symbol::{StatementOrExpression, Symbol, SymbolFlags, SymbolRef};
use crate::text::to_owned_string;

verus! {

/// Where modules come from: a host reads a module's file on first use and
/// keeps it, and hands out fresh symbol ids.
pub trait FileHost {
    /// Reads the module at `path` and keeps it; `None` when there is no such
    /// file, the module's errors when it does not check.
    fn create(&mut self, path: &str) -> (r: Result<Option<&Module>, ErrorCollector>)
        ensures
            old(self).issued().subset_of(final(self).issued()),
    ;

    /// The module kept under `path`, if any.
    fn get(&self, path: &str) -> Option<&Module>;

    /// The module kept under `path`, or the one read there now.
    fn get_or_create(&mut self, path: &str) -> (r: Result<Option<&Module>, ErrorCollector>)
        ensures
            old(self).issued().subset_of(final(self).issued()),
    ;

    /// Hands out a symbol id and records it as issued: one never handed out
    /// before, as long as some `u32` is still free.
    fn get_unique_id(&mut self) -> (r: u32)
        ensures
            final(self).issued() == old(self).issued().insert(r),
            has_free(old(self).issued()) ==> !old(self).issued().contains(r),
    ;

    /// The symbol ids handed out so far. Reading modules may hand out more;
    /// none is ever taken back. A host records them by defining this.
    closed spec fn issued(&self) -> Set<u32> {
        Set::empty()
    }
}

/// Some `u32` is not in `s`.
pub open spec fn has_free(s: Set<u32>) -> bool {
    exists|x: u32| !s.contains(x)
}

/// A set with a free id keeps one when ids are taken out of it.
proof fn lemma_free_shrinks(a: Set<u32>, b: Set<u32>)
    requires
        a.subset_of(b),
        has_free(b),
    ensures
        has_free(a),
{
    let x = choose|x: u32| !b.contains(x);
    assert(!a.contains(x));
}

/// The ids of the declared symbols were issued (they are in `issued`),
/// and, while some id is still free, they are pairwise distinct and none
/// was issued before (none is in `before`).
pub open spec fn ids_ok(declared: Map<Seq<char>, Symbol>, before: Set<u32>, issued: Set<u32>) -> bool {
    &&& forall|k: Seq<char>| #[trigger] declared.contains_key(k) ==> issued.contains(declared[k].id)
    &&& has_free(issued) ==> {
        &&& forall|k: Seq<char>| #[trigger] declared.contains_key(k) ==> !before.contains(declared[k].id)
        &&& forall|k1: Seq<char>, k2: Seq<char>|
            #[trigger] declared.contains_key(k1) && #[trigger] declared.contains_key(k2) && k1 != k2
                ==> declared[k1].id != declared[k2].id
    }
}

/// Each declared name stands in exactly one of the local and the exported
/// names, and each local name is a declared one, with its id.
pub open spec fn filed_once(
    local: Map<Seq<char>, SymbolRef>,
    exported: Map<Seq<char>, SymbolRef>,
    declared: Map<Seq<char>, Symbol>,
) -> bool {
    &&& forall|k: Seq<char>| #[trigger] declared.contains_key(k) ==> local.contains_key(k) != exported.contains_key(k)
    &&& forall|k: Seq<char>| #[trigger] local.contains_key(k) ==> declared.contains_key(k) && local[k].id == declared[k].id
}

/// A module: the names it uses (declared or imported), the names it
/// exports, the symbols it declares (by name) and its file.
pub struct Module {
    pub local: NameMap<SymbolRef>,
    pub exported: NameMap<SymbolRef>,
    pub temporary: NameMap<Symbol>,
    pub filename: String,
}

/// The tables of a module agree: each declared symbol is filed under its
/// own name, is still a bare declaration and is named locally or
/// exported; each exported name refers to the symbol declared under it.
pub open spec fn tables_agree(
    local: Map<Seq<char>, SymbolRef>,
    exported: Map<Seq<char>, SymbolRef>,
    declared: Map<Seq<char>, Symbol>,
) -> bool {
    &&& forall|k: Seq<char>| #[trigger] declared.contains_key(k) ==> {
        &&& declared[k].name@ == k
        &&& declared[k].kind is NoneValue
        &&& declared[k].instances@.len() == 0
        &&& declared[k].impls@.len() == 0
        &&& local.contains_key(k) || exported.contains_key(k)
    }
    &&& forall|k: Seq<char>| #[trigger] exported.contains_key(k) ==> {
        &&& declared.contains_key(k)
        &&& exported[k].id == declared[k].id
        &&& exported[k].instance_id is None
        &&& exported[k].flag_bits() == 0
    }
}

/// The name an imported item is bound to: its alias, or its own name.
pub open spec fn import_name(item: ASTImportItem) -> Seq<char> {
    match item._as {
        Some(alias) => alias.value@,
        None => item.name@,
    }
}

/// The symbol an imported item binds: the one `from` exports under its
/// name, or symbol 0 when there is none.
pub open spec fn import_target(item: ASTImportItem, from: Map<Seq<char>, SymbolRef>) -> SymbolRef {
    if from.contains_key(item.name@) {
        from[item.name@]
    } else {
        SymbolRef { id: 0, instance_id: None, flags: SymbolFlags { bits: 0 } }
    }
}

/// `names` after binding each item of `items`, in order, to its target in
/// `from`.
pub open spec fn bind_items(
    names: Map<Seq<char>, SymbolRef>,
    items: Seq<ASTImportItem>,
    from: Map<Seq<char>, SymbolRef>,
) -> Map<Seq<char>, SymbolRef>
    decreases items.len(),
{
    if items.len() == 0 {
        names
    } else {
        bind_items(names, items.drop_last(), from).insert(
            import_name(items.last()),
            import_target(items.last(), from),
        )
    }
}

/// The statement declares a name of the module: an enum, struct or type
/// declaration, exported or not, or an exported static variable.
pub open spec fn is_declaration(st: ASTStatement) -> bool {
    match st {
        ASTStatement::EnumDeclaration(_) | ASTStatement::Struct(_) | ASTStatement::Type(_) => true,
        ASTStatement::Export(e) => match *e.value {
            ASTStatement::EnumDeclaration(_) | ASTStatement::Struct(_) | ASTStatement::Type(_)
            | ASTStatement::Static(_) => true,
            _ => false,
        },
        _ => false,
    }
}

/// The name a declaration declares.
pub open spec fn declared_name(st: ASTStatement) -> Seq<char> {
    match st {
        ASTStatement::EnumDeclaration(d) => d.name.value@,
        ASTStatement::Struct(d) => d.name.value@,
        ASTStatement::Type(d) => d.name.value@,
        ASTStatement::Export(e) => match *e.value {
            ASTStatement::EnumDeclaration(d) => d.name.value@,
            ASTStatement::Struct(d) => d.name.value@,
            ASTStatement::Type(d) => d.name.value@,
            ASTStatement::Static(d) => d.var.value@,
            _ => Seq::empty(),
        },
        _ => Seq::empty(),
    }
}

/// The declaration is exported.
pub open spec fn is_exported_declaration(st: ASTStatement) -> bool {
    st is Export
}

/// No statement of `ast` is an import.
pub open spec fn import_free(ast: Seq<ASTStatement>) -> bool {
    forall|i: int| 0 <= i < ast.len() ==> !(#[trigger] ast[i] is Import)
}

/// No two declarations of `ast` declare the same name.
pub open spec fn distinct_declarations(ast: Seq<ASTStatement>) -> bool {
    forall|i: int, j: int|
        0 <= i < j < ast.len() && is_declaration(#[trigger] ast[i]) && is_declaration(#[trigger] ast[j])
            ==> declared_name(ast[i]) != declared_name(ast[j])
}

/// What building the module of `filename` from the statements `ast`, after
/// the errors `errors`, gives: a failure when there were errors (holding
/// them first, in order, when no statement is an import, since only an
/// import can end the build with the errors the host reports), success when there were none, no statement is an
/// import and the declared names are distinct, and a built module files
/// every declaration under its name (without imports, each in exactly one
/// of the local and the exported names).
pub open spec fn module_outcome(
    ast: Seq<ASTStatement>,
    errors: Seq<BaseError>,
    filename: Seq<char>,
    r: Result<Module, ErrorCollector>,
) -> bool {
    &&& errors.len() > 0 ==> r is Err
    &&& errors.len() > 0 && import_free(ast) ==> (r matches Err(c) && c.collected@.len() >= errors.len()
        && c.collected@.take(errors.len() as int) == errors && c.filename@ == filename)
    &&& errors.len() == 0 && import_free(ast) && distinct_declarations(ast) ==> r is Ok
    &&& r is Ok ==> {
        &&& errors.len() == 0
        &&& r->Ok_0.filename@ == filename
        &&& r->Ok_0.consistent()
        &&& forall|i: int| 0 <= i < ast.len() && is_declaration(#[trigger] ast[i]) ==> r->Ok_0.files(ast[i])
        &&& distinct_declarations(ast)
        &&& import_free(ast) ==> filed_once(r->Ok_0.local.map(), r->Ok_0.exported.map(), r->Ok_0.temporary.map())
    }
}

/// A module under construction, with the errors found so far.
struct Tables {
    local: NameMap<SymbolRef>,
    exported: NameMap<SymbolRef>,
    declared: NameMap<Symbol>,
    errors: Vec<BaseError>,
}

/// `b` keeps every name of `a` (locally, exported and declared) and every
/// error of `a`.
spec fn grows(a: Tables, b: Tables) -> bool {
    &&& forall|k: Seq<char>| #[trigger] a.local.map().contains_key(k) ==> b.local.map().contains_key(k)
    &&& forall|k: Seq<char>| #[trigger] a.exported.map().contains_key(k) ==> b.exported.map().contains_key(k)
    &&& forall|k: Seq<char>| #[trigger] a.declared.map().contains_key(k) ==> b.declared.map().contains_key(k)
    &&& b.errors@.len() >= a.errors@.len()
}

impl Tables {
    /// The declaration `st` is filed: its name is declared, and exported or
    /// in local use as the declaration is exported or not.
    spec fn files(&self, st: ASTStatement) -> bool {
        &&& self.declared.map().contains_key(declared_name(st))
        &&& is_exported_declaration(st) ==> self.exported.map().contains_key(declared_name(st))
        &&& !is_exported_declaration(st) ==> self.local.map().contains_key(declared_name(st))
    }

    spec fn agree(&self) -> bool {
        tables_agree(self.local.map(), self.exported.map(), self.declared.map())
    }

    /// Files a declaration of `name` (exported or not) under a fresh id from
    /// `host`, or records a duplicate-identifier error when the name is
    /// already declared or in local use.
    fn declare<H: FileHost>(
        &mut self,
        host: &mut H,
        name: String,
        range: Range,
        is_exported: bool,
        decl: StatementOrExpression,
        Ghost(before): Ghost<Set<u32>>,
    )
        requires
            old(self).agree(),
            ids_ok(old(self).declared.map(), before, old(host).issued()),
            before.subset_of(old(host).issued()),
        ensures
            final(self).agree(),
            ids_ok(final(self).declared.map(), before, final(host).issued()),
            old(host).issued().subset_of(final(host).issued()),
            filed_once(old(self).local.map(), old(self).exported.map(), old(self).declared.map())
                ==> filed_once(final(self).local.map(), final(self).exported.map(), final(self).declared.map()),
            grows(*old(self), *final(self)),
            final(self).errors@.take(old(self).errors@.len() as int) == old(self).errors@,
            old(self).declared.map().contains_key(name@) || old(self).local.map().contains_key(name@)
                ==> final(self).errors@.len() == old(self).errors@.len() + 1,
            forall|k: Seq<char>| #[trigger] final(self).declared.map().contains_key(k)
                ==> old(self).declared.map().contains_key(k) || k == name@,
            forall|k: Seq<char>| #[trigger] final(self).local.map().contains_key(k)
                ==> old(self).local.map().contains_key(k) || k == name@,
            !(old(self).declared.map().contains_key(name@) || old(self).local.map().contains_key(name@))
                ==> {
                &&& final(self).errors@ == old(self).errors@
                &&& final(self).declared.map().contains_key(name@)
                &&& is_exported ==> final(self).exported.map().contains_key(name@)
                &&& !is_exported ==> final(self).local.map().contains_key(name@)
            },
    {
        if self.declared.contains_key(name.as_str()) || self.local.contains_key(name.as_str()) {
            let vars = vec![name.as_str()];
            assert(str_views(vars@) =~= seq![name@]);
            let e = err(DiagnosticId::DuplicateIdent, range, vars);
            self.errors.push(e);
            assert(self.errors@.take(old(self).errors@.len() as int) =~= old(self).errors@);
            return;
        }
        let id = host.get_unique_id();
        let reference = SymbolRef::new_ref(id);
        if is_exported {
            self.exported.insert(name.clone(), reference);
        } else {
            self.local.insert(name.clone(), reference);
        }
        let key = name.clone();
        let sym = Symbol::empty(id, name, decl);
        self.declared.insert(key, sym);
        assert(self.errors@.take(old(self).errors@.len() as int) =~= old(self).errors@);
        proof {
            if has_free(host.issued()) {
                lemma_free_shrinks(old(host).issued(), host.issued());
            }
        }
    }
    /// Brings in what an import of `module` asks for: all of its exported
    /// names, or each listed item under its alias (or its name). An item
    /// that `module` does not export is recorded as an error naming the
    /// item and `path_text`, and bound to symbol 0.
    fn import_from(&mut self, module: &Module, thing: &ASTImportThing, path_text: &str)
        requires
            old(self).agree(),
        ensures
            final(self).agree(),
            grows(*old(self), *final(self)),
            final(self).exported == old(self).exported,
            final(self).declared == old(self).declared,
            final(self).errors@.len() >= old(self).errors@.len(),
            final(self).errors@.take(old(self).errors@.len() as int) == old(self).errors@,
            thing is All ==> final(self).local.map() == old(self).local.map().union_prefer_right(
                module.exported.map(),
            ),
            thing is Items ==> final(self).local.map() == bind_items(
                old(self).local.map(),
                thing->Items_0@,
                module.exported.map(),
            ),
    {
        match thing {
            ASTImportThing::All => {
                self.local.extend_from(&module.exported);
                assert(self.errors@.take(old(self).errors@.len() as int) =~= old(self).errors@);
            },
            ASTImportThing::Items(items) => {
                let mut i: usize = 0;
                assert(items@.take(0) =~= Seq::<ASTImportItem>::empty());
                while i < items.len()
                    invariant
                        i <= items@.len(),
                        self.agree(),
                        self.exported == old(self).exported,
                        self.declared == old(self).declared,
                        self.errors@.len() >= old(self).errors@.len(),
                        self.errors@.take(old(self).errors@.len() as int) == old(self).errors@,
                        grows(*old(self), *self),
                        self.local.map() == bind_items(
                            old(self).local.map(),
                            items@.take(i as int),
                            module.exported.map(),
                        ),
                    decreases items@.len() - i,
                {
                    let item = &items[i];
                    let target = match module.exported.get(item.name.as_str()) {
                        Some(id) => *id,
                        None => {
                            let vars = vec![item.name.as_str(), path_text];
                            assert(str_views(vars@) =~= seq![item.name@, path_text@]);
                            let e = err(DiagnosticId::TypeNotFoundFromMod, item.range, vars);
                            let ghost before = self.errors@;
                            self.errors.push(e);
                            assert(self.errors@.take(old(self).errors@.len() as int) =~= before.take(
                                old(self).errors@.len() as int,
                            ));
                            SymbolRef::new_ref(0)
                        },
                    };
                    let bound = match &item._as {
                        Some(alias) => alias.value.clone(),
                        None => item.name.clone(),
                    };
                    self.local.insert(bound, target);
                    proof {
                        let t = items@.take(i + 1);
                        assert(t.drop_last() =~= items@.take(i as int));
                        assert(t.last() == items@[i as int]);
                    }
                    i = i + 1;
                }
                assert(items@.take(items@.len() as int) =~= items@);
            },
        }
    }
}

impl Module {
    /// The symbol `name` refers to: a local name first, then an exported one.
    pub fn get_sym(&self, name: &str) -> (r: Option<&SymbolRef>)
        ensures
            match r {
                Some(s) => if self.local.map().contains_key(name@) {
                    *s == self.local.map()[name@]
                } else {
                    self.exported.map().contains_key(name@) && *s == self.exported.map()[name@]
                },
                None => !self.local.map().contains_key(name@) && !self.exported.map().contains_key(
                    name@,
                ),
            },
    {
        match self.local.get(name) {
            Some(s) => Some(s),
            None => self.exported.get(name),
        }
    }

    /// The declaration `st` is filed in the module: its name is declared,
    /// and exported or in local use as the declaration is exported or not.
    pub open spec fn files(&self, st: ASTStatement) -> bool {
        &&& self.temporary.map().contains_key(declared_name(st))
        &&& is_exported_declaration(st) ==> self.exported.map().contains_key(declared_name(st))
        &&& !is_exported_declaration(st) ==> self.local.map().contains_key(declared_name(st))
    }

    /// The tables of the module agree (see [`tables_agree`]).
    pub open spec fn consistent(&self) -> bool {
        tables_agree(self.local.map(), self.exported.map(), self.temporary.map())
    }

    /// Reads the module in `content` (the file `filename`): parses it and
    /// builds the module from its statements (see
    /// [`Module::from_statements`]), with the lexer's errors, then the
    /// parser's, as the errors found so far.
    pub fn from_str<H: FileHost>(host: &mut H, filename: &str, content: &str) -> (r: Result<
        Module,
        ErrorCollector,
    >)
        requires
            content@.len() < usize::MAX,
        ensures
            r is Ok ==> r->Ok_0.filename@ == filename@ && r->Ok_0.consistent(),
            content@.len() == 0 ==> r is Ok,
            old(host).issued().subset_of(final(host).issued()),
            r is Ok ==> ids_ok(r->Ok_0.temporary.map(), old(host).issued(), final(host).issued()),
            exists|states: Seq<Parser>, results: Seq<LazyResult<ASTStatement>>|
                #[trigger] reads_in_order(states, results, states[0], states.last()) && ({
                    let start = states[0];
                    let lexed = states.last().tokens.errors@;
                    &&& start.tokens.input.code() == content@
                    &&& start.tokens.input.pos() == 0
                    &&& start.tokens.current is None
                    &&& start.tokens.errors@.len() == 0
                    &&& !start.parsed_main
                    &&& content@.len() == 0 ==> results.len() == 0 && lexed.len() == 0
                    &&& module_outcome(read_statements(results), lexed + read_errors(results), filename@, r)
                }),
    {
        let mut parser = Parser::new(content, to_owned_string(filename));
        let ghost start = parser;
        let (ast, errs) = parser.parse();
        let ghost lexed = parser.tokens.errors@;
        let ghost parsed = errs@;
        let ghost sts = ast@;
        let ghost (states, results) = choose|states: Seq<Parser>, results: Seq<LazyResult<ASTStatement>>|
            #[trigger] reads_in_order(states, results, start, parser) && sts == read_statements(results)
                && parsed == read_errors(results);
        let mut errors: Vec<BaseError> = Vec::new();
        errors.append(&mut parser.tokens.errors);
        let mut errs = errs;
        errors.append(&mut errs);
        assert(errors@ =~= lexed + parsed);
        let r = Self::from_statements(host, filename, ast, errors);
        proof {
            assert(module_outcome(read_statements(results), lexed + read_errors(results), filename@, r));
            if content@.len() == 0 {
                lemma_reads_len(results);
            }
            assert(reads_in_order(states, results, states[0], states.last()));
        }
        r
    }

    /// Builds the module of the file `filename` from its statements, in
    /// order, after the errors `errors` found while reading it. An import
    /// asks `host` for the module at its path (taken relative to the
    /// directory of `filename`) and binds the names it asks for; an enum,
    /// struct or type declaration, exported or not, gets a fresh id from
    /// `host` and is filed under its name, unless the name is already
    /// declared or in local use. Fails with all the errors found, in order,
    /// or with the errors `host` reports for an imported module. A module
    /// that is built had no error before, files every declaration under its
    /// name, and no two of its declarations share a name.
    pub fn from_statements<H: FileHost>(
        host: &mut H,
        filename: &str,
        ast: Vec<ASTStatement>,
        errors: Vec<BaseError>,
    ) -> (r: Result<Module, ErrorCollector>)
        ensures
            module_outcome(ast@, errors@, filename@, r),
            errors@.len() > 0 ==> r is Err,
            errors@.len() == 0 && (forall|i: int| 0 <= i < ast@.len() ==> !(#[trigger] ast@[i] is Import))
                && (forall|i: int, j: int|
                0 <= i < j < ast@.len() && is_declaration(#[trigger] ast@[i]) && is_declaration(
                    #[trigger] ast@[j],
                ) ==> declared_name(ast@[i]) != declared_name(ast@[j])) ==> r is Ok,
            r is Ok ==> {
                &&& errors@.len() == 0
                &&& r->Ok_0.filename@ == filename@
                &&& r->Ok_0.consistent()
                &&& forall|i: int|
                    0 <= i < ast@.len() && is_declaration(#[trigger] ast@[i]) ==> r->Ok_0.files(ast@[i])
                &&& forall|i: int, j: int|
                    0 <= i < j < ast@.len() && is_declaration(#[trigger] ast@[i]) && is_declaration(
                        #[trigger] ast@[j],
                    ) ==> declared_name(ast@[i]) != declared_name(ast@[j])
            },
            old(host).issued().subset_of(final(host).issued()),
            r is Ok ==> ids_ok(r->Ok_0.temporary.map(), old(host).issued(), final(host).issued()),
    {
        let ghost all = ast@;
        let ghost issued0 = host.issued();
        let ghost simple = errors@.len() == 0 && (forall|i: int| 0 <= i < all.len() ==> !(#[trigger] all[i] is Import))
            && (forall|i: int, j: int|
            0 <= i < j < all.len() && is_declaration(#[trigger] all[i]) && is_declaration(#[trigger] all[j])
                ==> declared_name(all[i]) != declared_name(all[j]));
        let mut tables = Tables {
            local: NameMap::new(),
            exported: NameMap::new(),
            declared: NameMap::new(),
            errors,
        };
        // The statements in reverse order, so that popping yields them in order.
        let mut rest = ast;
        let mut pending: Vec<ASTStatement> = Vec::new();
        while rest.len() > 0
            invariant
                rest@.len() + pending@.len() == all.len(),
                rest@ == all.take(rest@.len() as int),
                forall|j: int| 0 <= j < pending@.len() ==> #[trigger] pending@[j] == all[all.len() - 1 - j],
            decreases rest@.len(),
        {
            let st = rest.pop().unwrap();
            pending.push(st);
        }
        while pending.len() > 0
            invariant
                tables.agree(),
                issued0 == old(host).issued(),
                issued0.subset_of(host.issued()),
                ids_ok(tables.declared.map(), issued0, host.issued()),
                import_free(all) ==> filed_once(tables.local.map(), tables.exported.map(), tables.declared.map()),
                pending@.len() <= all.len(),
                forall|j: int| 0 <= j < pending@.len() ==> #[trigger] pending@[j] == all[all.len() - 1 - j],
                tables.errors@.len() >= errors@.len(),
                import_free(all) ==> tables.errors@.take(errors@.len() as int) == errors@,
                all == ast@,
                simple ==> tables.errors@.len() == 0,
                simple ==> forall|k: Seq<char>| #[trigger] tables.declared.map().contains_key(k) ==> exists|i: int|
                    0 <= i < all.len() - pending@.len() && is_declaration(#[trigger] all[i]) && declared_name(all[i]) == k,
                simple ==> forall|k: Seq<char>| #[trigger] tables.local.map().contains_key(k) ==> tables.declared.map().contains_key(k),
                simple == (errors@.len() == 0 && (forall|i: int| 0 <= i < all.len() ==> !(#[trigger] all[i] is Import))
                    && (forall|i: int, j: int|
                    0 <= i < j < all.len() && is_declaration(#[trigger] all[i]) && is_declaration(#[trigger] all[j])
                        ==> declared_name(all[i]) != declared_name(all[j]))),
                tables.errors@.len() == 0 ==> forall|i: int|
                    0 <= i < all.len() - pending@.len() && is_declaration(#[trigger] all[i])
                        ==> tables.files(all[i]),
                tables.errors@.len() == 0 ==> forall|i: int, j: int|
                    0 <= i < j < all.len() - pending@.len() && is_declaration(#[trigger] all[i])
                        && is_declaration(#[trigger] all[j]) ==> declared_name(all[i]) != declared_name(
                        all[j],
                    ),
            decreases pending@.len(),
        {
            let ghost before = tables;
            let ghost k = all.len() - pending@.len();
            let statement = pending.pop().unwrap();
            assert(statement == all[k]);
            proof {
                if simple && is_declaration(all[k]) {
                    let n = declared_name(all[k]);
                    if tables.declared.map().contains_key(n) {
                        let i = choose|i: int|
                            0 <= i < k && is_declaration(#[trigger] all[i]) && declared_name(all[i]) == n;
                        assert(false);
                    }
                    assert(!tables.local.map().contains_key(n));
                }
            }
            match statement {
                ASTStatement::Import(decl) => {
                    proof {
                        assert(all[k] is Import);
                        assert(!(forall|i: int| 0 <= i < all.len() ==> !(#[trigger] all[i] is Import)));
                    }
                    let path_to_mod = file_dir_and_join(filename, decl.path.value.as_str());
                    let ghost before_host = host.issued();
                    match host.get_or_create(path_to_mod.as_str()) {
                        Err(e) => return Err(e),
                        Ok(None) => {
                            let vars = vec![decl.path.value.as_str()];
                            let e = err(DiagnosticId::ModNotFound, decl.path.range, vars);
                            tables.errors.push(e);
                        },
                        Ok(Some(module)) => {
                            let path_text = decl.path.to_display_string();
                            tables.import_from(module, &decl.thing, path_text.as_str());
                        },
                    }
                    proof {
                        if has_free(host.issued()) {
                            lemma_free_shrinks(before_host, host.issued());
                        }
                    }
                },
                ASTStatement::EnumDeclaration(decl) => {
                    let name = decl.name.value.clone();
                    let range = decl.name.range;
                    tables.declare(host, name, range, false, StatementOrExpression::EnumStatement(decl), Ghost(issued0));
                },
                ASTStatement::Struct(decl) => {
                    let name = decl.name.value.clone();
                    let range = decl.name.range;
                    tables.declare(host, name, range, false, StatementOrExpression::StructStatement(decl), Ghost(issued0));
                },
                ASTStatement::Type(decl) => {
                    let name = decl.name.value.clone();
                    let range = decl.name.range;
                    tables.declare(host, name, range, false, StatementOrExpression::TypeStatement(decl), Ghost(issued0));
                },
                ASTStatement::Export(export) => {
                    match *export.value {
                        ASTStatement::EnumDeclaration(decl) => {
                            let name = decl.name.value.clone();
                            let range = decl.name.range;
                            tables.declare(
                                host,
                                name,
                                range,
                                true,
                                StatementOrExpression::EnumStatement(decl),
                                Ghost(issued0),
                            );
                        },
                        ASTStatement::Struct(decl) => {
                            let name = decl.name.value.clone();
                            let range = decl.name.range;
                            tables.declare(
                                host,
                                name,
                                range,
                                true,
                                StatementOrExpression::StructStatement(decl),
                                Ghost(issued0),
                            );
                        },
                        ASTStatement::Type(decl) => {
                            let name = decl.name.value.clone();
                            let range = decl.name.range;
                            tables.declare(
                                host,
                                name,
                                range,
                                true,
                                StatementOrExpression::TypeStatement(decl),
                                Ghost(issued0),
                            );
                        },
                        ASTStatement::Static(decl) => {
                            let name = decl.var.value.clone();
                            let range = decl.var.range;
                            tables.declare(host, name, range, true, StatementOrExpression::NoneValue, Ghost(issued0));
                        },
                        _ => {},
                    }
                },
                _ => {},
            }
        }
        if tables.errors.len() > 0 {
            Err(ErrorCollector { collected: tables.errors, filename: to_owned_string(filename) })
        } else {
            Ok(
                Module {
                    local: tables.local,
                    exported: tables.exported,
                    temporary: tables.declared,
                    filename: to_owned_string(filename),
                },
            )
        }
    }
}

} // verus!
