//! The syntax tree of Lazy programs and small queries over it.
use vstd::prelude::*;
use crate::errors::{LoC, Range};
use crate::tokenizer::{FloatLit, TokenType};

verus! {

/// A string literal.
pub struct ASTStr {
    pub value: String,
    pub range: Range,
}

/// A template literal: its text, with a space where each embedded
/// expression stood, and the expressions with the byte offset of their
/// space, in the order they appear.
pub struct ASTTempStr {
    pub template: String,
    pub values: Vec<(usize, ASTExpression)>,
    pub range: Range,
}

/// A floating point literal, as written.
pub struct ASTFloat {
    pub value: FloatLit,
    pub range: Range,
}

/// An integer literal.
pub struct ASTInt {
    pub value: i32,
    pub range: Range,
}

/// A boolean literal.
pub struct ASTBool {
    pub value: bool,
    pub range: Range,
}

/// A variable or typing name.
pub struct ASTVar {
    pub value: String,
    pub range: Range,
}

/// A list of names.
pub struct ASTVarList {
    pub values: Vec<ASTVar>,
    pub range: Range,
}

/// What a declaration binds: a tuple pattern, a struct pattern or a name.
pub enum ASTDeclareTypes {
    TupleDeconstruct(ASTVarList),
    StructDeconstruct(ASTVarList),
    Var(ASTVar),
}

/// `let` or `const`.
pub struct ASTDeclare {
    pub var: ASTDeclareTypes,
    pub is_const: bool,
    pub value: Option<Box<ASTExpression>>,
    pub typings: Option<ASTTypings>,
    pub range: Range,
}

/// A `static` item.
pub struct ASTStatic {
    pub var: ASTVar,
    pub typings: Option<ASTListTyping>,
    pub value: ASTExpression,
    pub range: Range,
}

/// A `struct` declaration.
pub struct ASTStruct {
    pub name: ASTVar,
    pub fields: ASTPairListTyping,
    pub typings: Option<ASTListTyping>,
    pub range: Range,
}

/// A list of key-value pairs.
pub struct ASTPairList {
    pub pairs: Vec<(String, Option<ASTExpression>)>,
    pub range: Range,
}

/// A binary expression.
pub struct ASTBinary {
    pub op: String,
    pub left: Box<ASTExpression>,
    pub right: Box<ASTExpression>,
    pub range: Range,
}

/// A prefix operator applied to an expression.
pub struct ASTUnary {
    pub op: String,
    pub value: Box<ASTExpression>,
    pub range: Range,
}

/// `value.target`.
pub struct ASTDotAccess {
    pub value: Box<ASTExpression>,
    pub target: ASTVar,
    pub range: Range,
}

/// `value[target]`.
pub struct ASTIndexAccess {
    pub value: Box<ASTExpression>,
    pub target: Box<ASTExpression>,
    pub range: Range,
}

/// `value?`.
pub struct ASTOptional {
    pub value: Box<ASTExpression>,
    pub range: Range,
}

/// An `enum` declaration.
pub struct ASTEnumDeclaration {
    pub name: ASTVar,
    pub values: ASTPairListTyping,
    pub typings: Option<ASTListTyping>,
    pub range: Range,
}

/// A function, or a function signature when it has no body.
pub struct ASTFunction {
    pub params: Box<ASTPairListTyping>,
    pub body: Option<Box<ASTExpression>>,
    pub return_type: Option<Box<ASTTypings>>,
    pub typings: Option<ASTListTyping>,
    pub range: Range,
}

/// A block of expressions.
pub struct ASTBlock {
    pub elements: Vec<ASTExpression>,
    pub range: Range,
}

/// `new Target<..> { .. }`.
pub struct ASTInitializor {
    pub target: ASTModAccessValues,
    pub params: ASTPairList,
    pub typings: Option<ASTListTyping>,
    pub range: Range,
}

/// `start..end` or `start..=end`.
pub struct ASTIterator {
    pub start: Box<ASTExpression>,
    pub end: Box<ASTExpression>,
    pub inclusive: bool,
    pub range: Range,
}

/// `if condition then_branch else otherwise`.
pub struct ASTIf {
    pub condition: Box<ASTExpression>,
    pub then_branch: Box<ASTExpression>,
    pub otherwise: Option<Box<ASTExpression>>,
    pub range: Range,
}

/// A character literal.
pub struct ASTChar {
    pub value: char,
    pub range: Range,
}

/// A path through modules, or a plain (possibly generic) name.
pub enum ASTModAccessValues {
    ModAccess(ASTModAccess),
    Var(ASTVarTyping),
}

/// `A::B::C<..>(..)`.
pub struct ASTModAccess {
    pub path: Vec<ASTVar>,
    pub init: Option<ASTExpressionList>,
    pub typings: Option<ASTListTyping>,
    pub range: Range,
}

/// A call.
pub struct ASTCall {
    pub target: Box<ASTExpression>,
    pub args: ASTExpressionList,
    pub typings: Option<ASTListTyping>,
    pub range: Range,
}

/// `for var in iterable body`.
pub struct ASTForIn {
    pub var: ASTVar,
    pub iterable: Box<ASTExpression>,
    pub body: Box<ASTExpression>,
    pub range: Range,
}

/// `while condition body`.
pub struct ASTWhile {
    pub condition: Box<ASTExpression>,
    pub body: Box<ASTExpression>,
    pub range: Range,
}

/// A `type` alias.
pub struct ASTType {
    pub name: ASTVar,
    pub typings: Option<ASTListTyping>,
    pub value: ASTTypings,
    pub range: Range,
}

/// A list of expressions.
pub struct ASTExpressionList {
    pub expressions: Vec<ASTExpression>,
    pub range: Range,
}

/// `yield value`.
pub struct ASTYield {
    pub value: Option<Box<ASTExpression>>,
    pub range: Range,
}

/// `...value`.
pub struct ASTSpread {
    pub value: Box<ASTExpression>,
    pub range: Range,
}

/// The `main` entry block.
pub struct ASTMain {
    pub expression: ASTBlock,
    pub range: Range,
}

/// What a match arm can test against.
pub enum ASTMatchArmExpressions {
    String(ASTStr),
    Int(ASTInt),
    Float(ASTFloat),
    Iterator(ASTIterator),
    Char(ASTChar),
    Bool(ASTBool),
    Tuple(ASTExpressionList),
    NoneValue(Range),
    Rest,
    Enum(ASTModAccess),
    EnumVar(ASTModAccess),
}

/// One arm of a `match`.
pub struct ASTMatchArm {
    pub possibilities: Vec<ASTMatchArmExpressions>,
    pub guard: Option<ASTExpression>,
    pub body: ASTExpression,
    pub range: Range,
}

/// A `match` expression.
pub struct ASTMatch {
    pub arms: Vec<ASTMatchArm>,
    pub expression: Box<ASTExpression>,
    pub range: Range,
}

/// `export statement`.
pub struct ASTExport {
    pub value: Box<ASTStatement>,
    pub range: Range,
}

/// One imported name, possibly renamed.
pub struct ASTImportItem {
    pub name: String,
    pub _as: Option<ASTVar>,
    pub range: Range,
}

/// What an import brings in: some names, or everything.
pub enum ASTImportThing {
    Items(Vec<ASTImportItem>),
    All,
}

/// `import { .. } from "path" as name`.
pub struct ASTImport {
    pub path: ASTStr,
    pub thing: ASTImportThing,
    pub _as: Option<ASTVar>,
    pub range: Range,
}

/// `await expression` or `await? expression`.
pub struct ASTAwait {
    pub optional: bool,
    pub expression: Box<ASTExpression>,
    pub range: Range,
}

/// `impl Partial for Target { .. }`.
pub struct ASTImpl {
    pub partial: ASTModAccessValues,
    pub target: ASTModAccessValues,
    pub typings: Option<ASTListTyping>,
    pub fields: ASTPairListTyping,
    pub range: Range,
}

/// `#name(args) statement`.
pub struct ASTMeta {
    pub name: ASTVar,
    pub args: Vec<TokenType>,
    pub target: Box<ASTStatement>,
    pub range: Range,
}

/// Any expression.
pub enum ASTExpression {
    Str(ASTStr),
    TempStr(ASTTempStr),
    Float(ASTFloat),
    Int(ASTInt),
    Bool(ASTBool),
    Var(ASTVar),
    Char(ASTChar),
    Binary(ASTBinary),
    Unary(ASTUnary),
    DotAccess(ASTDotAccess),
    IndexAccess(ASTIndexAccess),
    ModAccess(ASTModAccess),
    Optional(ASTOptional),
    Block(ASTBlock),
    Function(ASTFunction),
    Init(ASTInitializor),
    Iterator(ASTIterator),
    Call(ASTCall),
    ForIn(ASTForIn),
    While(ASTWhile),
    If(ASTIf),
    Declare(ASTDeclare),
    Tuple(ASTExpressionList),
    Yield(ASTYield),
    Spread(ASTSpread),
    NoneValue(Range),
    Match(ASTMatch),
    Await(ASTAwait),
}

/// Any statement.
pub enum ASTStatement {
    EnumDeclaration(ASTEnumDeclaration),
    Struct(ASTStruct),
    Static(Box<ASTStatic>),
    Type(ASTType),
    Main(ASTMain),
    Export(ASTExport),
    Import(ASTImport),
    Meta(ASTMeta),
    Impl(ASTImpl),
}

/// The modifiers of a field, as bits: private (1), static (2), const (4).
#[derive(Clone, Copy)]
pub struct ASTModifiers {
    pub bits: u32,
}

impl ASTModifiers {
    /// No modifier.
    pub fn empty() -> (m: Self)
        ensures
            m.bits == 0,
    {
        ASTModifiers { bits: 0 }
    }

    /// The `private` modifier.
    pub fn private() -> (m: Self)
        ensures
            m.bits == 1,
    {
        ASTModifiers { bits: 1 }
    }

    /// The `static` modifier.
    pub fn static_mod() -> (m: Self)
        ensures
            m.bits == 2,
    {
        ASTModifiers { bits: 2 }
    }

    /// The `const` modifier.
    pub fn const_mod() -> (m: Self)
        ensures
            m.bits == 4,
    {
        ASTModifiers { bits: 4 }
    }

    /// Whether all of `other`'s modifiers are set.
    pub fn contains(&self, other: ASTModifiers) -> (r: bool)
        ensures
            r == (self.bits & other.bits == other.bits),
    {
        self.bits & other.bits == other.bits
    }

    /// Sets `other`'s modifiers too.
    pub fn insert(&mut self, other: ASTModifiers)
        ensures
            final(self).bits == old(self).bits | other.bits,
    {
        self.bits = self.bits | other.bits;
    }

    /// Removes every modifier.
    pub fn clear(&mut self)
        ensures
            final(self).bits == 0,
    {
        self.bits = 0;
    }
}

/// A typed field or parameter.
pub struct ASTPairTypingItem {
    pub name: String,
    pub value: Option<ASTTypings>,
    pub spread: bool,
    pub default_value: Option<ASTExpression>,
    pub modifiers: ASTModifiers,
}

/// A list of typed fields or parameters.
pub struct ASTPairListTyping {
    pub pairs: Vec<ASTPairTypingItem>,
    pub range: Range,
}

/// A list of typings.
pub struct ASTListTyping {
    pub entries: Vec<ASTTypings>,
    pub range: Range,
}

/// A named typing with its generic arguments.
pub struct ASTVarTyping {
    pub value: ASTVar,
    pub typings: Option<ASTListTyping>,
    pub range: Range,
}

/// `left + right`.
pub struct ASTCombineTyping {
    pub left: Box<ASTTypings>,
    pub right: Box<ASTTypings>,
    pub range: Range,
}

/// `name: bound`.
pub struct ASTBoundTyping {
    pub name: ASTVar,
    pub bound: Box<ASTTypings>,
    pub range: Range,
}

/// `impl Partial`.
pub struct ASTImplTyping {
    pub value: Box<ASTTypings>,
    pub range: Range,
}

/// Any typing.
pub enum ASTTypings {
    Var(ASTVarTyping),
    Mod(ASTModAccess),
    PairList(ASTPairListTyping),
    Function(ASTFunction),
    Optional(Box<ASTTypings>),
    Tuple(ASTListTyping),
    Combine(ASTCombineTyping),
    ExplicitImpl(ASTModAccessValues),
    Bound(ASTBoundTyping),
    Impl(ASTImplTyping),
}

// ---------------------------------------------------------------------------
// Queries
// ---------------------------------------------------------------------------

/// The range an expression covers, from its leftmost to its rightmost part.
pub open spec fn expression_range(ast: ASTExpression) -> Range
    decreases ast,
{
    match ast {
        ASTExpression::Var(v) => v.range,
        ASTExpression::Str(v) => v.range,
        ASTExpression::Bool(v) => v.range,
        ASTExpression::Float(v) => v.range,
        ASTExpression::Int(v) => v.range,
        ASTExpression::Binary(bin) => Range {
            start: expression_range(*bin.left).start,
            end: expression_range(*bin.right).end,
        },
        ASTExpression::Unary(un) => Range {
            start: un.range.start,
            end: expression_range(*un.value).end,
        },
        ASTExpression::DotAccess(access) => Range {
            start: expression_range(*access.value).start,
            end: access.range.end,
        },
        ASTExpression::Block(block) => block.range,
        ASTExpression::Declare(l) => l.range,
        ASTExpression::Init(init) => init.range,
        ASTExpression::Optional(op) => Range {
            start: expression_range(*op.value).start,
            end: op.range.end,
        },
        ASTExpression::Function(fun) => fun.range,
        ASTExpression::Iterator(it) => Range {
            start: expression_range(*it.start).start,
            end: it.range.end,
        },
        ASTExpression::Call(call) => Range {
            start: expression_range(*call.target).start,
            end: call.range.end,
        },
        ASTExpression::ForIn(for_in) => for_in.range,
        ASTExpression::While(while_loop) => while_loop.range,
        ASTExpression::If(ifexp) => ifexp.range,
        ASTExpression::Char(ch) => ch.range,
        ASTExpression::ModAccess(e) => e.range,
        ASTExpression::Tuple(tup) => tup.range,
        ASTExpression::Yield(y) => y.range,
        ASTExpression::Spread(sp) => sp.range,
        ASTExpression::Match(mtch) => mtch.range,
        ASTExpression::Await(aw) => aw.range,
        ASTExpression::TempStr(t) => t.range,
        ASTExpression::IndexAccess(i) => i.range,
        ASTExpression::NoneValue(range) => range,
    }
}

/// The range an expression covers (see [`expression_range`]).
pub fn full_expression_range(ast: &ASTExpression) -> (r: Range)
    ensures
        r == expression_range(*ast),
    decreases ast,
{
    match ast {
        ASTExpression::Var(v) => v.range,
        ASTExpression::Str(v) => v.range,
        ASTExpression::Bool(v) => v.range,
        ASTExpression::Float(v) => v.range,
        ASTExpression::Int(v) => v.range,
        ASTExpression::Binary(bin) => Range {
            start: full_expression_range(&bin.left).start,
            end: full_expression_range(&bin.right).end,
        },
        ASTExpression::Unary(un) => Range {
            start: un.range.start,
            end: full_expression_range(&un.value).end,
        },
        ASTExpression::DotAccess(access) => Range {
            start: full_expression_range(&access.value).start,
            end: access.range.end,
        },
        ASTExpression::Block(block) => block.range,
        ASTExpression::Declare(l) => l.range,
        ASTExpression::Init(init) => init.range,
        ASTExpression::Optional(op) => Range {
            start: full_expression_range(&op.value).start,
            end: op.range.end,
        },
        ASTExpression::Function(fun) => fun.range,
        ASTExpression::Iterator(it) => Range {
            start: full_expression_range(&it.start).start,
            end: it.range.end,
        },
        ASTExpression::Call(call) => Range {
            start: full_expression_range(&call.target).start,
            end: call.range.end,
        },
        ASTExpression::ForIn(for_in) => for_in.range,
        ASTExpression::While(while_loop) => while_loop.range,
        ASTExpression::If(ifexp) => ifexp.range,
        ASTExpression::Char(ch) => ch.range,
        ASTExpression::ModAccess(e) => e.range,
        ASTExpression::Tuple(tup) => tup.range,
        ASTExpression::Yield(y) => y.range,
        ASTExpression::Spread(sp) => sp.range,
        ASTExpression::Match(mtch) => mtch.range,
        ASTExpression::Await(aw) => aw.range,
        ASTExpression::TempStr(t) => t.range,
        ASTExpression::IndexAccess(i) => i.range,
        ASTExpression::NoneValue(range) => *range,
    }
}

/// A literal: a character, number, string, `none` or boolean.
pub open spec fn is_literal(ast: ASTExpression) -> bool {
    ast is Char || ast is Int || ast is Float || ast is Str || ast is NoneValue || ast is Bool
}

/// A natural iterator: both its ends are character or integer literals.
pub open spec fn natural_iter(it: ASTIterator) -> bool {
    (*it.start is Char || *it.start is Int) && (*it.end is Char || *it.end is Int)
}

/// A natural value: a literal, a natural iterator, or a tuple of natural
/// values.
pub open spec fn natural_val(ast: ASTExpression) -> bool
    decreases ast,
{
    match ast {
        ASTExpression::Iterator(it) => natural_iter(it),
        ASTExpression::Tuple(tup) => natural_list(tup.expressions@),
        _ => is_literal(ast),
    }
}

/// Every value of the list is natural.
pub open spec fn natural_list(vals: Seq<ASTExpression>) -> bool
    decreases vals,
{
    if vals.len() == 0 {
        true
    } else {
        natural_val(vals[0]) && natural_list(vals.drop_first())
    }
}

/// Whether the iterator is natural (see [`natural_iter`]).
pub fn is_natural_iter(ast: &ASTIterator) -> (r: bool)
    ensures
        r == natural_iter(*ast),
{
    let start_ok = match &*ast.start {
        ASTExpression::Char(_) | ASTExpression::Int(_) => true,
        _ => false,
    };
    let end_ok = match &*ast.end {
        ASTExpression::Char(_) | ASTExpression::Int(_) => true,
        _ => false,
    };
    start_ok && end_ok
}

/// Whether every value of the tuple is natural.
pub fn is_natural_tuple(ast: &ASTExpressionList) -> (r: bool)
    ensures
        r == natural_list(ast.expressions@),
    decreases ast,
{
    let ghost all = ast.expressions@;
    let mut i: usize = 0;
    assert(all.skip(0) =~= all);
    while i < ast.expressions.len()
        invariant
            i <= ast.expressions.len(),
            all == ast.expressions@,
            natural_list(all) == natural_list(all.skip(i as int)),
        decreases ast.expressions.len() - i,
    {
        assert(all.skip(i as int).drop_first() =~= all.skip(i + 1));
        assert(all.skip(i as int)[0] == all[i as int]);
        if !is_natural_val(&ast.expressions[i]) {
            return false;
        }
        i = i + 1;
    }
    assert(all.skip(i as int) =~= Seq::<ASTExpression>::empty());
    true
}

/// Whether the value is natural (see [`natural_val`]).
pub fn is_natural_val(ast: &ASTExpression) -> (r: bool)
    ensures
        r == natural_val(*ast),
    decreases ast,
{
    match ast {
        ASTExpression::Char(_) | ASTExpression::Int(_) | ASTExpression::Float(_)
        | ASTExpression::Str(_) | ASTExpression::NoneValue(_) | ASTExpression::Bool(_) => true,
        ASTExpression::Iterator(iter) => is_natural_iter(iter),
        ASTExpression::Tuple(tup) => is_natural_tuple(tup),
        _ => false,
    }
}

/// A natural enum value: a module path with no arguments, or with natural
/// arguments only.
pub open spec fn natural_mod_access(acc: ASTModAccess) -> bool {
    match acc.init {
        Some(init) => natural_list(init.expressions@),
        None => true,
    }
}

/// Whether the enum value is natural (see [`natural_mod_access`]).
pub fn is_natural_mod_access(acc: &ASTModAccess) -> (r: bool)
    ensures
        r == natural_mod_access(*acc),
{
    match &acc.init {
        Some(init) => is_natural_tuple(init),
        None => true,
    }
}

/// The range of the expression, or the empty range at `default`.
pub fn get_range_or(ast: &Option<ASTExpression>, default: LoC) -> (r: Range)
    ensures
        r == (match *ast {
            Some(exp) => expression_range(exp),
            None => Range { start: default, end: default },
        }),
{
    match ast {
        Some(exp) => full_expression_range(exp),
        None => Range { start: default, end: default },
    }
}

} // verus!
