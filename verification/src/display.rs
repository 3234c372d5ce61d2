//! How syntax trees are written back as text.
use vstd::prelude::*;
use crate::ast::{
    ASTBlock, ASTDeclare, ASTDeclareTypes, ASTExpression, ASTExpressionList, ASTFunction, ASTIterator,
    ASTListTyping, ASTMatchArm, ASTMatchArmExpressions, ASTModAccess, ASTModAccessValues,
    ASTPairList, ASTPairListTyping, ASTPairTypingItem, ASTStatement, ASTStr, ASTTypings, ASTVar,
    ASTVarTyping,
};
use crate::text::{char_to_string, i32_to_string, int_text, push_char, to_owned_string};
use crate::tokenizer::{FloatLit, TokenType, token_text, unit_text};

verus! {

/// `parts` joined by `sep`.
pub open spec fn join(parts: Seq<Seq<char>>, sep: Seq<char>) -> Seq<char>
    decreases parts.len(),
{
    if parts.len() == 0 {
        Seq::empty()
    } else if parts.len() == 1 {
        parts[0]
    } else {
        join(parts.drop_last(), sep) + sep + parts.last()
    }
}

/// `parts` one after the other.
pub open spec fn concat(parts: Seq<Seq<char>>) -> Seq<char>
    decreases parts.len(),
{
    if parts.len() == 0 {
        Seq::empty()
    } else {
        concat(parts.drop_last()) + parts.last()
    }
}

/// A float literal as written: its digits and its time unit.
pub open spec fn float_text(f: FloatLit) -> Seq<char> {
    f.digits@ + unit_text(f.scale)
}

/// `"true"` or `"false"`.
pub open spec fn bool_text(b: bool) -> Seq<char> {
    if b {
        "true"@
    } else {
        "false"@
    }
}

/// The names of a list of names.
pub open spec fn var_texts(vs: Seq<ASTVar>) -> Seq<Seq<char>>
    decreases vs.len(),
{
    if vs.len() == 0 {
        Seq::empty()
    } else {
        var_texts(vs.drop_last()).push(vs.last().value@)
    }
}

/// The texts of a list of token values.
pub open spec fn token_texts(ts: Seq<TokenType>) -> Seq<Seq<char>>
    decreases ts.len(),
{
    if ts.len() == 0 {
        Seq::empty()
    } else {
        token_texts(ts.drop_last()).push(token_text(ts.last()@))
    }
}

/// The text of an expression.
pub open spec fn expr_text(e: ASTExpression) -> Seq<char>
    decreases e,
{
    match e {
        ASTExpression::Str(s) => "\""@ + s.value@ + "\""@,
        ASTExpression::TempStr(t) => "`"@ + template_text(
            t.template@,
            value_texts(t.values@),
            0,
        ) + "`"@,
        ASTExpression::Float(f) => float_text(f.value),
        ASTExpression::Int(i) => int_text(i.value as int),
        ASTExpression::Bool(b) => bool_text(b.value),
        ASTExpression::Var(v) => v.value@,
        ASTExpression::Char(c) => "'"@ + seq![c.value] + "'"@,
        ASTExpression::Binary(b) => expr_text(*b.left) + " "@ + b.op@ + " "@ + expr_text(*b.right),
        ASTExpression::Unary(u) => u.op@ + expr_text(*u.value),
        ASTExpression::DotAccess(d) => expr_text(*d.value) + "."@ + d.target.value@,
        ASTExpression::IndexAccess(i) => expr_text(*i.value) + "["@ + expr_text(*i.target) + "]"@,
        ASTExpression::ModAccess(m) => mod_access_text(m),
        ASTExpression::Optional(o) => expr_text(*o.value) + "?"@,
        ASTExpression::Block(b) => block_text(b),
        ASTExpression::Function(f) => function_text(f),
        ASTExpression::Init(i) => "new "@ + mav_text(i.target) + angle_text(i.typings)
            + pair_list_text(i.params),
        ASTExpression::Iterator(it) => expr_text(*it.start) + ".."@ + (if it.inclusive {
            "="@
        } else {
            Seq::empty()
        }) + expr_text(*it.end),
        ASTExpression::Call(c) => expr_text(*c.target) + angle_text(c.typings) + "("@
            + expr_list_text(c.args) + ")"@,
        ASTExpression::ForIn(f) => "for "@ + f.var.value@ + " in "@ + expr_text(*f.iterable)
            + " {\n "@ + expr_text(*f.body) + " \n}"@,
        ASTExpression::While(w) => "while "@ + expr_text(*w.condition) + " {\n "@ + expr_text(
            *w.body,
        ) + " \n}"@,
        ASTExpression::If(i) => "if "@ + expr_text(*i.condition) + " "@ + expr_text(*i.then_branch)
            + " "@ + match i.otherwise {
            Some(o) => "else "@ + expr_text(*o),
            None => Seq::empty(),
        },
        ASTExpression::Declare(d) => declare_text(d),
        ASTExpression::Tuple(t) => "["@ + expr_list_text(t) + "]"@,
        ASTExpression::Yield(y) => "yield "@ + match y.value {
            Some(v) => expr_text(*v),
            None => ";"@,
        },
        ASTExpression::Spread(s) => "..."@ + expr_text(*s.value),
        ASTExpression::NoneValue(_) => "none"@,
        ASTExpression::Match(m) => "match "@ + expr_text(*m.expression) + " {\n"@ + concat(
            arm_texts(m.arms@),
        ) + "}"@,
        ASTExpression::Await(a) => "await"@ + (if a.optional {
            "?"@
        } else {
            Seq::empty()
        }) + " "@ + expr_text(*a.expression) + "\n"@,
    }
}

/// The texts of the expressions of a template, with their offsets.
pub open spec fn value_texts(vals: Seq<(usize, ASTExpression)>) -> Seq<(usize, Seq<char>)>
    decreases vals,
{
    if vals.len() == 0 {
        Seq::empty()
    } else {
        value_texts(vals.drop_last()).push((vals.last().0, expr_text(vals.last().1)))
    }
}

/// A range is written as its start, `..`, then `=` exactly when the range
/// includes its end, then its end: the `=` after the two dots is there for
/// an inclusive range, and for an exclusive one the end's text follows the
/// dots directly.
pub proof fn lemma_iterator_text(it: ASTIterator)
    ensures
        ({
            let t = expr_text(ASTExpression::Iterator(it));
            let a = expr_text(*it.start);
            let b = expr_text(*it.end);
            let n = a.len() as int;
            &&& t.subrange(0, n) == a
            &&& t[n] == '.' && t[n + 1] == '.'
            &&& it.inclusive ==> t.len() == n + 3 + b.len() && t[n + 2] == '='
                && t.subrange(n + 3, t.len() as int) == b
            &&& !it.inclusive ==> t.len() == n + 2 + b.len() && t.subrange(n + 2, t.len() as int)
                == b
        }),
{
    reveal_strlit("..");
    reveal_strlit("=");
    let t = expr_text(ASTExpression::Iterator(it));
    let a = expr_text(*it.start);
    let b = expr_text(*it.end);
    let n = a.len() as int;
    if it.inclusive {
        assert(t =~= a + ".."@ + "="@ + b);
        assert(t.subrange(0, n) =~= a);
        assert(t.subrange(n + 3, t.len() as int) =~= b);
    } else {
        assert(t =~= a + ".."@ + Seq::<char>::empty() + b);
        assert(t.subrange(0, n) =~= a);
        assert(t.subrange(n + 2, t.len() as int) =~= b);
    }
}

/// The texts of a list of expressions.
pub open spec fn expr_texts(es: Seq<ASTExpression>) -> Seq<Seq<char>>
    decreases es,
{
    if es.len() == 0 {
        Seq::empty()
    } else {
        expr_texts(es.drop_last()).push(expr_text(es.last()))
    }
}

/// A list of expressions, comma separated.
pub open spec fn expr_list_text(l: ASTExpressionList) -> Seq<char>
    decreases l,
{
    join(expr_texts(l.expressions@), ", "@)
}

/// A block: each expression on a line of its own, in braces.
pub open spec fn block_text(b: ASTBlock) -> Seq<char>
    decreases b,
{
    "{"@ + concat(line_texts(b.elements@)) + " \n}"@
}

/// Each expression after a newline.
pub open spec fn line_texts(es: Seq<ASTExpression>) -> Seq<Seq<char>>
    decreases es,
{
    if es.len() == 0 {
        Seq::empty()
    } else {
        line_texts(es.drop_last()).push("\n"@ + expr_text(es.last()))
    }
}

/// A declaration, ended by a newline.
pub open spec fn declare_text(d: ASTDeclare) -> Seq<char>
    decreases d,
{
    (if d.is_const {
        "const"@
    } else {
        "let"@
    }) + " "@ + declare_types_text(d.var) + match d.typings {
        Some(t) => ": "@ + typing_text(t),
        None => Seq::empty(),
    } + " = "@ + match d.value {
        Some(v) => expr_text(*v),
        None => "none"@,
    } + "\n"@
}

/// What a declaration binds.
pub open spec fn declare_types_text(d: ASTDeclareTypes) -> Seq<char> {
    match d {
        ASTDeclareTypes::Var(v) => v.value@,
        ASTDeclareTypes::TupleDeconstruct(l) => "["@ + join(var_texts(l.values@), ", "@) + "]"@,
        ASTDeclareTypes::StructDeconstruct(l) => "{"@ + join(var_texts(l.values@), ", "@) + "}"@,
    }
}

/// Generic arguments in angle brackets, or nothing.
pub open spec fn angle_text(t: Option<ASTListTyping>) -> Seq<char>
    decreases t,
{
    match t {
        Some(l) => "<"@ + list_typing_text(l) + ">"@,
        None => Seq::empty(),
    }
}

/// A list of typings, comma separated.
pub open spec fn list_typing_text(l: ASTListTyping) -> Seq<char>
    decreases l,
{
    join(typing_texts(l.entries@), ", "@)
}

/// The texts of a list of typings.
pub open spec fn typing_texts(ts: Seq<ASTTypings>) -> Seq<Seq<char>>
    decreases ts,
{
    if ts.len() == 0 {
        Seq::empty()
    } else {
        typing_texts(ts.drop_last()).push(typing_text(ts.last()))
    }
}

/// A named typing with its generic arguments.
pub open spec fn var_typing_text(v: ASTVarTyping) -> Seq<char>
    decreases v,
{
    v.value.value@ + angle_text(v.typings)
}

/// A typing.
pub open spec fn typing_text(t: ASTTypings) -> Seq<char>
    decreases t,
{
    match t {
        ASTTypings::Tuple(l) => "["@ + list_typing_text(l) + "]"@,
        ASTTypings::Var(v) => var_typing_text(v),
        ASTTypings::PairList(l) => pair_list_typing_text(l),
        ASTTypings::Optional(o) => typing_text(*o) + "?"@,
        ASTTypings::Function(f) => function_text(f),
        ASTTypings::Combine(c) => typing_text(*c.left) + " + "@ + typing_text(*c.right),
        ASTTypings::Mod(m) => mod_access_text(m),
        ASTTypings::ExplicitImpl(m) => mav_text(m) + "!"@,
        ASTTypings::Bound(b) => b.name.value@ + ": "@ + typing_text(*b.bound),
        ASTTypings::Impl(i) => "impl "@ + typing_text(*i.value),
    }
}

/// The modifiers of a field, each followed by a space.
pub open spec fn modifiers_text(bits: u32) -> Seq<char> {
    (if bits & 4 == 4 {
        "const "@
    } else {
        Seq::empty()
    }) + (if bits & 2 == 2 {
        "static "@
    } else {
        Seq::empty()
    }) + (if bits & 1 == 1 {
        "private "@
    } else {
        Seq::empty()
    })
}

/// A typed field or parameter.
pub open spec fn pair_item_text(p: ASTPairTypingItem) -> Seq<char>
    decreases p,
{
    modifiers_text(p.modifiers.bits) + (if p.spread {
        "..."@
    } else {
        Seq::empty()
    }) + p.name@ + match p.value {
        Some(v) => ": "@ + typing_text(v),
        None => Seq::empty(),
    } + match p.default_value {
        Some(d) => " = "@ + expr_text(d),
        None => Seq::empty(),
    }
}

/// The texts of typed fields or parameters.
pub open spec fn pair_item_texts(ps: Seq<ASTPairTypingItem>) -> Seq<Seq<char>>
    decreases ps,
{
    if ps.len() == 0 {
        Seq::empty()
    } else {
        pair_item_texts(ps.drop_last()).push(pair_item_text(ps.last()))
    }
}

/// Typed fields or parameters, comma separated.
pub open spec fn pair_list_typing_text(l: ASTPairListTyping) -> Seq<char>
    decreases l,
{
    join(pair_item_texts(l.pairs@), ", "@)
}

/// A function: `fn<generics>(params) -> return body`.
pub open spec fn function_text(f: ASTFunction) -> Seq<char>
    decreases f,
{
    "fn<"@ + match f.typings {
        Some(l) => list_typing_text(l),
        None => "none"@,
    } + ">("@ + pair_list_typing_text(*f.params) + ") -> "@ + match f.return_type {
        Some(r) => typing_text(*r),
        None => "none"@,
    } + " "@ + match f.body {
        Some(b) => expr_text(*b),
        None => Seq::empty(),
    }
}

/// A module path with its generic arguments and initializer.
pub open spec fn mod_access_text(m: ASTModAccess) -> Seq<char>
    decreases m,
{
    join(var_texts(m.path@), "::"@) + angle_text(m.typings) + match m.init {
        Some(i) => "("@ + expr_list_text(i) + ")"@,
        None => Seq::empty(),
    }
}

/// A module path or a plain name.
pub open spec fn mav_text(m: ASTModAccessValues) -> Seq<char>
    decreases m,
{
    match m {
        ASTModAccessValues::ModAccess(a) => mod_access_text(a),
        ASTModAccessValues::Var(v) => var_typing_text(v),
    }
}

/// Key-value pairs in braces.
pub open spec fn pair_list_text(p: ASTPairList) -> Seq<char>
    decreases p,
{
    "{ "@ + concat(pair_texts(p.pairs@)) + " }"@
}

/// The texts of key-value pairs.
pub open spec fn pair_texts(ps: Seq<(String, Option<ASTExpression>)>) -> Seq<Seq<char>>
    decreases ps,
{
    if ps.len() == 0 {
        Seq::empty()
    } else {
        pair_texts(ps.drop_last()).push(
            ps.last().0@ + ": "@ + match ps.last().1 {
                Some(v) => expr_text(v),
                None => "{}"@,
            },
        )
    }
}

/// The texts of match arms, each followed by a newline.
pub open spec fn arm_texts(arms: Seq<ASTMatchArm>) -> Seq<Seq<char>>
    decreases arms,
{
    if arms.len() == 0 {
        Seq::empty()
    } else {
        arm_texts(arms.drop_last()).push(arm_text(arms.last()) + "\n"@)
    }
}

/// A match arm: its patterns, its guard and its body.
pub open spec fn arm_text(a: ASTMatchArm) -> Seq<char>
    decreases a,
{
    join(pattern_texts(a.possibilities@), " | "@) + " "@ + match a.guard {
        Some(g) => "when "@ + expr_text(g),
        None => Seq::empty(),
    } + " => "@ + expr_text(a.body)
}

/// The texts of match arm patterns.
pub open spec fn pattern_texts(ps: Seq<ASTMatchArmExpressions>) -> Seq<Seq<char>>
    decreases ps,
{
    if ps.len() == 0 {
        Seq::empty()
    } else {
        pattern_texts(ps.drop_last()).push(pattern_text(ps.last()))
    }
}

/// A match arm pattern.
pub open spec fn pattern_text(p: ASTMatchArmExpressions) -> Seq<char>
    decreases p,
{
    match p {
        ASTMatchArmExpressions::Char(c) => "'"@ + seq![c.value] + "'"@,
        ASTMatchArmExpressions::String(s) => "\""@ + s.value@ + "\""@,
        ASTMatchArmExpressions::Int(i) => int_text(i.value as int),
        ASTMatchArmExpressions::Float(f) => float_text(f.value),
        ASTMatchArmExpressions::Iterator(it) => expr_text(*it.start) + ".."@ + (if it.inclusive {
            "="@
        } else {
            Seq::empty()
        }) + expr_text(*it.end),
        ASTMatchArmExpressions::Enum(m) => mod_access_text(m),
        ASTMatchArmExpressions::EnumVar(m) => mod_access_text(m),
        ASTMatchArmExpressions::Tuple(t) => "["@ + expr_list_text(t) + "]"@,
        ASTMatchArmExpressions::Bool(b) => bool_text(b.value),
        ASTMatchArmExpressions::NoneValue(_) => "none"@,
        ASTMatchArmExpressions::Rest => "_"@,
    }
}

/// The characters of a template from index `i` on, with `${..}` around the
/// text of the expression whose offset is the character's index.
pub open spec fn template_text(t: Seq<char>, vals: Seq<(usize, Seq<char>)>, i: int) -> Seq<char>
    decreases t.len() - i,
{
    if i < 0 || i >= t.len() {
        Seq::empty()
    } else {
        (match lookup(vals, i) {
            Some(v) => "${"@ + v + "}"@,
            None => seq![t[i]],
        }) + template_text(t, vals, i + 1)
    }
}

/// The text of the first expression at offset `k`, if any.
pub open spec fn lookup(vals: Seq<(usize, Seq<char>)>, k: int) -> Option<Seq<char>>
    decreases vals.len(),
{
    if vals.len() == 0 {
        None
    } else if vals[0].0 == k {
        Some(vals[0].1)
    } else {
        lookup(vals.drop_first(), k)
    }
}

/// The text of a statement.
pub open spec fn statement_text(s: ASTStatement) -> Seq<char>
    decreases s,
{
    match s {
        ASTStatement::Struct(st) => "struct "@ + st.name.value@ + angle_text(st.typings)
            + " {\n "@ + pair_list_typing_text(st.fields) + " }\n"@,
        ASTStatement::EnumDeclaration(en) => "enum "@ + en.name.value@ + angle_text(en.typings)
            + " {\n "@ + pair_list_typing_text(en.values) + " }\n"@,
        ASTStatement::Type(ty) => "type "@ + ty.name.value@ + angle_text(ty.typings) + " = "@
            + typing_text(ty.value) + "\n"@,
        ASTStatement::Static(st) => "static "@ + st.var.value@ + angle_text(st.typings) + " = "@
            + expr_text(st.value) + "\n"@,
        ASTStatement::Main(m) => "main "@ + block_text(m.expression),
        ASTStatement::Export(e) => "export "@ + statement_text(*e.value) + "\n"@,
        ASTStatement::Import(i) => "import "@ + "\""@ + i.path.value@ + "\""@ + match i._as {
            Some(a) => " as "@ + a.value@,
            None => Seq::empty(),
        } + "\n"@,
        ASTStatement::Impl(im) => "impl"@ + angle_text(im.typings) + " "@ + mav_text(im.partial)
            + " for "@ + mav_text(im.target) + " {\n"@ + pair_list_typing_text(im.fields)
            + "\n}"@,
        ASTStatement::Meta(m) => "#"@ + m.name.value@ + "("@ + join(token_texts(m.args@), ", "@)
            + ")\n"@ + statement_text(*m.target),
    }
}


/// The views of a list of strings.
pub open spec fn views(v: Seq<String>) -> Seq<Seq<char>>
    decreases v.len(),
{
    if v.len() == 0 {
        Seq::empty()
    } else {
        views(v.drop_last()).push(v.last()@)
    }
}

/// A list of strings has as many views as strings.
proof fn lemma_views_len(v: Seq<String>)
    ensures
        views(v).len() == v.len(),
    decreases v.len(),
{
    if v.len() > 0 {
        lemma_views_len(v.drop_last());
    }
}

/// Joins strings with a separator (see [`join`]).
fn join_strings(parts: &Vec<String>, sep: &str) -> (s: String)
    ensures
        s@ == join(views(parts@), sep@),
{
    let mut s = String::new();
    let mut i: usize = 0;
    assert(parts@.take(0) =~= Seq::<String>::empty());
    while i < parts.len()
        invariant
            i <= parts.len(),
            s@ == join(views(parts@.take(i as int)), sep@),
        decreases parts.len() - i,
    {
        let ghost before = parts@.take(i as int);
        let ghost cur = parts@.take(i + 1);
        assert(cur.drop_last() =~= before);
        assert(cur.last() == parts@[i as int]);
        assert(views(cur) == views(before).push(parts@[i as int]@));
        assert(views(before).push(parts@[i as int]@).drop_last() =~= views(before));
        proof {
            lemma_views_len(before);
        }
        if i > 0 {
            s.append(sep);
        } else {
            assert(views(before) =~= Seq::<Seq<char>>::empty());
        }
        s.append(parts[i].as_str());
        i = i + 1;
    }
    assert(parts@.take(parts.len() as int) =~= parts@);
    s
}

/// Concatenates strings (see [`concat`]).
fn concat_strings(parts: &Vec<String>) -> (s: String)
    ensures
        s@ == concat(views(parts@)),
{
    let mut s = String::new();
    let mut i: usize = 0;
    assert(parts@.take(0) =~= Seq::<String>::empty());
    while i < parts.len()
        invariant
            i <= parts.len(),
            s@ == concat(views(parts@.take(i as int))),
        decreases parts.len() - i,
    {
        let ghost cur = parts@.take(i + 1);
        assert(cur.drop_last() =~= parts@.take(i as int));
        assert(cur.last() == parts@[i as int]);
        assert(views(cur) == views(parts@.take(i as int)).push(parts@[i as int]@));
        assert(views(parts@.take(i as int)).push(parts@[i as int]@).drop_last() =~= views(
            parts@.take(i as int),
        ));
        s.append(parts[i].as_str());
        i = i + 1;
    }
    assert(parts@.take(parts.len() as int) =~= parts@);
    s
}

/// Appends `b` to `a`.
fn cat(a: String, b: &str) -> (s: String)
    ensures
        s@ == a@ + b@,
{
    let mut s = a;
    s.append(b);
    s
}

impl ASTStr {
    /// The literal as written: its text in double quotes.
    pub fn to_display_string(&self) -> (s: String)
        ensures
            s@ == "\""@ + self.value@ + "\""@,
    {
        cat(cat(to_owned_string("\""), self.value.as_str()), "\"")
    }
}

/// The text of a float literal.
fn float_string(f: &FloatLit) -> (s: String)
    ensures
        s@ == float_text(*f),
{
    let mut d = f.digits.clone();
    if f.scale == 1000 {
        push_char(&mut d, 's');
    } else if f.scale == 60000 {
        push_char(&mut d, 'm');
    } else if f.scale == 3600000 {
        push_char(&mut d, 'h');
    } else if f.scale == 86400000 {
        push_char(&mut d, 'd');
    }
    assert(d@ =~= f.digits@ + unit_text(f.scale));
    d
}

/// `true` or `false`.
fn bool_string(b: bool) -> (s: String)
    ensures
        s@ == bool_text(b),
{
    if b {
        to_owned_string("true")
    } else {
        to_owned_string("false")
    }
}

/// The names of a list of names, joined by `sep`.
fn vars_joined(vs: &Vec<ASTVar>, sep: &str) -> (s: String)
    ensures
        s@ == join(var_texts(vs@), sep@),
{
    let mut texts: Vec<String> = Vec::new();
    let mut i: usize = 0;
    assert(vs@.take(0) =~= Seq::<ASTVar>::empty());
    assert(texts@ =~= Seq::<String>::empty());
    while i < vs.len()
        invariant
            i <= vs.len(),
            views(texts@) == var_texts(vs@.take(i as int)),
            texts@.len() == i,
        decreases vs.len() - i,
    {
        let ghost before = texts@;
        texts.push(vs[i].value.clone());
        assert(texts@.drop_last() =~= before);
        assert(vs@.take(i + 1).drop_last() =~= vs@.take(i as int));
        i = i + 1;
    }
    assert(vs@.take(vs.len() as int) =~= vs@);
    join_strings(&texts, sep)
}

impl ASTExpression {
    /// The expression as text (see [`expr_text`]).
    pub fn to_display_string(&self) -> (s: String)
        ensures
            s@ == expr_text(*self),
        decreases self,
    {
        match self {
            ASTExpression::Str(s) => cat(cat(to_owned_string("\""), s.value.as_str()), "\""),
            ASTExpression::TempStr(t) => {
                let vals = value_strings(&t.values);
                let body = template_string(&t.template, &vals);
                cat(cat(to_owned_string("`"), body.as_str()), "`")
            },
            ASTExpression::Float(f) => float_string(&f.value),
            ASTExpression::Int(i) => i32_to_string(i.value),
            ASTExpression::Bool(b) => bool_string(b.value),
            ASTExpression::Var(v) => v.value.clone(),
            ASTExpression::Char(c) => {
                let t = char_to_string(c.value);
                cat(cat(to_owned_string("'"), t.as_str()), "'")
            },
            ASTExpression::Binary(b) => {
                let l = b.left.to_display_string();
                let r = b.right.to_display_string();
                cat(cat(cat(cat(l, " "), b.op.as_str()), " "), r.as_str())
            },
            ASTExpression::Unary(u) => {
                let v = u.value.to_display_string();
                cat(u.op.clone(), v.as_str())
            },
            ASTExpression::DotAccess(d) => {
                let v = d.value.to_display_string();
                cat(cat(v, "."), d.target.value.as_str())
            },
            ASTExpression::IndexAccess(i) => {
                let v = i.value.to_display_string();
                let t = i.target.to_display_string();
                cat(cat(cat(v, "["), t.as_str()), "]")
            },
            ASTExpression::ModAccess(m) => m.to_display_string(),
            ASTExpression::Optional(o) => {
                let v = o.value.to_display_string();
                cat(v, "?")
            },
            ASTExpression::Block(b) => b.to_display_string(),
            ASTExpression::Function(f) => f.to_display_string(),
            ASTExpression::Init(i) => {
                let target = i.target.to_display_string();
                let angle = angle_string(&i.typings);
                let params = i.params.to_display_string();
                cat(cat(cat(to_owned_string("new "), target.as_str()), angle.as_str()), params.as_str())
            },
            ASTExpression::Iterator(it) => {
                let a = it.start.to_display_string();
                let b = it.end.to_display_string();
                let mid = if it.inclusive {
                    to_owned_string("..=")
                } else {
                    to_owned_string("..")
                };
                assert(mid@ =~= ".."@ + (if it.inclusive {
                    "="@
                } else {
                    Seq::empty()
                })) by {
                    reveal_strlit("..=");
                    reveal_strlit("..");
                    reveal_strlit("=");
                }
                cat(cat(a, mid.as_str()), b.as_str())
            },
            ASTExpression::Call(c) => {
                let target = c.target.to_display_string();
                let angle = angle_string(&c.typings);
                let args = c.args.to_display_string();
                cat(cat(cat(cat(target, angle.as_str()), "("), args.as_str()), ")")
            },
            ASTExpression::ForIn(f) => {
                let it = f.iterable.to_display_string();
                let body = f.body.to_display_string();
                cat(
                    cat(
                        cat(cat(cat(cat(to_owned_string("for "), f.var.value.as_str()), " in "), it.as_str()), " {\n "),
                        body.as_str(),
                    ),
                    " \n}",
                )
            },
            ASTExpression::While(w) => {
                let c = w.condition.to_display_string();
                let body = w.body.to_display_string();
                cat(cat(cat(cat(to_owned_string("while "), c.as_str()), " {\n "), body.as_str()), " \n}")
            },
            ASTExpression::If(i) => {
                let c = i.condition.to_display_string();
                let t = i.then_branch.to_display_string();
                let o = match &i.otherwise {
                    Some(o) => {
                        let x = o.to_display_string();
                        cat(to_owned_string("else "), x.as_str())
                    },
                    None => String::new(),
                };
                cat(cat(cat(cat(cat(to_owned_string("if "), c.as_str()), " "), t.as_str()), " "), o.as_str())
            },
            ASTExpression::Declare(d) => d.to_display_string(),
            ASTExpression::Tuple(t) => {
                let l = t.to_display_string();
                cat(cat(to_owned_string("["), l.as_str()), "]")
            },
            ASTExpression::Yield(y) => {
                let v = match &y.value {
                    Some(v) => v.to_display_string(),
                    None => to_owned_string(";"),
                };
                cat(to_owned_string("yield "), v.as_str())
            },
            ASTExpression::Spread(s) => {
                let v = s.value.to_display_string();
                cat(to_owned_string("..."), v.as_str())
            },
            ASTExpression::NoneValue(_) => to_owned_string("none"),
            ASTExpression::Match(m) => {
                let e = m.expression.to_display_string();
                let arms = arms_string(&m.arms);
                cat(cat(cat(cat(to_owned_string("match "), e.as_str()), " {\n"), arms.as_str()), "}")
            },
            ASTExpression::Await(a) => {
                let e = a.expression.to_display_string();
                let head = if a.optional {
                    to_owned_string("await?")
                } else {
                    to_owned_string("await")
                };
                assert(head@ =~= "await"@ + (if a.optional {
                    "?"@
                } else {
                    Seq::empty()
                })) by {
                    reveal_strlit("await?");
                    reveal_strlit("await");
                    reveal_strlit("?");
                }
                cat(cat(cat(head, " "), e.as_str()), "\n")
            },
        }
    }
}

/// The texts of a template's expressions, with their offsets.
fn value_strings(vals: &Vec<(usize, ASTExpression)>) -> (r: Vec<(usize, String)>)
    ensures
        r@.len() == vals@.len(),
        forall|k: int|
            0 <= k < r@.len() ==> (#[trigger] r@[k]).0 == value_texts(vals@)[k].0 && r@[k].1@
                == value_texts(vals@)[k].1,
        value_texts(vals@).len() == vals@.len(),
    decreases vals@,
{
    let mut r: Vec<(usize, String)> = Vec::new();
    let mut i: usize = 0;
    assert(vals@.take(0) =~= Seq::<(usize, ASTExpression)>::empty());
    while i < vals.len()
        invariant
            i <= vals.len(),
            r@.len() == i,
            value_texts(vals@.take(i as int)).len() == i,
            forall|k: int|
                0 <= k < i ==> (#[trigger] r@[k]).0 == value_texts(vals@.take(i as int))[k].0
                    && r@[k].1@ == value_texts(vals@.take(i as int))[k].1,
        decreases vals.len() - i,
    {
        assert(vals@.take(i + 1).drop_last() =~= vals@.take(i as int));
        let text = vals[i].1.to_display_string();
        r.push((vals[i].0, text));
        i = i + 1;
    }
    assert(vals@.take(vals.len() as int) =~= vals@);
    r
}

/// The text at offset `k` among `vals`, if any (see [`lookup`]).
fn lookup_string(vals: &Vec<(usize, String)>, k: usize) -> (r: Option<String>)
    ensures
        match r {
            Some(s) => exists|j: int|
                0 <= j < vals@.len() && vals@[j].0 == k && s@ == vals@[j].1@ && forall|m: int|
                    0 <= m < j ==> vals@[m].0 != k,
            None => forall|m: int| 0 <= m < vals@.len() ==> vals@[m].0 != k,
        },
{
    let mut j: usize = 0;
    while j < vals.len()
        invariant
            j <= vals.len(),
            forall|m: int| 0 <= m < j ==> vals@[m].0 != k,
        decreases vals.len() - j,
    {
        if vals[j].0 == k {
            return Some(vals[j].1.clone());
        }
        j = j + 1;
    }
    None
}

/// The template's characters with the texts of its expressions (see
/// [`template_text`]).
fn template_string(t: &String, vals: &Vec<(usize, String)>) -> (s: String)
    ensures
        forall|texts: Seq<(usize, Seq<char>)>|
            texts.len() == vals@.len() && (forall|k: int|
                0 <= k < texts.len() ==> (#[trigger] texts[k]).0 == vals@[k].0 && texts[k].1
                    == vals@[k].1@) ==> s@ == template_text(t@, texts, 0),
{
    let chars = crate::text::chars_of(t.as_str());
    let n = chars.len();
    let mut parts: Vec<String> = Vec::new();
    let mut i: usize = 0;
    while i < n
        invariant
            i <= n,
            n == t@.len(),
            chars@ == t@,
            parts@.len() == i,
            forall|texts: Seq<(usize, Seq<char>)>|
                texts.len() == vals@.len() && (forall|k: int|
                    0 <= k < texts.len() ==> (#[trigger] texts[k]).0 == vals@[k].0 && texts[k].1
                        == vals@[k].1@) ==> concat(views(parts@)) + template_text(t@, texts, i as int)
                    == template_text(t@, texts, 0),
        decreases n - i,
    {
        let piece = match lookup_string(vals, i) {
            Some(v) => cat(cat(to_owned_string("${"), v.as_str()), "}"),
            None => char_to_string(chars[i]),
        };
        let ghost before = parts@;
        parts.push(piece);
        assert(parts@.drop_last() =~= before);
        assert(views(parts@) == views(before).push(piece@));
        assert(views(before).push(piece@).drop_last() =~= views(before));
        proof {
            assert forall|texts: Seq<(usize, Seq<char>)>|
                texts.len() == vals@.len() && (forall|k: int|
                    0 <= k < texts.len() ==> (#[trigger] texts[k]).0 == vals@[k].0 && texts[k].1
                        == vals@[k].1@) implies concat(views(parts@)) + template_text(
                t@,
                texts,
                i + 1,
            ) == template_text(t@, texts, 0) by {
                lemma_lookup_agrees(vals@, texts, i as int);
                assert(concat(views(parts@)) == concat(views(before)) + piece@);
                assert(template_text(t@, texts, i as int) == (match lookup(texts, i as int) {
                    Some(v) => "${"@ + v + "}"@,
                    None => seq![t@[i as int]],
                }) + template_text(t@, texts, i + 1));
            }
        }
        i = i + 1;
    }
    concat_strings(&parts)
}

/// Looking up an offset among strings agrees with looking it up among their views.
proof fn lemma_lookup_agrees(vals: Seq<(usize, String)>, texts: Seq<(usize, Seq<char>)>, k: int)
    requires
        texts.len() == vals.len(),
        forall|m: int|
            0 <= m < texts.len() ==> (#[trigger] texts[m]).0 == vals[m].0 && texts[m].1
                == vals[m].1@,
    ensures
        match lookup(texts, k) {
            Some(v) => exists|j: int|
                0 <= j < vals.len() && vals[j].0 == k && v == vals[j].1@ && forall|m: int|
                    0 <= m < j ==> vals[m].0 != k,
            None => forall|m: int| 0 <= m < vals.len() ==> vals[m].0 != k,
        },
    decreases vals.len(),
{
    if vals.len() > 0 {
        if vals[0].0 == k {
            assert(texts[0].0 == vals[0].0);
        } else {
            assert(texts[0].0 == vals[0].0);
            let vs = vals.drop_first();
            let ts = texts.drop_first();
            assert forall|m: int| 0 <= m < ts.len() implies (#[trigger] ts[m]).0 == vs[m].0
                && ts[m].1 == vs[m].1@ by {
                assert(ts[m] == texts[m + 1]);
                assert(vs[m] == vals[m + 1]);
            }
            lemma_lookup_agrees(vs, ts, k);
            match lookup(ts, k) {
                Some(v) => {
                    let j = choose|j: int|
                        0 <= j < vs.len() && vs[j].0 == k && v == vs[j].1@ && forall|m: int|
                            0 <= m < j ==> vs[m].0 != k;
                    assert(vals[j + 1] == vs[j]);
                    assert forall|m: int| 0 <= m < j + 1 implies vals[m].0 != k by {
                        if m > 0 {
                            assert(vals[m] == vs[m - 1]);
                        }
                    }
                },
                None => {
                    assert forall|m: int| 0 <= m < vals.len() implies vals[m].0 != k by {
                        if m > 0 {
                            assert(vals[m] == vs[m - 1]);
                        }
                    }
                },
            }
        }
    }
}


/// Generic arguments in angle brackets, or nothing (see [`angle_text`]).
fn angle_string(t: &Option<ASTListTyping>) -> (s: String)
    ensures
        s@ == angle_text(*t),
    decreases t,
{
    match t {
        Some(l) => {
            let inner = l.to_display_string();
            cat(cat(to_owned_string("<"), inner.as_str()), ">")
        },
        None => String::new(),
    }
}

/// The match arms, each followed by a newline.
fn arms_string(arms: &Vec<ASTMatchArm>) -> (s: String)
    ensures
        s@ == concat(arm_texts(arms@)),
    decreases arms@,
{
    let mut texts: Vec<String> = Vec::new();
    let mut i: usize = 0;
    assert(arms@.take(0) =~= Seq::<ASTMatchArm>::empty());
    assert(texts@ =~= Seq::<String>::empty());
    while i < arms.len()
        invariant
            i <= arms.len(),
            views(texts@) == arm_texts(arms@.take(i as int)),
        decreases arms.len() - i,
    {
        let ghost before = texts@;
        let a = arms[i].to_display_string();
        texts.push(cat(a, "\n"));
        assert(texts@.drop_last() =~= before);
        assert(arms@.take(i + 1).drop_last() =~= arms@.take(i as int));
        i = i + 1;
    }
    assert(arms@.take(arms.len() as int) =~= arms@);
    concat_strings(&texts)
}

impl ASTMatchArm {
    /// The arm as text (see [`arm_text`]).
    pub fn to_display_string(&self) -> (s: String)
        ensures
            s@ == arm_text(*self),
        decreases self,
    {
        let mut texts: Vec<String> = Vec::new();
        let mut i: usize = 0;
        assert(self.possibilities@.take(0) =~= Seq::<ASTMatchArmExpressions>::empty());
        assert(texts@ =~= Seq::<String>::empty());
        while i < self.possibilities.len()
            invariant
                i <= self.possibilities.len(),
                views(texts@) == pattern_texts(self.possibilities@.take(i as int)),
            decreases self.possibilities.len() - i,
        {
            let ghost before = texts@;
            texts.push(self.possibilities[i].to_display_string());
            assert(texts@.drop_last() =~= before);
            assert(self.possibilities@.take(i + 1).drop_last() =~= self.possibilities@.take(i as int));
            i = i + 1;
        }
        assert(self.possibilities@.take(self.possibilities.len() as int) =~= self.possibilities@);
        let pats = join_strings(&texts, " | ");
        let guard = match &self.guard {
            Some(g) => {
                let x = g.to_display_string();
                cat(to_owned_string("when "), x.as_str())
            },
            None => String::new(),
        };
        let body = self.body.to_display_string();
        cat(cat(cat(cat(pats, " "), guard.as_str()), " => "), body.as_str())
    }
}

impl ASTMatchArmExpressions {
    /// The pattern as text (see [`pattern_text`]).
    pub fn to_display_string(&self) -> (s: String)
        ensures
            s@ == pattern_text(*self),
        decreases self,
    {
        match self {
            ASTMatchArmExpressions::Char(c) => {
                let t = char_to_string(c.value);
                cat(cat(to_owned_string("'"), t.as_str()), "'")
            },
            ASTMatchArmExpressions::String(s) => cat(cat(to_owned_string("\""), s.value.as_str()), "\""),
            ASTMatchArmExpressions::Int(i) => i32_to_string(i.value),
            ASTMatchArmExpressions::Float(f) => float_string(&f.value),
            ASTMatchArmExpressions::Iterator(it) => {
                let a = it.start.to_display_string();
                let b = it.end.to_display_string();
                let mid = if it.inclusive {
                    to_owned_string("..=")
                } else {
                    to_owned_string("..")
                };
                assert(mid@ =~= ".."@ + (if it.inclusive {
                    "="@
                } else {
                    Seq::empty()
                })) by {
                    reveal_strlit("..=");
                    reveal_strlit("..");
                    reveal_strlit("=");
                }
                cat(cat(a, mid.as_str()), b.as_str())
            },
            ASTMatchArmExpressions::Enum(m) => m.to_display_string(),
            ASTMatchArmExpressions::EnumVar(m) => m.to_display_string(),
            ASTMatchArmExpressions::Tuple(t) => {
                let l = t.to_display_string();
                cat(cat(to_owned_string("["), l.as_str()), "]")
            },
            ASTMatchArmExpressions::Bool(b) => bool_string(b.value),
            ASTMatchArmExpressions::NoneValue(_) => to_owned_string("none"),
            ASTMatchArmExpressions::Rest => to_owned_string("_"),
        }
    }
}

impl ASTExpressionList {
    /// The expressions, comma separated (see [`expr_list_text`]).
    pub fn to_display_string(&self) -> (s: String)
        ensures
            s@ == expr_list_text(*self),
        decreases self,
    {
        let mut texts: Vec<String> = Vec::new();
        let mut i: usize = 0;
        assert(self.expressions@.take(0) =~= Seq::<ASTExpression>::empty());
        assert(texts@ =~= Seq::<String>::empty());
        while i < self.expressions.len()
            invariant
                i <= self.expressions.len(),
                views(texts@) == expr_texts(self.expressions@.take(i as int)),
            decreases self.expressions.len() - i,
        {
            let ghost before = texts@;
            texts.push(self.expressions[i].to_display_string());
            assert(texts@.drop_last() =~= before);
            assert(self.expressions@.take(i + 1).drop_last() =~= self.expressions@.take(i as int));
            i = i + 1;
        }
        assert(self.expressions@.take(self.expressions.len() as int) =~= self.expressions@);
        join_strings(&texts, ", ")
    }
}

impl ASTBlock {
    /// The block as text (see [`block_text`]).
    pub fn to_display_string(&self) -> (s: String)
        ensures
            s@ == block_text(*self),
        decreases self,
    {
        let mut texts: Vec<String> = Vec::new();
        let mut i: usize = 0;
        assert(self.elements@.take(0) =~= Seq::<ASTExpression>::empty());
        assert(texts@ =~= Seq::<String>::empty());
        while i < self.elements.len()
            invariant
                i <= self.elements.len(),
                views(texts@) == line_texts(self.elements@.take(i as int)),
            decreases self.elements.len() - i,
        {
            let ghost before = texts@;
            let e = self.elements[i].to_display_string();
            texts.push(cat(to_owned_string("\n"), e.as_str()));
            assert(texts@.drop_last() =~= before);
            assert(self.elements@.take(i + 1).drop_last() =~= self.elements@.take(i as int));
            i = i + 1;
        }
        assert(self.elements@.take(self.elements.len() as int) =~= self.elements@);
        let body = concat_strings(&texts);
        cat(cat(to_owned_string("{"), body.as_str()), " \n}")
    }
}

impl ASTDeclare {
    /// The declaration as text (see [`declare_text`]).
    pub fn to_display_string(&self) -> (s: String)
        ensures
            s@ == declare_text(*self),
        decreases self,
    {
        let head = if self.is_const {
            to_owned_string("const")
        } else {
            to_owned_string("let")
        };
        let var = self.var.to_display_string();
        let typing = match &self.typings {
            Some(t) => {
                let x = t.to_display_string();
                cat(to_owned_string(": "), x.as_str())
            },
            None => String::new(),
        };
        let value = match &self.value {
            Some(v) => v.to_display_string(),
            None => to_owned_string("none"),
        };
        cat(cat(cat(cat(cat(cat(head, " "), var.as_str()), typing.as_str()), " = "), value.as_str()), "\n")
    }
}

impl ASTDeclareTypes {
    /// What the declaration binds, as text (see [`declare_types_text`]).
    pub fn to_display_string(&self) -> (s: String)
        ensures
            s@ == declare_types_text(*self),
    {
        match self {
            ASTDeclareTypes::Var(v) => v.value.clone(),
            ASTDeclareTypes::TupleDeconstruct(l) => {
                let x = vars_joined(&l.values, ", ");
                cat(cat(to_owned_string("["), x.as_str()), "]")
            },
            ASTDeclareTypes::StructDeconstruct(l) => {
                let x = vars_joined(&l.values, ", ");
                cat(cat(to_owned_string("{"), x.as_str()), "}")
            },
        }
    }
}

impl ASTListTyping {
    /// The typings, comma separated (see [`list_typing_text`]).
    pub fn to_display_string(&self) -> (s: String)
        ensures
            s@ == list_typing_text(*self),
        decreases self,
    {
        let mut texts: Vec<String> = Vec::new();
        let mut i: usize = 0;
        assert(self.entries@.take(0) =~= Seq::<ASTTypings>::empty());
        assert(texts@ =~= Seq::<String>::empty());
        while i < self.entries.len()
            invariant
                i <= self.entries.len(),
                views(texts@) == typing_texts(self.entries@.take(i as int)),
            decreases self.entries.len() - i,
        {
            let ghost before = texts@;
            texts.push(self.entries[i].to_display_string());
            assert(texts@.drop_last() =~= before);
            assert(self.entries@.take(i + 1).drop_last() =~= self.entries@.take(i as int));
            i = i + 1;
        }
        assert(self.entries@.take(self.entries.len() as int) =~= self.entries@);
        join_strings(&texts, ", ")
    }
}

impl ASTVarTyping {
    /// The name with its generic arguments (see [`var_typing_text`]).
    pub fn to_display_string(&self) -> (s: String)
        ensures
            s@ == var_typing_text(*self),
        decreases self,
    {
        let a = angle_string(&self.typings);
        cat(self.value.value.clone(), a.as_str())
    }
}

impl ASTTypings {
    /// The typing as text (see [`typing_text`]).
    pub fn to_display_string(&self) -> (s: String)
        ensures
            s@ == typing_text(*self),
        decreases self,
    {
        match self {
            ASTTypings::Tuple(l) => {
                let x = l.to_display_string();
                cat(cat(to_owned_string("["), x.as_str()), "]")
            },
            ASTTypings::Var(v) => v.to_display_string(),
            ASTTypings::PairList(l) => l.to_display_string(),
            ASTTypings::Optional(o) => {
                let x = o.to_display_string();
                cat(x, "?")
            },
            ASTTypings::Function(f) => f.to_display_string(),
            ASTTypings::Combine(c) => {
                let l = c.left.to_display_string();
                let r = c.right.to_display_string();
                cat(cat(l, " + "), r.as_str())
            },
            ASTTypings::Mod(m) => m.to_display_string(),
            ASTTypings::ExplicitImpl(m) => {
                let x = m.to_display_string();
                cat(x, "!")
            },
            ASTTypings::Bound(b) => {
                let x = b.bound.to_display_string();
                cat(cat(b.name.value.clone(), ": "), x.as_str())
            },
            ASTTypings::Impl(i) => {
                let x = i.value.to_display_string();
                cat(to_owned_string("impl "), x.as_str())
            },
        }
    }
}

/// The modifiers of a field, each followed by a space (see [`modifiers_text`]).
fn modifiers_string(bits: u32) -> (s: String)
    ensures
        s@ == modifiers_text(bits),
{
    let mut s = String::new();
    if bits & 4 == 4 {
        s.append("const ");
    }
    if bits & 2 == 2 {
        s.append("static ");
    }
    if bits & 1 == 1 {
        s.append("private ");
    }
    assert(s@ =~= modifiers_text(bits));
    s
}

impl ASTPairTypingItem {
    /// The field or parameter as text (see [`pair_item_text`]).
    pub fn to_display_string(&self) -> (s: String)
        ensures
            s@ == pair_item_text(*self),
        decreases self,
    {
        let mods = modifiers_string(self.modifiers.bits);
        let spread = if self.spread {
            to_owned_string("...")
        } else {
            String::new()
        };
        let value = match &self.value {
            Some(v) => {
                let x = v.to_display_string();
                cat(to_owned_string(": "), x.as_str())
            },
            None => String::new(),
        };
        let default = match &self.default_value {
            Some(d) => {
                let x = d.to_display_string();
                cat(to_owned_string(" = "), x.as_str())
            },
            None => String::new(),
        };
        assert(spread@ =~= (if self.spread {
            "..."@
        } else {
            Seq::empty()
        }));
        cat(cat(cat(cat(mods, spread.as_str()), self.name.as_str()), value.as_str()), default.as_str())
    }
}

impl ASTPairListTyping {
    /// The fields or parameters, comma separated (see [`pair_list_typing_text`]).
    pub fn to_display_string(&self) -> (s: String)
        ensures
            s@ == pair_list_typing_text(*self),
        decreases self,
    {
        let mut texts: Vec<String> = Vec::new();
        let mut i: usize = 0;
        assert(self.pairs@.take(0) =~= Seq::<ASTPairTypingItem>::empty());
        assert(texts@ =~= Seq::<String>::empty());
        while i < self.pairs.len()
            invariant
                i <= self.pairs.len(),
                views(texts@) == pair_item_texts(self.pairs@.take(i as int)),
            decreases self.pairs.len() - i,
        {
            let ghost before = texts@;
            texts.push(self.pairs[i].to_display_string());
            assert(texts@.drop_last() =~= before);
            assert(self.pairs@.take(i + 1).drop_last() =~= self.pairs@.take(i as int));
            i = i + 1;
        }
        assert(self.pairs@.take(self.pairs.len() as int) =~= self.pairs@);
        join_strings(&texts, ", ")
    }
}

impl ASTFunction {
    /// The function as text (see [`function_text`]).
    pub fn to_display_string(&self) -> (s: String)
        ensures
            s@ == function_text(*self),
        decreases self,
    {
        let typings = match &self.typings {
            Some(l) => l.to_display_string(),
            None => to_owned_string("none"),
        };
        let params = self.params.to_display_string();
        let ret = match &self.return_type {
            Some(r) => r.to_display_string(),
            None => to_owned_string("none"),
        };
        let body = match &self.body {
            Some(b) => b.to_display_string(),
            None => String::new(),
        };
        cat(
            cat(cat(cat(cat(cat(cat(to_owned_string("fn<"), typings.as_str()), ">("), params.as_str()), ") -> "), ret.as_str()), " "),
            body.as_str(),
        )
    }
}

impl ASTModAccess {
    /// The module path as text (see [`mod_access_text`]).
    pub fn to_display_string(&self) -> (s: String)
        ensures
            s@ == mod_access_text(*self),
        decreases self,
    {
        let path = vars_joined(&self.path, "::");
        let angle = angle_string(&self.typings);
        let init = match &self.init {
            Some(i) => {
                let x = i.to_display_string();
                cat(cat(to_owned_string("("), x.as_str()), ")")
            },
            None => String::new(),
        };
        cat(cat(path, angle.as_str()), init.as_str())
    }
}

impl ASTModAccessValues {
    /// The module path or name as text (see [`mav_text`]).
    pub fn to_display_string(&self) -> (s: String)
        ensures
            s@ == mav_text(*self),
        decreases self,
    {
        match self {
            ASTModAccessValues::ModAccess(a) => a.to_display_string(),
            ASTModAccessValues::Var(v) => v.to_display_string(),
        }
    }
}

impl ASTPairList {
    /// The key-value pairs as text (see [`pair_list_text`]).
    pub fn to_display_string(&self) -> (s: String)
        ensures
            s@ == pair_list_text(*self),
        decreases self,
    {
        let mut texts: Vec<String> = Vec::new();
        let mut i: usize = 0;
        assert(self.pairs@.take(0) =~= Seq::<(String, Option<ASTExpression>)>::empty());
        assert(texts@ =~= Seq::<String>::empty());
        while i < self.pairs.len()
            invariant
                i <= self.pairs.len(),
                views(texts@) == pair_texts(self.pairs@.take(i as int)),
            decreases self.pairs.len() - i,
        {
            let ghost before = texts@;
            let v = match &self.pairs[i].1 {
                Some(e) => e.to_display_string(),
                None => to_owned_string("{}"),
            };
            texts.push(cat(cat(self.pairs[i].0.clone(), ": "), v.as_str()));
            assert(texts@.drop_last() =~= before);
            assert(self.pairs@.take(i + 1).drop_last() =~= self.pairs@.take(i as int));
            i = i + 1;
        }
        assert(self.pairs@.take(self.pairs.len() as int) =~= self.pairs@);
        let body = concat_strings(&texts);
        cat(cat(to_owned_string("{ "), body.as_str()), " }")
    }
}

impl ASTStatement {
    /// The statement as text (see [`statement_text`]).
    pub fn to_display_string(&self) -> (s: String)
        ensures
            s@ == statement_text(*self),
        decreases self,
    {
        match self {
            ASTStatement::Struct(st) => {
                let a = angle_string(&st.typings);
                let f = st.fields.to_display_string();
                cat(cat(cat(cat(cat(to_owned_string("struct "), st.name.value.as_str()), a.as_str()), " {\n "), f.as_str()), " }\n")
            },
            ASTStatement::EnumDeclaration(en) => {
                let a = angle_string(&en.typings);
                let f = en.values.to_display_string();
                cat(cat(cat(cat(cat(to_owned_string("enum "), en.name.value.as_str()), a.as_str()), " {\n "), f.as_str()), " }\n")
            },
            ASTStatement::Type(ty) => {
                let a = angle_string(&ty.typings);
                let v = ty.value.to_display_string();
                cat(cat(cat(cat(cat(to_owned_string("type "), ty.name.value.as_str()), a.as_str()), " = "), v.as_str()), "\n")
            },
            ASTStatement::Static(st) => {
                let a = angle_string(&st.typings);
                let v = st.value.to_display_string();
                cat(cat(cat(cat(cat(to_owned_string("static "), st.var.value.as_str()), a.as_str()), " = "), v.as_str()), "\n")
            },
            ASTStatement::Main(m) => {
                let b = m.expression.to_display_string();
                cat(to_owned_string("main "), b.as_str())
            },
            ASTStatement::Export(e) => {
                let v = e.value.to_display_string();
                cat(cat(to_owned_string("export "), v.as_str()), "\n")
            },
            ASTStatement::Import(i) => {
                let alias = match &i._as {
                    Some(a) => cat(to_owned_string(" as "), a.value.as_str()),
                    None => String::new(),
                };
                cat(cat(cat(cat(cat(to_owned_string("import "), "\""), i.path.value.as_str()), "\""), alias.as_str()), "\n")
            },
            ASTStatement::Impl(im) => {
                let a = angle_string(&im.typings);
                let p = im.partial.to_display_string();
                let t = im.target.to_display_string();
                let f = im.fields.to_display_string();
                cat(
                    cat(cat(cat(cat(cat(cat(cat(to_owned_string("impl"), a.as_str()), " "), p.as_str()), " for "), t.as_str()), " {\n"), f.as_str()),
                    "\n}",
                )
            },
            ASTStatement::Meta(m) => {
                let mut texts: Vec<String> = Vec::new();
                let mut i: usize = 0;
                assert(m.args@.take(0) =~= Seq::<TokenType>::empty());
                assert(texts@ =~= Seq::<String>::empty());
                while i < m.args.len()
                    invariant
                        i <= m.args.len(),
                        views(texts@) == token_texts(m.args@.take(i as int)),
                    decreases m.args.len() - i,
                {
                    let ghost before = texts@;
                    texts.push(m.args[i].to_display_string());
                    assert(texts@.drop_last() =~= before);
                    assert(m.args@.take(i + 1).drop_last() =~= m.args@.take(i as int));
                    i = i + 1;
                }
                assert(m.args@.take(m.args.len() as int) =~= m.args@);
                let args = join_strings(&texts, ", ");
                let target = m.target.to_display_string();
                cat(cat(cat(cat(cat(to_owned_string("#"), m.name.value.as_str()), "("), args.as_str()), ")\n"), target.as_str())
            },
        }
    }
}

} // verus!
