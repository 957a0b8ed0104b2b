use vstd::prelude::*;
use vstd::string::StringExecFns;

verus! {

/// Texts joined with `sep` between consecutive entries.
pub open spec fn join(parts: Seq<Seq<char>>, sep: Seq<char>) -> Seq<char>
    decreases parts.len(),
{
    if parts.len() == 0 {
        Seq::empty()
    } else if parts.len() == 1 {
        parts[0]
    } else {
        join(parts.drop_last(), sep) + sep + parts.last()
    }
}

pub proof fn lemma_join_step(parts: Seq<Seq<char>>, sep: Seq<char>, i: int)
    requires
        0 <= i < parts.len(),
    ensures
        join(parts.subrange(0, i + 1), sep) == join(parts.subrange(0, i), sep) + (if i > 0 {
            sep
        } else {
            Seq::empty()
        }) + parts[i],
{
    let s = parts.subrange(0, i + 1);
    if i > 0 {
        assert(s.drop_last() =~= parts.subrange(0, i));
    } else {
        assert(join(parts.subrange(0, i), sep) =~= Seq::<char>::empty());
        assert(Seq::<char>::empty() + Seq::<char>::empty() + parts[i] =~= parts[i]);
    }
}

/// The QL type of a column.
#[derive(Clone)]
pub enum Type {
    /// Primitive `int` type.
    Int,
    /// Primitive `string` type.
    String,
    /// A user-defined type.
    Normal(std::string::String),
    /// A database type that will need to be referred to with an `@` prefix.
    AtType(std::string::String),
}

impl Type {
    pub open spec fn text(&self) -> Seq<char> {
        match self {
            Type::Int => "int"@,
            Type::String => "string"@,
            Type::Normal(name) => name@,
            Type::AtType(name) => "@"@ + name@,
        }
    }

    pub fn write_into(&self, out: &mut std::string::String)
        ensures
            final(out)@ == old(out)@ + self.text(),
    {
        match self {
            Type::Int => out.append("int"),
            Type::String => out.append("string"),
            Type::Normal(name) => out.append(name.as_str()),
            Type::AtType(name) => {
                out.append("@");
                out.append(name.as_str());
                assert(final(out)@ =~= old(out)@ + self.text());
            },
        }
    }

    pub fn to_string(&self) -> (r: std::string::String)
        ensures
            r@ == self.text(),
    {
        let mut out = std::string::String::new();
        self.write_into(&mut out);
        assert(out@ =~= self.text());
        out
    }
}

pub open spec fn types_texts(ts: Seq<Type>) -> Seq<Seq<char>> {
    ts.map_values(|t: Type| t.text())
}

fn write_types(ts: &Vec<Type>, sep: &str, out: &mut std::string::String)
    ensures
        final(out)@ == old(out)@ + join(types_texts(ts@), sep@),
{
    let ghost start = out@;
    let ghost parts = types_texts(ts@);
    let mut i: usize = 0;
    while i < ts.len()
        invariant
            0 <= i <= ts.len(),
            parts == types_texts(ts@),
            out@ == start + join(parts.subrange(0, i as int), sep@),
        decreases ts.len() - i,
    {
        proof {
            lemma_join_step(parts, sep@, i as int);
        }
        if i > 0 {
            out.append(sep);
        }
        ts[i].write_into(out);
        i = i + 1;
        proof {
            assert(out@ =~= start + join(parts.subrange(0, i as int), sep@));
        }
    }
    assert(parts.subrange(0, i as int) =~= parts);
}

/// A typed name, as it stands in a predicate's signature or a quantifier.
#[derive(Clone)]
pub struct FormalParameter {
    pub name: std::string::String,
    pub param_type: Type,
}

impl FormalParameter {
    pub open spec fn text(&self) -> Seq<char> {
        self.param_type.text() + " "@ + self.name@
    }

    pub fn write_into(&self, out: &mut std::string::String)
        ensures
            final(out)@ == old(out)@ + self.text(),
    {
        self.param_type.write_into(out);
        out.append(" ");
        out.append(self.name.as_str());
        assert(final(out)@ =~= old(out)@ + self.text());
    }

    pub fn to_string(&self) -> (r: std::string::String)
        ensures
            r@ == self.text(),
    {
        let mut out = std::string::String::new();
        self.write_into(&mut out);
        assert(out@ =~= self.text());
        out
    }
}

pub open spec fn params_texts(ps: Seq<FormalParameter>) -> Seq<Seq<char>> {
    ps.map_values(|p: FormalParameter| p.text())
}

fn write_params(ps: &Vec<FormalParameter>, out: &mut std::string::String)
    ensures
        final(out)@ == old(out)@ + join(params_texts(ps@), ", "@),
{
    let ghost start = out@;
    let ghost parts = params_texts(ps@);
    let mut i: usize = 0;
    while i < ps.len()
        invariant
            0 <= i <= ps.len(),
            parts == params_texts(ps@),
            out@ == start + join(parts.subrange(0, i as int), ", "@),
        decreases ps.len() - i,
    {
        proof {
            lemma_join_step(parts, ", "@, i as int);
        }
        if i > 0 {
            out.append(", ");
        }
        ps[i].write_into(out);
        i = i + 1;
        proof {
            assert(out@ =~= start + join(parts.subrange(0, i as int), ", "@));
        }
    }
    assert(parts.subrange(0, i as int) =~= parts);
}

/// A QL formula or value expression; each node owns its sub-expressions.
pub enum Expression {
    Var(std::string::String),
    String(std::string::String),
    Pred(std::string::String, Vec<Expression>),
    Or(Vec<Expression>),
    And(Vec<Expression>),
    Equals(Box<Expression>, Box<Expression>),
    Exists(Vec<FormalParameter>, Box<Expression>),
    Dot(Box<Expression>, std::string::String, Vec<Expression>),
}

/// The text of an expression.
pub open spec fn expr_text(e: Expression) -> Seq<char>
    decreases e,
{
    match e {
        Expression::Var(x) => x@,
        Expression::String(s) => "\""@ + s@ + "\""@,
        Expression::Pred(n, args) => n@ + "("@ + exprs_text(args@, ", "@) + ")"@,
        Expression::Or(disjuncts) => if disjuncts@.len() == 0 {
            "none()"@
        } else {
            exprs_text(disjuncts@, " or "@)
        },
        Expression::And(conjuncts) => if conjuncts@.len() == 0 {
            "any()"@
        } else {
            exprs_text(conjuncts@, " and "@)
        },
        Expression::Equals(a, b) => expr_text(*a) + " = "@ + expr_text(*b),
        Expression::Exists(params, formula) => "exists("@ + join(params_texts(params@), ", "@)
            + " | "@ + expr_text(*formula) + ")"@,
        Expression::Dot(x, member, args) => expr_text(*x) + "."@ + member@ + "("@ + exprs_text(
            args@,
            ", "@,
        ) + ")"@,
    }
}

/// The texts of a list of expressions, joined with `sep`.
pub open spec fn exprs_text(es: Seq<Expression>, sep: Seq<char>) -> Seq<char>
    decreases es,
{
    if es.len() == 0 {
        Seq::empty()
    } else if es.len() == 1 {
        expr_text(es[0])
    } else {
        exprs_text(es.subrange(0, es.len() - 1), sep) + sep + expr_text(es[es.len() - 1])
    }
}

pub proof fn lemma_exprs_step(es: Seq<Expression>, sep: Seq<char>, i: int)
    requires
        0 <= i < es.len(),
    ensures
        exprs_text(es.subrange(0, i + 1), sep) == exprs_text(es.subrange(0, i), sep) + (if i > 0 {
            sep
        } else {
            Seq::empty()
        }) + expr_text(es[i]),
{
    let s = es.subrange(0, i + 1);
    if i > 0 {
        assert(s.subrange(0, s.len() - 1) =~= es.subrange(0, i));
    } else {
        assert(exprs_text(es.subrange(0, i), sep) =~= Seq::<char>::empty());
        assert(Seq::<char>::empty() + Seq::<char>::empty() + expr_text(es[i]) =~= expr_text(es[i]));
    }
}

/// Appends the texts of `es`, joined with `sep`.
fn write_exprs(es: &Vec<Expression>, sep: &str, out: &mut std::string::String)
    ensures
        final(out)@ == old(out)@ + exprs_text(es@, sep@),
    decreases es,
{
    let ghost start = out@;
    let mut i: usize = 0;
    while i < es.len()
        invariant
            0 <= i <= es.len(),
            out@ == start + exprs_text(es@.subrange(0, i as int), sep@),
        decreases es.len() - i,
    {
        proof {
            lemma_exprs_step(es@, sep@, i as int);
        }
        if i > 0 {
            out.append(sep);
        }
        es[i].write_into(out);
        i = i + 1;
        proof {
            assert(out@ =~= start + exprs_text(es@.subrange(0, i as int), sep@));
        }
    }
    assert(es@.subrange(0, i as int) =~= es@);
}

impl Expression {
    pub open spec fn text(&self) -> Seq<char> {
        expr_text(*self)
    }

    pub fn write_into(&self, out: &mut std::string::String)
        ensures
            final(out)@ == old(out)@ + expr_text(*self),
        decreases self,
    {
        let ghost start = out@;
        match self {
            Expression::Var(x) => out.append(x.as_str()),
            Expression::String(s) => {
                out.append("\"");
                out.append(s.as_str());
                out.append("\"");
            },
            Expression::Pred(n, args) => {
                out.append(n.as_str());
                out.append("(");
                write_exprs(args, ", ", out);
                out.append(")");
            },
            Expression::Or(disjuncts) => {
                if disjuncts.len() == 0 {
                    out.append("none()");
                } else {
                    write_exprs(disjuncts, " or ", out);
                }
            },
            Expression::And(conjuncts) => {
                if conjuncts.len() == 0 {
                    out.append("any()");
                } else {
                    write_exprs(conjuncts, " and ", out);
                }
            },
            Expression::Equals(a, b) => {
                a.write_into(out);
                out.append(" = ");
                b.write_into(out);
            },
            Expression::Exists(params, formula) => {
                out.append("exists(");
                write_params(params, out);
                out.append(" | ");
                formula.write_into(out);
                out.append(")");
            },
            Expression::Dot(x, member, args) => {
                x.write_into(out);
                out.append(".");
                out.append(member.as_str());
                out.append("(");
                write_exprs(args, ", ", out);
                out.append(")");
            },
        }
        assert(out@ =~= start + expr_text(*self));
    }

    pub fn to_string(&self) -> (r: std::string::String)
        ensures
            r@ == self.text(),
    {
        let mut out = std::string::String::new();
        self.write_into(&mut out);
        assert(out@ =~= self.text());
        out
    }
}

fn clone_exprs(es: &Vec<Expression>) -> (r: Vec<Expression>)
    ensures
        r@.len() == es@.len(),
    decreases es,
{
    let mut r: Vec<Expression> = Vec::new();
    let mut i: usize = 0;
    while i < es.len()
        invariant
            0 <= i <= es.len(),
            r@.len() == i,
        decreases es.len() - i,
    {
        r.push(es[i].clone());
        i = i + 1;
    }
    r
}

impl Clone for Expression {
    fn clone(&self) -> (r: Expression)
        decreases self,
    {
        match self {
            Expression::Var(x) => Expression::Var(x.clone()),
            Expression::String(s) => Expression::String(s.clone()),
            Expression::Pred(n, args) => Expression::Pred(n.clone(), clone_exprs(args)),
            Expression::Or(disjuncts) => Expression::Or(clone_exprs(disjuncts)),
            Expression::And(conjuncts) => Expression::And(clone_exprs(conjuncts)),
            Expression::Equals(a, b) => Expression::Equals(
                Box::new((**a).clone()),
                Box::new((**b).clone()),
            ),
            Expression::Exists(params, formula) => Expression::Exists(
                params.clone(),
                Box::new((**formula).clone()),
            ),
            Expression::Dot(x, member, args) => Expression::Dot(
                Box::new((**x).clone()),
                member.clone(),
                clone_exprs(args),
            ),
        }
    }
}

/// A named rule with parameters and a body; with a return type it yields a value.
#[derive(Clone)]
pub struct Predicate {
    pub name: std::string::String,
    pub overridden: bool,
    pub return_type: Option<Type>,
    pub formal_parameters: Vec<FormalParameter>,
    pub body: Expression,
}

/// The declarator of a predicate: `predicate ` for a relation, else its result type.
pub open spec fn declarator_text(return_type: Option<Type>) -> Seq<char> {
    match return_type {
        None => "predicate "@,
        Some(t) => t.text() + " "@,
    }
}

/// The text of a predicate made of these parts.
pub open spec fn predicate_text(
    overridden: bool,
    return_type: Option<Type>,
    name: Seq<char>,
    params: Seq<FormalParameter>,
    body: Expression,
) -> Seq<char> {
    (if overridden {
        "override "@
    } else {
        Seq::empty()
    }) + declarator_text(return_type) + name + "("@ + join(params_texts(params), ", "@) + ") { "@
        + expr_text(body) + " }"@
}

fn write_predicate_parts(
    overridden: bool,
    return_type: &Option<Type>,
    name: &std::string::String,
    params: &Vec<FormalParameter>,
    body: &Expression,
    out: &mut std::string::String,
)
    ensures
        final(out)@ == old(out)@ + predicate_text(overridden, *return_type, name@, params@, *body),
{
    let ghost start = out@;
    if overridden {
        out.append("override ");
    }
    match return_type {
        None => out.append("predicate "),
        Some(t) => {
            t.write_into(out);
            out.append(" ");
        },
    }
    out.append(name.as_str());
    out.append("(");
    write_params(params, out);
    out.append(") { ");
    body.write_into(out);
    out.append(" }");
    assert(out@ =~= start + predicate_text(overridden, *return_type, name@, params@, *body));
}

impl Predicate {
    pub open spec fn text(&self) -> Seq<char> {
        predicate_text(
            self.overridden,
            self.return_type,
            self.name@,
            self.formal_parameters@,
            self.body,
        )
    }

    pub fn write_into(&self, out: &mut std::string::String)
        ensures
            final(out)@ == old(out)@ + self.text(),
    {
        write_predicate_parts(
            self.overridden,
            &self.return_type,
            &self.name,
            &self.formal_parameters,
            &self.body,
            out,
        );
    }

    pub fn to_string(&self) -> (r: std::string::String)
        ensures
            r@ == self.text(),
    {
        let mut out = std::string::String::new();
        self.write_into(&mut out);
        assert(out@ =~= self.text());
        out
    }
}

/// A class declaration: supertypes, an optional characteristic predicate, member predicates.
pub struct Class {
    pub name: std::string::String,
    pub is_abstract: bool,
    pub supertypes: Vec<Type>,
    pub characteristic_predicate: Option<Expression>,
    pub predicates: Vec<Predicate>,
}

/// The predicate that a class's characteristic predicate stands for: named like
/// the class, not overridden, without result type or parameters.
pub open spec fn characteristic_text(class_name: Seq<char>, body: Expression) -> Seq<char> {
    predicate_text(false, None, class_name, Seq::empty(), body)
}

/// One line of a class body per predicate, in order.
pub open spec fn predicate_lines(ps: Seq<Predicate>) -> Seq<char>
    decreases ps.len(),
{
    if ps.len() == 0 {
        Seq::empty()
    } else {
        predicate_lines(ps.drop_last()) + "  "@ + ps.last().text() + "\n"@
    }
}

/// The first line of a class: its name and supertypes, up to the opening brace.
pub open spec fn class_head(c: Class) -> Seq<char> {
    (if c.is_abstract {
        "abstract "@
    } else {
        Seq::empty()
    }) + "class "@ + c.name@ + " extends "@ + join(types_texts(c.supertypes@), ", "@) + " { \n"@
}

/// The line of the characteristic predicate, if the class has one.
pub open spec fn characteristic_line(c: Class) -> Seq<char> {
    match c.characteristic_predicate {
        None => Seq::empty(),
        Some(e) => "  "@ + characteristic_text(c.name@, e) + "\n"@,
    }
}

impl Class {
    pub open spec fn text(&self) -> Seq<char> {
        class_head(*self) + characteristic_line(*self) + predicate_lines(self.predicates@) + "}"@
    }

    pub fn write_into(&self, out: &mut std::string::String)
        ensures
            final(out)@ == old(out)@ + self.text(),
    {
        let ghost start = out@;
        if self.is_abstract {
            out.append("abstract ");
        }
        out.append("class ");
        out.append(self.name.as_str());
        out.append(" extends ");
        write_types(&self.supertypes, ", ", out);
        out.append(" { \n");
        assert(out@ =~= start + class_head(*self));
        let ghost head = out@;
        match &self.characteristic_predicate {
            None => {},
            Some(charpred) => {
                out.append("  ");
                let no_params: Vec<FormalParameter> = Vec::new();
                write_predicate_parts(false, &None, &self.name, &no_params, charpred, out);
                out.append("\n");
                assert(no_params@ =~= Seq::<FormalParameter>::empty());
            },
        }
        assert(out@ =~= head + characteristic_line(*self));
        let ghost body_start = out@;
        let mut i: usize = 0;
        while i < self.predicates.len()
            invariant
                0 <= i <= self.predicates.len(),
                out@ == body_start + predicate_lines(self.predicates@.subrange(0, i as int)),
            decreases self.predicates.len() - i,
        {
            out.append("  ");
            self.predicates[i].write_into(out);
            out.append("\n");
            i = i + 1;
            proof {
                let ps = self.predicates@.subrange(0, i as int);
                assert(ps.drop_last() =~= self.predicates@.subrange(0, i - 1));
                assert(out@ =~= body_start + predicate_lines(ps));
            }
        }
        assert(self.predicates@.subrange(0, i as int) =~= self.predicates@);
        out.append("}");
        assert(out@ =~= start + self.text());
    }

    pub fn to_string(&self) -> (r: std::string::String)
        ensures
            r@ == self.text(),
    {
        let mut out = std::string::String::new();
        self.write_into(&mut out);
        assert(out@ =~= self.text());
        out
    }
}

/// Texts put one after another.
pub open spec fn concat(parts: Seq<Seq<char>>) -> Seq<char>
    decreases parts.len(),
{
    if parts.len() == 0 {
        Seq::empty()
    } else {
        concat(parts.drop_last()) + parts.last()
    }
}

pub proof fn lemma_concat_step(parts: Seq<Seq<char>>, i: int)
    requires
        0 <= i < parts.len(),
    ensures
        concat(parts.take(i + 1)) == concat(parts.take(i)) + parts[i],
{
    assert(parts.take(i + 1).drop_last() =~= parts.take(i));
}

/// The comment block that opens a library, followed by a blank line.
pub open spec fn header_text(language_name: Seq<char>) -> Seq<char> {
    "/*\n * CodeQL library for "@ + language_name
        + "\n * Automatically generated from the tree-sitter grammar; do not edit\n */\n\n"@
}

/// A class as it stands in a library: its text and two newlines.
pub open spec fn class_block(c: Class) -> Seq<char> {
    c.text() + "\n\n"@
}

/// What a library is written as, in order: the header, then one block per class.
pub open spec fn library_chunks(language_name: Seq<char>, classes: Seq<Class>) -> Seq<Seq<char>> {
    seq![header_text(language_name)] + classes.map_values(|c: Class| class_block(c))
}

/// The whole text of a library.
pub open spec fn library_text(language_name: Seq<char>, classes: Seq<Class>) -> Seq<char> {
    concat(library_chunks(language_name, classes))
}

/// What a library write that stopped inside chunk `k`, after `n` of its
/// characters, has put out: the chunks before it and that much of it.
pub open spec fn partial_library(language_name: Seq<char>, classes: Seq<Class>, k: int, n: int) -> Seq<
    char,
> {
    let chunks = library_chunks(language_name, classes);
    concat(chunks.take(k)) + chunks[k].take(n)
}

/// A destination for text, written front to back, one call at a time.
pub trait Sink {
    type Error;

    /// Everything the sink has accepted so far.
    spec fn written(&self) -> Seq<char>;

    /// The texts handed to `write_text`, one per call, in order.
    spec fn calls(&self) -> Seq<Seq<char>>;

    /// The error of the last failed call, if any call failed.
    spec fn last_error(&self) -> Option<Self::Error>;

    /// Whether every later call will succeed.
    spec fn accepts_all(&self) -> bool;

    /// Appends `text`; a failed write may have accepted a prefix of it.
    fn write_text(&mut self, text: &str) -> (r: Result<(), Self::Error>)
        ensures
            final(self).calls() == old(self).calls().push(text@),
            old(self).accepts_all() ==> r is Ok && final(self).accepts_all(),
            r is Ok ==> final(self).written() == old(self).written() + text@,
            r is Ok ==> final(self).last_error() == old(self).last_error(),
            r matches Err(e) ==> final(self).last_error() == Some(e),
            r is Err ==> exists|n: int|
                0 <= n <= text@.len() && final(self).written() == old(self).written() + text@.take(
                    n,
                ),
    ;
}

/// A sink that collects text in memory and never fails.
pub struct TextSink {
    text: std::string::String,
    log: Ghost<Seq<Seq<char>>>,
}

impl TextSink {
    pub fn new() -> (r: TextSink)
        ensures
            r.written() == Seq::<char>::empty(),
            r.calls() == Seq::<Seq<char>>::empty(),
    {
        TextSink { text: std::string::String::new(), log: Ghost(Seq::empty()) }
    }

    /// What the sink has accepted so far.
    pub fn text(&self) -> (r: &std::string::String)
        ensures
            r@ == self.written(),
    {
        &self.text
    }
}

impl Sink for TextSink {
    type Error = ();

    closed spec fn written(&self) -> Seq<char> {
        self.text@
    }

    closed spec fn calls(&self) -> Seq<Seq<char>> {
        self.log@
    }

    open spec fn last_error(&self) -> Option<()> {
        None
    }

    open spec fn accepts_all(&self) -> bool {
        true
    }

    fn write_text(&mut self, text: &str) -> (r: Result<(), ()>) {
        self.text.append(text);
        self.log = Ghost(self.log@.push(text@));
        Ok(())
    }
}

/// The header of the library for `language_name`.
pub fn render_header(language_name: &str) -> (r: std::string::String)
    ensures
        r@ == header_text(language_name@),
{
    let mut out = std::string::String::new();
    out.append("/*\n * CodeQL library for ");
    out.append(language_name);
    out.append("\n * Automatically generated from the tree-sitter grammar; do not edit\n */\n\n");
    assert(out@ =~= header_text(language_name@));
    out
}

/// A class as it stands in a library: its text and two newlines.
pub fn render_class_block(c: &Class) -> (r: std::string::String)
    ensures
        r@ == class_block(*c),
{
    let mut out = std::string::String::new();
    c.write_into(&mut out);
    out.append("\n\n");
    assert(out@ =~= class_block(*c));
    out
}

/// The text of the library for `language_name` with `classes`, in order.
pub fn render_library(language_name: &str, classes: &[Class]) -> (r: std::string::String)
    ensures
        r@ == library_text(language_name@, classes@),
{
    let ghost chunks = library_chunks(language_name@, classes@);
    let mut out = render_header(language_name);
    proof {
        lemma_concat_step(chunks, 0);
        assert(chunks.take(0) =~= Seq::<Seq<char>>::empty());
        assert(out@ =~= concat(chunks.take(1)));
    }
    let mut i: usize = 0;
    while i < classes.len()
        invariant
            0 <= i <= classes.len(),
            chunks == library_chunks(language_name@, classes@),
            out@ == concat(chunks.take(i + 1)),
        decreases classes.len() - i,
    {
        let b = render_class_block(&classes[i]);
        out.append(b.as_str());
        proof {
            lemma_concat_step(chunks, i + 1);
        }
        i = i + 1;
    }
    assert(chunks.take(i + 1) =~= chunks);
    out
}

/// A whole library went from `before` to `after`: the header in one call, then one
/// call per class block, and all of it accepted.
pub open spec fn wrote_library<S: Sink>(
    before: S,
    after: S,
    language_name: Seq<char>,
    classes: Seq<Class>,
) -> bool {
    &&& after.calls() == before.calls() + library_chunks(language_name, classes)
    &&& after.written() == before.written() + library_text(language_name, classes)
}

/// A library write went from `before` to `after` and failed at the call of chunk
/// `k`, which had accepted `n` characters: the calls are the chunks up to that one.
pub open spec fn stopped_at<S: Sink>(
    before: S,
    after: S,
    language_name: Seq<char>,
    classes: Seq<Class>,
    k: int,
    n: int,
) -> bool {
    let chunks = library_chunks(language_name, classes);
    &&& 0 <= k < chunks.len()
    &&& 0 <= n <= chunks[k].len()
    &&& after.calls() == before.calls() + chunks.take(k + 1)
    &&& after.written() == before.written() + partial_library(language_name, classes, k, n)
}

/// Generates a QL library by writing the given `classes` to the `file`: the header
/// in one call, then each class block in one call, in order. The first failed call
/// ends the work, and its error is returned as it came.
pub fn write<S: Sink>(language_name: &str, file: &mut S, classes: &[Class]) -> (r: Result<
    (),
    S::Error,
>)
    ensures
        old(file).accepts_all() ==> r is Ok,
        r is Ok ==> wrote_library(*old(file), *final(file), language_name@, classes@),
        r matches Err(e) ==> final(file).last_error() == Some(e),
        r is Err ==> exists|k: int, n: int|
            #[trigger] stopped_at(*old(file), *final(file), language_name@, classes@, k, n),
{
    let ghost start = *file;
    let ghost chunks = library_chunks(language_name@, classes@);
    let h = render_header(language_name);
    proof {
        lemma_concat_step(chunks, 0);
        assert(chunks.take(0) =~= Seq::<Seq<char>>::empty());
    }
    match file.write_text(h.as_str()) {
        Ok(()) => {},
        Err(e) => {
            proof {
                let n = choose|n: int|
                    0 <= n <= h@.len() && file.written() == start.written() + h@.take(n);
                assert(file.written() =~= start.written() + partial_library(
                    language_name@,
                    classes@,
                    0,
                    n,
                ));
                assert(chunks[0] == h@);
                assert(chunks.take(1) =~= seq![h@]);
                assert(file.calls() =~= start.calls() + chunks.take(1));
                assert(stopped_at(start, *file, language_name@, classes@, 0, n));
            }
            return Err(e);
        },
    }
    assert(file.written() =~= start.written() + concat(chunks.take(1)));
    assert(file.calls() =~= start.calls() + chunks.take(1));
    let mut i: usize = 0;
    while i < classes.len()
        invariant
            0 <= i <= classes.len(),
            chunks == library_chunks(language_name@, classes@),
            start == *old(file),
            start.accepts_all() ==> file.accepts_all(),
            file.written() == start.written() + concat(chunks.take(i + 1)),
            file.calls() == start.calls() + chunks.take(i + 1),
        decreases classes.len() - i,
    {
        let b = render_class_block(&classes[i]);
        proof {
            lemma_concat_step(chunks, i + 1);
            assert(chunks[i + 1] == b@);
            assert(chunks.take(i + 2) =~= chunks.take(i + 1).push(b@));
        }
        let ghost before = *file;
        match file.write_text(b.as_str()) {
            Ok(()) => {},
            Err(e) => {
                proof {
                    let n = choose|n: int|
                        0 <= n <= b@.len() && file.written() == before.written() + b@.take(n);
                    assert(file.written() =~= start.written() + partial_library(
                        language_name@,
                        classes@,
                        i + 1,
                        n,
                    ));
                    assert(file.calls() =~= start.calls() + chunks.take(i + 2));
                    assert(stopped_at(start, *file, language_name@, classes@, i + 1, n));
                }
                return Err(e);
            },
        }
        assert(file.written() =~= start.written() + concat(chunks.take(i + 2)));
        assert(file.calls() =~= start.calls() + chunks.take(i + 2));
        i = i + 1;
    }
    assert(chunks.take(i + 1) =~= chunks);
    Ok(())
}

} // verus!
