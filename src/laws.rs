use vstd::prelude::*;

use crate::ql::{
    characteristic_text, class_block, class_head, concat, declarator_text, expr_text, exprs_text,
    header_text, join, library_chunks, library_text, predicate_lines, Class, Expression, FormalParameter,
    Predicate, Sink, wrote_library,
};

verus! {

/// Emitting is deterministic: two complete writes of the same library into sinks
/// that held the same text hand over the same calls and leave the same text.
pub proof fn lemma_write_deterministic<S: Sink>(
    language_name: Seq<char>,
    classes: Seq<Class>,
    before1: S,
    after1: S,
    before2: S,
    after2: S,
)
    requires
        before1.written() == before2.written(),
        wrote_library(before1, after1, language_name, classes),
        wrote_library(before2, after2, language_name, classes),
    ensures
        after1.written() == after2.written(),
        after1.calls().subrange(before1.calls().len() as int, after1.calls().len() as int)
            == after2.calls().subrange(before2.calls().len() as int, after2.calls().len() as int),
{
    let chunks = library_chunks(language_name, classes);
    assert(after1.calls().subrange(before1.calls().len() as int, after1.calls().len() as int)
        =~= chunks);
    assert(after2.calls().subrange(before2.calls().len() as int, after2.calls().len() as int)
        =~= chunks);
}

/// An empty disjunction is `none()` and an empty conjunction is `any()`.
pub proof fn lemma_empty_junctions(operands: Vec<Expression>)
    requires
        operands@.len() == 0,
    ensures
        expr_text(Expression::Or(operands)) == "none()"@,
        expr_text(Expression::And(operands)) == "any()"@,
{
}

/// A disjunction of one expression is written as that expression alone.
pub proof fn lemma_single_disjunct(disjuncts: Vec<Expression>, e: Expression)
    requires
        disjuncts@ == seq![e],
    ensures
        expr_text(Expression::Or(disjuncts)) == expr_text(e),
{
    assert(disjuncts@.len() == 1);
    assert(exprs_text(disjuncts@, " or "@) == expr_text(disjuncts@[0]));
}

/// A disjunction of two expressions is written as the two joined by ` or `.
pub proof fn lemma_two_disjuncts(disjuncts: Vec<Expression>, e1: Expression, e2: Expression)
    requires
        disjuncts@ == seq![e1, e2],
    ensures
        expr_text(Expression::Or(disjuncts)) == expr_text(e1) + " or "@ + expr_text(e2),
{
    let d = disjuncts@;
    assert(d.len() == 2);
    assert(d.subrange(0, 1) =~= seq![e1]);
    assert(exprs_text(d.subrange(0, 1), " or "@) == expr_text(e1));
    assert(exprs_text(d, " or "@) == exprs_text(d.subrange(0, 1), " or "@) + " or "@ + expr_text(
        e2,
    ));
}

/// A predicate begins with its declarator: `predicate ` when it has no result
/// type, its result type and a space when it has one; an overridden one has
/// `override ` before that.
pub proof fn lemma_predicate_declarator(p: Predicate)
    ensures
        !p.overridden && p.return_type is None ==> p.text().take("predicate "@.len() as int)
            == "predicate "@,
        !p.overridden ==> (p.return_type matches Some(t) ==> p.text().take(
            t.text().len() as int + 1,
        ) == t.text() + " "@),
        p.overridden && p.return_type is None ==> p.text().take(
            ("override "@.len() + "predicate "@.len()) as int,
        ) == "override "@ + "predicate "@,
        p.overridden ==> (p.return_type matches Some(t) ==> p.text().take(
            ("override "@.len() + t.text().len() + 1) as int,
        ) == "override "@ + t.text() + " "@),
{
    reveal_strlit(" ");
    let o: Seq<char> = if p.overridden {
        "override "@
    } else {
        Seq::empty()
    };
    let d = declarator_text(p.return_type);
    let rest = p.text().subrange((o.len() + d.len()) as int, p.text().len() as int);
    assert(p.text() =~= o + d + rest);
    assert(p.text().take((o.len() + d.len()) as int) =~= o + d);
}

/// A class with a characteristic predicate writes it first in its body, named
/// like the class and without parameters, before its other predicates.
pub proof fn lemma_characteristic_predicate_first(c: Class, body: Expression)
    requires
        c.characteristic_predicate == Some(body),
    ensures
        c.text() == class_head(c) + "  "@ + characteristic_text(c.name@, body) + "\n"@
            + predicate_lines(c.predicates@) + "}"@,
        characteristic_text(c.name@, body) == "predicate "@ + c.name@ + "() { "@ + expr_text(body)
            + " }"@,
{
    reveal_strlit("(");
    reveal_strlit(") { ");
    reveal_strlit("() { ");
    assert(join(Seq::<Seq<char>>::empty(), ", "@) == Seq::<char>::empty());
    assert(Seq::<FormalParameter>::empty().map_values(|p: FormalParameter| p.text())
        =~= Seq::<Seq<char>>::empty());
    assert(characteristic_text(c.name@, body) =~= "predicate "@ + c.name@ + "() { "@ + expr_text(
        body,
    ) + " }"@);
}

/// Classes are written in the order given: one more class at the end adds its
/// block at the end of the library, after all the others.
pub proof fn lemma_classes_in_order(language_name: Seq<char>, classes: Seq<Class>, c: Class)
    ensures
        library_text(language_name, classes.push(c)) == library_text(language_name, classes)
            + class_block(c),
        library_text(language_name, Seq::empty()) == header_text(language_name),
{
    let longer = library_chunks(language_name, classes.push(c));
    assert(longer.drop_last() =~= library_chunks(language_name, classes));
    let none = library_chunks(language_name, Seq::empty());
    assert(none.drop_last() =~= Seq::<Seq<char>>::empty());
    assert(concat(none.drop_last()) == Seq::<char>::empty());
    assert(concat(none) =~= header_text(language_name));
}

/// Classes are written in the order given: the library of `first` followed by
/// `rest` is the library of `first` and then the blocks of `rest`, in order.
pub proof fn lemma_classes_appended(
    language_name: Seq<char>,
    first: Seq<Class>,
    rest: Seq<Class>,
)
    ensures
        library_text(language_name, first + rest) == library_text(language_name, first) + concat(
            rest.map_values(|c: Class| class_block(c)),
        ),
    decreases rest.len(),
{
    let blocks = rest.map_values(|c: Class| class_block(c));
    if rest.len() == 0 {
        assert(first + rest =~= first);
        assert(library_text(language_name, first) + concat(blocks) =~= library_text(
            language_name,
            first,
        ));
    } else {
        let init = rest.drop_last();
        lemma_classes_appended(language_name, first, init);
        lemma_classes_in_order(language_name, first + init, rest.last());
        assert(first + rest =~= (first + init).push(rest.last()));
        assert(blocks.drop_last() =~= init.map_values(|c: Class| class_block(c)));
    }
}

} // verus!
