use generator::ql::{Class, Expression, FormalParameter, Predicate, Type};

fn s(text: &str) -> String {
    text.to_string()
}

fn var(name: &str) -> Expression {
    Expression::Var(s(name))
}

fn param(t: Type, name: &str) -> FormalParameter {
    FormalParameter { name: s(name), param_type: t }
}

#[test]
fn type_renders_each_variant() {
    assert_eq!(Type::Int.to_string(), "int");
    assert_eq!(Type::String.to_string(), "string");
    assert_eq!(Type::Normal(s("Expr")).to_string(), "Expr");
    assert_eq!(Type::AtType(s("expr")).to_string(), "@expr");
}

#[test]
fn formal_parameter_renders_type_then_name() {
    assert_eq!(param(Type::Int, "i").to_string(), "int i");
    assert_eq!(param(Type::AtType(s("node")), "n").to_string(), "@node n");
}

#[test]
fn var_renders_verbatim() {
    assert_eq!(var("this").to_string(), "this");
}

#[test]
fn string_literal_is_quoted_without_escaping() {
    assert_eq!(Expression::String(s("abc")).to_string(), "\"abc\"");
    assert_eq!(Expression::String(s("a\"b\\c")).to_string(), "\"a\"b\\c\"");
}

#[test]
fn predicate_call_renders_arguments_in_order() {
    let call = Expression::Pred(s("f"), vec![var("a"), var("b"), var("c")]);
    assert_eq!(call.to_string(), "f(a, b, c)");
    assert_eq!(Expression::Pred(s("g"), vec![]).to_string(), "g()");
}

#[test]
fn empty_or_is_none_and_empty_and_is_any() {
    assert_eq!(Expression::Or(vec![]).to_string(), "none()");
    assert_eq!(Expression::And(vec![]).to_string(), "any()");
}

#[test]
fn single_disjunct_renders_as_itself() {
    let inner = Expression::Pred(s("p"), vec![var("x")]);
    let expected = inner.to_string();
    let or = Expression::Or(vec![Expression::Pred(s("p"), vec![var("x")])]);
    assert_eq!(or.to_string(), expected);
    assert_eq!(or.to_string(), "p(x)");
}

#[test]
fn two_disjuncts_joined_with_or() {
    let or = Expression::Or(vec![var("a"), var("b")]);
    assert_eq!(or.to_string(), "a or b");
}

#[test]
fn conjunction_joined_with_and_in_order() {
    let and = Expression::And(vec![var("c"), var("a"), var("b")]);
    assert_eq!(and.to_string(), "c and a and b");
}

#[test]
fn nested_junctions_get_no_parentheses() {
    let e = Expression::And(vec![Expression::Or(vec![var("a"), var("b")]), var("c")]);
    assert_eq!(e.to_string(), "a or b and c");
}

#[test]
fn equals_renders_both_sides() {
    let e = Expression::Equals(Box::new(var("x")), Box::new(Expression::String(s("y"))));
    assert_eq!(e.to_string(), "x = \"y\"");
}

#[test]
fn exists_with_parameters() {
    let e = Expression::Exists(
        vec![param(Type::Int, "i"), param(Type::Normal(s("Node")), "n")],
        Box::new(Expression::Pred(s("child"), vec![var("n"), var("i")])),
    );
    assert_eq!(e.to_string(), "exists(int i, Node n | child(n, i))");
}

#[test]
fn exists_without_parameters() {
    let e = Expression::Exists(vec![], Box::new(var("x")));
    assert_eq!(e.to_string(), "exists( | x)");
}

#[test]
fn dot_renders_member_call() {
    let e = Expression::Dot(Box::new(var("this")), s("getChild"), vec![var("i"), var("j")]);
    assert_eq!(e.to_string(), "this.getChild(i, j)");
    let e = Expression::Dot(Box::new(var("x")), s("toString"), vec![]);
    assert_eq!(e.to_string(), "x.toString()");
}

#[test]
fn relational_predicate_starts_with_predicate_keyword() {
    let p = Predicate {
        name: s("hasChild"),
        overridden: false,
        return_type: None,
        formal_parameters: vec![param(Type::Int, "i")],
        body: Expression::Pred(s("child"), vec![var("this"), var("i")]),
    };
    let text = p.to_string();
    assert!(text.starts_with("predicate "));
    assert_eq!(text, "predicate hasChild(int i) { child(this, i) }");
}

#[test]
fn typed_predicate_starts_with_its_type() {
    let p = Predicate {
        name: s("getChild"),
        overridden: false,
        return_type: Some(Type::Normal(s("Node"))),
        formal_parameters: vec![param(Type::Int, "i"), param(Type::String, "k")],
        body: Expression::Equals(Box::new(var("result")), Box::new(var("i"))),
    };
    assert_eq!(p.to_string(), "Node getChild(int i, string k) { result = i }");
}

#[test]
fn overridden_predicate_has_override_prefix() {
    let p = Predicate {
        name: s("toString"),
        overridden: true,
        return_type: Some(Type::String),
        formal_parameters: vec![],
        body: Expression::Equals(Box::new(var("result")), Box::new(Expression::String(s("N")))),
    };
    assert_eq!(p.to_string(), "override string toString() { result = \"N\" }");
}

#[test]
fn abstract_class_with_supertypes_and_no_predicates() {
    let c = Class {
        name: s("AstNode"),
        is_abstract: true,
        supertypes: vec![Type::AtType(s("ast_node")), Type::Normal(s("Top"))],
        characteristic_predicate: None,
        predicates: vec![],
    };
    assert_eq!(c.to_string(), "abstract class AstNode extends @ast_node, Top { \n}");
}

#[test]
fn characteristic_predicate_comes_first() {
    let c = Class {
        name: s("Token"),
        is_abstract: false,
        supertypes: vec![Type::Normal(s("AstNode"))],
        characteristic_predicate: Some(Expression::Pred(s("token"), vec![var("this")])),
        predicates: vec![
            Predicate {
                name: s("getValue"),
                overridden: false,
                return_type: Some(Type::String),
                formal_parameters: vec![],
                body: Expression::Pred(s("token_value"), vec![var("this"), var("result")]),
            },
            Predicate {
                name: s("isEmpty"),
                overridden: false,
                return_type: None,
                formal_parameters: vec![],
                body: Expression::Or(vec![]),
            },
        ],
    };
    assert_eq!(
        c.to_string(),
        "class Token extends AstNode { \n  predicate Token() { token(this) }\n  string getValue() { token_value(this, result) }\n  predicate isEmpty() { none() }\n}"
    );
}

#[test]
fn cloned_expression_renders_the_same() {
    let e = Expression::Exists(
        vec![param(Type::Int, "i")],
        Box::new(Expression::And(vec![
            Expression::Dot(Box::new(var("this")), s("f"), vec![var("i")]),
            Expression::Equals(Box::new(var("i")), Box::new(Expression::String(s("v")))),
            Expression::Or(vec![Expression::Pred(s("p"), vec![])]),
        ])),
    );
    assert_eq!(e.clone().to_string(), "exists(int i | this.f(i) and i = \"v\" and p())");
}

#[test]
fn cloned_predicate_renders_the_same() {
    let p = Predicate {
        name: s("getX"),
        overridden: true,
        return_type: Some(Type::Int),
        formal_parameters: vec![param(Type::String, "k")],
        body: var("k"),
    };
    assert_eq!(p.clone().to_string(), p.to_string());
    assert_eq!(p.clone().to_string(), "override int getX(string k) { k }");
}
