use engine::error::{ErrorKind, Syntax};
use engine::lexer::{Lexer, Operation};
use engine::parser::{parse, parse_str, Node};

fn n(s: &str) -> Node {
    Node::Number(s.to_string())
}

fn v(s: &str) -> Node {
    Node::Variable(s.to_string())
}

fn op(operation: Operation, left: Node, right: Node) -> Node {
    Node::Arithmetic { operation, left: Box::new(left), right: Box::new(right) }
}

fn call(name: &str, args: Vec<Node>) -> Node {
    Node::Function { name: name.to_string(), args: args.into_iter().map(Box::new).collect() }
}

fn syntax(src: &str) -> ErrorKind {
    parse_str(src).unwrap_err().kind
}

#[test]
fn math_test_parse() {
    let lex = Lexer::new("x = 5 + 5");

    let result = parse(lex).unwrap();
    println!("result: {:?}", result);
}

#[test]
fn parse_test_parse() {
    let lex = Lexer::new("x = 5 + 5");

    let result = parse(lex).unwrap();
    println!("result: {:?}", result);
}

#[test]
fn parse_comparison() {
    let expected = Node::Comparison {
        left: Box::new(v("x")),
        right: Box::new(op(Operation::Add, n("5"), n("5"))),
    };
    assert_eq!(parse(Lexer::new("x = 5 + 5")).unwrap(), expected);
}

#[test]
fn juxtaposition_binds_tighter_than_product() {
    let expected = op(Operation::Multi, n("2"), op(Operation::Exp, call("sin", vec![v("x")]), n("2")));
    assert_eq!(parse_str("2sin(x)^2").unwrap(), expected);
}

#[test]
fn parse_is_left_associative() {
    let expected = op(Operation::Sub, op(Operation::Sub, n("1"), n("2")), n("3"));
    assert_eq!(parse_str("1-2-3").unwrap(), expected);
    let expected = op(Operation::Div, op(Operation::Multi, v("a"), v("b")), v("c"));
    assert_eq!(parse_str("a*b/c").unwrap(), expected);
}

#[test]
fn parse_precedence() {
    let expected = op(Operation::Add, n("1"), op(Operation::Multi, n("2"), op(Operation::Exp, n("3"), n("4"))));
    assert_eq!(parse_str("1+2*3^4").unwrap(), expected);
}

#[test]
fn parse_negation_is_subtraction_from_zero() {
    let expected = op(Operation::Multi, op(Operation::Sub, n("0"), v("g")), v("hatj"));
    assert_eq!(parse_str("-g*hatj").unwrap(), expected);
}

#[test]
fn parse_parenthesised_products() {
    let expected = op(
        Operation::Multi,
        op(Operation::Add, n("1"), v("x")),
        op(Operation::Sub, n("1"), v("x")),
    );
    assert_eq!(parse_str("(1+x)(1-x)").unwrap(), expected);
}

#[test]
fn parse_juxtaposed_basis() {
    let expected = op(Operation::Multi, n("5"), v("hatj"));
    assert_eq!(parse_str("5hatj").unwrap(), expected);
}

#[test]
fn parse_calls_with_several_arguments() {
    let expected = call("log", vec![v("x"), op(Operation::Add, n("1"), n("1"))]);
    assert_eq!(parse_str("log(x, 1+1)").unwrap(), expected);
}

#[test]
fn parse_same_source_same_tree() {
    let src = "s_P = (200 sin(theta_P))hati + (-200 cos(theta_P))hatj";
    assert_eq!(parse_str(src).unwrap(), parse_str(src).unwrap());
}

#[test]
fn parse_errors() {
    assert_eq!(syntax(""), ErrorKind::InvalidMathSyntax(Syntax::PrematureEnd));
    assert_eq!(syntax("-"), ErrorKind::InvalidMathSyntax(Syntax::MissingOperand));
    assert_eq!(syntax("2(3"), ErrorKind::InvalidMathSyntax(Syntax::UnclosedProduct));
    assert_eq!(syntax("(1,2)"), ErrorKind::InvalidMathSyntax(Syntax::UnclosedGroup));
    assert_eq!(syntax("f(1,)"), ErrorKind::InvalidMathSyntax(Syntax::MissingArgument));
    assert_eq!(syntax("f(1"), ErrorKind::InvalidMathSyntax(Syntax::UnclosedArguments));
    assert_eq!(syntax("x = 1 # 2"), ErrorKind::InvalidToken('#'));
    assert_eq!(syntax("a = b = c"), ErrorKind::InvalidMathSyntax(Syntax::TrailingInput));
    assert_eq!(syntax("x ) 5"), ErrorKind::InvalidMathSyntax(Syntax::TrailingInput));
    assert_eq!(syntax("x = 1 )"), ErrorKind::InvalidMathSyntax(Syntax::TrailingInput));
    assert_eq!(syntax("x = 1 2 ,"), ErrorKind::InvalidMathSyntax(Syntax::TrailingInput));
}

#[test]
fn juxtaposition_after_division_joins_the_product() {
    let expected = op(Operation::Multi, op(Operation::Div, v("a"), n("2")), v("x"));
    assert_eq!(parse_str("a/2x").unwrap(), expected);
}

#[test]
fn parsed_numbers_are_kept_as_written() {
    assert_eq!(parse_str("0.5").unwrap(), n("0.5"));
    assert_eq!(parse_str("12.").unwrap(), n("12."));
}

#[test]
fn parse_across_lines_and_tabs() {
    assert_eq!(parse_str("x\t=\n5 +\r\n5").unwrap(), parse_str("x = 5 + 5").unwrap());
}
