use engine::error::{ErrorKind, Syntax};
use engine::lexer::Operation;
use engine::parser::Node;
use engine::program::Program;

fn names(v: &[String]) -> Vec<String> {
    let mut out = v.to_vec();
    out.sort();
    out
}

#[test]
fn build_sorts_sources() {
    let p = Program::build(&vec!["f(x, y) = x*y", "a_B = -g*hatj", "g = 100", "5 + 5", "h(2) = 3"]).unwrap();
    assert_eq!(p.definitions.len(), 1);
    assert_eq!(p.definitions[0].name, "f");
    assert_eq!(p.definitions[0].params, vec!["x".to_string(), "y".to_string()]);
    assert_eq!(
        p.definitions[0].body,
        Node::Arithmetic {
            operation: Operation::Multi,
            left: Box::new(Node::Variable("x".to_string())),
            right: Box::new(Node::Variable("y".to_string())),
        }
    );
    assert_eq!(p.equations.len(), 3);
    assert_eq!(p.equations.iter().map(|e| e.id).collect::<Vec<_>>(), vec![0, 1, 2]);
    assert_eq!(names(&p.equations[0].dependencies), vec!["a_B", "g", "hatj"]);
    assert_eq!(names(&p.equations[1].dependencies), vec!["g"]);
    assert_eq!(names(&p.equations[2].dependencies), vec!["h"]);
}

#[test]
fn build_lists_each_dependency_once() {
    let p = Program::build(&vec!["x = x + sin(x) + y"]).unwrap();
    assert_eq!(names(&p.equations[0].dependencies), vec!["sin", "x", "y"]);
}

#[test]
fn build_empty() {
    let p = Program::build(&vec![]).unwrap();
    assert!(p.equations.is_empty());
    assert!(p.definitions.is_empty());
}

#[test]
fn build_reports_first_bad_source() {
    let e = Program::build(&vec!["x = 1", "y = (2", "z = $"]).unwrap_err();
    assert_eq!(e.kind, ErrorKind::InvalidMathSyntax(Syntax::PrematureEnd));
}
