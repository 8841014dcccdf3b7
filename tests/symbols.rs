use engine::error::{Error, ErrorKind, Syntax};
use engine::solve::{candidates, check_arity, is_undefined, lookup_order, require_function, resolve, Resolution};
use engine::space::{Collide2D, Space2D};
use engine::symbols::{
    builtin_arity, builtins, fallback, is_valid_body_name, joined, same_text, symbol, velocity_binding, Motion,
    Quantity,
};

#[test]
fn binding_names() {
    assert_eq!(joined("a", "B"), "a_B");
    assert_eq!(joined("theta", "Pendulum"), "theta_Pendulum");
    assert_eq!(joined("m", "B"), "m_B");
    assert_eq!(velocity_binding("x", "B"), "v_x_B");
}

#[test]
fn motion_symbols_and_order() {
    assert_eq!(symbol(Motion::Linear, Quantity::Displacement), "s");
    assert_eq!(symbol(Motion::Linear, Quantity::Velocity), "v");
    assert_eq!(symbol(Motion::Linear, Quantity::Acceleration), "a");
    assert_eq!(symbol(Motion::Angular, Quantity::Displacement), "q");
    assert_eq!(symbol(Motion::Angular, Quantity::Velocity), "omega");
    assert_eq!(symbol(Motion::Angular, Quantity::Acceleration), "alpha");
    assert_eq!(fallback(Quantity::Displacement), Some(Quantity::Velocity));
    assert_eq!(fallback(Quantity::Velocity), Some(Quantity::Acceleration));
    assert_eq!(fallback(Quantity::Acceleration), None);
}

#[test]
fn body_names() {
    assert!(is_valid_body_name("Pendulum"));
    assert!(is_valid_body_name("_b2"));
    assert!(!is_valid_body_name("2b"));
    assert!(!is_valid_body_name(""));
    assert!(!is_valid_body_name("a-b"));
}

#[test]
fn text_comparison() {
    assert!(same_text("hati", "hati"));
    assert!(!same_text("hati", "hatj"));
    assert!(!same_text("hat", "hati"));
}

#[test]
fn builtin_arities() {
    for name in ["sin", "cos", "tan", "asin", "acos", "atan", "ln", "sqrt"] {
        assert_eq!(builtin_arity(name), Some(1));
    }
    assert_eq!(builtin_arity("log"), Some(2));
    assert_eq!(builtin_arity("nrt"), Some(2));
    assert_eq!(builtin_arity("f"), None);
    assert_eq!(builtins().len(), 10);
}

#[test]
fn builtins_reject_other_arities() {
    for name in builtins() {
        let k = builtin_arity(name).unwrap();
        for found in 0..4 {
            let r = check_arity(&name.to_string(), k, found);
            if found == k {
                assert_eq!(r, Ok(()));
            } else {
                assert_eq!(
                    r,
                    Err(ErrorKind::WrongNumberOfArguments { name: name.to_string(), expected: k, found })
                );
            }
        }
    }
}

#[test]
fn resolution_prefers_first_success() {
    let outcomes = vec![
        Resolution::Ignore,
        Resolution::Unsatisfied("y".to_string()),
        Resolution::Success(2.5),
        Resolution::Success(7.0),
    ];
    assert_eq!(resolve(&outcomes, &"x".to_string()), Ok(2.5));
}

#[test]
fn resolution_names_first_unresolved() {
    let outcomes: Vec<Resolution<f64>> = vec![
        Resolution::Ignore,
        Resolution::Unsatisfied("y".to_string()),
        Resolution::Unsatisfied("z".to_string()),
    ];
    assert_eq!(resolve(&outcomes, &"x".to_string()), Err(ErrorKind::UnsatisfiedVariable("y".to_string())));
}

#[test]
fn resolution_without_candidates_names_variable() {
    let outcomes: Vec<Resolution<f64>> = vec![Resolution::Ignore];
    assert_eq!(resolve(&outcomes, &"x".to_string()), Err(ErrorKind::UnsatisfiedVariable("x".to_string())));
    assert_eq!(resolve(&Vec::<Resolution<f64>>::new(), &"x".to_string()), Err(ErrorKind::UnsatisfiedVariable("x".to_string())));
}

#[test]
fn undefined_probe() {
    let form = "a_B".to_string();
    assert!(is_undefined(&ErrorKind::UnsatisfiedVariable("a_B".to_string()), &form));
    assert!(!is_undefined(&ErrorKind::UnsatisfiedVariable("g".to_string()), &form));
    assert!(!is_undefined(&ErrorKind::RootFindingDepthExceeded, &form));
}

#[test]
fn plane_bases() {
    let lin = Space2D::linear_bases();
    assert_eq!((lin[0].name, lin[0].axis), ("hati", "x"));
    assert_eq!((lin[1].name, lin[1].axis), ("hatj", "y"));
    let ang = Space2D::angular_bases();
    assert_eq!((ang[0].name, ang[0].axis), ("hatk", "theta"));
    assert_eq!(Space2D::LINEAR_DOF, 2);
    assert_eq!(Space2D::ANGULAR_DOF, 1);
    let _ = Collide2D::new();
}

#[test]
fn error_messages() {
    let e = Error::new(ErrorKind::UnsatisfiedVariable("a_B".to_string()));
    assert_eq!(
        e.kind.message(),
        "Unsatisfied variable: a_B. Make sure you properly define all required variables for this computation"
    );
    assert_eq!(
        ErrorKind::UnsatisfiedFunction("f".to_string()).message(),
        "Unsatisfied function: f. This function is unknown, try defining it (eg. f(x)=5x)"
    );
    assert_eq!(
        ErrorKind::WrongNumberOfArguments { name: "log".to_string(), expected: 2, found: 13 }.message(),
        "Function log takes 2 arguments, but you provided 13."
    );
    assert_eq!(ErrorKind::UnexpectedComparison.message(), "Unexpected equals sign!");
    assert_eq!(ErrorKind::ExpectedComparison.message(), "Expected an equals sign!");
    assert_eq!(
        ErrorKind::RootFindingDepthExceeded.message(),
        "Math too complicated, failed to find roots of function fast enough."
    );
    assert_eq!(ErrorKind::InvalidDimensions.message(), "This matrix is the wrong size.");
    assert_eq!(ErrorKind::InvalidToken('$').message(), "Invalid token '$', in your equation.");
    assert_eq!(
        ErrorKind::InvalidMathSyntax(Syntax::PrematureEnd).message(),
        "Invalid math syntax: Premature end of input"
    );
}

#[test]
fn syntax_messages() {
    let cases = [
        (Syntax::MalformedNumber, "Unable to convert number to float."),
        (Syntax::PrematureEnd, "Premature end of input"),
        (Syntax::UnclosedProduct, "Expected close param"),
        (Syntax::MissingOperand, "Expected expression after '-' sign."),
        (Syntax::UnclosedGroup, "No close param"),
        (
            Syntax::MissingArgument,
            "Expecting another parameter (at least 1 parameter, and 1 value after every comma is required).",
        ),
        (Syntax::UnclosedArguments, "No close param."),
        (Syntax::TrailingInput, "Unexpected input after the end of the expression."),
    ];
    for (s, text) in cases {
        assert_eq!(ErrorKind::InvalidMathSyntax(s).message(), format!("Invalid math syntax: {}", text));
    }
}

#[test]
fn duplicates_are_equal() {
    let k = ErrorKind::WrongNumberOfArguments { name: "f".to_string(), expected: 1, found: 0 };
    assert_eq!(k.duplicate(), k);
    let t = engine::lexer::Token::Text("hatj".to_string());
    assert_eq!(t.duplicate(), t);
}

#[test]
fn lookup_prefers_locals_then_memo_then_constants() {
    assert_eq!(lookup_order(Some(1.0), Some(2.0), Some(3.0)), Some(1.0));
    assert_eq!(lookup_order(None, Some(2.0), Some(3.0)), Some(2.0));
    assert_eq!(lookup_order(None, None, Some(3.0)), Some(3.0));
    assert_eq!(lookup_order::<f64>(None, None, None), None);
}

#[test]
fn missing_function_is_named() {
    assert_eq!(require_function(Some(7), &"f".to_string()), Ok(7));
    assert_eq!(
        require_function::<i32>(None, &"g".to_string()),
        Err(ErrorKind::UnsatisfiedFunction("g".to_string()))
    );
}

#[test]
fn candidates_in_order_with_visited_marked() {
    let p = engine::program::Program::build(&vec!["a_B = -g*hatj", "x = 2", "g = 100", "f(y) = y"]).unwrap();
    assert_eq!(candidates(&p.equations, &vec![], &"g".to_string()), vec![(0, false), (2, false)]);
    assert_eq!(candidates(&p.equations, &vec![2], &"g".to_string()), vec![(0, false), (2, true)]);
    assert_eq!(candidates(&p.equations, &vec![0, 1], &"x".to_string()), vec![(1, true)]);
    assert_eq!(candidates(&p.equations, &vec![], &"y".to_string()), vec![]);
}
