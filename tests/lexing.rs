use engine::error::{ErrorKind, Syntax};
use engine::lexer::{Lexer, Operation, Token};

fn all_tokens(src: &str) -> Result<Vec<Token>, ErrorKind> {
    let mut lex = Lexer::new(src);
    let mut out = Vec::new();
    loop {
        match lex.next() {
            Ok(Some(t)) => out.push(t),
            Ok(None) => return Ok(out),
            Err(e) => return Err(e.kind),
        }
    }
}

fn text(s: &str) -> Token {
    Token::Text(s.to_string())
}

fn num(s: &str) -> Token {
    Token::Number(s.to_string())
}

fn render(tokens: &[Token]) -> String {
    let mut out = String::new();
    for t in tokens {
        let piece = match t {
            Token::Op(Operation::Add) => "+".to_string(),
            Token::Op(Operation::Sub) => "-".to_string(),
            Token::Op(Operation::Multi) => "*".to_string(),
            Token::Op(Operation::Div) => "/".to_string(),
            Token::Op(Operation::Exp) => "^".to_string(),
            Token::OpenParen => "(".to_string(),
            Token::CloseParen => ")".to_string(),
            Token::Comma => ",".to_string(),
            Token::Equals => "=".to_string(),
            Token::Number(s) => s.clone(),
            Token::Text(s) => s.clone(),
        };
        out.push_str(&piece);
        out.push(' ');
    }
    out
}

#[test]
fn math_test_lex() {
    let mut lex = Lexer::new("1+1+2f(x)^(3+3)");

    loop {
        if let Some(x) = lex.next().unwrap() {
            println!("Token: {:?}", x)
        } else {
            break;
        }
    }
}

#[test]
fn parse_test_lex() {
    let mut lex = Lexer::new("1+1+2f(x)^(3+3)");

    loop {
        if let Some(x) = lex.next().unwrap() {
            println!("Token: {:?}", x)
        } else {
            break;
        }
    }
}

#[test]
fn lex_gives_every_token_in_order() {
    let tokens = all_tokens("1+1+2f(x)^(3+3)").unwrap();
    assert_eq!(
        tokens,
        vec![
            num("1"),
            Token::Op(Operation::Add),
            num("1"),
            Token::Op(Operation::Add),
            num("2"),
            text("f"),
            Token::OpenParen,
            text("x"),
            Token::CloseParen,
            Token::Op(Operation::Exp),
            Token::OpenParen,
            num("3"),
            Token::Op(Operation::Add),
            num("3"),
            Token::CloseParen,
        ]
    );
}

#[test]
fn lex_reads_identifiers_with_underscores() {
    let tokens = all_tokens("I_cm_Pendulum = v_x_B, 2.5").unwrap();
    assert_eq!(
        tokens,
        vec![text("I_cm_Pendulum"), Token::Equals, text("v_x_B"), Token::Comma, num("2.5")]
    );
}

#[test]
fn lex_keeps_digits_inside_identifiers() {
    assert_eq!(all_tokens("x1").unwrap(), vec![text("x1")]);
    assert_eq!(all_tokens("x_B2").unwrap(), vec![text("x_B2")]);
    assert_eq!(all_tokens("2x").unwrap(), vec![num("2"), text("x")]);
}

#[test]
fn lex_ignores_every_kind_of_whitespace() {
    let plain = all_tokens("a b = 1").unwrap();
    assert_eq!(all_tokens("a\tb\n=\r\n1").unwrap(), plain);
    assert_eq!(all_tokens("  a   b=  1 \t").unwrap(), plain);
    assert_eq!(all_tokens("\x0Ca b = 1").unwrap(), plain);
}

#[test]
fn lex_same_tokens_after_collapsing_spaces() {
    let src = "  s_P  =  (200   sin(theta_P))hati \t+ 1 ";
    let collapsed = src.split_whitespace().collect::<Vec<_>>().join(" ");
    assert_eq!(all_tokens(src).unwrap(), all_tokens(&collapsed).unwrap());
}

#[test]
fn lex_accepts_trailing_point() {
    assert_eq!(all_tokens("5.").unwrap(), vec![num("5.")]);
}

#[test]
fn lex_rejects_two_points() {
    assert_eq!(all_tokens("1.2.3"), Err(ErrorKind::InvalidMathSyntax(Syntax::MalformedNumber)));
}

#[test]
fn lex_rejects_unknown_character() {
    assert_eq!(all_tokens("x $ y"), Err(ErrorKind::InvalidToken('$')));
}

#[test]
fn lex_error_comes_after_earlier_tokens() {
    let mut lex = Lexer::new("a $");
    assert_eq!(lex.next().unwrap(), Some(text("a")));
    assert_eq!(lex.next().unwrap_err().kind, ErrorKind::InvalidToken('$'));
}

#[test]
fn lex_peek_does_not_take() {
    let mut lex = Lexer::new("a b");
    assert_eq!(lex.lex().unwrap(), Some(text("a")));
    assert_eq!(lex.lex().unwrap(), Some(text("a")));
    lex.advance();
    assert_eq!(lex.lex().unwrap(), Some(text("b")));
    lex.advance();
    assert_eq!(lex.lex().unwrap(), None);
}

#[test]
fn lex_empty_and_blank_input() {
    assert_eq!(all_tokens("").unwrap(), vec![]);
    assert_eq!(all_tokens("    ").unwrap(), vec![]);
}

#[test]
fn lex_round_trip_after_spacing() {
    for src in ["1+1+2f(x)^(3+3)", "a_B=-g*hatj", "x*(1+x^2)^(-1/2)=0.5", "s_P = (200 sin(theta_P))hati"] {
        let tokens = all_tokens(src).unwrap();
        let again = all_tokens(&render(&tokens)).unwrap();
        assert_eq!(tokens, again);
    }
}
