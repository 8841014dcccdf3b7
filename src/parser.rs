//! Recursive-descent parsing of tokens into expression trees.
//!
//! The grammar, from the lowest precedence up:
//!
//! ```text
//! expression     := addition ( '=' addition )?
//! addition       := multiplication ( ('+'|'-') multiplication )*
//! multiplication := signed ( ('*'|'/') signed | '(' addition ')' | exponentiation )*
//! signed         := '-' exponentiation | exponentiation
//! exponentiation := atom ( '^' atom )*
//! atom           := number | '(' addition ')' | identifier ( '(' addition (',' addition)* ')' )?
//! ```
//!
//! Juxtaposition multiplies: `2x`, `5hatj` and `(1+x)(1-x)` are products.
//! An expression takes the whole input: tokens left after it are an error.
use vstd::prelude::*;
use crate::error::{Error, ErrorKind, Syntax};
use crate::lexer::{dot_count, numeral, peek, tape_of, tokens_well_formed, Lexer, Operation, Tape, Token, TokenV};
use crate::text::string_of;

verus! {

#[derive(Debug, PartialEq)]
pub enum Node {
    Arithmetic { operation: Operation, left: Box<Node>, right: Box<Node> },
    /// A numeric literal as written: digits and at most one `.`.
    Number(String),
    Variable(String),
    Function { name: String, args: Vec<Box<Node>> },
    Comparison { left: Box<Node>, right: Box<Node> },
}

/// An expression tree as a mathematical value.
pub enum Expr {
    Arithmetic(Operation, Box<Expr>, Box<Expr>),
    Number(Seq<char>),
    Variable(Seq<char>),
    Function(Seq<char>, Seq<Expr>),
    Comparison(Box<Expr>, Box<Expr>),
}

pub open spec fn node_view(n: Node) -> Expr
    decreases n,
{
    match n {
        Node::Arithmetic { operation, left, right } => Expr::Arithmetic(
            operation,
            Box::new(node_view(*left)),
            Box::new(node_view(*right)),
        ),
        Node::Number(s) => Expr::Number(s@),
        Node::Variable(s) => Expr::Variable(s@),
        Node::Function { name, args } => Expr::Function(name@, args_view(args@)),
        Node::Comparison { left, right } => Expr::Comparison(
            Box::new(node_view(*left)),
            Box::new(node_view(*right)),
        ),
    }
}

pub open spec fn args_view(args: Seq<Box<Node>>) -> Seq<Expr>
    decreases args,
{
    if args.len() == 0 {
        Seq::empty()
    } else {
        args_view(args.drop_last()).push(node_view(*args.last()))
    }
}

/// Every number in `e` is a well-formed decimal literal.
pub open spec fn numerals_ok(e: Expr) -> bool
    decreases e,
{
    match e {
        Expr::Arithmetic(_, l, r) => numerals_ok(*l) && numerals_ok(*r),
        Expr::Number(x) => numeral(x),
        Expr::Variable(_) => true,
        Expr::Function(_, args) => all_numerals_ok(args),
        Expr::Comparison(l, r) => numerals_ok(*l) && numerals_ok(*r),
    }
}

pub open spec fn all_numerals_ok(args: Seq<Expr>) -> bool
    decreases args,
{
    if args.len() == 0 {
        true
    } else {
        all_numerals_ok(args.drop_last()) && numerals_ok(args.last())
    }
}

impl View for Node {
    type V = Expr;

    open spec fn view(&self) -> Expr {
        node_view(*self)
    }
}


/// What one grammar rule reads from token position `p`: the tree it built,
/// or `None` where the input offered no such phrase, and the position after
/// it; or the error that stopped it.
pub type Parsed = Result<(Option<Expr>, int), ErrorKind>;

/// `q` where it lies in `lo..=hi`, otherwise `lo`.
pub open spec fn settle(q: int, lo: int, hi: int) -> int {
    if lo <= q && q <= hi {
        q
    } else {
        lo
    }
}

pub open spec fn is_additive(t: TokenV) -> bool {
    t matches TokenV::Op(o) && (o == Operation::Add || o == Operation::Sub)
}

pub open spec fn is_multiplicative(t: TokenV) -> bool {
    t matches TokenV::Op(o) && (o == Operation::Multi || o == Operation::Div)
}

pub open spec fn operation_of(t: TokenV) -> Operation {
    match t {
        TokenV::Op(o) => o,
        _ => Operation::Add,
    }
}

pub open spec fn zero_literal() -> Seq<char> {
    seq!['0']
}

/// `expression := addition ( '=' addition )?`, after which the input must
/// end: any token left over is an error.
pub open spec fn read_expression(tp: Tape, p: int) -> Parsed
    decreases tp.tokens.len() - p, 9int,
{
    match read_addition(tp, p) {
        Err(e) => Err(e),
        Ok((None, q)) => Ok((None, q)),
        Ok((Some(l), q0)) => {
            let q = settle(q0, p, tp.tokens.len() as int);
            match peek(tp, q) {
                Err(e) => Err(e),
                Ok(None) => Ok((Some(l), q)),
                Ok(Some(t)) => if t is Equals {
                    match read_addition(tp, q + 1) {
                        Err(e) => Err(e),
                        Ok((None, r)) => Ok((None, r)),
                        Ok((Some(rt), r0)) => {
                            let r = settle(r0, q + 1, tp.tokens.len() as int);
                            match peek(tp, r) {
                                Err(e) => Err(e),
                                Ok(None) => Ok((Some(Expr::Comparison(Box::new(l), Box::new(rt))), r)),
                                Ok(Some(_)) => Err(ErrorKind::InvalidMathSyntax(Syntax::TrailingInput)),
                            }
                        },
                    }
                } else {
                    Err(ErrorKind::InvalidMathSyntax(Syntax::TrailingInput))
                },
            }
        },
    }
}

pub open spec fn read_addition(tp: Tape, p: int) -> Parsed
    decreases tp.tokens.len() - p, 7int,
{
    match read_multiplication(tp, p) {
        Err(e) => Err(e),
        Ok((None, q)) => Ok((None, q)),
        Ok((Some(l), q)) => read_sum_tail(tp, l, settle(q, p, tp.tokens.len() as int)),
    }
}

/// The `( ('+'|'-') multiplication )*` part, folded to the left onto `l`.
pub open spec fn read_sum_tail(tp: Tape, l: Expr, p: int) -> Parsed
    decreases tp.tokens.len() - p, 6int,
{
    match peek(tp, p) {
        Err(e) => Err(e),
        Ok(Some(t)) => if is_additive(t) {
            match read_multiplication(tp, p + 1) {
                Err(e) => Err(e),
                Ok((None, r)) => Ok((None, r)),
                Ok((Some(rt), r)) => read_sum_tail(
                    tp,
                    Expr::Arithmetic(operation_of(t), Box::new(l), Box::new(rt)),
                    settle(r, p + 1, tp.tokens.len() as int),
                ),
            }
        } else {
            Ok((Some(l), p))
        },
        Ok(None) => Ok((Some(l), p)),
    }
}

pub open spec fn read_multiplication(tp: Tape, p: int) -> Parsed
    decreases tp.tokens.len() - p, 5int,
{
    match read_signed(tp, p) {
        Err(e) => Err(e),
        Ok((None, q)) => Ok((None, q)),
        Ok((Some(l), q)) => read_product_tail(tp, l, settle(q, p, tp.tokens.len() as int)),
    }
}

/// One round of the product loop before juxtaposition: an explicit `*` or
/// `/` operand, or a parenthesised factor; otherwise `l` unchanged at `p`.
pub open spec fn read_product_operand(tp: Tape, l: Expr, p: int, t: TokenV) -> Parsed
    decreases tp.tokens.len() - p, 3int,
{
    let len = tp.tokens.len() as int;
    if p < 0 || p >= len {
        Ok((Some(l), p))
    } else if is_multiplicative(t) {
        match read_signed(tp, p + 1) {
            Err(e) => Err(e),
            Ok((None, q)) => Ok((None, q)),
            Ok((Some(rt), q)) => Ok((
                Some(Expr::Arithmetic(operation_of(t), Box::new(l), Box::new(rt))),
                settle(q, p + 1, len),
            )),
        }
    } else if t is OpenParen {
        match read_addition(tp, p + 1) {
            Err(e) => Err(e),
            Ok((None, q)) => Ok((None, q)),
            Ok((Some(rt), q0)) => {
                let q = settle(q0, p + 1, len);
                match peek(tp, q) {
                    Err(e) => Err(e),
                    Ok(None) => Err(ErrorKind::InvalidMathSyntax(Syntax::UnclosedProduct)),
                    Ok(Some(c)) => if c is CloseParen {
                        Ok((Some(Expr::Arithmetic(Operation::Multi, Box::new(l), Box::new(rt))), q + 1))
                    } else {
                        Err(ErrorKind::InvalidMathSyntax(Syntax::UnclosedProduct))
                    },
                }
            },
        }
    } else {
        Ok((Some(l), p))
    }
}

/// The loop of `multiplication`, folded to the left onto `l`. A round goes
/// on while it read something; juxtaposition is tried in every round.
pub open spec fn read_product_tail(tp: Tape, l: Expr, p: int) -> Parsed
    decreases tp.tokens.len() - p, 4int,
{
    let len = tp.tokens.len() as int;
    match peek(tp, p) {
        Err(e) => Err(e),
        Ok(None) => Ok((Some(l), p)),
        Ok(Some(t)) => match read_product_operand(tp, l, p, t) {
            Err(e) => Err(e),
            Ok((None, q)) => Ok((None, q)),
            Ok((Some(l1), q0)) => {
                let q1 = settle(q0, p, len);
                match read_exponentiation(tp, q1) {
                    Err(e) => Err(e),
                    Ok((None, r)) => {
                        let r1 = settle(r, q1, len);
                        if q1 > p && r1 > p {
                            read_product_tail(tp, l1, r1)
                        } else {
                            Ok((Some(l1), r1))
                        }
                    },
                    Ok((Some(rt), r)) => {
                        let r1 = settle(r, q1, len);
                        let l2 = Expr::Arithmetic(Operation::Multi, Box::new(l1), Box::new(rt));
                        if r1 > p {
                            read_product_tail(tp, l2, r1)
                        } else {
                            Ok((Some(l2), r1))
                        }
                    },
                }
            },
        },
    }
}

/// `signed := '-' exponentiation | exponentiation`; `-x` is read as `0 - x`.
pub open spec fn read_signed(tp: Tape, p: int) -> Parsed
    decreases tp.tokens.len() - p, 3int,
{
    match peek(tp, p) {
        Err(e) => Err(e),
        Ok(None) => Ok((None, p)),
        Ok(Some(t)) => if t == TokenV::Op(Operation::Sub) {
            match read_exponentiation(tp, p + 1) {
                Err(e) => Err(e),
                Ok((None, _)) => Err(ErrorKind::InvalidMathSyntax(Syntax::MissingOperand)),
                Ok((Some(o), q)) => Ok((
                    Some(Expr::Arithmetic(
                        Operation::Sub,
                        Box::new(Expr::Number(zero_literal())),
                        Box::new(o),
                    )),
                    q,
                )),
            }
        } else {
            read_exponentiation(tp, p)
        },
    }
}

pub open spec fn read_exponentiation(tp: Tape, p: int) -> Parsed
    decreases tp.tokens.len() - p, 2int,
{
    match read_atom(tp, p) {
        Err(e) => Err(e),
        Ok((None, q)) => Ok((None, q)),
        Ok((Some(l), q)) => read_power_tail(tp, l, settle(q, p, tp.tokens.len() as int)),
    }
}

/// The `( '^' atom )*` part, folded to the left onto `l`.
pub open spec fn read_power_tail(tp: Tape, l: Expr, p: int) -> Parsed
    decreases tp.tokens.len() - p, 1int,
{
    match peek(tp, p) {
        Err(e) => Err(e),
        Ok(Some(t)) => if t == TokenV::Op(Operation::Exp) {
            match read_atom(tp, p + 1) {
                Err(e) => Err(e),
                Ok((None, r)) => Ok((None, r)),
                Ok((Some(rt), r)) => read_power_tail(
                    tp,
                    Expr::Arithmetic(Operation::Exp, Box::new(l), Box::new(rt)),
                    settle(r, p + 1, tp.tokens.len() as int),
                ),
            }
        } else {
            Ok((Some(l), p))
        },
        Ok(None) => Ok((Some(l), p)),
    }
}

pub open spec fn read_atom(tp: Tape, p: int) -> Parsed
    decreases tp.tokens.len() - p, 0int,
{
    match peek(tp, p) {
        Err(e) => Err(e),
        Ok(None) => Ok((None, p)),
        Ok(Some(t)) => match t {
            TokenV::Number(x) => Ok((Some(Expr::Number(x)), p + 1)),
            TokenV::OpenParen => match read_addition(tp, p + 1) {
                Err(e) => Err(e),
                Ok((None, q)) => Ok((None, q)),
                Ok((Some(n), q0)) => {
                    let q = settle(q0, p + 1, tp.tokens.len() as int);
                    match peek(tp, q) {
                        Err(e) => Err(e),
                        Ok(None) => Ok((None, q)),
                        Ok(Some(c)) => if c is CloseParen {
                            Ok((Some(n), q + 1))
                        } else {
                            Err(ErrorKind::InvalidMathSyntax(Syntax::UnclosedGroup))
                        },
                    }
                },
            },
            TokenV::Text(name) => match peek(tp, p + 1) {
                Err(e) => Err(e),
                Ok(Some(c)) => if c is OpenParen {
                    read_arguments(tp, name, Seq::empty(), p + 2)
                } else {
                    Ok((Some(Expr::Variable(name)), p + 1))
                },
                Ok(None) => Ok((Some(Expr::Variable(name)), p + 1)),
            },
            _ => Ok((None, p)),
        },
    }
}

/// The arguments of a call to `name` after its `(`, the first ones `args`
/// being read already.
pub open spec fn read_arguments(tp: Tape, name: Seq<char>, args: Seq<Expr>, p: int) -> Parsed
    decreases tp.tokens.len() - p, 8int,
{
    match read_addition(tp, p) {
        Err(e) => Err(e),
        Ok((None, _)) => Err(ErrorKind::InvalidMathSyntax(Syntax::MissingArgument)),
        Ok((Some(a), q0)) => {
            let q = settle(q0, p, tp.tokens.len() as int);
            match peek(tp, q) {
                Err(e) => Err(e),
                Ok(None) => Err(ErrorKind::InvalidMathSyntax(Syntax::UnclosedArguments)),
                Ok(Some(c)) => if c is Comma {
                    read_arguments(tp, name, args.push(a), q + 1)
                } else if c is CloseParen {
                    Ok((Some(Expr::Function(name, args.push(a))), q + 1))
                } else {
                    Err(ErrorKind::InvalidMathSyntax(Syntax::UnclosedArguments))
                },
            }
        },
    }
}

/// The tree that a tape reads to from position `p`.
pub open spec fn parse_tape_at(tp: Tape, p: int) -> Result<Expr, ErrorKind> {
    match read_expression(tp, p) {
        Err(e) => Err(e),
        Ok((None, _)) => Err(ErrorKind::InvalidMathSyntax(Syntax::PrematureEnd)),
        Ok((Some(n), _)) => Ok(n),
    }
}

/// The tree that source text reads to.
pub open spec fn parse_source(s: Seq<char>) -> Result<Expr, ErrorKind> {
    parse_tape_at(tape_of(s), 0)
}

/// The tokens `n f ( x ) ^ m` read as `n · (f(x) ^ m)`: a call written
/// after a factor takes its power before it is multiplied, as in `2sin(x)^2`.
pub proof fn juxtaposed_call_takes_its_power(n: Seq<char>, f: Seq<char>, x: Seq<char>, m: Seq<char>)
    ensures
        parse_tape_at(
            Tape {
                tokens: seq![
                    TokenV::Number(n),
                    TokenV::Text(f),
                    TokenV::OpenParen,
                    TokenV::Text(x),
                    TokenV::CloseParen,
                    TokenV::Op(Operation::Exp),
                    TokenV::Number(m),
                ],
                failure: None,
            },
            0,
        ) == Ok::<Expr, ErrorKind>(Expr::Arithmetic(
            Operation::Multi,
            Box::new(Expr::Number(n)),
            Box::new(Expr::Arithmetic(
                Operation::Exp,
                Box::new(Expr::Function(f, seq![Expr::Variable(x)])),
                Box::new(Expr::Number(m)),
            )),
        )),
{
    let tp = Tape {
        tokens: seq![
            TokenV::Number(n),
            TokenV::Text(f),
            TokenV::OpenParen,
            TokenV::Text(x),
            TokenV::CloseParen,
            TokenV::Op(Operation::Exp),
            TokenV::Number(m),
        ],
        failure: None,
    };
    let en = Expr::Number(n);
    let ex = Expr::Variable(x);
    let call = Expr::Function(f, seq![ex]);
    let power = Expr::Arithmetic(Operation::Exp, Box::new(call), Box::new(Expr::Number(m)));
    let product = Expr::Arithmetic(Operation::Multi, Box::new(en), Box::new(power));
    assert(tp.tokens.len() == 7);
    // The leading factor.
    assert(read_atom(tp, 0) == Ok::<(Option<Expr>, int), ErrorKind>((Some(en), 1)));
    assert(read_power_tail(tp, en, 1) == Ok::<(Option<Expr>, int), ErrorKind>((Some(en), 1)));
    assert(read_exponentiation(tp, 0) == Ok::<(Option<Expr>, int), ErrorKind>((Some(en), 1)));
    assert(read_signed(tp, 0) == Ok::<(Option<Expr>, int), ErrorKind>((Some(en), 1)));
    // The argument `x`.
    assert(read_atom(tp, 3) == Ok::<(Option<Expr>, int), ErrorKind>((Some(ex), 4)));
    assert(read_power_tail(tp, ex, 4) == Ok::<(Option<Expr>, int), ErrorKind>((Some(ex), 4)));
    assert(read_exponentiation(tp, 3) == Ok::<(Option<Expr>, int), ErrorKind>((Some(ex), 4)));
    assert(read_signed(tp, 3) == Ok::<(Option<Expr>, int), ErrorKind>((Some(ex), 4)));
    assert(read_atom(tp, 4) == Ok::<(Option<Expr>, int), ErrorKind>((None, 4)));
    assert(read_exponentiation(tp, 4) == Ok::<(Option<Expr>, int), ErrorKind>((None, 4)));
    assert(read_product_operand(tp, ex, 4, TokenV::CloseParen) == Ok::<(Option<Expr>, int), ErrorKind>((Some(ex), 4)));
    assert(read_product_tail(tp, ex, 4) == Ok::<(Option<Expr>, int), ErrorKind>((Some(ex), 4)));
    assert(read_multiplication(tp, 3) == Ok::<(Option<Expr>, int), ErrorKind>((Some(ex), 4)));
    assert(read_sum_tail(tp, ex, 4) == Ok::<(Option<Expr>, int), ErrorKind>((Some(ex), 4)));
    assert(read_addition(tp, 3) == Ok::<(Option<Expr>, int), ErrorKind>((Some(ex), 4)));
    // The call and its power.
    assert(Seq::<Expr>::empty().push(ex) =~= seq![ex]);
    assert(read_arguments(tp, f, Seq::empty(), 3) == Ok::<(Option<Expr>, int), ErrorKind>((Some(call), 5)));
    assert(read_atom(tp, 1) == Ok::<(Option<Expr>, int), ErrorKind>((Some(call), 5)));
    assert(read_atom(tp, 6) == Ok::<(Option<Expr>, int), ErrorKind>((Some(Expr::Number(m)), 7)));
    assert(read_power_tail(tp, power, 7) == Ok::<(Option<Expr>, int), ErrorKind>((Some(power), 7)));
    assert(read_power_tail(tp, call, 5) == Ok::<(Option<Expr>, int), ErrorKind>((Some(power), 7)));
    assert(read_exponentiation(tp, 1) == Ok::<(Option<Expr>, int), ErrorKind>((Some(power), 7)));
    // The juxtaposed product.
    assert(read_product_operand(tp, en, 1, TokenV::Text(f)) == Ok::<(Option<Expr>, int), ErrorKind>((Some(en), 1)));
    assert(read_product_tail(tp, product, 7) == Ok::<(Option<Expr>, int), ErrorKind>((Some(product), 7)));
    assert(read_product_tail(tp, en, 1) == Ok::<(Option<Expr>, int), ErrorKind>((Some(product), 7)));
    assert(read_multiplication(tp, 0) == Ok::<(Option<Expr>, int), ErrorKind>((Some(product), 7)));
    assert(read_sum_tail(tp, product, 7) == Ok::<(Option<Expr>, int), ErrorKind>((Some(product), 7)));
    assert(read_addition(tp, 0) == Ok::<(Option<Expr>, int), ErrorKind>((Some(product), 7)));
    assert(read_expression(tp, 0) == Ok::<(Option<Expr>, int), ErrorKind>((Some(product), 7)));
}

pub type Outcome = Result<Option<Node>, Error>;

/// A rule that ran from lexer state `before` to `after` kept the tokens,
/// did not move back, and moved on where it built a tree.
pub open spec fn moved_on(before: Lexer, after: Lexer, r: Outcome) -> bool {
    &&& kept(before, after)
    &&& (r matches Ok(Some(_)) ==> before.position() < after.position())
}

/// The lexer went from `before` to `after` with the same tokens, and did not
/// move back.
pub open spec fn kept(before: Lexer, after: Lexer) -> bool {
    &&& after.wf()
    &&& 0 <= after.position() <= after.tape().tokens.len()
    &&& after.tape() == before.tape()
    &&& before.position() <= after.position()
}

/// The outcome `r` of a rule, with the lexer left at `after`, is what the
/// grammar gives.
pub open spec fn reads(r: Outcome, expected: Parsed, after: Lexer) -> bool {
    match r {
        Ok(Some(n)) => expected == Ok::<(Option<Expr>, int), ErrorKind>((Some(n@), after.position())),
        Ok(None) => expected == Ok::<(Option<Expr>, int), ErrorKind>((None, after.position())),
        Err(e) => expected == Err::<(Option<Expr>, int), ErrorKind>(e.kind),
    }
}

/// Parses one expression from the lexer's current position.
pub fn parse(lexer: Lexer) -> (r: Result<Node, Error>)
    requires
        lexer.wf(),
        tokens_well_formed(lexer.tape()),
    ensures
        r matches Ok(n) ==> numerals_ok(n@),
        match r {
            Ok(n) => parse_tape_at(lexer.tape(), lexer.position()) == Ok::<Expr, ErrorKind>(n@),
            Err(e) => parse_tape_at(lexer.tape(), lexer.position()) == Err::<Expr, ErrorKind>(e.kind),
        },
{
    let mut lexer = lexer;
    match expression(&mut lexer) {
        Err(e) => Err(e),
        Ok(None) => Err(Error::new(ErrorKind::InvalidMathSyntax(Syntax::PrematureEnd))),
        Ok(Some(n)) => Ok(n),
    }
}

/// Lexes and parses `input`.
pub fn parse_str(input: &str) -> (r: Result<Node, Error>)
    ensures
        r matches Ok(n) ==> numerals_ok(n@),
        match r {
            Ok(n) => parse_source(input@) == Ok::<Expr, ErrorKind>(n@),
            Err(e) => parse_source(input@) == Err::<Expr, ErrorKind>(e.kind),
        },
{
    parse(Lexer::new(input))
}

fn expression(lexer: &mut Lexer) -> (r: Outcome)
    requires
        old(lexer).wf(),
        tokens_well_formed(old(lexer).tape()),
    ensures
        moved_on(*old(lexer), *final(lexer), r),
        reads(r, read_expression(old(lexer).tape(), old(lexer).position()), *final(lexer)),
        r matches Ok(Some(n)) ==> numerals_ok(n@),
    decreases old(lexer).tape().tokens.len() - old(lexer).position(), 9int,
{
    proof { old(lexer).lemma_wf(); }
    let left = match addition(lexer)? {
        Some(x) => x,
        None => return Ok(None),
    };
    let equals = match lexer.lex()? {
        None => return Ok(Some(left)),
        Some(Token::Equals) => true,
        Some(_) => false,
    };
    if !equals {
        return Err(Error::new(ErrorKind::InvalidMathSyntax(Syntax::TrailingInput)));
    }
    lexer.advance();
    let right = match addition(lexer)? {
        Some(x) => x,
        None => return Ok(None),
    };
    match lexer.lex()? {
        None => Ok(Some(Node::Comparison { left: Box::new(left), right: Box::new(right) })),
        Some(_) => Err(Error::new(ErrorKind::InvalidMathSyntax(Syntax::TrailingInput))),
    }
}

fn addition(lexer: &mut Lexer) -> (r: Outcome)
    requires
        old(lexer).wf(),
        tokens_well_formed(old(lexer).tape()),
    ensures
        moved_on(*old(lexer), *final(lexer), r),
        reads(r, read_addition(old(lexer).tape(), old(lexer).position()), *final(lexer)),
        r matches Ok(Some(n)) ==> numerals_ok(n@),
    decreases old(lexer).tape().tokens.len() - old(lexer).position(), 7int,
{
    proof { old(lexer).lemma_wf(); }
    let ghost tp = lexer.tape();
    let ghost p0 = lexer.position();
    let mut left = match multiplication(lexer)? {
        Some(x) => x,
        None => return Ok(None),
    };
    loop
        invariant
            lexer.wf(),
            0 <= lexer.position() <= tp.tokens.len(),
            tp == old(lexer).tape(),
            p0 == old(lexer).position(),
            lexer.tape() == tp,
            tokens_well_formed(tp),
            numerals_ok(left@),
            p0 < lexer.position(),
            read_addition(tp, p0) == read_sum_tail(tp, left@, lexer.position()),
        decreases tp.tokens.len() - lexer.position(),
    {
        proof { lexer.lemma_wf(); }
        let op = match lexer.lex()? {
            Some(Token::Op(o)) => o,
            _ => return Ok(Some(left)),
        };
        if !(op == Operation::Add || op == Operation::Sub) {
            return Ok(Some(left));
        }
        lexer.advance();
        let right = match multiplication(lexer)? {
            Some(x) => x,
            None => return Ok(None),
        };
        left = Node::Arithmetic { operation: op, left: Box::new(left), right: Box::new(right) };
    }
}

fn multiplication(lexer: &mut Lexer) -> (r: Outcome)
    requires
        old(lexer).wf(),
        tokens_well_formed(old(lexer).tape()),
    ensures
        moved_on(*old(lexer), *final(lexer), r),
        reads(r, read_multiplication(old(lexer).tape(), old(lexer).position()), *final(lexer)),
        r matches Ok(Some(n)) ==> numerals_ok(n@),
    decreases old(lexer).tape().tokens.len() - old(lexer).position(), 5int,
{
    proof { old(lexer).lemma_wf(); }
    let ghost tp = lexer.tape();
    let ghost p0 = lexer.position();
    let mut left = match signed(lexer)? {
        Some(x) => x,
        None => return Ok(None),
    };
    loop
        invariant
            lexer.wf(),
            0 <= lexer.position() <= tp.tokens.len(),
            tp == old(lexer).tape(),
            p0 == old(lexer).position(),
            lexer.tape() == tp,
            tokens_well_formed(tp),
            numerals_ok(left@),
            p0 < lexer.position(),
            read_multiplication(tp, p0) == read_product_tail(tp, left@, lexer.position()),
        decreases tp.tokens.len() - lexer.position(),
    {
        proof { lexer.lemma_wf(); }
        let ghost p = lexer.position();
        let p_exec = lexer.cursor_index();
        let token = match lexer.lex()? {
            Some(t) => t,
            None => return Ok(Some(left)),
        };
        let ghost t = token@;
        let operand = product_operand(lexer, left, token);
        left = match operand? {
            Some(x) => x,
            None => return Ok(None),
        };
        let mut work = lexer.cursor_index() > p_exec;
        if let Some(right) = exponentiation(lexer)? {
            work = true;
            left = Node::Arithmetic {
                operation: Operation::Multi,
                left: Box::new(left),
                right: Box::new(right),
            };
        }
        if !work {
            return Ok(Some(left));
        }
    }
}

/// One round of the product loop before juxtaposition, `token` being the
/// token at the lexer's position.
fn product_operand(lexer: &mut Lexer, left: Node, token: Token) -> (r: Outcome)
    requires
        old(lexer).wf(),
        tokens_well_formed(old(lexer).tape()),
        numerals_ok(left@),
        peek(old(lexer).tape(), old(lexer).position()) == Ok::<Option<TokenV>, ErrorKind>(Some(token@)),
    ensures
        kept(*old(lexer), *final(lexer)),
        reads(r, read_product_operand(old(lexer).tape(), left@, old(lexer).position(), token@), *final(lexer)),
        r matches Ok(Some(_)) ==> (final(lexer).position() == old(lexer).position()
            <==> !(is_multiplicative(token@) || token@ is OpenParen)),
        r matches Ok(Some(n)) ==> numerals_ok(n@),
    decreases old(lexer).tape().tokens.len() - old(lexer).position(), 4int,
{
    proof { old(lexer).lemma_wf(); }
    match token {
        Token::Op(o) => {
            if o == Operation::Multi || o == Operation::Div {
                lexer.advance();
                let right = match signed(lexer)? {
                    Some(x) => x,
                    None => return Ok(None),
                };
                Ok(Some(Node::Arithmetic { operation: o, left: Box::new(left), right: Box::new(right) }))
            } else {
                Ok(Some(left))
            }
        },
        Token::OpenParen => {
            lexer.advance();
            let right = match addition(lexer)? {
                Some(x) => x,
                None => return Ok(None),
            };
            let closed = match lexer.next()? {
                Some(Token::CloseParen) => true,
                _ => false,
            };
            if closed {
                Ok(Some(Node::Arithmetic {
                    operation: Operation::Multi,
                    left: Box::new(left),
                    right: Box::new(right),
                }))
            } else {
                Err(Error::new(ErrorKind::InvalidMathSyntax(Syntax::UnclosedProduct)))
            }
        },
        _ => Ok(Some(left)),
    }
}

fn signed(lexer: &mut Lexer) -> (r: Outcome)
    requires
        old(lexer).wf(),
        tokens_well_formed(old(lexer).tape()),
    ensures
        moved_on(*old(lexer), *final(lexer), r),
        reads(r, read_signed(old(lexer).tape(), old(lexer).position()), *final(lexer)),
        r matches Ok(Some(n)) ==> numerals_ok(n@),
    decreases old(lexer).tape().tokens.len() - old(lexer).position(), 3int,
{
    proof { old(lexer).lemma_wf(); }
    let minus = match lexer.lex()? {
        Some(Token::Op(Operation::Sub)) => true,
        Some(_) => false,
        None => return Ok(None),
    };
    if minus {
        lexer.advance();
        match exponentiation(lexer)? {
            Some(o) => {
                let z = Node::Number(zero());
                proof {
                    assert(z@ == Expr::Number(zero_literal()));
                    assert(zero_literal().drop_last() =~= Seq::<char>::empty());
                    assert(dot_count(Seq::<char>::empty()) == 0);
                    assert(zero_literal().last() == '0');
                    assert(dot_count(zero_literal()) == 0);
                    assert(numeral(zero_literal()));
                    assert(numerals_ok(z@));
                }
                Ok(Some(Node::Arithmetic { operation: Operation::Sub, left: Box::new(z), right: Box::new(o) }))
            },
            None => Err(Error::new(ErrorKind::InvalidMathSyntax(Syntax::MissingOperand))),
        }
    } else {
        exponentiation(lexer)
    }
}

fn zero() -> (r: String)
    ensures
        r@ == zero_literal(),
{
    let mut v: Vec<char> = Vec::new();
    v.push('0');
    proof { assert(v@ =~= zero_literal()); }
    string_of(&v)
}

fn exponentiation(lexer: &mut Lexer) -> (r: Outcome)
    requires
        old(lexer).wf(),
        tokens_well_formed(old(lexer).tape()),
    ensures
        moved_on(*old(lexer), *final(lexer), r),
        reads(r, read_exponentiation(old(lexer).tape(), old(lexer).position()), *final(lexer)),
        r matches Ok(Some(n)) ==> numerals_ok(n@),
    decreases old(lexer).tape().tokens.len() - old(lexer).position(), 2int,
{
    proof { old(lexer).lemma_wf(); }
    let ghost tp = lexer.tape();
    let ghost p0 = lexer.position();
    let mut left = match atom(lexer)? {
        Some(x) => x,
        None => return Ok(None),
    };
    loop
        invariant
            lexer.wf(),
            0 <= lexer.position() <= tp.tokens.len(),
            tp == old(lexer).tape(),
            p0 == old(lexer).position(),
            lexer.tape() == tp,
            tokens_well_formed(tp),
            numerals_ok(left@),
            p0 < lexer.position(),
            read_exponentiation(tp, p0) == read_power_tail(tp, left@, lexer.position()),
        decreases tp.tokens.len() - lexer.position(),
    {
        proof { lexer.lemma_wf(); }
        let is_exp = match lexer.lex()? {
            Some(Token::Op(Operation::Exp)) => true,
            _ => false,
        };
        if !is_exp {
            return Ok(Some(left));
        }
        lexer.advance();
        let right = match atom(lexer)? {
            Some(x) => x,
            None => return Ok(None),
        };
        left = Node::Arithmetic { operation: Operation::Exp, left: Box::new(left), right: Box::new(right) };
    }
}

fn atom(lexer: &mut Lexer) -> (r: Outcome)
    requires
        old(lexer).wf(),
        tokens_well_formed(old(lexer).tape()),
    ensures
        moved_on(*old(lexer), *final(lexer), r),
        reads(r, read_atom(old(lexer).tape(), old(lexer).position()), *final(lexer)),
        r matches Ok(Some(n)) ==> numerals_ok(n@),
    decreases old(lexer).tape().tokens.len() - old(lexer).position(), 0int,
{
    proof { old(lexer).lemma_wf(); }
    let ghost tp = lexer.tape();
    let ghost p0 = lexer.position();
    let token = match lexer.lex()? {
        Some(t) => t,
        None => return Ok(None),
    };
    match token {
        Token::Number(x) => {
            proof { assert(tp.tokens[p0] == token@); }
            lexer.advance();
            Ok(Some(Node::Number(x)))
        },
        Token::OpenParen => {
            lexer.advance();
            let node = match addition(lexer)? {
                Some(x) => x,
                None => return Ok(None),
            };
            match lexer.next()? {
                Some(Token::CloseParen) => Ok(Some(node)),
                Some(_) => Err(Error::new(ErrorKind::InvalidMathSyntax(Syntax::UnclosedGroup))),
                None => Ok(None),
            }
        },
        Token::Text(text) => {
            lexer.advance();
            let call = match lexer.lex()? {
                Some(Token::OpenParen) => true,
                _ => false,
            };
            if !call {
                return Ok(Some(Node::Variable(text)));
            }
            lexer.advance();
            let mut args: Vec<Box<Node>> = Vec::new();
            loop
                invariant
                    lexer.wf(),
                    0 <= lexer.position() <= tp.tokens.len(),
                    tp == old(lexer).tape(),
                    p0 == old(lexer).position(),
                    lexer.tape() == tp,
                    tokens_well_formed(tp),
                    all_numerals_ok(args_view(args@)),
                    p0 + 2 <= lexer.position(),
                    read_atom(tp, p0) == read_arguments(tp, text@, args_view(args@), lexer.position()),
                decreases tp.tokens.len() - lexer.position(),
            {
                proof { lexer.lemma_wf(); }
                let param = match addition(lexer)? {
                    Some(x) => x,
                    None => {
                        return Err(Error::new(ErrorKind::InvalidMathSyntax(Syntax::MissingArgument)));
                    },
                };
                let ghost before = args@;
                let ghost pv = param@;
                args.push(Box::new(param));
                proof {
                    assert(args@.drop_last() =~= before);
                    let av = args_view(args@);
                    assert(av == args_view(before).push(pv));
                    assert(av.drop_last() =~= args_view(before));
                    assert(all_numerals_ok(av));
                }
                let more = match lexer.lex()? {
                    Some(Token::Comma) => true,
                    _ => false,
                };
                if more {
                    lexer.advance();
                } else {
                    return match lexer.next()? {
                        Some(Token::CloseParen) => Ok(Some(Node::Function { name: text, args })),
                        _ => Err(Error::new(ErrorKind::InvalidMathSyntax(Syntax::UnclosedArguments))),
                    };
                }
            }
        },
        _ => Ok(None),
    }
}

} // verus!
