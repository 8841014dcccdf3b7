//! Splits equation source text into tokens.
use vstd::prelude::*;
use crate::error::{Error, ErrorKind, Syntax};
use crate::text::{chars_of, string_of};

verus! {

/// A binary arithmetic operator.
#[derive(Clone, Copy, Debug, PartialEq, Eq, Structural)]
pub enum Operation {
    Add,
    Sub,
    Multi,
    Div,
    Exp,
}

#[derive(Clone, Debug, PartialEq)]
pub enum Token {
    Op(Operation),
    OpenParen,
    CloseParen,
    Comma,
    Equals,
    /// A numeric literal, kept as written: digits and at most one `.`.
    Number(String),
    /// An identifier: a letter, then letters, digits and underscores.
    Text(String),
}

/// A token as a mathematical value.
pub enum TokenV {
    Op(Operation),
    OpenParen,
    CloseParen,
    Comma,
    Equals,
    Number(Seq<char>),
    Text(Seq<char>),
}

impl Token {
    /// A copy of this token.
    pub fn duplicate(&self) -> (r: Token)
        ensures
            r@ == self@,
    {
        match self {
            Token::Op(o) => Token::Op(*o),
            Token::OpenParen => Token::OpenParen,
            Token::CloseParen => Token::CloseParen,
            Token::Comma => Token::Comma,
            Token::Equals => Token::Equals,
            Token::Number(s) => Token::Number(s.clone()),
            Token::Text(s) => Token::Text(s.clone()),
        }
    }
}

impl View for Token {
    type V = TokenV;

    open spec fn view(&self) -> TokenV {
        match self {
            Token::Op(o) => TokenV::Op(*o),
            Token::OpenParen => TokenV::OpenParen,
            Token::CloseParen => TokenV::CloseParen,
            Token::Comma => TokenV::Comma,
            Token::Equals => TokenV::Equals,
            Token::Number(s) => TokenV::Number(s@),
            Token::Text(s) => TokenV::Text(s@),
        }
    }
}

pub open spec fn is_digit_spec(c: char) -> bool {
    '0' <= c && c <= '9'
}

pub open spec fn is_letter_spec(c: char) -> bool {
    ('a' <= c && c <= 'z') || ('A' <= c && c <= 'Z')
}

/// Whether `c` may continue a numeral (`ident == false`) or an identifier.
pub open spec fn continues(c: char, ident: bool) -> bool {
    if ident {
        is_letter_spec(c) || is_digit_spec(c) || c == '_'
    } else {
        is_digit_spec(c) || c == '.'
    }
}

/// Whitespace: space, tab, line feed, carriage return and form feed.
pub open spec fn is_space_spec(c: char) -> bool {
    c == ' ' || c == '\t' || c == '\n' || c == '\r' || c == '\x0C'
}

pub fn is_space(c: char) -> (r: bool)
    ensures
        r == is_space_spec(c),
{
    c == ' ' || c == '\t' || c == '\n' || c == '\r' || c == '\x0C'
}

/// The first position at or after `i` that does not hold whitespace.
pub open spec fn skip_spaces(s: Seq<char>, i: int) -> int
    decreases s.len() - i,
{
    if 0 <= i < s.len() && is_space_spec(s[i]) {
        skip_spaces(s, i + 1)
    } else {
        i
    }
}

/// The end of the longest run starting at `i` of characters that continue a
/// numeral or an identifier.
pub open spec fn run_end(s: Seq<char>, i: int, ident: bool) -> int
    decreases s.len() - i,
{
    if 0 <= i < s.len() && continues(s[i], ident) {
        run_end(s, i + 1, ident)
    } else {
        i
    }
}

/// The number of decimal points in `t`.
pub open spec fn dot_count(t: Seq<char>) -> nat
    decreases t.len(),
{
    if t.len() == 0 {
        0
    } else {
        dot_count(t.drop_last()) + if t.last() == '.' { 1nat } else { 0nat }
    }
}

/// The token that a single operator character stands for.
pub open spec fn symbol(c: char) -> Option<TokenV> {
    if c == '+' { Some(TokenV::Op(Operation::Add)) }
    else if c == '-' { Some(TokenV::Op(Operation::Sub)) }
    else if c == '*' { Some(TokenV::Op(Operation::Multi)) }
    else if c == '/' { Some(TokenV::Op(Operation::Div)) }
    else if c == '^' { Some(TokenV::Op(Operation::Exp)) }
    else if c == '(' { Some(TokenV::OpenParen) }
    else if c == ')' { Some(TokenV::CloseParen) }
    else if c == ',' { Some(TokenV::Comma) }
    else if c == '=' { Some(TokenV::Equals) }
    else { None }
}

/// The next token of `s` at or after position `i`, with the position just
/// after it; `None` at the end of the input.
pub open spec fn scan_token(s: Seq<char>, i: int) -> Result<Option<(TokenV, int)>, ErrorKind> {
    let k = skip_spaces(s, i);
    if k < 0 || k >= s.len() {
        Ok(None)
    } else if is_digit_spec(s[k]) {
        let j = run_end(s, k + 1, false);
        let t = s.subrange(k, j);
        if dot_count(t) <= 1 {
            Ok(Some((TokenV::Number(t), j)))
        } else {
            Err(ErrorKind::InvalidMathSyntax(Syntax::MalformedNumber))
        }
    } else if is_letter_spec(s[k]) {
        let j = run_end(s, k + 1, true);
        Ok(Some((TokenV::Text(s.subrange(k, j)), j)))
    } else {
        match symbol(s[k]) {
            Some(t) => Ok(Some((t, k + 1))),
            None => Err(ErrorKind::InvalidToken(s[k])),
        }
    }
}

pub proof fn lemma_skip_spaces(s: Seq<char>, i: int)
    requires
        0 <= i,
    ensures
        i <= skip_spaces(s, i),
        i <= s.len() ==> skip_spaces(s, i) <= s.len(),
        forall|m: int| i <= m < skip_spaces(s, i) ==> is_space_spec(#[trigger] s[m]),
        i <= s.len() && skip_spaces(s, i) < s.len() ==> !is_space_spec(s[skip_spaces(s, i)]),
    decreases s.len() - i,
{
    if 0 <= i < s.len() && is_space_spec(s[i]) {
        lemma_skip_spaces(s, i + 1);
    }
}

pub proof fn lemma_run_end(s: Seq<char>, i: int, ident: bool)
    requires
        0 <= i,
    ensures
        i <= run_end(s, i, ident),
        i <= s.len() ==> run_end(s, i, ident) <= s.len(),
        forall|m: int| i <= m < run_end(s, i, ident) ==> continues(#[trigger] s[m], ident),
        i <= s.len() && run_end(s, i, ident) < s.len() ==> !continues(s[run_end(s, i, ident)], ident),
    decreases s.len() - i,
{
    if 0 <= i < s.len() && continues(s[i], ident) {
        lemma_run_end(s, i + 1, ident);
    }
}

pub proof fn lemma_scan_token_advances(s: Seq<char>, i: int)
    requires
        0 <= i <= s.len(),
    ensures
        scan_token(s, i) matches Ok(Some((_, j))) ==> i < j <= s.len(),
{
    let k = skip_spaces(s, i);
    lemma_skip_spaces(s, i);
    if 0 <= k < s.len() {
        lemma_run_end(s, k + 1, false);
        lemma_run_end(s, k + 1, true);
    }
}

/// The tokens of `s` from position `i` on, up to the first lexical error,
/// and that error if there is one.
pub open spec fn scan(s: Seq<char>, i: int) -> (Seq<TokenV>, Option<ErrorKind>)
    decreases s.len() - i,
    via scan_decreases
{
    if i < 0 || i > s.len() {
        (Seq::empty(), None)
    } else {
        match scan_token(s, i) {
            Err(e) => (Seq::empty(), Some(e)),
            Ok(None) => (Seq::empty(), None),
            Ok(Some((t, j))) => {
                let rest = scan(s, j);
                (seq![t] + rest.0, rest.1)
            },
        }
    }
}

#[via_fn]
proof fn scan_decreases(s: Seq<char>, i: int) {
    if 0 <= i <= s.len() {
        lemma_scan_token_advances(s, i);
    }
}

pub fn is_digit(c: char) -> (r: bool)
    ensures
        r == is_digit_spec(c),
{
    c >= '0' && c <= '9'
}

pub fn is_character(c: char) -> (r: bool)
    ensures
        r == is_letter_spec(c),
{
    (c >= 'a' && c <= 'z') || (c >= 'A' && c <= 'Z')
}

fn continues_word(c: char, ident: bool) -> (r: bool)
    ensures
        r == continues(c, ident),
{
    if ident {
        is_character(c) || is_digit(c) || c == '_'
    } else {
        is_digit(c) || c == '.'
    }
}

fn symbol_token(c: char) -> (r: Option<Token>)
    ensures
        match r {
            Some(t) => symbol(c) == Some(t@),
            None => symbol(c) is None,
        },
{
    match c {
        '+' => Some(Token::Op(Operation::Add)),
        '-' => Some(Token::Op(Operation::Sub)),
        '*' => Some(Token::Op(Operation::Multi)),
        '/' => Some(Token::Op(Operation::Div)),
        '^' => Some(Token::Op(Operation::Exp)),
        '(' => Some(Token::OpenParen),
        ')' => Some(Token::CloseParen),
        ',' => Some(Token::Comma),
        '=' => Some(Token::Equals),
        _ => None,
    }
}

/// Reads the next token of `chars` at or after `start`: the token and the
/// position just after it, or `None` at the end of the input.
fn exec(chars: &Vec<char>, start: usize) -> (r: Result<Option<(Token, usize)>, ErrorKind>)
    requires
        start <= chars.len(),
    ensures
        match r {
            Ok(Some((t, j))) => scan_token(chars@, start as int) == Ok::<Option<(TokenV, int)>, ErrorKind>(Some((t@, j as int))),
            Ok(None) => scan_token(chars@, start as int) == Ok::<Option<(TokenV, int)>, ErrorKind>(None),
            Err(e) => scan_token(chars@, start as int) == Err::<Option<(TokenV, int)>, ErrorKind>(e),
        },
{
    let ghost s = chars@;
    let mut k = start;
    while k < chars.len() && is_space(chars[k])
        invariant
            s == chars@,
            start <= k <= chars.len(),
            skip_spaces(s, start as int) == skip_spaces(s, k as int),
        decreases chars.len() - k,
    {
        assert(skip_spaces(s, k as int) == skip_spaces(s, k + 1));
        k += 1;
    }
    if k >= chars.len() {
        return Ok(None);
    }
    let c = chars[k];
    if is_digit(c) || is_character(c) {
        let ident = is_character(c);
        let mut j = k + 1;
        let mut dots: usize = 0;
        let mut word: Vec<char> = Vec::new();
        word.push(c);
        proof {
            assert(word@ =~= s.subrange(k as int, j as int));
            assert(word@.drop_last() =~= Seq::<char>::empty());
            assert(dot_count(word@.drop_last()) == 0);
            assert(word@.last() == c && c != '.');
            assert(dot_count(word@) == 0);
        }
        while j < chars.len() && continues_word(chars[j], ident)
            invariant
                s == chars@,
                k < j <= chars.len(),
                run_end(s, k + 1, ident) == run_end(s, j as int, ident),
                word@ == s.subrange(k as int, j as int),
                dots == dot_count(word@),
                dots <= j - k,
            decreases chars.len() - j,
        {
            let d = chars[j];
            assert(run_end(s, j as int, ident) == run_end(s, j + 1, ident));
            word.push(d);
            if d == '.' {
                dots += 1;
            }
            j += 1;
            proof {
                assert(word@ =~= s.subrange(k as int, j as int));
                assert(word@.drop_last() =~= s.subrange(k as int, j - 1));
            }
        }
        let text = string_of(&word);
        if ident {
            return Ok(Some((Token::Text(text), j)));
        }
        if dots > 1 {
            return Err(ErrorKind::InvalidMathSyntax(Syntax::MalformedNumber));
        }
        return Ok(Some((Token::Number(text), j)));
    }
    match symbol_token(c) {
        Some(t) => Ok(Some((t, k + 1))),
        None => Err(ErrorKind::InvalidToken(c)),
    }
}

/// Hands out the tokens of one source string in order, and the lexical error
/// that ends them, if any, once every token before it has been taken.
pub struct Lexer {
    tokens: Vec<Token>,
    failure: Option<ErrorKind>,
    cursor: usize,
}

/// The tokens of a lexer as values, and the error that follows them.
pub struct Tape {
    pub tokens: Seq<TokenV>,
    pub failure: Option<ErrorKind>,
}

/// The tape that the source text `s` lexes to.
pub open spec fn tape_of(s: Seq<char>) -> Tape {
    Tape { tokens: scan(s, 0).0, failure: scan(s, 0).1 }
}

/// What a lexer shows at token position `p`: the token, the lexical error
/// once the tokens are spent, or `None` at the end of the input.
pub open spec fn peek(tp: Tape, p: int) -> Result<Option<TokenV>, ErrorKind> {
    if 0 <= p < tp.tokens.len() {
        Ok(Some(tp.tokens[p]))
    } else {
        match tp.failure {
            Some(e) => Err(e),
            None => Ok(None),
        }
    }
}

impl Lexer {
    pub closed spec fn tape(&self) -> Tape {
        Tape { tokens: self.tokens@.map_values(|t: Token| t@), failure: self.failure }
    }

    /// The position of the next token to hand out.
    pub closed spec fn position(&self) -> int {
        self.cursor as int
    }

    pub closed spec fn wf(&self) -> bool {
        self.cursor <= self.tokens.len()
    }

    pub proof fn lemma_wf(&self)
        requires
            self.wf(),
        ensures
            0 <= self.position() <= self.tape().tokens.len(),
    {
    }

    /// The position of the next token to hand out.
    pub fn cursor_index(&self) -> (r: usize)
        ensures
            r == self.position(),
    {
        self.cursor
    }

    /// Lexes `input` whole; errors are handed out when they are reached.
    pub fn new(input: &str) -> (r: Lexer)
        ensures
            r.wf(),
            r.tape() == tape_of(input@),
            r.position() == 0,
            tokens_well_formed(r.tape()),
    {
        let chars = chars_of(input);
        let ghost s = chars@;
        let mut tokens: Vec<Token> = Vec::new();
        let mut failure: Option<ErrorKind> = None;
        let mut i: usize = 0;
        loop
            invariant_except_break
                failure is None,
                scan(s, 0).0 == tokens@.map_values(|t: Token| t@) + scan(s, i as int).0,
                scan(s, 0).1 == scan(s, i as int).1,
            invariant
                i <= chars.len(),
                s == chars@,
            ensures
                scan(s, 0).0 == tokens@.map_values(|t: Token| t@),
                scan(s, 0).1 == failure,
            decreases chars.len() - i,
        {
            proof {
                lemma_scan_token_advances(s, i as int);
            }
            match exec(&chars, i) {
                Ok(Some((t, j))) => {
                    proof {
                        let rest = scan(s, j as int);
                        assert(scan(s, i as int).0 == seq![t@] + rest.0);
                        assert(tokens@.push(t).map_values(|t: Token| t@)
                            =~= tokens@.map_values(|t: Token| t@).push(t@));
                    }
                    tokens.push(t);
                    i = j;
                },
                Ok(None) => {
                    proof {
                        assert(tokens@.map_values(|t: Token| t@) + Seq::<TokenV>::empty()
                            =~= tokens@.map_values(|t: Token| t@));
                    }
                    break;
                },
                Err(e) => {
                    proof {
                        assert(tokens@.map_values(|t: Token| t@) + Seq::<TokenV>::empty()
                            =~= tokens@.map_values(|t: Token| t@));
                    }
                    failure = Some(e);
                    break;
                },
            }
        }
        proof {
            lemma_scan_well_formed(s, 0);
        }
        Lexer { tokens, failure, cursor: 0 }
    }

    /// The next token without taking it.
    pub fn lex(&mut self) -> (r: Result<Option<Token>, Error>)
        requires
            old(self).wf(),
        ensures
            *final(self) == *old(self),
            match r {
                Ok(Some(t)) => peek(old(self).tape(), old(self).position()) == Ok::<Option<TokenV>, ErrorKind>(Some(t@)),
                Ok(None) => peek(old(self).tape(), old(self).position()) == Ok::<Option<TokenV>, ErrorKind>(None),
                Err(e) => peek(old(self).tape(), old(self).position()) == Err::<Option<TokenV>, ErrorKind>(e.kind),
            },
    {
        if self.cursor < self.tokens.len() {
            Ok(Some(self.tokens[self.cursor].duplicate()))
        } else {
            match &self.failure {
                Some(e) => Err(Error::new(e.duplicate())),
                None => Ok(None),
            }
        }
    }

    /// Moves past the token that `lex` showed.
    pub fn advance(&mut self)
        requires
            old(self).wf(),
        ensures
            final(self).wf(),
            0 <= final(self).position() <= final(self).tape().tokens.len(),
            final(self).tape() == old(self).tape(),
            final(self).position() == if old(self).position() < old(self).tape().tokens.len() {
                old(self).position() + 1
            } else {
                old(self).position()
            },
    {
        if self.cursor < self.tokens.len() {
            self.cursor = self.cursor + 1;
        }
    }

    /// Takes the next token.
    pub fn next(&mut self) -> (r: Result<Option<Token>, Error>)
        requires
            old(self).wf(),
        ensures
            final(self).wf(),
            0 <= final(self).position() <= final(self).tape().tokens.len(),
            final(self).tape() == old(self).tape(),
            match r {
                Ok(Some(t)) => peek(old(self).tape(), old(self).position()) == Ok::<Option<TokenV>, ErrorKind>(Some(t@))
                    && final(self).position() == old(self).position() + 1,
                Ok(None) => peek(old(self).tape(), old(self).position()) == Ok::<Option<TokenV>, ErrorKind>(None)
                    && final(self).position() == old(self).position(),
                Err(e) => peek(old(self).tape(), old(self).position()) == Err::<Option<TokenV>, ErrorKind>(e.kind)
                    && final(self).position() == old(self).position(),
            },
    {
        let token = self.lex();
        if token.is_ok() {
            self.advance();
        }
        token
    }
}

/// A decimal literal: a digit, then digits and points, with at most one point.
pub open spec fn numeral(x: Seq<char>) -> bool {
    &&& x.len() > 0
    &&& is_digit_spec(x[0])
    &&& forall|m: int| 1 <= m < x.len() ==> continues(#[trigger] x[m], false)
    &&& dot_count(x) <= 1
}

/// Every token of the tape is one that the lexer can hand out.
pub open spec fn tokens_well_formed(tp: Tape) -> bool {
    forall|m: int| 0 <= m < tp.tokens.len() ==> well_formed(#[trigger] tp.tokens[m])
}

/// How a token is written.
pub open spec fn token_text(t: TokenV) -> Seq<char> {
    match t {
        TokenV::Op(Operation::Add) => seq!['+'],
        TokenV::Op(Operation::Sub) => seq!['-'],
        TokenV::Op(Operation::Multi) => seq!['*'],
        TokenV::Op(Operation::Div) => seq!['/'],
        TokenV::Op(Operation::Exp) => seq!['^'],
        TokenV::OpenParen => seq!['('],
        TokenV::CloseParen => seq![')'],
        TokenV::Comma => seq![','],
        TokenV::Equals => seq!['='],
        TokenV::Number(x) => x,
        TokenV::Text(x) => x,
    }
}

/// Tokens written out in order, each followed by one space.
pub open spec fn spaced(ts: Seq<TokenV>) -> Seq<char>
    decreases ts.len(),
{
    if ts.len() == 0 {
        Seq::empty()
    } else {
        token_text(ts[0]) + seq![' '] + spaced(ts.drop_first())
    }
}

/// A token that the lexer can hand out: a numeral is a digit followed by
/// digits and points, with at most one point; an identifier is a letter
/// followed by letters, digits and underscores.
pub open spec fn well_formed(t: TokenV) -> bool {
    match t {
        TokenV::Number(x) => numeral(x),
        TokenV::Text(x) => x.len() > 0 && is_letter_spec(x[0])
            && (forall|m: int| 1 <= m < x.len() ==> continues(#[trigger] x[m], true)),
        _ => true,
    }
}

proof fn lemma_run_end_at(s: Seq<char>, i: int, e: int, ident: bool)
    requires
        0 <= i <= e <= s.len(),
        forall|m: int| i <= m < e ==> continues(#[trigger] s[m], ident),
        e == s.len() || !continues(s[e], ident),
    ensures
        run_end(s, i, ident) == e,
    decreases e - i,
{
    if i < e {
        lemma_run_end_at(s, i + 1, e, ident);
    }
}

proof fn lemma_skip_shift(p: Seq<char>, r: Seq<char>, i: int)
    requires
        0 <= i,
    ensures
        skip_spaces(p + r, p.len() + i) == p.len() + skip_spaces(r, i),
    decreases r.len() - i,
{
    if i < r.len() && is_space_spec(r[i]) {
        assert((p + r)[p.len() + i] == r[i]);
        lemma_skip_shift(p, r, i + 1);
    } else if i < r.len() {
        assert((p + r)[p.len() + i] == r[i]);
    }
}

proof fn lemma_run_shift(p: Seq<char>, r: Seq<char>, i: int, ident: bool)
    requires
        0 <= i,
    ensures
        run_end(p + r, p.len() + i, ident) == p.len() + run_end(r, i, ident),
    decreases r.len() - i,
{
    if i < r.len() {
        assert((p + r)[p.len() + i] == r[i]);
        if continues(r[i], ident) {
            lemma_run_shift(p, r, i + 1, ident);
        }
    }
}

proof fn lemma_scan_token_shift(p: Seq<char>, r: Seq<char>, i: int)
    requires
        0 <= i <= r.len(),
    ensures
        scan_token(p + r, p.len() + i) == match scan_token(r, i) {
            Ok(Some((t, j))) => Ok(Some((t, p.len() + j))),
            other => other,
        },
{
    let u = p + r;
    let k = skip_spaces(r, i);
    lemma_skip_shift(p, r, i);
    lemma_skip_spaces(r, i);
    if 0 <= k < r.len() {
        assert(u[p.len() + k] == r[k]);
        lemma_run_shift(p, r, k + 1, false);
        lemma_run_shift(p, r, k + 1, true);
        lemma_run_end(r, k + 1, false);
        lemma_run_end(r, k + 1, true);
        let j0 = run_end(r, k + 1, false);
        let j1 = run_end(r, k + 1, true);
        assert(u.subrange(p.len() + k, p.len() + j0) =~= r.subrange(k, j0));
        assert(u.subrange(p.len() + k, p.len() + j1) =~= r.subrange(k, j1));
    }
}

proof fn lemma_scan_shift(p: Seq<char>, r: Seq<char>, i: int)
    requires
        0 <= i <= r.len(),
    ensures
        scan(p + r, p.len() + i) == scan(r, i),
    decreases r.len() - i,
{
    lemma_scan_token_shift(p, r, i);
    lemma_scan_token_advances(r, i);
    if let Ok(Some((_, j))) = scan_token(r, i) {
        lemma_scan_shift(p, r, j);
    }
}

proof fn lemma_scan_token_well_formed(s: Seq<char>, i: int)
    requires
        0 <= i <= s.len(),
    ensures
        scan_token(s, i) matches Ok(Some((t, _))) ==> well_formed(t),
{
    let k = skip_spaces(s, i);
    lemma_skip_spaces(s, i);
    if 0 <= k < s.len() {
        lemma_run_end(s, k + 1, false);
        lemma_run_end(s, k + 1, true);
        let j0 = run_end(s, k + 1, false);
        let j1 = run_end(s, k + 1, true);
        let x0 = s.subrange(k, j0);
        let x1 = s.subrange(k, j1);
        assert forall|m: int| 1 <= m < x0.len() implies continues(#[trigger] x0[m], false) by {
            assert(x0[m] == s[k + m]);
        }
        assert forall|m: int| 1 <= m < x1.len() implies continues(#[trigger] x1[m], true) by {
            assert(x1[m] == s[k + m]);
        }
    }
}

proof fn lemma_scan_well_formed(s: Seq<char>, i: int)
    requires
        0 <= i <= s.len(),
    ensures
        forall|m: int| 0 <= m < scan(s, i).0.len() ==> well_formed(#[trigger] scan(s, i).0[m]),
    decreases s.len() - i,
{
    lemma_scan_token_well_formed(s, i);
    lemma_scan_token_advances(s, i);
    if let Ok(Some((t, j))) = scan_token(s, i) {
        lemma_scan_well_formed(s, j);
        let rest = scan(s, j).0;
        assert forall|m: int| 0 <= m < scan(s, i).0.len() implies well_formed(#[trigger] scan(s, i).0[m]) by {
            if m > 0 {
                assert(scan(s, i).0[m] == rest[m - 1]);
            }
        }
    }
}

proof fn lemma_scan_written(t: TokenV, r: Seq<char>)
    requires
        well_formed(t),
    ensures
        scan_token(token_text(t) + seq![' '] + r, 0) == Ok::<Option<(TokenV, int)>, ErrorKind>(
            Some((t, token_text(t).len() as int)),
        ),
{
    let a = token_text(t);
    let u = a + seq![' '] + r;
    assert(a.len() > 0);
    assert(u[0] == a[0]);
    assert(u[a.len() as int] == ' ');
    assert(skip_spaces(u, 0) == 0);
    assert forall|m: int| 0 <= m < a.len() implies #[trigger] u[m] == a[m] by {}
    if t is Number {
        lemma_run_end_at(u, 1, a.len() as int, false);
        assert(u.subrange(0, a.len() as int) =~= a);
    } else if t is Text {
        lemma_run_end_at(u, 1, a.len() as int, true);
        assert(u.subrange(0, a.len() as int) =~= a);
    }
}

proof fn lemma_spaced_scans(ts: Seq<TokenV>)
    requires
        forall|m: int| 0 <= m < ts.len() ==> well_formed(#[trigger] ts[m]),
    ensures
        scan(spaced(ts), 0) == (ts, None::<ErrorKind>),
    decreases ts.len(),
{
    if ts.len() == 0 {
        assert(ts =~= Seq::<TokenV>::empty());
        assert(scan_token(spaced(ts), 0) == Ok::<Option<(TokenV, int)>, ErrorKind>(None));
    } else {
        let t = ts[0];
        let a = token_text(t);
        let rest = ts.drop_first();
        let r = spaced(rest);
        let p = a + seq![' '];
        let u = spaced(ts);
        assert(u == p + r);
        assert forall|m: int| 0 <= m < rest.len() implies well_formed(#[trigger] rest[m]) by {
            assert(rest[m] == ts[m + 1]);
        }
        lemma_spaced_scans(rest);
        lemma_scan_written(t, r);
        assert(u[a.len() as int] == ' ');
        assert(skip_spaces(u, a.len() as int) == skip_spaces(u, a.len() as int + 1));
        assert(scan_token(u, a.len() as int) == scan_token(u, a.len() as int + 1));
        lemma_scan_shift(p, r, 0);
        assert(scan(u, a.len() as int) == scan(u, a.len() as int + 1));
        assert(scan(u, p.len() as int) == scan(r, 0));
        assert(seq![t] + rest =~= ts);
    }
}

/// Lexing is stable under respacing: where a source lexes without error,
/// writing its tokens out with one space after each and lexing that again
/// gives the same tokens.
pub proof fn lex_round_trip(s: Seq<char>)
    requires
        scan(s, 0).1 is None,
    ensures
        scan(spaced(scan(s, 0).0), 0) == scan(s, 0),
{
    lemma_scan_well_formed(s, 0);
    lemma_spaced_scans(scan(s, 0).0);
}

proof fn lemma_skip_at(s: Seq<char>, j: int, k: int)
    requires
        0 <= j <= k <= s.len(),
        forall|m: int| j <= m < k ==> is_space_spec(#[trigger] s[m]),
        k == s.len() || !is_space_spec(s[k]),
    ensures
        skip_spaces(s, j) == k,
    decreases k - j,
{
    if j < k {
        lemma_skip_at(s, j + 1, k);
    }
}

/// Two starting points that skip to the same place scan alike.
proof fn lemma_scan_same_skip(s: Seq<char>, a: int, b: int)
    requires
        0 <= a <= s.len(),
        0 <= b <= s.len(),
        skip_spaces(s, a) == skip_spaces(s, b),
    ensures
        scan(s, a) == scan(s, b),
{
    assert(scan_token(s, a) == scan_token(s, b));
}

/// Scanning `s` and `s` without its whitespace character at `i` agree from
/// every position up to `i`, where no token ends at `i` in `s` unless `i` is
/// the last position.
proof fn lemma_remove_space(s: Seq<char>, i: int, j: int)
    requires
        0 <= i < s.len(),
        is_space_spec(s[i]),
        i == 0 || i == s.len() - 1 || is_space_spec(s[i - 1]),
        0 <= j <= i,
    ensures
        scan(s.remove(i), j) == scan(s, j),
    decreases i - j,
{
    let t = s.remove(i);
    assert(t.len() == s.len() - 1);
    assert forall|m: int| 0 <= m < i implies #[trigger] t[m] == s[m] by {}
    let k = skip_spaces(s, j);
    lemma_skip_spaces(s, j);
    let r = s.subrange(i + 1, s.len() as int);
    assert(s =~= s.subrange(0, i + 1) + r);
    assert(t =~= s.subrange(0, i) + r);
    if k >= i {
        lemma_skip_spaces(s, i + 1);
        assert(skip_spaces(s, j) == skip_spaces(s, i + 1)) by {
            lemma_skip_at(s, i + 1, skip_spaces(s, i + 1));
            lemma_skip_at(s, j, skip_spaces(s, i + 1));
        }
        lemma_scan_same_skip(s, j, i + 1);
        lemma_skip_spaces(t, i);
        assert(skip_spaces(t, j) == skip_spaces(t, i)) by {
            lemma_skip_at(t, i, skip_spaces(t, i));
            lemma_skip_at(t, j, skip_spaces(t, i));
        }
        lemma_scan_same_skip(t, j, i);
        lemma_scan_shift(s.subrange(0, i + 1), r, 0);
        lemma_scan_shift(s.subrange(0, i), r, 0);
    } else {
        lemma_skip_at(t, j, k);
        assert(s[k] == t[k]);
        lemma_run_end(s, k + 1, false);
        lemma_run_end(s, k + 1, true);
        let e0 = run_end(s, k + 1, false);
        let e1 = run_end(s, k + 1, true);
        assert(!continues(s[i], false) && !continues(s[i], true));
        if i > 0 && is_space_spec(s[i - 1]) {
            assert(!continues(s[i - 1], false) && !continues(s[i - 1], true));
        }
        if e0 < i {
            lemma_run_end_at(t, k + 1, e0, false);
        } else {
            lemma_run_end_at(t, k + 1, t.len() as int, false);
        }
        if e1 < i {
            lemma_run_end_at(t, k + 1, e1, true);
        } else {
            lemma_run_end_at(t, k + 1, t.len() as int, true);
        }
        assert(t.subrange(k, e0) =~= s.subrange(k, e0));
        assert(t.subrange(k, e1) =~= s.subrange(k, e1));
        assert(scan_token(t, j) == scan_token(s, j));
        lemma_scan_token_advances(s, j);
        if let Ok(Some((_, jn))) = scan_token(s, j) {
            lemma_remove_space(s, i, jn);
        }
    }
}

/// Lexing ignores extra whitespace: dropping a whitespace character that
/// opens or closes the source, or that follows other whitespace, leaves the
/// tokens and the error unchanged. Trimming a source and collapsing each run
/// of whitespace to one character is a sequence of such steps.
pub proof fn lex_ignores_extra_whitespace(s: Seq<char>, i: int)
    requires
        0 <= i < s.len(),
        is_space_spec(s[i]),
        i == 0 || i == s.len() - 1 || is_space_spec(s[i - 1]),
    ensures
        scan(s.remove(i), 0) == scan(s, 0),
{
    lemma_remove_space(s, i, 0);
}

} // verus!
