//! Precedence-climbing parser building a binary expression tree.
//!
//! A token sequence (ending in the `End` sentinel) is parsed into an
//! `Expression`: a leaf holds a numeral, an interior node an operator and
//! two subtrees.  Multiplication and division bind tighter than addition
//! and subtraction; equal binding strength associates to the left.  The
//! whole parse is specified by `spec_parse`, a mathematical restatement of
//! the grammar, and the parser is proved to return exactly its result.

use vstd::prelude::*;

use crate::numeral::NumLit;

verus! {

/// A binary operator of the tree variant.
#[derive(Clone, Copy, Debug, PartialEq, Eq, Structural)]
pub enum Operator {
    Add,
    Multiply,
    Divide,
    Subtract,
}

impl Operator {
    /// Binding strength: multiplication and division bind tighter than
    /// addition and subtraction.
    pub open spec fn prec(self) -> int {
        match self {
            Operator::Multiply => 5,
            Operator::Divide => 5,
            Operator::Add => 3,
            Operator::Subtract => 3,
        }
    }

    /// The operator's numeric precedence level.
    pub fn cmp_val(&self) -> (r: usize)
        ensures
            r == self.prec(),
    {
        match self {
            Operator::Multiply => 5,
            Operator::Divide => 5,
            Operator::Add => 3,
            Operator::Subtract => 3,
        }
    }

    /// The operator a token stands for, if any.
    pub fn of_token(token: &Token) -> (r: Option<Operator>)
        ensures
            r == token_op(token@),
    {
        match token {
            Token::Plus => Some(Operator::Add),
            Token::Star => Some(Operator::Multiply),
            Token::Dash => Some(Operator::Subtract),
            Token::Slash => Some(Operator::Divide),
            _ => None,
        }
    }
}

/// A lexical token of the tree variant.
pub enum Token {
    Plus,
    Dash,
    Star,
    Slash,
    RightParen,
    LeftParen,
    End,
    Number(NumLit),
}

/// The mathematical value of a token: as `Token`, with the numeral as its
/// character sequence.
pub enum TokenV {
    Plus,
    Dash,
    Star,
    Slash,
    RightParen,
    LeftParen,
    End,
    Number(Seq<char>),
}

impl View for Token {
    type V = TokenV;

    open spec fn view(&self) -> TokenV {
        match self {
            Token::Plus => TokenV::Plus,
            Token::Dash => TokenV::Dash,
            Token::Star => TokenV::Star,
            Token::Slash => TokenV::Slash,
            Token::RightParen => TokenV::RightParen,
            Token::LeftParen => TokenV::LeftParen,
            Token::End => TokenV::End,
            Token::Number(n) => TokenV::Number(n@),
        }
    }
}

impl DeepView for Token {
    type V = TokenV;

    open spec fn deep_view(&self) -> TokenV {
        self.view()
    }
}

/// The token values of a token sequence.
pub open spec fn views_of(ts: Seq<Token>) -> Seq<TokenV> {
    ts.map_values(|t: Token| t@)
}

/// The operator a token value stands for, if any.
pub open spec fn token_op(t: TokenV) -> Option<Operator> {
    match t {
        TokenV::Plus => Some(Operator::Add),
        TokenV::Star => Some(Operator::Multiply),
        TokenV::Dash => Some(Operator::Subtract),
        TokenV::Slash => Some(Operator::Divide),
        _ => None,
    }
}

/// A binary expression tree; a leaf is a numeral.
pub enum Expression {
    Binary(Operator, Box<Expression>, Box<Expression>),
    Number(NumLit),
}

/// The mathematical value of an expression tree.
pub enum ExprV {
    Binary(Operator, Box<ExprV>, Box<ExprV>),
    Number(Seq<char>),
}

impl View for Expression {
    type V = ExprV;

    open spec fn view(&self) -> ExprV
        decreases self,
    {
        match self {
            Expression::Number(n) => ExprV::Number(n@),
            Expression::Binary(op, l, r) => ExprV::Binary(*op, Box::new((**l)@), Box::new((**r)@)),
        }
    }
}

/// A failed parse, with a human-readable description.
pub struct SyntaxError {
    pub message: String,
    pub level: String,
}

impl SyntaxError {
    /// Wraps a message as a parse-level syntax error.
    pub fn new_parse_error(message: String) -> (r: SyntaxError)
        ensures
            r.message@ == message@,
            r.level@ == "Parse"@,
    {
        SyntaxError { message, level: String::from_str("Parse") }
    }

    /// The error as one line of text.
    pub fn describe(&self) -> (r: String)
        ensures
            r@ == self.level@ + " Error "@ + self.message@,
    {
        let mut out = String::new();
        out.append(self.level.as_str());
        out.append(" Error ");
        out.append(self.message.as_str());
        out
    }
}

/// One primary: a number, or a parenthesized sub-expression.  Returns the
/// expression and the count of tokens consumed.
pub open spec fn spec_primary(t: Seq<TokenV>, pos: int) -> Option<(ExprV, nat)>
    decreases t.len() - pos, 0int,
{
    if pos < 0 || pos >= t.len() {
        None
    } else {
        match t[pos] {
            TokenV::Number(s) => Some((ExprV::Number(s), 1nat)),
            TokenV::LeftParen => match spec_expression(t, pos + 1, 0) {
                None => None,
                Some((e, k)) => {
                    let q = pos + 1 + k;
                    if q < t.len() && t[q] is RightParen {
                        Some((e, (k + 2) as nat))
                    } else {
                        None
                    }
                },
            },
            _ => None,
        }
    }
}

/// A full sub-expression at a minimum binding strength: one primary,
/// extended by climbing over following operators.
pub open spec fn spec_expression(t: Seq<TokenV>, pos: int, min_prec: int) -> Option<(ExprV, nat)>
    decreases t.len() - pos, 2int,
{
    if pos < 0 || pos > t.len() {
        None
    } else {
        match spec_primary(t, pos) {
            None => None,
            Some((e, k)) => {
                if pos + k <= t.len() {
                    match spec_climb(t, pos + k, e, min_prec) {
                        None => None,
                        Some((e2, k2)) => Some((e2, (k + k2) as nat)),
                    }
                } else {
                    None
                }
            },
        }
    }
}

/// The climbing loop: while the next token is an operator binding at least
/// as strongly as `min_prec`, consume it, parse its right-hand side at a
/// strictly higher strength (which makes equal strengths associate to the
/// left), and extend the tree.
pub open spec fn spec_climb(t: Seq<TokenV>, pos: int, left: ExprV, min_prec: int) -> Option<
    (ExprV, nat),
>
    decreases t.len() - pos, 1int,
{
    if pos < 0 {
        None
    } else if pos >= t.len() {
        Some((left, 0nat))
    } else {
        match token_op(t[pos]) {
            None => Some((left, 0nat)),
            Some(op) => {
                if op.prec() < min_prec {
                    Some((left, 0nat))
                } else {
                    match spec_expression(t, pos + 1, op.prec() + 1) {
                        None => None,
                        Some((rhs, k)) => {
                            let e2 = ExprV::Binary(op, Box::new(left), Box::new(rhs));
                            if pos + 1 + k <= t.len() {
                                match spec_climb(t, pos + 1 + k, e2, min_prec) {
                                    None => None,
                                    Some((e3, k3)) => Some((e3, (1 + k + k3) as nat)),
                                }
                            } else {
                                None
                            }
                        },
                    }
                }
            },
        }
    }
}

/// The whole parse: a full expression from the start, followed by the
/// `End` sentinel.  `None` is a syntax error.
pub open spec fn spec_parse(t: Seq<TokenV>) -> Option<ExprV> {
    match spec_expression(t, 0, 0) {
        None => None,
        Some((e, k)) => if k < t.len() && t[k as int] is End {
            Some(e)
        } else {
            None
        },
    }
}

/// The precedence-climbing parser: a token sequence and a cursor into it.
pub struct ClimbingParser {
    pub tokens: Vec<Token>,
    pub pos: usize,
}

impl ClimbingParser {
    /// A parser at the start of the given tokens.
    pub fn new(tokens: Vec<Token>) -> (r: ClimbingParser)
        ensures
            r.tokens@ == tokens@,
            r.pos == 0,
    {
        ClimbingParser { tokens, pos: 0 }
    }

    /// Consumes the next token and checks that it is `token`; fails when
    /// the input is exhausted or another token is found.
    fn assert_next(&mut self, token: Token) -> (r: Result<(), SyntaxError>)
        ensures
            final(self).tokens@ == old(self).tokens@,
            r is Ok <==> old(self).pos < old(self).tokens@.len()
                && old(self).tokens@[old(self).pos as int]@ == token@,
            r is Ok ==> final(self).pos == old(self).pos + 1,
            r is Err ==> final(self).pos == old(self).pos,
    {
        if self.pos >= self.tokens.len() {
            return Err(
                SyntaxError::new_parse_error(String::from_str("Unexpected end of input")),
            );
        }
        let same = match (&self.tokens[self.pos], &token) {
            (Token::Plus, Token::Plus) => true,
            (Token::Dash, Token::Dash) => true,
            (Token::Star, Token::Star) => true,
            (Token::Slash, Token::Slash) => true,
            (Token::RightParen, Token::RightParen) => true,
            (Token::LeftParen, Token::LeftParen) => true,
            (Token::End, Token::End) => true,
            (Token::Number(a), Token::Number(b)) => chars_eq(a.as_chars(), b.as_chars()),
            _ => false,
        };
        if same {
            self.pos = self.pos + 1;
            Ok(())
        } else {
            Err(SyntaxError::new_parse_error(String::from_str("Unexpected token")))
        }
    }

    /// One primary, as `spec_primary` describes.
    fn primary(&mut self) -> (r: Result<Expression, SyntaxError>)
        requires
            old(self).pos <= old(self).tokens@.len(),
        ensures
            final(self).tokens@ == old(self).tokens@,
            old(self).pos <= final(self).pos <= final(self).tokens@.len(),
            match r {
                Ok(e) => spec_primary(views_of(old(self).tokens@), old(self).pos as int)
                    == Some((e@, (final(self).pos - old(self).pos) as nat)) && final(self).pos > old(self).pos,
                Err(_) => spec_primary(views_of(old(self).tokens@), old(self).pos as int) is None,
            },
        decreases self.tokens.len() - self.pos, 0int,
    {
        if self.pos >= self.tokens.len() {
            return Err(
                SyntaxError::new_parse_error(String::from_str("Unexpected end of input")),
            );
        }
        let is_num = matches!(&self.tokens[self.pos], Token::Number(_));
        if is_num {
            let lit = match &self.tokens[self.pos] {
                Token::Number(n) => n.dup(),
                _ => { return Err(SyntaxError::new_parse_error(String::from_str("Unexpected token"))); },
            };
            self.pos = self.pos + 1;
            return Ok(Expression::Number(lit));
        }
        let is_lparen = matches!(&self.tokens[self.pos], Token::LeftParen);
        if is_lparen {
            self.pos = self.pos + 1;
            let e = match self.expression(0) {
                Ok(e) => e,
                Err(err) => { return Err(err); },
            };
            match self.assert_next(Token::RightParen) {
                Ok(()) => { return Ok(e); },
                Err(err) => { return Err(err); },
            }
        }
        Err(SyntaxError::new_parse_error(String::from_str("Unexpected token")))
    }

    /// A full sub-expression, as `spec_expression` describes.
    fn expression(&mut self, min_prec: usize) -> (r: Result<Expression, SyntaxError>)
        requires
            old(self).pos <= old(self).tokens@.len(),
        ensures
            final(self).tokens@ == old(self).tokens@,
            old(self).pos <= final(self).pos <= final(self).tokens@.len(),
            match r {
                Ok(e) => spec_expression(
                    views_of(old(self).tokens@),
                    old(self).pos as int,
                    min_prec as int,
                ) == Some((e@, (final(self).pos - old(self).pos) as nat)) && final(self).pos > old(self).pos,
                Err(_) => spec_expression(
                    views_of(old(self).tokens@),
                    old(self).pos as int,
                    min_prec as int,
                ) is None,
            },
        decreases self.tokens.len() - self.pos, 2int,
    {
        let e = match self.primary() {
            Ok(e) => e,
            Err(err) => { return Err(err); },
        };
        self.climb(e, min_prec)
    }

    /// The climbing loop, as `spec_climb` describes.
    fn climb(&mut self, left: Expression, min_prec: usize) -> (r: Result<Expression, SyntaxError>)
        requires
            old(self).pos <= old(self).tokens@.len(),
        ensures
            final(self).tokens@ == old(self).tokens@,
            old(self).pos <= final(self).pos <= final(self).tokens@.len(),
            match r {
                Ok(e) => spec_climb(
                    views_of(old(self).tokens@),
                    old(self).pos as int,
                    left@,
                    min_prec as int,
                ) == Some((e@, (final(self).pos - old(self).pos) as nat)),
                Err(_) => spec_climb(
                    views_of(old(self).tokens@),
                    old(self).pos as int,
                    left@,
                    min_prec as int,
                ) is None,
            },
        decreases self.tokens.len() - self.pos, 1int,
    {
        if self.pos >= self.tokens.len() {
            return Ok(left);
        }
        let op_opt = Operator::of_token(&self.tokens[self.pos]);
        match op_opt {
            None => Ok(left),
            Some(op) => {
                let prec = op.cmp_val();
                if prec < min_prec {
                    Ok(left)
                } else {
                    self.pos = self.pos + 1;
                    let rhs = match self.expression(prec + 1) {
                        Ok(e) => e,
                        Err(err) => { return Err(err); },
                    };
                    let e2 = Expression::Binary(op, Box::new(left), Box::new(rhs));
                    self.climb(e2, min_prec)
                }
            },
        }
    }

    /// The whole parse: an expression followed by the `End` sentinel, as
    /// `spec_parse` describes.
    pub fn parse(&mut self) -> (r: Result<Expression, SyntaxError>)
        requires
            old(self).pos == 0,
        ensures
            final(self).tokens@ == old(self).tokens@,
            match r {
                Ok(e) => spec_parse(views_of(old(self).tokens@)) == Some(e@),
                Err(_) => spec_parse(views_of(old(self).tokens@)) is None,
            },
    {
        let ast = match self.expression(0) {
            Ok(e) => e,
            Err(err) => { return Err(err); },
        };
        match self.assert_next(Token::End) {
            Ok(()) => Ok(ast),
            Err(err) => Err(err),
        }
    }
}

/// Parses a token sequence into an expression tree; the sequence must end
/// in the `End` sentinel, else the parse fails.
pub fn parse_tokens(tokens: Vec<Token>) -> (r: Result<Expression, SyntaxError>)
    ensures
        match r {
            Ok(e) => spec_parse(views_of(tokens@)) == Some(e@),
            Err(_) => spec_parse(views_of(tokens@)) is None,
        },
{
    let mut parser = ClimbingParser::new(tokens);
    parser.parse()
}

/// The token value of an operator.
pub open spec fn op_tok(op: Operator) -> TokenV {
    match op {
        Operator::Add => TokenV::Plus,
        Operator::Multiply => TokenV::Star,
        Operator::Subtract => TokenV::Dash,
        Operator::Divide => TokenV::Slash,
    }
}

/// The fully parenthesized token form of an expression: every interior
/// node written as `( left op right )`.
pub open spec fn paren_tokens(e: ExprV) -> Seq<TokenV>
    decreases e,
{
    match e {
        ExprV::Number(s) => seq![TokenV::Number(s)],
        ExprV::Binary(op, l, r) => seq![TokenV::LeftParen] + paren_tokens(*l) + seq![op_tok(op)]
            + paren_tokens(*r) + seq![TokenV::RightParen],
    }
}

/// A primary parsed at the start of a fully parenthesized expression
/// yields exactly that expression and consumes exactly its tokens.
pub proof fn lemma_primary_paren(t: Seq<TokenV>, pos: int, e: ExprV)
    requires
        0 <= pos,
        pos + paren_tokens(e).len() <= t.len(),
        t.subrange(pos, pos + paren_tokens(e).len() as int) == paren_tokens(e),
    ensures
        spec_primary(t, pos) == Some((e, paren_tokens(e).len())),
    decreases e,
{
    let pt = paren_tokens(e);
    assert forall|j: int| 0 <= j < pt.len() implies t[pos + j] == pt[j] by {
        assert(t.subrange(pos, pos + pt.len() as int)[j] == t[pos + j]);
    }
    match e {
        ExprV::Number(s) => {
            assert(t[pos] == TokenV::Number(s));
        },
        ExprV::Binary(op, l, r) => {
            let ptl = paren_tokens(*l);
            let ptr = paren_tokens(*r);
            let kl = ptl.len() as int;
            let kr = ptr.len() as int;
            assert(pt.len() == 3 + kl + kr);
            assert(pt[0] == TokenV::LeftParen);
            assert(pt[1 + kl] == op_tok(op));
            assert(pt[2 + kl + kr] == TokenV::RightParen);
            assert(t.subrange(pos + 1, pos + 1 + kl) =~= ptl) by {
                assert forall|j: int| 0 <= j < kl implies t[pos + 1 + j] == ptl[j] by {
                    assert(pt[1 + j] == ptl[j]);
                }
            }
            lemma_primary_paren(t, pos + 1, *l);
            assert(t.subrange(pos + 2 + kl, pos + 2 + kl + kr) =~= ptr) by {
                assert forall|j: int| 0 <= j < kr implies t[pos + 2 + kl + j] == ptr[j] by {
                    assert(pt[2 + kl + j] == ptr[j]);
                }
            }
            lemma_primary_paren(t, pos + 2 + kl, *r);
            assert(t[pos + 1 + kl] == op_tok(op));
            assert(token_op(op_tok(op)) == Some(op));
            assert(t[pos + 2 + kl + kr] == TokenV::RightParen);
            // the right-hand side: a primary, and the climb stops at `)`
            assert(spec_climb(t, pos + 2 + kl + kr, *r, op.prec() + 1) == Some((*r, 0nat)));
            assert(spec_expression(t, pos + 2 + kl, op.prec() + 1) == Some((*r, kr as nat)));
            // the climb after the left operand takes the one operator
            let e2 = ExprV::Binary(op, Box::new(*l), Box::new(*r));
            assert(e2 == e);
            assert(spec_climb(t, pos + 2 + kl + kr, e2, 0) == Some((e2, 0nat)));
            assert(spec_climb(t, pos + 1 + kl, *l, 0) == Some((e2, (1 + kr) as nat)));
            assert(spec_expression(t, pos + 1, 0) == Some((e2, (kl + 1 + kr) as nat)));
            assert(spec_primary(t, pos) == Some((e, pt.len())));
        },
    }
}

/// Law: a fully parenthesized expression parses back to itself.  The
/// parse of such a token form is unambiguous: whatever the precedence
/// rules, the tree is the one the parentheses spell out, so evaluating
/// the parsed tree is evaluating the expression as written.
pub proof fn lemma_parse_full_paren(e: ExprV)
    ensures
        spec_parse(paren_tokens(e).push(TokenV::End)) == Some(e),
{
    let pt = paren_tokens(e);
    let t = pt.push(TokenV::End);
    assert(paren_tokens(e).len() >= 1);
    assert(t.subrange(0, pt.len() as int) =~= pt);
    lemma_primary_paren(t, 0, e);
    assert(t[pt.len() as int] == TokenV::End);
    assert(spec_climb(t, pt.len() as int, e, 0) == Some((e, 0nat)));
    assert(spec_expression(t, 0, 0) == Some((e, pt.len())));
    assert(spec_parse(t) == Some(e));
}

/// True when the two character vectors hold the same characters.
fn chars_eq(a: &Vec<char>, b: &Vec<char>) -> (r: bool)
    ensures
        r <==> a@ == b@,
{
    if a.len() != b.len() {
        return false;
    }
    let mut i: usize = 0;
    while i < a.len()
        invariant
            a@.len() == b@.len(),
            i <= a@.len(),
            forall|k: int| 0 <= k < i ==> a@[k] == b@[k],
        decreases a@.len() - i,
    {
        if a[i] != b[i] {
            return false;
        }
        i += 1;
    }
    proof {
        assert(a@ =~= b@);
    }
    true
}

} // verus!
