//! Shunting-yard conversion of infix text to a postfix token stream.
//!
//! A single pass over the input characters accumulates digit runs into
//! numerals and keeps pending operators on a stack: an incoming operator
//! first pops every stacked operator of strictly greater priority into the
//! output, so equal priorities associate to the left — deliberately also
//! for the power operator.  A left parenthesis acts as a barrier at the
//! bottom priority; a right parenthesis pops down to it.  Popping past an
//! absent parenthesis, or leaving one on the stack at the end, is reported
//! as an error rather than faulting.  The whole pass is specified by
//! `spec_shunt`, and the converter is proved to return exactly its result.

use vstd::prelude::*;

use vstd::pervasive::unreached;

use crate::numeral::NumLit;

use crate::numeral::NumberFormatError;

use crate::numeral::is_numeral;

verus! {

/// An operator symbol of the postfix variant; parentheses are carried on
/// the operator stack and so count as operators here.
#[derive(Clone, Copy, Debug, PartialEq, Eq, Structural)]
pub enum Operator {
    RPar,
    LPar,
    Add,
    Sub,
    Mul,
    Div,
    Pow,
}

/// Popping priority: parentheses at the bottom, then addition and
/// subtraction, then multiplication and division, then power.
pub open spec fn op_prio(op: Operator) -> int {
    match op {
        Operator::RPar | Operator::LPar => 0,
        Operator::Add | Operator::Sub => 1,
        Operator::Mul | Operator::Div => 2,
        Operator::Pow => 3,
    }
}

/// The operator a character stands for, if any.
pub open spec fn char_op(c: char) -> Option<Operator> {
    if c == '(' {
        Some(Operator::LPar)
    } else if c == ')' {
        Some(Operator::RPar)
    } else if c == '+' {
        Some(Operator::Add)
    } else if c == '-' {
        Some(Operator::Sub)
    } else if c == '*' {
        Some(Operator::Mul)
    } else if c == '/' {
        Some(Operator::Div)
    } else if c == '^' {
        Some(Operator::Pow)
    } else {
        None
    }
}

impl Operator {
    /// The operator's popping priority.
    pub fn priority(self) -> (r: u8)
        ensures
            r == op_prio(self),
    {
        match self {
            Operator::RPar | Operator::LPar => 0,
            Operator::Add | Operator::Sub => 1,
            Operator::Mul | Operator::Div => 2,
            Operator::Pow => 3,
        }
    }

    /// The operator a character stands for, if any.
    pub fn of_char(c: char) -> (r: Option<Operator>)
        ensures
            r == char_op(c),
    {
        if c == '(' {
            Some(Operator::LPar)
        } else if c == ')' {
            Some(Operator::RPar)
        } else if c == '+' {
            Some(Operator::Add)
        } else if c == '-' {
            Some(Operator::Sub)
        } else if c == '*' {
            Some(Operator::Mul)
        } else if c == '/' {
            Some(Operator::Div)
        } else if c == '^' {
            Some(Operator::Pow)
        } else {
            None
        }
    }
}

/// A postfix token: an operator, or a numeral.
pub enum Token {
    Operator(Operator),
    Number(NumLit),
}

/// The mathematical value of a postfix token.
pub enum TokenV {
    Operator(Operator),
    Number(Seq<char>),
}

impl View for Token {
    type V = TokenV;

    open spec fn view(&self) -> TokenV {
        match self {
            Token::Operator(op) => TokenV::Operator(*op),
            Token::Number(n) => TokenV::Number(n@),
        }
    }
}

/// The token values of a postfix token sequence.
pub open spec fn views_of(ts: Seq<Token>) -> Seq<TokenV> {
    ts.map_values(|t: Token| t@)
}

/// The operator stack of the shunting-yard pass.
pub struct Stack(pub Vec<Operator>);

impl Stack {
    /// Pushes an operator.
    pub fn push(&mut self, el: Operator)
        ensures
            final(self).0@ == old(self).0@.push(el),
    {
        self.0.push(el);
    }

    /// The topmost operator; an empty stack reads as a left parenthesis,
    /// the bottom-priority barrier.
    pub fn top(&self) -> (r: Operator)
        ensures
            r == (if self.0@.len() == 0 {
                Operator::LPar
            } else {
                self.0@.last()
            }),
    {
        if self.0.len() == 0 {
            Operator::LPar
        } else {
            self.0[self.0.len() - 1]
        }
    }

    /// Removes and returns the topmost operator; the stack must not be
    /// empty.
    pub fn pop(&mut self) -> (r: Operator)
        requires
            old(self).0@.len() > 0,
        ensures
            final(self).0@ == old(self).0@.drop_last(),
            r == old(self).0@.last(),
    {
        let r = match self.0.pop() {
            Some(op) => op,
            None => unreached(),
        };
        proof {
            assert(self.0@ =~= old(self).0@.drop_last());
        }
        r
    }
}

/// A failed conversion: a malformed numeral, or an unmatched parenthesis.
pub enum PostfixError {
    Number(NumberFormatError),
    UnmatchedRightParen,
    UnmatchedLeftParen,
}

/// The mathematical value of a conversion failure.
pub enum PostfixErrV {
    Number(Seq<char>),
    UnmatchedRightParen,
    UnmatchedLeftParen,
}

impl View for PostfixError {
    type V = PostfixErrV;

    open spec fn view(&self) -> PostfixErrV {
        match self {
            PostfixError::Number(e) => PostfixErrV::Number(e.text@),
            PostfixError::UnmatchedRightParen => PostfixErrV::UnmatchedRightParen,
            PostfixError::UnmatchedLeftParen => PostfixErrV::UnmatchedLeftParen,
        }
    }
}

/// Closes the numeral being accumulated, if any: appended as a number
/// token when well formed, the offending text otherwise.
pub open spec fn pflush(cur: Seq<char>, out: Seq<TokenV>) -> Result<Seq<TokenV>, Seq<char>> {
    if cur.len() == 0 {
        Ok(out)
    } else if is_numeral(cur) {
        Ok(out.push(TokenV::Number(cur)))
    } else {
        Err(cur)
    }
}

/// Pops every stacked operator of priority strictly greater than `p`;
/// returns the remaining stack and the popped operators, topmost first.
pub open spec fn pop_higher(stack: Seq<Operator>, p: int) -> (Seq<Operator>, Seq<TokenV>)
    decreases stack.len(),
{
    if stack.len() == 0 {
        (stack, Seq::empty())
    } else if p < op_prio(stack.last()) {
        let (s2, out2) = pop_higher(stack.drop_last(), p);
        (s2, seq![TokenV::Operator(stack.last())] + out2)
    } else {
        (stack, Seq::empty())
    }
}

/// Pops down to the nearest left parenthesis, which is discarded; `None`
/// when there is none — an unmatched right parenthesis.
pub open spec fn pop_to_lpar(stack: Seq<Operator>) -> Option<(Seq<Operator>, Seq<TokenV>)>
    decreases stack.len(),
{
    if stack.len() == 0 {
        None
    } else if stack.last() is LPar {
        Some((stack.drop_last(), Seq::empty()))
    } else {
        match pop_to_lpar(stack.drop_last()) {
            None => None,
            Some((s2, out2)) => Some((s2, seq![TokenV::Operator(stack.last())] + out2)),
        }
    }
}

/// Pops the whole stack at the end of the input, topmost first; `None`
/// when a left parenthesis remains — an unmatched left parenthesis.
pub open spec fn drain_ops(stack: Seq<Operator>) -> Option<Seq<TokenV>>
    decreases stack.len(),
{
    if stack.len() == 0 {
        Some(Seq::empty())
    } else if stack.last() is LPar {
        None
    } else {
        match drain_ops(stack.drop_last()) {
            None => None,
            Some(out) => Some(seq![TokenV::Operator(stack.last())] + out),
        }
    }
}

/// The shunting-yard pass, one character at a time.
pub open spec fn spec_shunt(
    s: Seq<char>,
    stack: Seq<Operator>,
    out: Seq<TokenV>,
    cur: Seq<char>,
) -> Result<Seq<TokenV>, PostfixErrV>
    decreases s.len(),
{
    if s.len() == 0 {
        match pflush(cur, out) {
            Err(e) => Err(PostfixErrV::Number(e)),
            Ok(out2) => match drain_ops(stack) {
                None => Err(PostfixErrV::UnmatchedLeftParen),
                Some(popped) => Ok(out2 + popped),
            },
        }
    } else {
        let c = s[0];
        match char_op(c) {
            None => spec_shunt(s.skip(1), stack, out, cur.push(c)),
            Some(op) => match pflush(cur, out) {
                Err(e) => Err(PostfixErrV::Number(e)),
                Ok(out2) => match op {
                    Operator::LPar => spec_shunt(
                        s.skip(1),
                        stack.push(Operator::LPar),
                        out2,
                        Seq::empty(),
                    ),
                    Operator::RPar => match pop_to_lpar(stack) {
                        None => Err(PostfixErrV::UnmatchedRightParen),
                        Some((s2, popped)) => spec_shunt(s.skip(1), s2, out2 + popped, Seq::empty()),
                    },
                    _ => {
                        let (s2, popped) = pop_higher(stack, op_prio(op));
                        spec_shunt(s.skip(1), s2.push(op), out2 + popped, Seq::empty())
                    },
                },
            },
        }
    }
}

/// What converting a whole input yields.
pub open spec fn spec_to_postfix(s: Seq<char>) -> Result<Seq<TokenV>, PostfixErrV> {
    spec_shunt(s, Seq::empty(), Seq::empty(), Seq::empty())
}

/// Converts infix text to a postfix token stream, as `spec_to_postfix`
/// describes.  Every character that is not an operator or parenthesis is
/// taken as part of a numeral; an accumulated run that is not a
/// well-formed numeral, and an unmatched parenthesis on either side, are
/// errors.
pub fn parse_to_postfix(input: &Vec<char>) -> (r: Result<Vec<Token>, PostfixError>)
    ensures
        match r {
            Ok(ts) => spec_to_postfix(input@) == Ok::<Seq<TokenV>, PostfixErrV>(views_of(ts@)),
            Err(e) => spec_to_postfix(input@) == Err::<Seq<TokenV>, PostfixErrV>(e@),
        },
{
    let mut stack = Stack(Vec::new());
    let mut postfix: Vec<Token> = Vec::new();
    let mut cur: Vec<char> = Vec::new();
    let mut i: usize = 0;
    proof {
        assert(input@.skip(0) =~= input@);
        assert(views_of(postfix@) =~= Seq::<TokenV>::empty());
        assert(cur@ =~= Seq::<char>::empty());
        assert(stack.0@ =~= Seq::<Operator>::empty());
    }
    while i < input.len()
        invariant
            i <= input@.len(),
            spec_to_postfix(input@) == spec_shunt(
                input@.skip(i as int),
                stack.0@,
                views_of(postfix@),
                cur@,
            ),
        decreases input@.len() - i,
    {
        let ghost srest = input@.skip(i as int);
        let ghost pre_cur = cur@;
        let ghost pre_out = views_of(postfix@);
        let ghost pre_stack = stack.0@;
        proof {
            assert(srest[0] == input@[i as int]);
            assert(srest.skip(1) =~= input@.skip(i as int + 1));
        }
        let c = input[i];
        match Operator::of_char(c) {
            None => {
                cur.push(c);
            },
            Some(op) => {
                if cur.len() > 0 {
                    let lit = match NumLit::from_chars(cur) {
                        Ok(lit) => lit,
                        Err(e) => {
                            proof {
                                assert(!is_numeral(pre_cur));
                            }
                            return Err(PostfixError::Number(e));
                        },
                    };
                    postfix.push(Token::Number(lit));
                    cur = Vec::new();
                    proof {
                        assert(is_numeral(pre_cur));
                        assert(views_of(postfix@) =~= pre_out.push(TokenV::Number(pre_cur)));
                    }
                }
                let ghost out2 = views_of(postfix@);
                proof {
                    assert(pflush(pre_cur, pre_out) == Ok::<Seq<TokenV>, Seq<char>>(out2));
                    assert(cur@ =~= Seq::<char>::empty());
                }
                match op {
                    Operator::LPar => {
                        stack.push(op);
                    },
                    Operator::RPar => {
                        let ghost st0 = stack.0@;
                        let ghost mut done: Seq<TokenV> = Seq::empty();
                        let mut found = false;
                        proof {
                            assert(views_of(postfix@) =~= out2 + done);
                        }
                        while !found
                            invariant
                                spec_to_postfix(input@) == spec_shunt(srest, st0, pre_out, pre_cur),
                                srest.len() > 0,
                                char_op(srest[0]) == Some(Operator::RPar),
                                pflush(pre_cur, pre_out) == Ok::<Seq<TokenV>, Seq<char>>(out2),
                                views_of(postfix@) == out2 + done,
                                cur@ == Seq::<char>::empty(),
                                found ==> pop_to_lpar(st0) == Some((stack.0@, done)),
                                !found ==> match pop_to_lpar(stack.0@) {
                                    None => pop_to_lpar(st0) is None,
                                    Some((s2, p)) => pop_to_lpar(st0) == Some((s2, done + p)),
                                },
                            decreases stack.0@.len(),
                        {
                            if stack.0.len() == 0 {
                                return Err(PostfixError::UnmatchedRightParen);
                            }
                            let is_lpar = matches!(stack.top(), Operator::LPar);
                            let op2 = stack.pop();
                            if is_lpar {
                                found = true;
                            } else {
                                let ghost pf0 = postfix@;
                                postfix.push(Token::Operator(op2));
                                proof {
                                    let done0 = done;
                                    done = done.push(TokenV::Operator(op2));
                                    assert(views_of(pf0) == out2 + done0);
                                    assert(views_of(postfix@) =~= views_of(pf0).push(
                                        TokenV::Operator(op2),
                                    ));
                                    assert(views_of(postfix@) =~= out2 + done);
                                    if pop_to_lpar(stack.0@) is Some {
                                        let (s2, pp) = pop_to_lpar(stack.0@)->Some_0;
                                        assert(done0 + (seq![TokenV::Operator(op2)] + pp) =~= done
                                            + pp);
                                    }
                                }
                            }
                        }
                    },
                    _ => {
                        let ghost st0 = stack.0@;
                        let ghost mut done: Seq<TokenV> = Seq::empty();
                        let p = op.priority();
                        let mut stop = false;
                        proof {
                            assert(views_of(postfix@) =~= out2 + done);
                        }
                        while !stop
                            invariant
                                views_of(postfix@) == out2 + done,
                                cur@ == Seq::<char>::empty(),
                                op_prio(op) == p,
                                !(op is LPar) && !(op is RPar),
                                stop ==> pop_higher(st0, p as int) == (stack.0@, done),
                                !stop ==> pop_higher(st0, p as int).0 == pop_higher(
                                    stack.0@,
                                    p as int,
                                ).0,
                                !stop ==> pop_higher(st0, p as int).1 == done + pop_higher(
                                    stack.0@,
                                    p as int,
                                ).1,
                            decreases stack.0@.len() + (if stop { 0int } else { 1int }),
                        {
                            let t = stack.top();
                            let tp = t.priority();
                            if p < tp {
                                let op2 = stack.pop();
                                let ghost pf0 = postfix@;
                                postfix.push(Token::Operator(op2));
                                proof {
                                    let done0 = done;
                                    done = done.push(TokenV::Operator(op2));
                                    assert(views_of(pf0) == out2 + done0);
                                    assert(views_of(postfix@) =~= views_of(pf0).push(
                                        TokenV::Operator(op2),
                                    ));
                                    assert(views_of(postfix@) =~= out2 + done);
                                    assert(done0 + (seq![TokenV::Operator(op2)] + pop_higher(
                                        stack.0@,
                                        p as int,
                                    ).1) =~= done + pop_higher(stack.0@, p as int).1);
                                }
                            } else {
                                stop = true;
                                proof {
                                    assert(done + Seq::<TokenV>::empty() =~= done);
                                }
                            }
                        }
                        stack.push(op);
                    },
                }
            },
        }
        i += 1;
    }
    proof {
        assert(input@.skip(i as int) =~= Seq::<char>::empty());
    }
    let ghost pre_cur = cur@;
    let ghost pre_out = views_of(postfix@);
    if cur.len() > 0 {
        let lit = match NumLit::from_chars(cur) {
            Ok(lit) => lit,
            Err(e) => {
                proof {
                    assert(!is_numeral(pre_cur));
                }
                return Err(PostfixError::Number(e));
            },
        };
        postfix.push(Token::Number(lit));
        proof {
            assert(is_numeral(pre_cur));
            assert(views_of(postfix@) =~= pre_out.push(TokenV::Number(pre_cur)));
        }
    }
    let ghost out2 = views_of(postfix@);
    let ghost st0 = stack.0@;
    let ghost mut done: Seq<TokenV> = Seq::empty();
    proof {
        assert(pflush(pre_cur, pre_out) == Ok::<Seq<TokenV>, Seq<char>>(out2));
        assert(views_of(postfix@) =~= out2 + done);
    }
    while stack.0.len() > 0
        invariant
            spec_to_postfix(input@) == spec_shunt(Seq::<char>::empty(), st0, pre_out, pre_cur),
            pflush(pre_cur, pre_out) == Ok::<Seq<TokenV>, Seq<char>>(out2),
            views_of(postfix@) == out2 + done,
            match drain_ops(stack.0@) {
                None => drain_ops(st0) is None,
                Some(p) => drain_ops(st0) == Some(done + p),
            },
        decreases stack.0@.len(),
    {
        let t = stack.top();
        if matches!(t, Operator::LPar) {
            return Err(PostfixError::UnmatchedLeftParen);
        }
        let op2 = stack.pop();
        let ghost pf0 = postfix@;
        postfix.push(Token::Operator(op2));
        proof {
            let done0 = done;
            done = done.push(TokenV::Operator(op2));
            assert(views_of(pf0) == out2 + done0);
            assert(views_of(postfix@) =~= views_of(pf0).push(TokenV::Operator(op2)));
            assert(views_of(postfix@) =~= out2 + done);
            if drain_ops(stack.0@) is Some {
                assert(done0 + (seq![TokenV::Operator(op2)] + drain_ops(stack.0@)->Some_0) =~= done
                    + drain_ops(stack.0@)->Some_0);
            }
        }
    }
    proof {
        assert(drain_ops(stack.0@) == Some(Seq::<TokenV>::empty()));
        assert(done + Seq::<TokenV>::empty() =~= done);
        assert(views_of(postfix@) =~= out2 + done);
    }
    Ok(postfix)
}

/// Simulates evaluating a postfix stream against an operand stack:
/// `Some(d)` is the stack depth after the stream, starting from depth
/// `depth`; `None` means an operand would be missing, or a parenthesis
/// token reached the evaluator.
pub open spec fn stack_depth(ts: Seq<TokenV>, depth: int) -> Option<int>
    decreases ts.len(),
{
    if ts.len() == 0 {
        Some(depth)
    } else {
        match ts[0] {
            TokenV::Number(_) => stack_depth(ts.skip(1), depth + 1),
            TokenV::Operator(op) => {
                if op is LPar || op is RPar {
                    None
                } else if depth >= 2 {
                    stack_depth(ts.skip(1), depth - 1)
                } else {
                    None
                }
            },
        }
    }
}

/// A well-formed postfix stream: evaluated against an empty operand
/// stack, every operator finds its two operands and exactly one value
/// remains at the end.
pub open spec fn wf_postfix(ts: Seq<TokenV>) -> bool {
    stack_depth(ts, 0) == Some(1int)
}

/// Decides `wf_postfix`: whether draining the stream against an operand
/// stack is free of underflow and leaves exactly one value.
pub fn postfix_well_formed(tokens: &Vec<Token>) -> (r: bool)
    ensures
        r == wf_postfix(views_of(tokens@)),
{
    let ghost tv = views_of(tokens@);
    let mut depth: usize = 0;
    let mut i: usize = 0;
    proof {
        assert(tv.skip(0) =~= tv);
    }
    while i < tokens.len()
        invariant
            i <= tokens@.len(),
            tv == views_of(tokens@),
            depth <= i,
            stack_depth(tv, 0) == stack_depth(tv.skip(i as int), depth as int),
        decreases tokens@.len() - i,
    {
        proof {
            assert(tv.skip(i as int)[0] == tv[i as int]);
            assert(tv.skip(i as int).skip(1) =~= tv.skip(i as int + 1));
        }
        match &tokens[i] {
            Token::Number(_) => {
                depth = depth + 1;
            },
            Token::Operator(op) => {
                let stops = matches!(op, Operator::LPar | Operator::RPar);
                if stops {
                    return false;
                }
                if depth < 2 {
                    return false;
                }
                depth = depth - 1;
            },
        }
        i += 1;
    }
    proof {
        assert(tv.skip(i as int) =~= Seq::<TokenV>::empty());
    }
    depth == 1
}

} // verus!
