//! The calculator's input symbols and their tokenizer.
//!
//! A `Chars` value is one key of the calculator: a digit, the decimal
//! point, an operator, a parenthesis, or one of the editing keys (clear,
//! delete, equals).  `chars_to_tokens` turns a symbol buffer into the tree
//! variant's tokens, accumulating digit runs into numerals;
//! `tokens_to_chars` serializes tokens back into symbols, and the round
//! trip is proved to reproduce the token sequence.

use vstd::prelude::*;

use vstd::pervasive::unreached;

use crate::numeral::NumLit;

use crate::numeral::NumberFormatError;

use crate::numeral::is_digit_char;

use crate::numeral::is_numeral;

use crate::tree::Expression;

use crate::tree::SyntaxError;

use crate::tree::Token;

use crate::tree::TokenV;

use crate::tree::spec_parse;

use crate::tree::views_of;

use crate::tree::ClimbingParser;

verus! {

/// One key of the calculator.
#[derive(Clone, Copy, Debug, PartialEq, Eq, Structural)]
pub enum Chars {
    Zero,
    One,
    Two,
    Three,
    Four,
    Five,
    Six,
    Seven,
    Eight,
    Nine,
    RParen,
    Div,
    C,
    Del,
    Mul,
    Sub,
    Add,
    LParen,
    Dot,
    Eq,
}

/// The character a displayable symbol prints as.
pub open spec fn char_of(c: Chars) -> char {
    match c {
        Chars::Zero => '0',
        Chars::One => '1',
        Chars::Two => '2',
        Chars::Three => '3',
        Chars::Four => '4',
        Chars::Five => '5',
        Chars::Six => '6',
        Chars::Seven => '7',
        Chars::Eight => '8',
        Chars::Nine => '9',
        Chars::RParen => ')',
        Chars::Div => '÷',
        Chars::Mul => '×',
        Chars::Sub => '-',
        Chars::Add => '+',
        Chars::LParen => '(',
        Chars::Dot => '.',
        _ => ' ',
    }
}

/// True for the ten digit symbols.
pub open spec fn is_digit_sym(c: Chars) -> bool {
    match c {
        Chars::Zero | Chars::One | Chars::Two | Chars::Three | Chars::Four | Chars::Five
        | Chars::Six | Chars::Seven | Chars::Eight | Chars::Nine => true,
        _ => false,
    }
}

/// True for the operator and parenthesis symbols.
pub open spec fn is_op_sym(c: Chars) -> bool {
    match c {
        Chars::Add | Chars::Sub | Chars::Mul | Chars::Div | Chars::LParen | Chars::RParen => true,
        _ => false,
    }
}

/// True for every symbol that can stand in an equation: everything but
/// the editing keys.
pub open spec fn displayable(c: Chars) -> bool {
    is_digit_sym(c) || c == Chars::Dot || is_op_sym(c)
}

impl Chars {
    /// The character this symbol prints as.  The editing keys print
    /// nothing and are left out.
    pub fn as_char(&self) -> (r: char)
        requires
            displayable(*self),
        ensures
            r == char_of(*self),
    {
        match self {
            Chars::Zero => '0',
            Chars::One => '1',
            Chars::Two => '2',
            Chars::Three => '3',
            Chars::Four => '4',
            Chars::Five => '5',
            Chars::Six => '6',
            Chars::Seven => '7',
            Chars::Eight => '8',
            Chars::Nine => '9',
            Chars::RParen => ')',
            Chars::Div => '÷',
            Chars::Mul => '×',
            Chars::Sub => '-',
            Chars::Add => '+',
            Chars::LParen => '(',
            Chars::Dot => '.',
            _ => unreached(),
        }
    }
}

/// Relies on String::from_iter: the returned string holds exactly the
/// given characters.
#[verifier::external_body]
fn string_from_chars(v: Vec<char>) -> (r: String)
    ensures
        r@ == v@,
{
    String::from_iter(v)
}

/// Prints an equation buffer as text, one character per key; the
/// editing keys print nothing and cannot stand in an equation.
pub fn eqn_to_str(eqn: Vec<Chars>) -> (r: String)
    requires
        forall|i: int| 0 <= i < eqn@.len() ==> displayable(#[trigger] eqn@[i]),
    ensures
        r@ == eqn@.map_values(|c: Chars| char_of(c)),
{
    let mut out: Vec<char> = Vec::new();
    let mut i: usize = 0;
    proof {
        assert(out@ =~= eqn@.subrange(0, 0).map_values(|c: Chars| char_of(c)));
    }
    while i < eqn.len()
        invariant
            i <= eqn@.len(),
            forall|k: int| 0 <= k < eqn@.len() ==> displayable(#[trigger] eqn@[k]),
            out@ == eqn@.subrange(0, i as int).map_values(|c: Chars| char_of(c)),
        decreases eqn@.len() - i,
    {
        let ch = eqn[i].as_char();
        out.push(ch);
        proof {
            assert(out@ =~= eqn@.subrange(0, i as int + 1).map_values(|c: Chars| char_of(c)));
        }
        i += 1;
    }
    proof {
        assert(eqn@.subrange(0, eqn@.len() as int) =~= eqn@);
        assert(out@ =~= eqn@.map_values(|c: Chars| char_of(c)));
    }
    string_from_chars(out)
}

/// The symbol a numeral character prints from.
pub open spec fn sym_of(c: char) -> Chars {
    if c == '0' {
        Chars::Zero
    } else if c == '1' {
        Chars::One
    } else if c == '2' {
        Chars::Two
    } else if c == '3' {
        Chars::Three
    } else if c == '4' {
        Chars::Four
    } else if c == '5' {
        Chars::Five
    } else if c == '6' {
        Chars::Six
    } else if c == '7' {
        Chars::Seven
    } else if c == '8' {
        Chars::Eight
    } else if c == '9' {
        Chars::Nine
    } else {
        Chars::Dot
    }
}

/// The token an operator or parenthesis symbol stands for.
pub open spec fn op_token(c: Chars) -> TokenV {
    match c {
        Chars::Add => TokenV::Plus,
        Chars::Sub => TokenV::Dash,
        Chars::Mul => TokenV::Star,
        Chars::Div => TokenV::Slash,
        Chars::LParen => TokenV::LeftParen,
        Chars::RParen => TokenV::RightParen,
        _ => TokenV::End,
    }
}

/// Closes the numeral being accumulated, if any: appended as a number
/// token when well formed, the offending text otherwise.
pub open spec fn flush_num(cur: Seq<char>, acc: Seq<TokenV>) -> Result<Seq<TokenV>, Seq<char>> {
    if cur.len() == 0 {
        Ok(acc)
    } else if is_numeral(cur) {
        Ok(acc.push(TokenV::Number(cur)))
    } else {
        Err(cur)
    }
}

/// The tokenizer, one symbol at a time: digits and the decimal point
/// accumulate into the pending numeral; an operator or parenthesis closes
/// the pending numeral and is emitted itself.
pub open spec fn spec_chars_to_tokens(
    s: Seq<Chars>,
    cur: Seq<char>,
    acc: Seq<TokenV>,
) -> Result<Seq<TokenV>, Seq<char>>
    decreases s.len(),
{
    if s.len() == 0 {
        flush_num(cur, acc)
    } else {
        let c = s[0];
        if is_digit_sym(c) || c == Chars::Dot {
            spec_chars_to_tokens(s.skip(1), cur.push(char_of(c)), acc)
        } else if is_op_sym(c) {
            match flush_num(cur, acc) {
                Ok(acc2) => spec_chars_to_tokens(s.skip(1), Seq::empty(), acc2.push(op_token(c))),
                Err(e) => Err(e),
            }
        } else {
            Err(cur)
        }
    }
}

/// What tokenizing a whole symbol buffer yields.
pub open spec fn spec_tokenize(s: Seq<Chars>) -> Result<Seq<TokenV>, Seq<char>> {
    spec_chars_to_tokens(s, Seq::empty(), Seq::empty())
}

/// Turns a symbol buffer into tokens, as `spec_tokenize` describes; fails
/// when an accumulated digit run is not a well-formed numeral.  The
/// editing keys cannot stand in an equation.
pub fn chars_to_tokens(chars: Vec<Chars>) -> (r: Result<Vec<Token>, NumberFormatError>)
    requires
        forall|i: int| 0 <= i < chars@.len() ==> displayable(#[trigger] chars@[i]),
    ensures
        match r {
            Ok(ts) => spec_tokenize(chars@) == Ok::<Seq<TokenV>, Seq<char>>(views_of(ts@)),
            Err(e) => spec_tokenize(chars@) == Err::<Seq<TokenV>, Seq<char>>(e.text@),
        },
{
    let mut tokens: Vec<Token> = Vec::new();
    let mut cur: Vec<char> = Vec::new();
    let mut i: usize = 0;
    proof {
        assert(chars@.skip(0) =~= chars@);
        assert(views_of(tokens@) =~= Seq::<TokenV>::empty());
        assert(cur@ =~= Seq::<char>::empty());
    }
    while i < chars.len()
        invariant
            i <= chars@.len(),
            forall|k: int| 0 <= k < chars@.len() ==> displayable(#[trigger] chars@[k]),
            spec_tokenize(chars@) == spec_chars_to_tokens(
                chars@.skip(i as int),
                cur@,
                views_of(tokens@),
            ),
        decreases chars@.len() - i,
    {
        let ghost srest = chars@.skip(i as int);
        let ghost pre_cur = cur@;
        let ghost pre_toks = views_of(tokens@);
        proof {
            assert(srest[0] == chars@[i as int]);
            assert(srest.skip(1) =~= chars@.skip(i as int + 1));
        }
        let c = chars[i];
        let is_num_sym = matches!(
            c,
            Chars::Zero | Chars::One | Chars::Two | Chars::Three | Chars::Four | Chars::Five
            | Chars::Six | Chars::Seven | Chars::Eight | Chars::Nine | Chars::Dot
        );
        if is_num_sym {
            let ch = c.as_char();
            cur.push(ch);
            proof {
                assert(spec_chars_to_tokens(srest, pre_cur, pre_toks) == spec_chars_to_tokens(
                    chars@.skip(i as int + 1),
                    cur@,
                    views_of(tokens@),
                ));
            }
        } else {
            if cur.len() > 0 {
                let lit = match NumLit::from_chars(cur) {
                    Ok(lit) => lit,
                    Err(e) => {
                        proof {
                            assert(!is_numeral(pre_cur));
                            assert(spec_chars_to_tokens(srest, pre_cur, pre_toks)
                                == Err::<Seq<TokenV>, Seq<char>>(pre_cur));
                        }
                        return Err(e);
                    },
                };
                tokens.push(Token::Number(lit));
                cur = Vec::new();
                proof {
                    assert(is_numeral(pre_cur));
                    assert(views_of(tokens@) =~= pre_toks.push(TokenV::Number(pre_cur)));
                }
            }
            let ghost mid_toks = views_of(tokens@);
            let t = match c {
                Chars::Add => Token::Plus,
                Chars::Sub => Token::Dash,
                Chars::Mul => Token::Star,
                Chars::Div => Token::Slash,
                Chars::LParen => Token::LeftParen,
                Chars::RParen => Token::RightParen,
                _ => unreached(),
            };
            tokens.push(t);
            proof {
                assert(views_of(tokens@) =~= mid_toks.push(op_token(c)));
                assert(flush_num(pre_cur, pre_toks) == Ok::<Seq<TokenV>, Seq<char>>(mid_toks));
                assert(cur@ =~= Seq::<char>::empty());
                assert(spec_chars_to_tokens(srest, pre_cur, pre_toks) == spec_chars_to_tokens(
                    chars@.skip(i as int + 1),
                    cur@,
                    views_of(tokens@),
                ));
            }
        }
        i += 1;
    }
    proof {
        assert(chars@.skip(i as int) =~= Seq::<Chars>::empty());
    }
    if cur.len() > 0 {
        let ghost old_toks = views_of(tokens@);
        let lit = match NumLit::from_chars(cur) {
            Ok(lit) => lit,
            Err(e) => {
                return Err(e);
            },
        };
        tokens.push(Token::Number(lit));
        proof {
            assert(views_of(tokens@) =~= old_toks.push(TokenV::Number(lit@)));
        }
    }
    Ok(tokens)
}

/// An error of the whole evaluation pipeline: a malformed numeral, or a
/// token sequence that does not match the grammar.
pub enum CalcError {
    Number(NumberFormatError),
    Syntax(SyntaxError),
}

/// The compute step behind the equals key: tokenize the symbol buffer,
/// append the `End` sentinel, and parse the tokens into a tree.
pub fn parse_eqn(eqn: Vec<Chars>) -> (r: Result<Expression, CalcError>)
    requires
        forall|i: int| 0 <= i < eqn@.len() ==> displayable(#[trigger] eqn@[i]),
    ensures
        match r {
            Ok(e) => spec_tokenize(eqn@) matches Ok(tv) && spec_parse(tv.push(TokenV::End))
                == Some(e@),
            Err(CalcError::Number(ne)) => spec_tokenize(eqn@) matches Err(s) && ne.text@ == s,
            Err(CalcError::Syntax(_)) => spec_tokenize(eqn@) matches Ok(tv) && spec_parse(
                tv.push(TokenV::End),
            ) is None,
        },
{
    let mut tokens = match chars_to_tokens(eqn) {
        Ok(ts) => ts,
        Err(e) => {
            return Err(CalcError::Number(e));
        },
    };
    let ghost tv = views_of(tokens@);
    tokens.push(Token::End);
    proof {
        assert(views_of(tokens@) =~= tv.push(TokenV::End));
    }
    let mut parser = ClimbingParser::new(tokens);
    match parser.parse() {
        Ok(e) => Ok(e),
        Err(e) => Err(CalcError::Syntax(e)),
    }
}

/// The symbols a token prints as; the `End` sentinel prints nothing.
pub open spec fn spec_token_chars(t: TokenV) -> Seq<Chars> {
    match t {
        TokenV::Plus => seq![Chars::Add],
        TokenV::Dash => seq![Chars::Sub],
        TokenV::Star => seq![Chars::Mul],
        TokenV::Slash => seq![Chars::Div],
        TokenV::LeftParen => seq![Chars::LParen],
        TokenV::RightParen => seq![Chars::RParen],
        TokenV::End => Seq::empty(),
        TokenV::Number(s) => s.map_values(|c: char| sym_of(c)),
    }
}

/// The symbols a token sequence prints as.
pub open spec fn spec_tokens_chars(ts: Seq<TokenV>) -> Seq<Chars>
    decreases ts.len(),
{
    if ts.len() == 0 {
        Seq::empty()
    } else {
        spec_token_chars(ts[0]) + spec_tokens_chars(ts.skip(1))
    }
}

/// The symbol a numeral character prints from.
fn sym_of_char(c: char) -> (r: Chars)
    requires
        is_digit_char(c) || c == '.',
    ensures
        r == sym_of(c),
{
    if c == '.' {
        Chars::Dot
    } else if c == '0' {
        Chars::Zero
    } else if c == '1' {
        Chars::One
    } else if c == '2' {
        Chars::Two
    } else if c == '3' {
        Chars::Three
    } else if c == '4' {
        Chars::Four
    } else if c == '5' {
        Chars::Five
    } else if c == '6' {
        Chars::Six
    } else if c == '7' {
        Chars::Seven
    } else if c == '8' {
        Chars::Eight
    } else {
        Chars::Nine
    }
}

/// Serializes tokens back into calculator symbols, as
/// `spec_tokens_chars` describes.  Every number must be a well-formed
/// numeral.
pub fn tokens_to_chars(tokens: &Vec<Token>) -> (r: Vec<Chars>)
    requires
        forall|i: int|
            0 <= i < tokens@.len() ==> ((#[trigger] tokens@[i]@) matches TokenV::Number(s)
                ==> is_numeral(s)),
    ensures
        r@ == spec_tokens_chars(views_of(tokens@)),
{
    let ghost tv = views_of(tokens@);
    let mut out: Vec<Chars> = Vec::new();
    let mut i: usize = 0;
    proof {
        assert(tv.skip(0) =~= tv);
        assert(out@ + spec_tokens_chars(tv) =~= spec_tokens_chars(tv));
    }
    while i < tokens.len()
        invariant
            i <= tokens@.len(),
            tv == views_of(tokens@),
            forall|k: int|
                0 <= k < tokens@.len() ==> ((#[trigger] tokens@[k]@) matches TokenV::Number(s)
                    ==> is_numeral(s)),
            spec_tokens_chars(tv) =~= out@ + spec_tokens_chars(tv.skip(i as int)),
        decreases tokens@.len() - i,
    {
        let ghost rest = tv.skip(i as int);
        let ghost out_entry = out@;
        proof {
            assert(rest[0] == tv[i as int]);
            assert(rest.skip(1) =~= tv.skip(i as int + 1));
        }
        match &tokens[i] {
            Token::Plus => {
                out.push(Chars::Add);
            },
            Token::Dash => {
                out.push(Chars::Sub);
            },
            Token::Star => {
                out.push(Chars::Mul);
            },
            Token::Slash => {
                out.push(Chars::Div);
            },
            Token::LeftParen => {
                out.push(Chars::LParen);
            },
            Token::RightParen => {
                out.push(Chars::RParen);
            },
            Token::End => {},
            Token::Number(n) => {
                let text = n.as_chars();
                let ghost s = n@;
                let ghost out0 = out@;
                let mut j: usize = 0;
                while j < text.len()
                    invariant
                        j <= s.len(),
                        text@ == s,
                        is_numeral(s),
                        out@ == out0 + s.subrange(0, j as int).map_values(|c: char| sym_of(c)),
                    decreases s.len() - j,
                {
                    let ch = text[j];
                    let sym = sym_of_char(ch);
                    out.push(sym);
                    proof {
                        assert(out@ =~= out0 + s.subrange(0, j as int + 1).map_values(
                            |c: char| sym_of(c),
                        ));
                    }
                    j += 1;
                }
                proof {
                    assert(s.subrange(0, s.len() as int) =~= s);
                    assert(out@ =~= out0 + s.map_values(|c: char| sym_of(c)));
                }
            },
        }
        proof {
            assert(out@ =~= out_entry + spec_token_chars(rest[0]));
            assert(rest.skip(1) =~= tv.skip(i as int + 1));
            assert(spec_tokens_chars(tv) =~= out@ + spec_tokens_chars(tv.skip(i as int + 1)));
        }
        i += 1;
    }
    proof {
        assert(spec_tokens_chars(tv.skip(i as int)) =~= Seq::<Chars>::empty());
    }
    out
}

/// A token sequence that can be printed and read back: no `End`
/// sentinel inside, every number a well-formed numeral, and no two
/// numbers next to each other (their texts would merge into one).
pub open spec fn serializable(ts: Seq<TokenV>) -> bool {
    &&& forall|i: int| 0 <= i < ts.len() ==> !((#[trigger] ts[i]) is End)
    &&& forall|i: int|
        0 <= i < ts.len() ==> ((#[trigger] ts[i]) matches TokenV::Number(s) ==> is_numeral(s))
    &&& forall|i: int|
        0 <= i < ts.len() - 1 ==> !((#[trigger] ts[i]) is Number && ts[i + 1] is Number)
}

/// A run of numeral characters is accumulated, symbol by symbol, into
/// the pending numeral; nothing else changes.
proof fn lemma_digits_accumulate(txt: Seq<char>, rest: Seq<Chars>, cur: Seq<char>, acc: Seq<TokenV>)
    requires
        forall|i: int| 0 <= i < txt.len() ==> is_digit_char(#[trigger] txt[i]) || txt[i] == '.',
    ensures
        spec_chars_to_tokens(txt.map_values(|c: char| sym_of(c)) + rest, cur, acc)
            == spec_chars_to_tokens(rest, cur + txt, acc),
    decreases txt.len(),
{
    let syms = txt.map_values(|c: char| sym_of(c));
    if txt.len() == 0 {
        assert(syms + rest =~= rest);
        assert(cur + txt =~= cur);
    } else {
        let c = txt[0];
        assert((syms + rest)[0] == sym_of(c));
        assert(char_of(sym_of(c)) == c);
        assert(is_digit_sym(sym_of(c)) || sym_of(c) == Chars::Dot);
        assert((syms + rest).skip(1) =~= txt.skip(1).map_values(|c: char| sym_of(c)) + rest);
        lemma_digits_accumulate(txt.skip(1), rest, cur.push(c), acc);
        assert(cur.push(c) + txt.skip(1) =~= cur + txt);
    }
}

/// One step of the round trip, with the tokens already reproduced in
/// `acc`.
proof fn lemma_round_trip_aux(ts: Seq<TokenV>, acc: Seq<TokenV>)
    requires
        serializable(ts),
    ensures
        spec_chars_to_tokens(spec_tokens_chars(ts), Seq::empty(), acc) == Ok::<
            Seq<TokenV>,
            Seq<char>,
        >(acc + ts),
    decreases ts.len(),
{
    if ts.len() == 0 {
        assert(acc + ts =~= acc);
    } else {
        let t0 = ts[0];
        let rest_chars = spec_tokens_chars(ts.skip(1));
        assert(ts.skip(1).len() == ts.len() - 1);
        assert forall|i: int| 0 <= i < ts.skip(1).len() implies !((#[trigger] ts.skip(1)[i]) is End)
            && (ts.skip(1)[i] matches TokenV::Number(s) ==> is_numeral(s)) by {
            assert(ts.skip(1)[i] == ts[i + 1]);
        }
        assert forall|i: int|
            0 <= i < ts.skip(1).len() - 1 implies !((#[trigger] ts.skip(1)[i]) is Number && ts.skip(
            1,
        )[i + 1] is Number) by {
            assert(ts.skip(1)[i] == ts[i + 1]);
            assert(ts.skip(1)[i + 1] == ts[i + 2]);
        }
        assert(serializable(ts.skip(1)));
        match t0 {
            TokenV::Number(s) => {
                assert(is_numeral(s));
                assert(spec_tokens_chars(ts) == s.map_values(|c: char| sym_of(c)) + rest_chars);
                lemma_digits_accumulate(s, rest_chars, Seq::empty(), acc);
                assert(Seq::<char>::empty() + s =~= s);
                if ts.len() == 1 {
                    assert(ts.skip(1) =~= Seq::<TokenV>::empty());
                    assert(rest_chars =~= Seq::<Chars>::empty());
                    assert(spec_chars_to_tokens(rest_chars, s, acc) == flush_num(s, acc));
                    assert(acc.push(t0) =~= acc + ts);
                } else {
                    let t1 = ts[1];
                    assert(!(t1 is Number));
                    assert(ts.skip(1)[0] == t1);
                    let sym = spec_token_chars(t1)[0];
                    assert(spec_token_chars(t1) =~= seq![sym]);
                    assert(is_op_sym(sym));
                    assert(op_token(sym) == t1);
                    assert(rest_chars == spec_token_chars(t1) + spec_tokens_chars(ts.skip(1).skip(1)));
                    assert(rest_chars[0] == sym);
                    assert(rest_chars.len() > 0);
                    // flushing before the operator gives the same state as
                    // starting the tail with the number already emitted
                    assert(spec_chars_to_tokens(rest_chars, s, acc) == spec_chars_to_tokens(
                        rest_chars,
                        Seq::empty(),
                        acc.push(TokenV::Number(s)),
                    ));
                    lemma_round_trip_aux(ts.skip(1), acc.push(t0));
                    assert(acc.push(t0) + ts.skip(1) =~= acc + ts);
                }
            },
            _ => {
                let sym = spec_token_chars(t0)[0];
                assert(spec_token_chars(t0) =~= seq![sym]);
                assert(is_op_sym(sym));
                assert(op_token(sym) == t0);
                assert(spec_tokens_chars(ts) == spec_token_chars(t0) + rest_chars);
                assert(spec_tokens_chars(ts)[0] == sym);
                assert(spec_tokens_chars(ts).skip(1) =~= rest_chars);
                lemma_round_trip_aux(ts.skip(1), acc.push(t0));
                assert(acc.push(t0) + ts.skip(1) =~= acc + ts);
            },
        }
    }
}

/// Whatever the tokenizer emits so far stays serializable: one step of
/// `spec_chars_to_tokens`, with the tokens already emitted in `acc`.
proof fn lemma_tokens_ok_aux(s: Seq<Chars>, cur: Seq<char>, acc: Seq<TokenV>)
    requires
        serializable(acc),
        acc.len() > 0 ==> !(acc.last() is Number),
    ensures
        spec_chars_to_tokens(s, cur, acc) matches Ok(ts) ==> serializable(ts),
    decreases s.len(),
{
    if s.len() == 0 {
        if cur.len() > 0 && is_numeral(cur) {
            let ts = acc.push(TokenV::Number(cur));
            assert forall|i: int|
                0 <= i < ts.len() implies !((#[trigger] ts[i]) is End) && (ts[i]
                matches TokenV::Number(x) ==> is_numeral(x)) by {
                if i < acc.len() {
                    assert(ts[i] == acc[i]);
                }
            }
            assert forall|i: int|
                0 <= i < ts.len() - 1 implies !((#[trigger] ts[i]) is Number && ts[i
                + 1] is Number) by {
                assert(ts[i] == acc[i]);
                if i + 1 < acc.len() {
                    assert(ts[i + 1] == acc[i + 1]);
                } else {
                    assert(acc[i] == acc.last());
                }
            }
            assert(serializable(ts));
        }
    } else {
        let c = s[0];
        if is_digit_sym(c) || c == Chars::Dot {
            lemma_tokens_ok_aux(s.skip(1), cur.push(char_of(c)), acc);
        } else if is_op_sym(c) {
            if cur.len() == 0 || is_numeral(cur) {
                let acc2 = if cur.len() == 0 {
                    acc
                } else {
                    acc.push(TokenV::Number(cur))
                };
                assert forall|i: int|
                    0 <= i < acc2.len() implies !((#[trigger] acc2[i]) is End) && (acc2[i]
                    matches TokenV::Number(x) ==> is_numeral(x)) by {
                    if i < acc.len() {
                        assert(acc2[i] == acc[i]);
                    }
                }
                assert forall|i: int|
                    0 <= i < acc2.len() - 1 implies !((#[trigger] acc2[i]) is Number && acc2[i
                    + 1] is Number) by {
                    assert(acc2[i] == acc[i]);
                    if i + 1 < acc.len() {
                        assert(acc2[i + 1] == acc[i + 1]);
                    } else {
                        assert(acc[i] == acc.last());
                    }
                }
                let acc3 = acc2.push(op_token(c));
                assert(!(op_token(c) is Number) && !(op_token(c) is End));
                assert forall|i: int|
                    0 <= i < acc3.len() implies !((#[trigger] acc3[i]) is End) && (acc3[i]
                    matches TokenV::Number(x) ==> is_numeral(x)) by {
                    if i < acc2.len() {
                        assert(acc3[i] == acc2[i]);
                    }
                }
                assert forall|i: int|
                    0 <= i < acc3.len() - 1 implies !((#[trigger] acc3[i]) is Number && acc3[i
                    + 1] is Number) by {
                    assert(acc3[i] == acc2[i]);
                    if i + 1 < acc2.len() {
                        assert(acc3[i + 1] == acc2[i + 1]);
                    }
                }
                assert(serializable(acc3));
                assert(acc3.last() == op_token(c));
                lemma_tokens_ok_aux(s.skip(1), Seq::empty(), acc3);
            }
        }
    }
}

/// The tokenizer's output is always serializable.
pub proof fn lemma_tokenize_output_serializable(s: Seq<Chars>)
    ensures
        spec_tokenize(s) matches Ok(ts) ==> serializable(ts),
{
    lemma_tokens_ok_aux(s, Seq::empty(), Seq::empty());
}

/// Law: tokenizing a symbol buffer, printing the tokens back to symbols
/// and tokenizing again reproduces the same token sequence — the printed
/// form is an equivalent equation.
pub proof fn lemma_retokenize(s: Seq<Chars>)
    ensures
        spec_tokenize(s) matches Ok(ts) ==> spec_tokenize(spec_tokens_chars(ts)) == Ok::<
            Seq<TokenV>,
            Seq<char>,
        >(ts),
{
    if spec_tokenize(s) is Ok {
        let ts = spec_tokenize(s)->Ok_0;
        lemma_tokenize_output_serializable(s);
        lemma_tokenize_round_trip(ts);
    }
}

/// Law: serializing a token sequence into symbols and tokenizing the
/// result reproduces the sequence exactly, provided the sequence is
/// serializable (as every tokenizer output is).
pub proof fn lemma_tokenize_round_trip(ts: Seq<TokenV>)
    requires
        serializable(ts),
    ensures
        spec_tokenize(spec_tokens_chars(ts)) == Ok::<Seq<TokenV>, Seq<char>>(ts),
{
    lemma_round_trip_aux(ts, Seq::empty());
    assert(Seq::<TokenV>::empty() + ts =~= ts);
}

} // verus!
