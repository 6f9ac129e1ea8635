use calculator::chars::{chars_to_tokens, eqn_to_str, parse_eqn, tokens_to_chars, CalcError, Chars};
use calculator::numeral::NumLit;
use calculator::postfix;
use calculator::postfix::{parse_to_postfix, postfix_well_formed, PostfixError};
use calculator::tree;
use calculator::tree::{parse_tokens, ClimbingParser, Expression, Operator, SyntaxError, Token};

fn lit(s: &str) -> NumLit {
    NumLit::from_chars(s.chars().collect()).ok().unwrap()
}

fn num_f64(n: &NumLit) -> f64 {
    let text: String = n.as_chars().iter().collect();
    text.parse().unwrap()
}

fn eval_tree(e: &Expression) -> f64 {
    match e {
        Expression::Number(n) => num_f64(n),
        Expression::Binary(op, l, r) => {
            let a = eval_tree(l);
            let b = eval_tree(r);
            match op {
                Operator::Add => a + b,
                Operator::Subtract => a - b,
                Operator::Multiply => a * b,
                Operator::Divide => a / b,
            }
        }
    }
}

fn sym(c: char) -> Chars {
    match c {
        '0' => Chars::Zero,
        '1' => Chars::One,
        '2' => Chars::Two,
        '3' => Chars::Three,
        '4' => Chars::Four,
        '5' => Chars::Five,
        '6' => Chars::Six,
        '7' => Chars::Seven,
        '8' => Chars::Eight,
        '9' => Chars::Nine,
        '.' => Chars::Dot,
        '+' => Chars::Add,
        '-' => Chars::Sub,
        '*' => Chars::Mul,
        '/' => Chars::Div,
        '(' => Chars::LParen,
        ')' => Chars::RParen,
        _ => panic!("no such calculator key"),
    }
}

fn eqn(s: &str) -> Vec<Chars> {
    s.chars().map(sym).collect()
}

fn tree_eval_str(s: &str) -> Result<f64, CalcError> {
    let e = parse_eqn(eqn(s))?;
    Ok(eval_tree(&e))
}

fn postfix_eval_str(s: &str) -> Result<f64, String> {
    let input: Vec<char> = s.trim().chars().collect();
    let tokens = match parse_to_postfix(&input) {
        Ok(ts) => ts,
        Err(PostfixError::Number(e)) => {
            let text: String = e.text.iter().collect();
            return Err(format!("bad numeral: {}", text));
        }
        Err(PostfixError::UnmatchedRightParen) => return Err("unmatched )".to_string()),
        Err(PostfixError::UnmatchedLeftParen) => return Err("unmatched (".to_string()),
    };
    if !postfix_well_formed(&tokens) {
        return Err("insufficient operands".to_string());
    }
    let mut stack: Vec<f64> = Vec::new();
    for t in &tokens {
        match t {
            postfix::Token::Number(n) => stack.push(num_f64(n)),
            postfix::Token::Operator(op) => {
                let x = stack.pop().unwrap();
                let y = stack.pop().unwrap();
                match op {
                    postfix::Operator::Add => stack.push(x + y),
                    postfix::Operator::Mul => stack.push(x * y),
                    postfix::Operator::Pow => stack.push(x.powf(y)),
                    postfix::Operator::Div => stack.push(y / x),
                    postfix::Operator::Sub => stack.push(y - x),
                    _ => unreachable!(),
                }
            }
        }
    }
    Ok(stack.pop().unwrap())
}

#[test]
fn test() {
    // An unmatched left parenthesis with a missing operand is rejected
    // rather than evaluated or crashing.
    let tokens = vec![
        Token::Number(lit("8")),
        Token::Star,
        Token::Number(lit("8")),
        Token::Plus,
        Token::LeftParen,
    ];
    assert!(parse_tokens(tokens).is_err());
}

#[test]
fn tree_precedence() {
    assert_eq!(tree_eval_str("2+3*4").ok().unwrap(), 14.0);
    assert_eq!(tree_eval_str("(2+3)*4").ok().unwrap(), 20.0);
}

#[test]
fn tree_precedence_shape() {
    // "2+3*4" parses with the multiplication below the addition.
    let e = parse_eqn(eqn("2+3*4")).ok().unwrap();
    match e {
        Expression::Binary(Operator::Add, l, r) => {
            assert!(matches!(*l, Expression::Number(_)));
            match *r {
                Expression::Binary(Operator::Multiply, rl, rr) => {
                    assert!(matches!(*rl, Expression::Number(_)));
                    assert!(matches!(*rr, Expression::Number(_)));
                }
                _ => panic!("expected a multiplication on the right"),
            }
        }
        _ => panic!("expected an addition at the root"),
    }
}

#[test]
fn postfix_precedence() {
    assert_eq!(postfix_eval_str("2+3*4").ok().unwrap(), 14.0);
    assert_eq!(postfix_eval_str("(2+3)*4").ok().unwrap(), 20.0);
}

#[test]
fn tree_left_associativity() {
    assert_eq!(tree_eval_str("10-3-2").ok().unwrap(), 5.0);
    assert_eq!(tree_eval_str("20/2/5").ok().unwrap(), 2.0);
}

#[test]
fn postfix_equal_priority_groups_right() {
    // The shunting-yard pass pops only strictly greater priorities, so a
    // chain of one priority stays on the stack and groups from the
    // right: 10-(3-2).  The tree engine is the one that groups such
    // chains from the left.
    assert_eq!(postfix_eval_str("10-3-2").ok().unwrap(), 9.0);
}

#[test]
fn postfix_power_left_associative() {
    // The shunting-yard pass pops only strictly greater priorities, so a
    // power chain groups as (2^3)^2 = 64, not 2^(3^2) = 512.
    assert_eq!(postfix_eval_str("2^3^2").ok().unwrap(), 64.0);
}

#[test]
fn tree_decimal_accumulation() {
    assert_eq!(tree_eval_str("1.5+2.25").ok().unwrap(), 3.75);
}

#[test]
fn postfix_decimal_accumulation() {
    assert_eq!(postfix_eval_str("1.5+2.25").ok().unwrap(), 3.75);
}

#[test]
fn tree_unmatched_parens_rejected() {
    assert!(tree_eval_str("(1+2").is_err());
    assert!(tree_eval_str("1+2)").is_err());
}

#[test]
fn postfix_unmatched_parens_rejected() {
    let open_only: Vec<char> = "(1+2".chars().collect();
    assert!(matches!(
        parse_to_postfix(&open_only),
        Err(PostfixError::UnmatchedLeftParen)
    ));
    let close_only: Vec<char> = "1+2)".chars().collect();
    assert!(matches!(
        parse_to_postfix(&close_only),
        Err(PostfixError::UnmatchedRightParen)
    ));
}

#[test]
fn division_by_zero_gives_infinity() {
    let r = tree_eval_str("5/0").ok().unwrap();
    assert!(r.is_infinite() && r > 0.0);
    let p = postfix_eval_str("5/0").ok().unwrap();
    assert!(p.is_infinite() && p > 0.0);
}

#[test]
fn zero_over_zero_is_nan() {
    assert!(tree_eval_str("0/0").ok().unwrap().is_nan());
    assert!(postfix_eval_str("0/0").ok().unwrap().is_nan());
}

#[test]
fn postfix_operand_order() {
    // Operands are popped in reverse, yet subtraction and division come
    // out the right way round.
    assert_eq!(postfix_eval_str("10-4").ok().unwrap(), 6.0);
    assert_eq!(postfix_eval_str("10/4").ok().unwrap(), 2.5);
}

#[test]
fn empty_input_is_an_error() {
    assert!(tree_eval_str("").is_err());
    assert!(postfix_eval_str("").is_err());
    assert!(postfix_eval_str("   ").is_err());
}

#[test]
fn bare_point_numerals() {
    assert_eq!(tree_eval_str(".5+1").ok().unwrap(), 1.5);
    assert_eq!(postfix_eval_str("5.+1").ok().unwrap(), 6.0);
}

#[test]
fn malformed_numeral_rejected() {
    match tree_eval_str("1.2.3") {
        Err(CalcError::Number(e)) => {
            let text: String = e.text.iter().collect();
            assert_eq!(text, "1.2.3");
        }
        _ => panic!("expected a numeral error"),
    }
    let bad: Vec<char> = "1.2.3+1".chars().collect();
    assert!(matches!(parse_to_postfix(&bad), Err(PostfixError::Number(_))));
}

#[test]
fn missing_operand_detected() {
    let plus_only: Vec<char> = "1+".chars().collect();
    let tokens = parse_to_postfix(&plus_only).ok().unwrap();
    assert!(!postfix_well_formed(&tokens));
    let lone: Vec<char> = "7".chars().collect();
    let tokens = parse_to_postfix(&lone).ok().unwrap();
    assert!(postfix_well_formed(&tokens));
}

#[test]
fn round_trip_reproduces_tokens() {
    let symbols = eqn("1.5+(2.25*3)-0.5");
    let tokens = chars_to_tokens(symbols.clone()).ok().unwrap();
    let printed = tokens_to_chars(&tokens);
    assert_eq!(printed, symbols);
    let tokens_again = chars_to_tokens(printed.clone()).ok().unwrap();
    let printed_again = tokens_to_chars(&tokens_again);
    assert_eq!(printed, printed_again);
}

#[test]
fn fully_parenthesized_parse() {
    // A fully parenthesized expression evaluates exactly as written.
    assert_eq!(tree_eval_str("((1+2)*3)").ok().unwrap(), 9.0);
    assert_eq!(tree_eval_str("(10-(3-2))").ok().unwrap(), 9.0);
}

#[test]
fn eqn_to_str_prints_keys() {
    let s = eqn_to_str(vec![Chars::Eight, Chars::Div, Chars::Four]);
    assert_eq!(s, "8÷4");
    let s = eqn_to_str(vec![Chars::One, Chars::Dot, Chars::Five, Chars::Mul, Chars::Two]);
    assert_eq!(s, "1.5×2");
}

#[test]
fn as_char_prints_one_key() {
    assert_eq!(Chars::Five.as_char(), '5');
    assert_eq!(Chars::LParen.as_char(), '(');
}

#[test]
fn operator_stack_discipline() {
    let mut stack = postfix::Stack(Vec::new());
    assert!(matches!(stack.top(), postfix::Operator::LPar));
    stack.push(postfix::Operator::Add);
    stack.push(postfix::Operator::Mul);
    assert!(matches!(stack.top(), postfix::Operator::Mul));
    assert!(matches!(stack.pop(), postfix::Operator::Mul));
    assert!(matches!(stack.pop(), postfix::Operator::Add));
    assert!(stack.0.is_empty());
}

#[test]
fn operator_priorities() {
    assert_eq!(postfix::Operator::LPar.priority(), 0);
    assert_eq!(postfix::Operator::RPar.priority(), 0);
    assert_eq!(postfix::Operator::Add.priority(), 1);
    assert_eq!(postfix::Operator::Sub.priority(), 1);
    assert_eq!(postfix::Operator::Mul.priority(), 2);
    assert_eq!(postfix::Operator::Div.priority(), 2);
    assert_eq!(postfix::Operator::Pow.priority(), 3);
    assert_eq!(tree::Operator::Add.cmp_val(), 3);
    assert_eq!(tree::Operator::Subtract.cmp_val(), 3);
    assert_eq!(tree::Operator::Multiply.cmp_val(), 5);
    assert_eq!(tree::Operator::Divide.cmp_val(), 5);
}

#[test]
fn syntax_error_describes_itself() {
    let err = SyntaxError::new_parse_error("Unexpected token".to_string());
    assert_eq!(err.describe(), "Parse Error Unexpected token");
}

#[test]
fn parser_cursor_reports_trailing_tokens() {
    // A number following a complete expression is rejected at the End
    // check.
    let tokens = vec![
        Token::Number(lit("2")),
        Token::Number(lit("3")),
        Token::End,
    ];
    let mut parser = ClimbingParser::new(tokens);
    assert!(parser.parse().is_err());
}

#[test]
fn numeral_validation() {
    assert!(NumLit::from_chars("10".chars().collect()).is_ok());
    assert!(NumLit::from_chars("1.5".chars().collect()).is_ok());
    assert!(NumLit::from_chars(".5".chars().collect()).is_ok());
    assert!(NumLit::from_chars("5.".chars().collect()).is_ok());
    assert!(NumLit::from_chars("".chars().collect()).is_err());
    assert!(NumLit::from_chars(".".chars().collect()).is_err());
    assert!(NumLit::from_chars("1.2.3".chars().collect()).is_err());
    assert!(NumLit::from_chars("1e5".chars().collect()).is_err());
}

#[test]
fn unmapped_symbol_rejected() {
    let input: Vec<char> = "2+a".chars().collect();
    assert!(matches!(parse_to_postfix(&input), Err(PostfixError::Number(_))));
}
