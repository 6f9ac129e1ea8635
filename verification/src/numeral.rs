//! Numeric literals, kept as their text.
//!
//! A numeral is a run of decimal digits with at most one decimal point and
//! at least one digit (`"10"`, `"1.5"`, `".5"`, `"5."`).  The evaluator's
//! numbers are carried in this form; reading one as a machine float is the
//! caller's concern.

use vstd::prelude::*;

verus! {

/// True when `c` is a decimal digit character.
pub open spec fn is_digit_char(c: char) -> bool {
    '0' <= c && c <= '9'
}

/// A well-formed numeral: every character a digit or a decimal point,
/// at least one digit, and at most one decimal point.
pub open spec fn is_numeral(s: Seq<char>) -> bool {
    &&& forall|i: int| 0 <= i < s.len() ==> is_digit_char(#[trigger] s[i]) || s[i] == '.'
    &&& exists|i: int| 0 <= i < s.len() && is_digit_char(#[trigger] s[i])
    &&& forall|i: int, j: int|
        #![trigger s[i], s[j]]
        0 <= i < j < s.len() ==> !(s[i] == '.' && s[j] == '.')
}

/// An accumulated digit run that does not form a valid numeral; carries
/// the offending text.
pub struct NumberFormatError {
    pub text: Vec<char>,
}

/// A numeric literal, stored as its text.
pub struct NumLit {
    text: Vec<char>,
}

impl View for NumLit {
    type V = Seq<char>;

    closed spec fn view(&self) -> Seq<char> {
        self.text@
    }
}

impl DeepView for NumLit {
    type V = Seq<char>;

    open spec fn deep_view(&self) -> Seq<char> {
        self.view()
    }
}

impl NumLit {
    /// Checks that `text` is a well-formed numeral and wraps it; otherwise
    /// returns the offending text as a `NumberFormatError`.
    pub fn from_chars(text: Vec<char>) -> (r: Result<NumLit, NumberFormatError>)
        ensures
            is_numeral(text@) ==> (r matches Ok(n) && n@ == text@),
            !is_numeral(text@) ==> (r matches Err(e) && e.text@ == text@),
    {
        let mut i: usize = 0;
        let mut has_digit: bool = false;
        let mut has_dot: bool = false;
        while i < text.len()
            invariant
                i <= text@.len(),
                forall|k: int| 0 <= k < i ==> is_digit_char(#[trigger] text@[k]) || text@[k] == '.',
                has_digit <==> exists|k: int| 0 <= k < i && is_digit_char(#[trigger] text@[k]),
                has_dot <==> exists|k: int| 0 <= k < i && #[trigger] text@[k] == '.',
                forall|k: int, l: int|
                    #![trigger text@[k], text@[l]]
                    0 <= k < l < i ==> !(text@[k] == '.' && text@[l] == '.'),
            decreases text@.len() - i,
        {
            let c = text[i];
            if c == '.' {
                if has_dot {
                    proof {
                        let k = choose|k: int| 0 <= k < i && #[trigger] text@[k] == '.';
                        assert(!is_numeral(text@)) by {
                            if is_numeral(text@) {
                                assert(!(text@[k] == '.' && text@[i as int] == '.'));
                            }
                        }
                    }
                    return Err(NumberFormatError { text });
                }
                has_dot = true;
            } else if '0' <= c && c <= '9' {
                has_digit = true;
            } else {
                assert(!is_numeral(text@));
                return Err(NumberFormatError { text });
            }
            i += 1;
        }
        if has_digit {
            Ok(NumLit { text })
        } else {
            assert(!is_numeral(text@));
            Err(NumberFormatError { text })
        }
    }

    /// The numeral's text.
    pub fn as_chars(&self) -> (r: &Vec<char>)
        ensures
            r@ == self@,
    {
        &self.text
    }

    /// A copy of this numeral.
    pub fn dup(&self) -> (r: NumLit)
        ensures
            r@ == self@,
    {
        let mut text: Vec<char> = Vec::new();
        let mut i: usize = 0;
        while i < self.text.len()
            invariant
                i <= self.text@.len(),
                text@ == self.text@.subrange(0, i as int),
            decreases self.text@.len() - i,
        {
            let c = self.text[i];
            text.push(c);
            proof {
                assert(text@ =~= self.text@.subrange(0, i + 1));
            }
            i += 1;
        }
        proof {
            assert(text@ =~= self.text@);
        }
        NumLit { text }
    }
}

} // verus!
