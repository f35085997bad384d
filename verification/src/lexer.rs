//! Lexical tokens: classified units of the input text, each literal or
//! whitespace run carrying its exact source span (half-open, in character
//! positions). Adjacent characters of the same run kind are merged into one
//! token.

use vstd::prelude::*;
use vstd::pervasive::VecAdditionalExecFns;
use vstd::string::StrSliceExecFns;

verus! {

/// A half-open range of character positions into the input text.
#[derive(PartialEq, Eq, Structural, Debug, Clone, Copy)]
pub struct Span {
    pub start: usize,
    pub end: usize,
}

/// One classified lexical unit.
#[derive(PartialEq, Eq, Structural, Debug, Clone, Copy)]
pub enum Token {
    OpenParenthesis,
    Separator,
    CloseParenthesis,
    Whitespace(Span),
    Literal(Span),
}

/// A space or a horizontal tab: the characters that form whitespace runs.
pub open spec fn is_blank(c: char) -> bool {
    c == ' ' || c == '\t'
}

/// The token a single character at position `i` forms on its own.
pub open spec fn single_token(i: int, c: char) -> Token {
    if c == '(' {
        Token::OpenParenthesis
    } else if c == ',' {
        Token::Separator
    } else if c == ')' {
        Token::CloseParenthesis
    } else if is_blank(c) {
        Token::Whitespace(Span { start: i as usize, end: (i + 1) as usize })
    } else {
        Token::Literal(Span { start: i as usize, end: (i + 1) as usize })
    }
}

/// The token sequence of an input text: each character is classified on its
/// own, except that a whitespace character melts into a directly preceding
/// whitespace run and any other plain character melts into a directly
/// preceding literal run, so that maximal runs carry one merged span.
pub open spec fn spec_tokenize(s: Seq<char>) -> Seq<Token>
    decreases s.len(),
{
    if s.len() == 0 {
        Seq::empty()
    } else {
        let prev = spec_tokenize(s.drop_last());
        let i = s.len() - 1;
        let c = s.last();
        if c == '(' || c == ',' || c == ')' {
            prev.push(single_token(i, c))
        } else if prev.len() == 0 {
            prev.push(single_token(i, c))
        } else if is_blank(c) {
            match prev.last() {
                Token::Whitespace(sp) => prev.update(
                    prev.len() - 1,
                    Token::Whitespace(Span { start: sp.start, end: (i + 1) as usize }),
                ),
                _ => prev.push(single_token(i, c)),
            }
        } else {
            match prev.last() {
                Token::Literal(sp) => prev.update(
                    prev.len() - 1,
                    Token::Literal(Span { start: sp.start, end: (i + 1) as usize }),
                ),
                _ => prev.push(single_token(i, c)),
            }
        }
    }
}

/// The token a single character at `index` forms on its own.
fn new_token(index: usize, character: char) -> (t: Token)
    requires
        index < usize::MAX,
    ensures
        t == single_token(index as int, character),
{
    match character {
        '(' => Token::OpenParenthesis,
        ',' => Token::Separator,
        ')' => Token::CloseParenthesis,
        ' ' => Token::Whitespace(Span { start: index, end: index + 1 }),
        '\t' => Token::Whitespace(Span { start: index, end: index + 1 }),
        _ => Token::Literal(Span { start: index, end: index + 1 }),
    }
}

/// Splits an input text into its token sequence, merging adjacent
/// whitespace characters and adjacent plain characters into single runs.
pub fn tokenize(input: &str) -> (tokens: Vec<Token>)
    ensures
        tokens@ == spec_tokenize(input@),
{
    let mut tokens: Vec<Token> = Vec::new();
    let n = input.unicode_len();
    let mut index: usize = 0;
    while index < n
        invariant
            n == input@.len(),
            index <= n,
            tokens@ == spec_tokenize(input@.take(index as int)),
        decreases n - index,
    {
        let character = input.get_char(index);
        proof {
            assert(input@.take(index as int + 1).drop_last() =~= input@.take(index as int));
            assert(input@.take(index as int + 1).last() == input@[index as int]);
        }
        if character == '(' || character == ',' || character == ')' {
            tokens.push(new_token(index, character));
        } else {
            let m = tokens.len();
            if m == 0 {
                tokens.push(new_token(index, character));
            } else {
                let last = tokens[m - 1];
                if character == ' ' || character == '\t' {
                    match last {
                        Token::Whitespace(sp) => {
                            tokens.set(
                                m - 1,
                                Token::Whitespace(Span { start: sp.start, end: index + 1 }),
                            );
                        },
                        _ => {
                            tokens.push(new_token(index, character));
                        },
                    }
                } else {
                    match last {
                        Token::Literal(sp) => {
                            tokens.set(
                                m - 1,
                                Token::Literal(Span { start: sp.start, end: index + 1 }),
                            );
                        },
                        _ => {
                            tokens.push(new_token(index, character));
                        },
                    }
                }
            }
        }
        index = index + 1;
    }
    proof {
        assert(input@.take(n as int) =~= input@);
    }
    tokens
}

} // verus!
