//! The three layers of tokens. The outermost, [`Token`], is what the scanner produces:
//! it knows variables and the assignment marker. The next, [`ComplexToken`], is what is
//! left once variables are replaced: arithmetic and parentheses. The innermost,
//! [`CalcToken`], is what a single flat group is made of: operators and numbers.

use vstd::prelude::*;
use vstd::string::StrSliceExecFns;
use crate::error::{CalcError, CalcErrorView};
use crate::number::{reads, writes};
use crate::op::Op;
use crate::search::{first_index, lemma_first_index, lemma_no_index};

verus! {

/// A token of a flat group: an operator or a number.
#[derive(Debug, Copy, PartialEq)]
pub enum CalcToken<N> {
    Op(Op),
    Num(N),
}

impl<N: Copy> Clone for CalcToken<N> {
    fn clone(&self) -> (r: Self)
        ensures
            r == *self,
    {
        *self
    }
}

/// A token of an expression without variables: arithmetic, or a parenthesis.
#[derive(Debug, Copy, PartialEq)]
pub enum ComplexToken<N> {
    Calc(CalcToken<N>),
    LParen,
    RParen,
}

impl<N: Copy> Clone for ComplexToken<N> {
    fn clone(&self) -> (r: Self)
        ensures
            r == *self,
    {
        *self
    }
}

/// A token of raw input: an expression token, a variable reference, or the assignment marker.
#[derive(Debug, PartialEq)]
pub enum Token<N> {
    Complex(ComplexToken<N>),
    Var(String),
    Assign,
}

impl<N: Copy> Clone for Token<N> {
    fn clone(&self) -> (r: Self)
        ensures
            r@ == self@,
    {
        match self {
            Token::Complex(inner) => Token::Complex(*inner),
            Token::Var(name) => Token::Var(name.clone()),
            Token::Assign => Token::Assign,
        }
    }
}

/// The mathematical value of a [`Token`]: the same, with the variable's name as a sequence
/// of characters.
pub enum TokenView<N> {
    Complex(ComplexToken<N>),
    Var(Seq<char>),
    Assign,
}

impl<N> View for Token<N> {
    type V = TokenView<N>;

    open spec fn view(&self) -> TokenView<N> {
        match *self {
            Token::Complex(token) => TokenView::Complex(token),
            Token::Var(name) => TokenView::Var(name@),
            Token::Assign => TokenView::Assign,
        }
    }
}

/// The values of a sequence of tokens.
pub open spec fn token_views<N>(tokens: Seq<Token<N>>) -> Seq<TokenView<N>> {
    Seq::new(tokens.len(), |i: int| tokens[i]@)
}

impl<N> CalcToken<N> {
    /// The text of the token, where `shown` writes numbers.
    pub open spec fn spec_text(self, shown: spec_fn(N) -> Seq<char>) -> Seq<char> {
        match self {
            CalcToken::Op(op) => seq![op.spec_symbol()],
            CalcToken::Num(n) => shown(n),
        }
    }
}

impl<N: Copy> CalcToken<N> {
    /// Writes the token as text: an operator as its symbol, a number as `render` writes it.
    pub fn text<R: Fn(N) -> String>(&self, render: &R) -> (s: String)
        requires
            *self matches CalcToken::Num(n) ==> render.requires((n,)),
        ensures
            forall|shown: spec_fn(N) -> Seq<char>| #[trigger]
                writes(render, shown) ==> s@ == self.spec_text(shown),
    {
        match *self {
            CalcToken::Op(op) => op.text(),
            CalcToken::Num(n) => render(n),
        }
    }
}

impl<N> ComplexToken<N> {
    /// The text of the token, where `shown` writes numbers.
    pub open spec fn spec_text(self, shown: spec_fn(N) -> Seq<char>) -> Seq<char> {
        match self {
            ComplexToken::Calc(token) => token.spec_text(shown),
            ComplexToken::LParen => seq!['('],
            ComplexToken::RParen => seq![')'],
        }
    }

    /// Whether the token is arithmetic, that is, no parenthesis.
    pub fn is_calctoken(&self) -> (b: bool)
        ensures
            b == (*self is Calc),
    {
        matches!(self, ComplexToken::Calc(_))
    }
}

impl<N: Copy> ComplexToken<N> {
    /// Writes the token as text.
    pub fn text<R: Fn(N) -> String>(&self, render: &R) -> (s: String)
        requires
            *self matches ComplexToken::Calc(CalcToken::Num(n)) ==> render.requires((n,)),
        ensures
            forall|shown: spec_fn(N) -> Seq<char>| #[trigger]
                writes(render, shown) ==> s@ == self.spec_text(shown),
    {
        match *self {
            ComplexToken::Calc(token) => token.text(render),
            ComplexToken::LParen => {
                let mut s = String::new();
                s.push('(');
                s
            },
            ComplexToken::RParen => {
                let mut s = String::new();
                s.push(')');
                s
            },
        }
    }
}

impl<N> TokenView<N> {
    /// Whether the token is a number.
    pub open spec fn is_number(self) -> bool {
        self matches TokenView::Complex(ComplexToken::Calc(CalcToken::Num(_)))
    }

    /// The text of the token, where `shown` writes numbers.
    pub open spec fn text(self, shown: spec_fn(N) -> Seq<char>) -> Seq<char> {
        match self {
            TokenView::Complex(token) => token.spec_text(shown),
            TokenView::Var(name) => name,
            TokenView::Assign => seq!['='],
        }
    }
}

impl<N> Token<N> {
    /// The token that a single character stands for by itself, if it is one of
    /// `+ - * / % ^ = ( )`.
    pub open spec fn spec_from_symbol(c: char) -> Option<TokenView<N>> {
        if c == '=' {
            Some(TokenView::Assign)
        } else if c == '(' {
            Some(TokenView::Complex(ComplexToken::LParen))
        } else if c == ')' {
            Some(TokenView::Complex(ComplexToken::RParen))
        } else {
            match Op::spec_from_symbol(c) {
                Some(op) => Some(TokenView::Complex(ComplexToken::Calc(CalcToken::Op(op)))),
                None => None,
            }
        }
    }

    /// The token that a piece of text stands for, where `number` reads numbers: a single
    /// symbol is that symbol's token; other text is a number if it reads as one, and the
    /// name of a variable if not.
    pub open spec fn spec_from_str(
        text: Seq<char>,
        number: spec_fn(Seq<char>) -> Option<N>,
    ) -> TokenView<N> {
        if text.len() == 1 && Self::spec_from_symbol(text[0]) is Some {
            Self::spec_from_symbol(text[0])->0
        } else {
            match number(text) {
                Some(n) => TokenView::Complex(ComplexToken::Calc(CalcToken::Num(n))),
                None => TokenView::Var(text),
            }
        }
    }

    /// Whether the token is a number.
    pub fn is_number(&self) -> (b: bool)
        ensures
            b == self@.is_number(),
    {
        matches!(self, Token::Complex(ComplexToken::Calc(CalcToken::Num(_))))
    }
}

impl<N: Copy> Token<N> {
    /// The token that a single character stands for by itself.
    pub fn from_symbol(c: char) -> (r: Option<Token<N>>)
        ensures
            match r {
                Some(token) => Self::spec_from_symbol(c) == Some(token@),
                None => Self::spec_from_symbol(c) is None,
            },
    {
        if c == '=' {
            Some(Token::Assign)
        } else if c == '(' {
            Some(Token::Complex(ComplexToken::LParen))
        } else if c == ')' {
            Some(Token::Complex(ComplexToken::RParen))
        } else {
            match Op::from_symbol(c) {
                Some(op) => Some(Token::Complex(ComplexToken::Calc(CalcToken::Op(op)))),
                None => None,
            }
        }
    }

    /// Classifies a piece of text as a token, with `parse` to read numbers. There is a token
    /// for every text; the empty text is a variable without a name unless `parse` reads it.
    pub fn from_str<P: Fn(&str) -> Option<N>>(s: &str, parse: &P) -> (r: Option<Token<N>>)
        requires
            parse.requires((s,)),
        ensures
            r is Some,
            forall|number: spec_fn(Seq<char>) -> Option<N>| #[trigger]
                reads(parse, number) ==> r->0@ == Self::spec_from_str(s@, number),
    {
        if s.unicode_len() == 1 {
            if let Some(token) = Self::from_symbol(s.get_char(0)) {
                return Some(token);
            }
        }
        match parse(s) {
            Some(n) => Some(Token::Complex(ComplexToken::Calc(CalcToken::Num(n)))),
            None => Some(Token::Var(s.to_owned())),
        }
    }

    /// Writes the token as text: a variable as its name, the assignment marker as `=`.
    pub fn text<R: Fn(N) -> String>(&self, render: &R) -> (s: String)
        requires
            *self matches Token::Complex(ComplexToken::Calc(CalcToken::Num(n)))
                ==> render.requires((n,)),
        ensures
            forall|shown: spec_fn(N) -> Seq<char>| #[trigger]
                writes(render, shown) ==> s@ == self@.text(shown),
    {
        match self {
            Token::Complex(token) => token.text(render),
            Token::Var(name) => name.clone(),
            Token::Assign => {
                let mut s = String::new();
                s.push('=');
                s
            },
        }
    }
}

/// The predicate "is no expression token": a variable or the assignment marker.
pub open spec fn outer<N>() -> spec_fn(TokenView<N>) -> bool {
    |token: TokenView<N>| !(token is Complex)
}

/// The expression tokens that a sequence without variables and markers wraps.
pub open spec fn unwrapped<N>(tokens: Seq<TokenView<N>>) -> Seq<ComplexToken<N>> {
    Seq::new(tokens.len(), |i: int| tokens[i]->Complex_0)
}

/// Narrowing a sequence of input tokens to expression tokens. It fails at the first token
/// that is none: a variable is reported as unknown, an assignment marker as an invalid
/// assignment, with the whole sequence.
pub open spec fn spec_into_calc<N>(tokens: Seq<TokenView<N>>) -> Result<
    Seq<ComplexToken<N>>,
    CalcErrorView<N>,
> {
    match first_index(tokens, outer()) {
        None => Ok(unwrapped(tokens)),
        Some(at) => match tokens[at] {
            TokenView::Var(name) => Err(CalcErrorView::UnknownVariable(name)),
            _ => Err(CalcErrorView::InvalidAssignmentTarget { tokens }),
        },
    }
}

/// A copy of a sequence of tokens.
pub fn clone_tokens<N: Copy>(tokens: &[Token<N>]) -> (r: Vec<Token<N>>)
    ensures
        token_views(r@) == token_views(tokens@),
{
    let mut r: Vec<Token<N>> = Vec::new();
    let mut i: usize = 0;
    while i < tokens.len()
        invariant
            i <= tokens.len(),
            r.len() == i,
            forall|j: int| 0 <= j < i ==> (#[trigger] r@[j])@ == tokens@[j]@,
        decreases tokens.len() - i,
    {
        r.push(tokens[i].clone());
        i += 1;
    }
    assert(token_views(r@) =~= token_views(tokens@));
    r
}

/// A fallible conversion to a narrower layer of tokens.
pub trait TryInto<T> {
    type Error;

    fn into_calc(self) -> Result<T, Self::Error>;
}

impl<N: Copy> TryInto<Vec<ComplexToken<N>>> for &[Token<N>] {
    type Error = CalcError<N>;

    /// Narrows input tokens to expression tokens, or fails at the first variable or
    /// assignment marker among them.
    fn into_calc(self) -> (r: Result<Vec<ComplexToken<N>>, CalcError<N>>)
        ensures
            match spec_into_calc(token_views(self@)) {
                Ok(narrow) => r matches Ok(v) && v@ == narrow,
                Err(e) => r matches Err(x) && x@ == e,
            },
    {
        let ghost views = token_views(self@);
        let mut narrow: Vec<ComplexToken<N>> = Vec::new();
        let mut i: usize = 0;
        while i < self.len()
            invariant
                i <= self.len(),
                views == token_views(self@),
                narrow@ == unwrapped(views.take(i as int)),
                forall|j: int| 0 <= j < i ==> !outer()(#[trigger] views[j]),
            decreases self.len() - i,
        {
            match &self[i] {
                Token::Complex(token) => {
                    narrow.push(*token);
                    assert(narrow@ =~= unwrapped(views.take(i + 1)));
                },
                Token::Var(name) => {
                    proof {
                        lemma_first_index(views, outer(), i as int);
                    }
                    return Err(CalcError::UnknownVariable(name.clone()));
                },
                Token::Assign => {
                    proof {
                        lemma_first_index(views, outer(), i as int);
                    }
                    return Err(CalcError::InvalidAssignmentTarget { tokens: clone_tokens(self) });
                },
            }
            i += 1;
        }
        proof {
            lemma_no_index(views, outer());
            assert(views.take(i as int) =~= views);
        }
        Ok(narrow)
    }
}

} // verus!
