//! The failures of the calculator, as data.

use vstd::prelude::*;
use vstd::string::StringExecFns;
use crate::calculate::copied;
use crate::format::{flagged, format_error, format_marked, formats, text_views};
use crate::number::{writes, writes_all};
use crate::token::{CalcToken, ComplexToken, Token, TokenView, clone_tokens, token_views};

verus! {

/// Why an input could not be evaluated. A failure that has a place carries the token
/// sequence in which it was found, as it stood at that moment, and the index of the
/// offending token in it.
#[derive(Debug, PartialEq)]
#[allow(inconsistent_fields)]
pub enum CalcError<N> {
    /// A variable was referenced that has no value.
    UnknownVariable(String),
    /// A right parenthesis at index `pos` of the input closes nothing. `tokens` is what had
    /// been gathered before it.
    UnmatchedRightParen { pos: usize, tokens: Vec<ComplexToken<N>> },
    /// The token at `pos` of `tokens` is a parenthesis where only numbers and operators may
    /// stand: a left parenthesis that nothing closes.
    InvalidTokenInGroup { pos: usize, tokens: Vec<ComplexToken<N>> },
    /// There was nothing to evaluate.
    EmptyExpression,
    /// The operator at `pos` of `tokens` is the first or the last token.
    DanglingOperator { pos: usize, tokens: Vec<CalcToken<N>> },
    /// The token at `pos` of `tokens`, next to the operator at `operator`, is an operator
    /// where a number is needed.
    InvalidOperand { pos: usize, operator: usize, tokens: Vec<CalcToken<N>> },
    /// After every tier was reduced, `tokens` is still more than one number.
    UnresolvedExpression { tokens: Vec<CalcToken<N>> },
    /// `tokens` stands where a single variable is needed as the target of an assignment, or
    /// holds an assignment marker inside an expression.
    InvalidAssignmentTarget { tokens: Vec<Token<N>> },
}

/// The mathematical value of a [`CalcError`]: the same, with sequences for vectors and
/// integers for indices.
#[allow(inconsistent_fields)]
pub enum CalcErrorView<N> {
    UnknownVariable(Seq<char>),
    UnmatchedRightParen { pos: int, tokens: Seq<ComplexToken<N>> },
    InvalidTokenInGroup { pos: int, tokens: Seq<ComplexToken<N>> },
    EmptyExpression,
    DanglingOperator { pos: int, tokens: Seq<CalcToken<N>> },
    InvalidOperand { pos: int, operator: int, tokens: Seq<CalcToken<N>> },
    UnresolvedExpression { tokens: Seq<CalcToken<N>> },
    InvalidAssignmentTarget { tokens: Seq<TokenView<N>> },
}

impl<N> View for CalcError<N> {
    type V = CalcErrorView<N>;

    open spec fn view(&self) -> CalcErrorView<N> {
        match *self {
            CalcError::UnknownVariable(name) => CalcErrorView::UnknownVariable(name@),
            CalcError::UnmatchedRightParen { pos, tokens } => CalcErrorView::UnmatchedRightParen {
                pos: pos as int,
                tokens: tokens@,
            },
            CalcError::InvalidTokenInGroup { pos, tokens } => CalcErrorView::InvalidTokenInGroup {
                pos: pos as int,
                tokens: tokens@,
            },
            CalcError::EmptyExpression => CalcErrorView::EmptyExpression,
            CalcError::DanglingOperator { pos, tokens } => CalcErrorView::DanglingOperator {
                pos: pos as int,
                tokens: tokens@,
            },
            CalcError::InvalidOperand { pos, operator, tokens } => CalcErrorView::InvalidOperand {
                pos: pos as int,
                operator: operator as int,
                tokens: tokens@,
            },
            CalcError::UnresolvedExpression { tokens } => CalcErrorView::UnresolvedExpression {
                tokens: tokens@,
            },
            CalcError::InvalidAssignmentTarget { tokens } => CalcErrorView::InvalidAssignmentTarget {
                tokens: token_views(tokens@),
            },
        }
    }
}

impl<N: Copy> Clone for CalcError<N> {
    fn clone(&self) -> (r: Self)
        ensures
            r@ == self@,
    {
        match self {
            CalcError::UnknownVariable(name) => CalcError::UnknownVariable(name.clone()),
            CalcError::UnmatchedRightParen { pos, tokens } => CalcError::UnmatchedRightParen {
                pos: *pos,
                tokens: copied(tokens),
            },
            CalcError::InvalidTokenInGroup { pos, tokens } => CalcError::InvalidTokenInGroup {
                pos: *pos,
                tokens: copied(tokens),
            },
            CalcError::EmptyExpression => CalcError::EmptyExpression,
            CalcError::DanglingOperator { pos, tokens } => CalcError::DanglingOperator {
                pos: *pos,
                tokens: copied(tokens),
            },
            CalcError::InvalidOperand { pos, operator, tokens } => CalcError::InvalidOperand {
                pos: *pos,
                operator: *operator,
                tokens: copied(tokens),
            },
            CalcError::UnresolvedExpression { tokens } => CalcError::UnresolvedExpression {
                tokens: copied(tokens),
            },
            CalcError::InvalidAssignmentTarget { tokens } => CalcError::InvalidAssignmentTarget {
                tokens: clone_tokens(tokens.as_slice()),
            },
        }
    }
}

/// The texts of a flat group's tokens, where `shown` writes numbers.
pub open spec fn calc_texts<N>(tokens: Seq<CalcToken<N>>, shown: spec_fn(N) -> Seq<char>) -> Seq<
    Seq<char>,
> {
    Seq::new(tokens.len(), |i: int| tokens[i].spec_text(shown))
}

/// The texts of expression tokens, where `shown` writes numbers.
pub open spec fn complex_texts<N>(
    tokens: Seq<ComplexToken<N>>,
    shown: spec_fn(N) -> Seq<char>,
) -> Seq<Seq<char>> {
    Seq::new(tokens.len(), |i: int| tokens[i].spec_text(shown))
}

/// The texts of input tokens, where `shown` writes numbers.
pub open spec fn token_texts<N>(tokens: Seq<TokenView<N>>, shown: spec_fn(N) -> Seq<char>) -> Seq<
    Seq<char>,
> {
    Seq::new(tokens.len(), |i: int| tokens[i].text(shown))
}

/// Every position of a sequence of the given length.
pub open spec fn every(len: nat) -> Set<int> {
    Set::new(|i: int| 0 <= i < len)
}

/// The positions of the tokens that are no variables.
pub open spec fn non_variables<N>(tokens: Seq<TokenView<N>>) -> Set<int> {
    Set::new(|i: int| 0 <= i < tokens.len() && !(tokens[i] is Var))
}

/// `out` is a message for the failure `e`, where `shown` writes numbers. A failure with a
/// place is a line that names it, followed by the tokens with the offending one
/// highlighted. A sequence that did not resolve has all its tokens highlighted, and an
/// invalid assignment every token that is no variable.
pub open spec fn describes<N>(
    e: CalcErrorView<N>,
    shown: spec_fn(N) -> Seq<char>,
    out: Seq<char>,
) -> bool {
    match e {
        CalcErrorView::UnknownVariable(name) => out == "Variable "@ + name + " not found"@,
        CalcErrorView::UnmatchedRightParen { pos, tokens } => formats(
            complex_texts(tokens, shown),
            set![pos],
            "No matching left paren:"@,
            out,
        ),
        CalcErrorView::InvalidTokenInGroup { pos, tokens } => formats(
            complex_texts(tokens, shown),
            set![pos],
            "Token not allowed here:"@,
            out,
        ),
        CalcErrorView::EmptyExpression => out == "Empty expression"@,
        CalcErrorView::DanglingOperator { pos, tokens } => formats(
            calc_texts(tokens, shown),
            set![pos],
            "Operator without matching numbers:"@,
            out,
        ),
        CalcErrorView::InvalidOperand { pos, operator, tokens } => formats(
            calc_texts(tokens, shown),
            set![pos],
            if pos > operator {
                "Invalid token after operator:"@
            } else {
                "Invalid token before operator:"@
            },
            out,
        ),
        CalcErrorView::UnresolvedExpression { tokens } => formats(
            calc_texts(tokens, shown),
            every(tokens.len()),
            "No corresponding operators:"@,
            out,
        ),
        CalcErrorView::InvalidAssignmentTarget { tokens } => formats(
            token_texts(tokens, shown),
            non_variables(tokens),
            "Invalid assignment:"@,
            out,
        ),
    }
}

/// Writes each token of a flat group as text.
fn write_calc_tokens<N: Copy, R: Fn(N) -> String>(tokens: &Vec<CalcToken<N>>, render: &R) -> (texts:
    Vec<String>)
    requires
        writes_all(render),
    ensures
        forall|shown: spec_fn(N) -> Seq<char>| #[trigger]
            writes(render, shown) ==> text_views(texts@) == calc_texts(tokens@, shown),
{
    let mut texts: Vec<String> = Vec::new();
    let mut i: usize = 0;
    while i < tokens.len()
        invariant
            writes_all(render),
            i <= tokens.len(),
            texts.len() == i,
            forall|shown: spec_fn(N) -> Seq<char>, j: int| #[trigger]
                writes(render, shown) && 0 <= j < i ==> (#[trigger] texts@[j])@
                    == tokens@[j].spec_text(shown),
        decreases tokens.len() - i,
    {
        texts.push(tokens[i].text(render));
        i += 1;
    }
    assert forall|shown: spec_fn(N) -> Seq<char>| #[trigger] writes(render, shown) implies text_views(
        texts@,
    ) == calc_texts(tokens@, shown) by {
        assert(text_views(texts@) =~= calc_texts(tokens@, shown));
    }
    texts
}

/// Writes each expression token as text.
fn write_complex_tokens<N: Copy, R: Fn(N) -> String>(
    tokens: &Vec<ComplexToken<N>>,
    render: &R,
) -> (texts: Vec<String>)
    requires
        writes_all(render),
    ensures
        forall|shown: spec_fn(N) -> Seq<char>| #[trigger]
            writes(render, shown) ==> text_views(texts@) == complex_texts(tokens@, shown),
{
    let mut texts: Vec<String> = Vec::new();
    let mut i: usize = 0;
    while i < tokens.len()
        invariant
            writes_all(render),
            i <= tokens.len(),
            texts.len() == i,
            forall|shown: spec_fn(N) -> Seq<char>, j: int| #[trigger]
                writes(render, shown) && 0 <= j < i ==> (#[trigger] texts@[j])@
                    == tokens@[j].spec_text(shown),
        decreases tokens.len() - i,
    {
        texts.push(tokens[i].text(render));
        i += 1;
    }
    assert forall|shown: spec_fn(N) -> Seq<char>| #[trigger] writes(render, shown) implies text_views(
        texts@,
    ) == complex_texts(tokens@, shown) by {
        assert(text_views(texts@) =~= complex_texts(tokens@, shown));
    }
    texts
}

/// Writes each input token as text.
fn write_tokens<N: Copy, R: Fn(N) -> String>(tokens: &Vec<Token<N>>, render: &R) -> (texts: Vec<
    String,
>)
    requires
        writes_all(render),
    ensures
        forall|shown: spec_fn(N) -> Seq<char>| #[trigger]
            writes(render, shown) ==> text_views(texts@) == token_texts(
                token_views(tokens@),
                shown,
            ),
{
    let mut texts: Vec<String> = Vec::new();
    let mut i: usize = 0;
    while i < tokens.len()
        invariant
            writes_all(render),
            i <= tokens.len(),
            texts.len() == i,
            forall|shown: spec_fn(N) -> Seq<char>, j: int| #[trigger]
                writes(render, shown) && 0 <= j < i ==> (#[trigger] texts@[j])@
                    == tokens@[j]@.text(shown),
        decreases tokens.len() - i,
    {
        texts.push(tokens[i].text(render));
        i += 1;
    }
    assert forall|shown: spec_fn(N) -> Seq<char>| #[trigger] writes(render, shown) implies text_views(
        texts@,
    ) == token_texts(token_views(tokens@), shown) by {
        assert(text_views(texts@) =~= token_texts(token_views(tokens@), shown));
    }
    texts
}

impl<N: Copy> CalcError<N> {
    /// The message for the failure, with `render` to write numbers.
    pub fn message<R: Fn(N) -> String>(&self, render: &R) -> (out: String)
        requires
            writes_all(render),
        ensures
            forall|shown: spec_fn(N) -> Seq<char>| #[trigger]
                writes(render, shown) ==> describes(self@, shown, out@),
    {
        match self {
            CalcError::UnknownVariable(name) => {
                let mut out = String::from_str("Variable ");
                out.append(name.as_str());
                out.append(" not found");
                out
            },
            CalcError::UnmatchedRightParen { pos, tokens } => {
                let texts = write_complex_tokens(tokens, render);
                format_error(&texts, *pos, "No matching left paren:")
            },
            CalcError::InvalidTokenInGroup { pos, tokens } => {
                let texts = write_complex_tokens(tokens, render);
                format_error(&texts, *pos, "Token not allowed here:")
            },
            CalcError::EmptyExpression => String::from_str("Empty expression"),
            CalcError::DanglingOperator { pos, tokens } => {
                let texts = write_calc_tokens(tokens, render);
                format_error(&texts, *pos, "Operator without matching numbers:")
            },
            CalcError::InvalidOperand { pos, operator, tokens } => {
                let texts = write_calc_tokens(tokens, render);
                if *pos > *operator {
                    format_error(&texts, *pos, "Invalid token after operator:")
                } else {
                    format_error(&texts, *pos, "Invalid token before operator:")
                }
            },
            CalcError::UnresolvedExpression { tokens } => {
                let texts = write_calc_tokens(tokens, render);
                let mut marks: Vec<bool> = Vec::new();
                let mut i: usize = 0;
                while i < tokens.len()
                    invariant
                        i <= tokens.len(),
                        marks.len() == i,
                        forall|j: int| 0 <= j < i ==> #[trigger] marks@[j],
                    decreases tokens.len() - i,
                {
                    marks.push(true);
                    i += 1;
                }
                assert(flagged(marks@) =~= every(tokens@.len()));
                format_marked(&texts, &marks, "No corresponding operators:")
            },
            CalcError::InvalidAssignmentTarget { tokens } => {
                let texts = write_tokens(tokens, render);
                let mut marks: Vec<bool> = Vec::new();
                let mut i: usize = 0;
                while i < tokens.len()
                    invariant
                        i <= tokens.len(),
                        marks.len() == i,
                        forall|j: int| 0 <= j < i ==> #[trigger] marks@[j] == !(tokens@[j] is Var),
                    decreases tokens.len() - i,
                {
                    marks.push(!matches!(&tokens[i], Token::Var(_)));
                    i += 1;
                }
                assert(flagged(marks@) =~= non_variables(token_views(tokens@)));
                format_marked(&texts, &marks, "Invalid assignment:")
            },
        }
    }
}

} // verus!
