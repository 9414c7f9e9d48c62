//! The variable resolver: variable references become the numbers they stand for.

use vstd::prelude::*;
use crate::error::{CalcError, CalcErrorView};
use crate::search::{first_index, lemma_first_index, lemma_no_index};
use crate::token::{CalcToken, ComplexToken, Token, TokenView, token_views};

verus! {

/// Whatever `lookup` returns for a name is what `vars` holds for it: the value, or nothing.
pub open spec fn looks_up<N, L: Fn(&str) -> Option<N>>(lookup: &L, vars: Map<Seq<char>, N>) -> bool {
    forall|name: &str, r: Option<N>| #[trigger]
        lookup.ensures((name,), r) ==> r == if vars.contains_key(name@) {
            Some(vars[name@])
        } else {
            None
        }
}

/// `lookup` may be called on every name.
pub open spec fn looks_up_all<N, L: Fn(&str) -> Option<N>>(lookup: &L) -> bool {
    forall|name: &str| #[trigger] lookup.requires((name,))
}

/// The predicate "is a reference to a variable that `vars` does not hold".
pub open spec fn unknown<N>(vars: Map<Seq<char>, N>) -> spec_fn(TokenView<N>) -> bool {
    |token: TokenView<N>| token matches TokenView::Var(name) && !vars.contains_key(name)
}

/// A token with its variable, if it is one that `vars` holds, replaced by the value.
pub open spec fn substituted<N>(vars: Map<Seq<char>, N>, token: TokenView<N>) -> TokenView<N> {
    match token {
        TokenView::Var(name) if vars.contains_key(name) => TokenView::Complex(
            ComplexToken::Calc(CalcToken::Num(vars[name])),
        ),
        _ => token,
    }
}

/// `tokens` with the variables among the first `upto` replaced by their values.
pub open spec fn resolved<N>(vars: Map<Seq<char>, N>, tokens: Seq<TokenView<N>>, upto: int) -> Seq<
    TokenView<N>,
> {
    Seq::new(
        tokens.len(),
        |i: int|
            if i < upto {
                substituted(vars, tokens[i])
            } else {
                tokens[i]
            },
    )
}

/// Replacing every variable by its value: it fails at the first one that has none.
pub open spec fn resolution<N>(vars: Map<Seq<char>, N>, tokens: Seq<TokenView<N>>) -> Result<
    Seq<TokenView<N>>,
    CalcErrorView<N>,
> {
    match first_index(tokens, unknown(vars)) {
        Some(at) => Err(CalcErrorView::UnknownVariable(tokens[at]->Var_0)),
        None => Ok(resolved(vars, tokens, tokens.len() as int)),
    }
}

/// Replaces each variable in `tokens` by the number that `lookup` finds for it, in place
/// and in order. At the first variable for which `lookup` finds nothing it stops and fails:
/// the tokens before that one have been replaced, the others are as they were.
pub fn resolve<N: Copy, L: Fn(&str) -> Option<N>>(tokens: &mut Vec<Token<N>>, lookup: &L) -> (r:
    Result<(), CalcError<N>>)
    requires
        looks_up_all(lookup),
    ensures
        final(tokens).len() == old(tokens).len(),
        forall|vars: Map<Seq<char>, N>| #[trigger]
            looks_up(lookup, vars) ==> match first_index(token_views(old(tokens)@), unknown(vars)) {
                Some(at) => r matches Err(e) && e@ == CalcErrorView::<N>::UnknownVariable(
                    token_views(old(tokens)@)[at]->Var_0,
                ) && token_views(final(tokens)@) == resolved(vars, token_views(old(tokens)@), at),
                None => r is Ok && token_views(final(tokens)@) == resolved(
                    vars,
                    token_views(old(tokens)@),
                    old(tokens).len() as int,
                ),
            },
{
    let ghost start = token_views(tokens@);
    let mut i: usize = 0;
    assert forall|vars: Map<Seq<char>, N>| token_views(tokens@) == resolved(vars, start, 0) by {
        assert(token_views(tokens@) =~= resolved(vars, start, 0));
    }
    while i < tokens.len()
        invariant
            looks_up_all(lookup),
            i <= tokens.len(),
            tokens.len() == old(tokens).len(),
            start == token_views(old(tokens)@),
            forall|vars: Map<Seq<char>, N>| #[trigger]
                looks_up(lookup, vars) ==> token_views(tokens@) == resolved(vars, start, i as int),
            forall|vars: Map<Seq<char>, N>, j: int| #[trigger]
                looks_up(lookup, vars) && 0 <= j < i ==> !unknown(vars)(#[trigger] start[j]),
        decreases tokens.len() - i,
    {
        let ghost before = tokens@;
        let found = match &tokens[i] {
            Token::Var(name) => match lookup(name.as_str()) {
                Some(value) => Some(value),
                None => {
                    proof {
                        assert forall|vars: Map<Seq<char>, N>| #[trigger]
                            looks_up(lookup, vars) implies first_index(start, unknown(vars))
                            == Some(i as int) by {
                            assert(token_views(before)[i as int] == start[i as int]);
                            lemma_first_index(start, unknown(vars), i as int);
                        }
                    }
                    return Err(CalcError::UnknownVariable(name.clone()));
                },
            },
            _ => None,
        };
        if let Some(value) = found {
            tokens[i] = Token::Complex(ComplexToken::Calc(CalcToken::Num(value)));
        }
        proof {
            assert forall|vars: Map<Seq<char>, N>| #[trigger]
                looks_up(lookup, vars) implies token_views(tokens@) == resolved(
                vars,
                start,
                i + 1,
            ) && !unknown(vars)(start[i as int]) by {
                assert(token_views(before)[i as int] == start[i as int]);
                assert forall|j: int| 0 <= j < tokens.len() implies token_views(tokens@)[j]
                    == resolved(vars, start, i + 1)[j] by {
                    if j != i {
                        assert(token_views(tokens@)[j] == token_views(before)[j]);
                    }
                }
                assert(token_views(tokens@) =~= resolved(vars, start, i + 1));
            }
        }
        i += 1;
    }
    proof {
        assert forall|vars: Map<Seq<char>, N>| #[trigger]
            looks_up(lookup, vars) implies first_index(start, unknown(vars)) is None by {
            lemma_no_index(start, unknown(vars));
        }
    }
    Ok(())
}

} // verus!
