//! The state of a calculator session: the variables, and how one line of input changes them.

use vstd::prelude::*;
use vstd::string::StringExecFns;
use crate::calculate::{Calculate, evaluate_full, outcome_view};
use crate::error::{CalcError, CalcErrorView};
use crate::number::{computes, computes_all};
use crate::op::Op;
use crate::resolve::{looks_up, resolution, resolve, resolved, unknown};
use crate::search::{
    first_index, is_first, lemma_first_index, lemma_first_index_is_first, lemma_no_index,
};
use crate::token::{Token, TokenView, TryInto, spec_into_calc, token_views};

verus! {

/// The predicate "is bound to `name`" on the entries of a variable list.
pub open spec fn named<N>(name: Seq<char>) -> spec_fn((String, N)) -> bool {
    |entry: (String, N)| entry.0@ == name
}

/// The mapping that a list of entries stands for: each name with the value of its first
/// entry.
pub open spec fn bindings<N>(entries: Seq<(String, N)>) -> Map<Seq<char>, N> {
    Map::new(
        |name: Seq<char>| first_index(entries, named(name)) is Some,
        |name: Seq<char>| entries[first_index(entries, named(name))->0].1,
    )
}

/// No name has two entries.
pub open spec fn distinct_names<N>(entries: Seq<(String, N)>) -> bool {
    forall|i: int, j: int|
        0 <= i < j < entries.len() ==> (#[trigger] entries[i]).0@ != (#[trigger] entries[j]).0@
}

/// The name under which the value of a bare expression is kept.
pub open spec fn ans() -> Seq<char> {
    seq!['a', 'n', 's']
}

/// The predicate "is the assignment marker".
pub open spec fn marker<N>() -> spec_fn(TokenView<N>) -> bool {
    |token: TokenView<N>| token is Assign
}

/// The value of an expression: its variables are replaced, it is narrowed to expression
/// tokens, and those are evaluated. The first failure on the way is the result.
pub open spec fn expression_value<N>(
    vars: Map<Seq<char>, N>,
    tokens: Seq<TokenView<N>>,
    f: spec_fn(Op, N, N) -> N,
) -> Result<N, CalcErrorView<N>> {
    match resolution(vars, tokens) {
        Err(e) => Err(e),
        Ok(plain) => match spec_into_calc(plain) {
            Err(e) => Err(e),
            Ok(groups) => evaluate_full(groups, f),
        },
    }
}

/// What a line of input binds: without an assignment marker, the value of the line to
/// `ans`; with one, the value of what follows the first marker to the single variable that
/// stands before it. The expression is evaluated first, so its failure comes first.
pub open spec fn binding<N>(
    vars: Map<Seq<char>, N>,
    tokens: Seq<TokenView<N>>,
    f: spec_fn(Op, N, N) -> N,
) -> Result<(Seq<char>, N), CalcErrorView<N>> {
    match first_index(tokens, marker()) {
        None => match expression_value(vars, tokens, f) {
            Err(e) => Err(e),
            Ok(value) => Ok((ans(), value)),
        },
        Some(at) => match expression_value(vars, tokens.skip(at + 1), f) {
            Err(e) => Err(e),
            Ok(value) => match tokens.first() {
                TokenView::Var(name) if at == 1 => Ok((name, value)),
                _ => Err(CalcErrorView::InvalidAssignmentTarget { tokens: tokens.take(at) }),
            },
        },
    }
}

/// The index of the first assignment marker among the tokens.
pub fn assignment_position<N: Copy>(tokens: &Vec<Token<N>>) -> (r: Option<usize>)
    ensures
        match first_index(token_views(tokens@), marker()) {
            Some(at) => r == Some(at as usize) && 0 <= at < tokens.len(),
            None => r is None,
        },
{
    let ghost views = token_views(tokens@);
    let mut i: usize = 0;
    while i < tokens.len()
        invariant
            i <= tokens.len(),
            views == token_views(tokens@),
            forall|j: int| 0 <= j < i ==> !marker()(#[trigger] views[j]),
        decreases tokens.len() - i,
    {
        if let Token::Assign = &tokens[i] {
            proof {
                lemma_first_index(views, marker(), i as int);
            }
            return Some(i);
        }
        i += 1;
    }
    proof {
        lemma_no_index(views, marker());
    }
    None
}

/// Stores the state of the calculator: the variables and their values.
#[derive(Debug)]
pub struct Calculator<N> {
    variables: Vec<(String, N)>,
}

impl<N> View for Calculator<N> {
    type V = Map<Seq<char>, N>;

    closed spec fn view(&self) -> Map<Seq<char>, N> {
        bindings(self.variables@)
    }
}

impl<N: Copy> Default for Calculator<N> {
    fn default() -> (r: Self)
        ensures
            r@ == Map::<Seq<char>, N>::empty(),
    {
        Calculator::new()
    }
}

impl<N> Calculator<N> {
    #[verifier::type_invariant]
    spec fn well_formed(self) -> bool {
        distinct_names(self.variables@)
    }
}

impl<N: Copy> Calculator<N> {
    /// A calculator without variables.
    pub fn new() -> (r: Self)
        ensures
            r@ == Map::<Seq<char>, N>::empty(),
    {
        let r = Calculator { variables: Vec::new() };
        proof {
            assert forall|name: Seq<char>| first_index(r.variables@, named::<N>(name)) is None by {
                lemma_no_index(r.variables@, named::<N>(name));
            }
            assert(r@ =~= Map::<Seq<char>, N>::empty());
        }
        r
    }

    /// The variables with their values, each name once.
    pub fn variables(&self) -> (entries: &Vec<(String, N)>)
        ensures
            bindings(entries@) == self@,
            distinct_names(entries@),
    {
        proof {
            use_type_invariant(self);
        }
        &self.variables
    }

    /// The index of the entry for `name`.
    fn position(&self, name: &String) -> (r: Option<usize>)
        ensures
            match first_index(self.variables@, named::<N>(name@)) {
                Some(at) => r == Some(at as usize) && 0 <= at < self.variables.len(),
                None => r is None,
            },
    {
        let mut i: usize = 0;
        while i < self.variables.len()
            invariant
                i <= self.variables.len(),
                forall|j: int| 0 <= j < i ==> !named::<N>(name@)(#[trigger] self.variables@[j]),
            decreases self.variables.len() - i,
        {
            if self.variables[i].0 == *name {
                proof {
                    lemma_first_index(self.variables@, named::<N>(name@), i as int);
                }
                return Some(i);
            }
            i += 1;
        }
        proof {
            lemma_no_index(self.variables@, named::<N>(name@));
        }
        None
    }

    /// The value of the variable `name`, if it has one.
    pub fn get_var(&self, name: &str) -> (r: Option<N>)
        ensures
            r == if self@.contains_key(name@) {
                Some(self@[name@])
            } else {
                None
            },
    {
        let key = name.to_owned();
        match self.position(&key) {
            Some(at) => Some(self.variables[at].1),
            None => None,
        }
    }

    /// The value of the last bare expression, if there was one.
    pub fn last_result(&self) -> (r: Option<N>)
        ensures
            r == if self@.contains_key(ans()) {
                Some(self@[ans()])
            } else {
                None
            },
    {
        proof {
            reveal_strlit("ans");
            assert("ans"@ =~= ans());
        }
        self.get_var("ans")
    }

    /// Sets a variable that later input can refer to.
    pub fn set_var(&mut self, name: String, value: N)
        ensures
            final(self)@ == old(self)@.insert(name@, value),
    {
        proof {
            use_type_invariant(&*self);
        }
        let found = self.position(&name);
        let ghost before = self.variables@;
        let mut entries: Vec<(String, N)> = Vec::new();
        core::mem::swap(&mut entries, &mut self.variables);
        match found {
            Some(at) => {
                entries[at] = (name, value);
            },
            None => {
                entries.push((name, value));
            },
        }
        proof {
            lemma_set_entry(before, entries@, name@, value);
        }
        core::mem::swap(&mut entries, &mut self.variables);
    }

    /// Replaces each variable in `tokens` by the number that it stands for, in place and in
    /// order. At the first variable without a value it stops and fails: the tokens before
    /// that one have been replaced, the others are as they were.
    pub fn extract_vars(&self, tokens: &mut Vec<Token<N>>) -> (r: Result<(), CalcError<N>>)
        ensures
            final(tokens).len() == old(tokens).len(),
            match first_index(token_views(old(tokens)@), unknown(self@)) {
                Some(at) => r matches Err(e) && e@ == CalcErrorView::<N>::UnknownVariable(
                    token_views(old(tokens)@)[at]->Var_0,
                ) && token_views(final(tokens)@) == resolved(
                    self@,
                    token_views(old(tokens)@),
                    at,
                ),
                None => r is Ok && token_views(final(tokens)@) == resolved(
                    self@,
                    token_views(old(tokens)@),
                    old(tokens).len() as int,
                ),
            },
    {
        let lookup = |name: &str| -> (r: Option<N>)
            ensures
                r == if self@.contains_key(name@) {
                    Some(self@[name@])
                } else {
                    None
                },
            { self.get_var(name) };
        assert(looks_up(&lookup, self@));
        resolve(tokens, &lookup)
    }

    /// The value of an expression: its variables are replaced, it is narrowed to expression
    /// tokens, and those are evaluated with `apply` as the arithmetic.
    pub fn evaluate<F: Fn(Op, N, N) -> N>(&self, mut tokens: Vec<Token<N>>, apply: &F) -> (r: Result<
        N,
        CalcError<N>,
    >)
        requires
            computes_all(apply),
        ensures
            forall|f: spec_fn(Op, N, N) -> N| #[trigger]
                computes(apply, f) ==> outcome_view(r) == expression_value(
                    self@,
                    token_views(tokens@),
                    f,
                ),
    {
        match self.extract_vars(&mut tokens) {
            Err(e) => {
                return Err(e);
            },
            Ok(()) => {},
        }
        let mut groups = match tokens.as_slice().into_calc() {
            Err(e) => {
                return Err(e);
            },
            Ok(groups) => groups,
        };
        groups.calc(apply)
    }

    /// Takes one line of input, as tokens. An assignment sets the variable before the first
    /// marker to the value of what follows it; a bare expression sets `ans` to its value.
    /// On a failure no variable changes.
    pub fn pass<F: Fn(Op, N, N) -> N>(&mut self, mut tokens: Vec<Token<N>>, apply: &F) -> (r: Result<
        (),
        CalcError<N>,
    >)
        requires
            computes_all(apply),
        ensures
            forall|f: spec_fn(Op, N, N) -> N| #[trigger]
                computes(apply, f) ==> match binding(old(self)@, token_views(tokens@), f) {
                    Ok((name, value)) => r is Ok && final(self)@ == old(self)@.insert(name, value),
                    Err(e) => r matches Err(x) && x@ == e && final(self)@ == old(self)@,
                },
    {
        let ghost line = token_views(tokens@);
        match assignment_position(&tokens) {
            Some(at) => {
                let expression = tokens.split_off(at + 1);
                tokens.pop();
                assert(token_views(expression@) =~= line.skip(at + 1));
                assert(token_views(tokens@) =~= line.take(at as int));
                let value = match self.evaluate(expression, apply) {
                    Ok(value) => value,
                    Err(e) => {
                        return Err(e);
                    },
                };
                if tokens.len() == 1 {
                    if let Token::Var(name) = &tokens[0] {
                        assert(line.first() == TokenView::<N>::Var(name@));
                        self.set_var(name.clone(), value);
                        return Ok(());
                    }
                }
                Err(CalcError::InvalidAssignmentTarget { tokens })
            },
            None => {
                let value = match self.evaluate(tokens, apply) {
                    Ok(value) => value,
                    Err(e) => {
                        return Err(e);
                    },
                };
                let name = String::from_str("ans");
                proof {
                    reveal_strlit("ans");
                    assert(name@ =~= ans());
                }
                self.set_var(name, value);
                Ok(())
            },
        }
    }
}

/// Writing a value over the first entry for a name, or adding an entry where the name has
/// none, binds that name to the value and leaves every other name as it was.
proof fn lemma_set_entry<N>(
    before: Seq<(String, N)>,
    after: Seq<(String, N)>,
    name: Seq<char>,
    value: N,
)
    requires
        distinct_names(before),
        match first_index(before, named::<N>(name)) {
            Some(at) => after.len() == before.len() && after[at].0@ == name && after[at].1 == value
                && forall|j: int| 0 <= j < before.len() && j != at ==> after[j] == before[j],
            None => after.len() == before.len() + 1 && after.last().0@ == name && after.last().1
                == value && forall|j: int| 0 <= j < before.len() ==> after[j] == before[j],
        },
    ensures
        distinct_names(after),
        bindings(after) == bindings(before).insert(name, value),
{
    lemma_first_index_is_first(before, named::<N>(name));
    assert forall|j: int| 0 <= j < before.len() implies (#[trigger] after[j]).0@ == before[j].0@ by {}
    match first_index(before, named::<N>(name)) {
        Some(at) => {
            assert(is_first(after, named::<N>(name), at));
            lemma_first_index(after, named::<N>(name), at);
        },
        None => {
            assert(is_first(after, named::<N>(name), before.len() as int));
            lemma_first_index(after, named::<N>(name), before.len() as int);
            assert forall|i: int, j: int| 0 <= i < j < after.len() implies (#[trigger] after[i]).0@
                != (#[trigger] after[j]).0@ by {
                if j == before.len() {
                    assert(!named::<N>(name)(before[i]));
                }
            }
        },
    }
    assert forall|key: Seq<char>| key != name implies first_index(after, named::<N>(key))
        == first_index(before, named::<N>(key)) by {
        lemma_first_index_is_first(before, named::<N>(key));
        match first_index(before, named::<N>(key)) {
            Some(j) => {
                assert(is_first(after, named::<N>(key), j));
                lemma_first_index(after, named::<N>(key), j);
            },
            None => {
                assert forall|j: int| 0 <= j < after.len() implies !named::<N>(key)(
                    #[trigger] after[j],
                ) by {
                    if j < before.len() {
                        assert(!named::<N>(key)(before[j]));
                    }
                }
                lemma_no_index(after, named::<N>(key));
            },
        }
    }
    assert forall|key: Seq<char>| key != name && first_index(before, named::<N>(key)) is Some implies
        after[first_index(before, named::<N>(key))->0] == before[first_index(before, named::<N>(key))->0] by {
        lemma_first_index_is_first(before, named::<N>(key));
    }
    assert(bindings(after) =~= bindings(before).insert(name, value));
}

} // verus!
