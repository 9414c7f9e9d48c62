//! What the library asks of the number type.
//!
//! Numbers are opaque here. A caller hands in three functions: one that reads a number from
//! text, one that applies an operator to two numbers, one that writes a number as text. Each
//! predicate below says that such a function computes a given mathematical function, and the
//! contracts of the library hold for every mathematical function that it computes.

use vstd::prelude::*;
use crate::op::Op;

verus! {

/// Whatever `parse` returns for a text is what `number` gives for it.
pub open spec fn reads<N, P: Fn(&str) -> Option<N>>(
    parse: &P,
    number: spec_fn(Seq<char>) -> Option<N>,
) -> bool {
    forall|text: &str, r: Option<N>| #[trigger] parse.ensures((text,), r) ==> r == number(text@)
}

/// Whatever `apply` returns for an operator and two operands is what `f` gives for them.
pub open spec fn computes<N, F: Fn(Op, N, N) -> N>(apply: &F, f: spec_fn(Op, N, N) -> N) -> bool {
    forall|op: Op, a: N, b: N, r: N| #[trigger] apply.ensures((op, a, b), r) ==> r == f(op, a, b)
}

/// Whatever `render` returns for a number is the text that `shown` gives for it.
pub open spec fn writes<N, R: Fn(N) -> String>(render: &R, shown: spec_fn(N) -> Seq<char>) -> bool {
    forall|n: N, r: String| #[trigger] render.ensures((n,), r) ==> r@ == shown(n)
}

/// `parse` may be called on every text.
pub open spec fn reads_all<N, P: Fn(&str) -> Option<N>>(parse: &P) -> bool {
    forall|text: &str| #[trigger] parse.requires((text,))
}

/// `apply` may be called on every operator and every two operands.
pub open spec fn computes_all<N, F: Fn(Op, N, N) -> N>(apply: &F) -> bool {
    forall|op: Op, a: N, b: N| #[trigger] apply.requires((op, a, b))
}

/// `render` may be called on every number.
pub open spec fn writes_all<N, R: Fn(N) -> String>(render: &R) -> bool {
    forall|n: N| #[trigger] render.requires((n,))
}

} // verus!
