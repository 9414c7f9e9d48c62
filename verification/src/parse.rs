//! The scanner: from text to tokens.

use vstd::prelude::*;
use crate::number::{reads, reads_all};
use crate::token::{Token, TokenView, token_views};

verus! {

/// The tokens so far, with pending text, if there is any, turned into one more token.
pub open spec fn flushed<N>(
    tokens: Seq<TokenView<N>>,
    pending: Seq<char>,
    number: spec_fn(Seq<char>) -> Option<N>,
) -> Seq<TokenView<N>> {
    if pending.len() == 0 {
        tokens
    } else {
        tokens.push(Token::<N>::spec_from_str(pending, number))
    }
}

/// Whether the character always stands for itself: one of `+ * / % ^ = ( )`.
pub open spec fn is_symbol(c: char) -> bool {
    c == '+' || c == '*' || c == '/' || c == '%' || c == '^' || c == '=' || c == '(' || c == ')'
}

/// The state of the scanner after one more character: the tokens emitted so far and the
/// pending text. A symbol ends the pending text and is emitted. A `-` ends the pending text
/// too; it is the subtraction operator after a number and the start of new pending text
/// anywhere else. A space or a line break ends the pending text. Any other character is
/// added to it.
pub open spec fn scan_char<N>(
    state: (Seq<TokenView<N>>, Seq<char>),
    c: char,
    number: spec_fn(Seq<char>) -> Option<N>,
) -> (Seq<TokenView<N>>, Seq<char>) {
    let tokens = flushed(state.0, state.1, number);
    if is_symbol(c) {
        (tokens.push(Token::<N>::spec_from_symbol(c)->0), Seq::empty())
    } else if c == '-' {
        if tokens.len() > 0 && tokens.last().is_number() {
            (tokens.push(Token::<N>::spec_from_symbol(c)->0), Seq::empty())
        } else {
            (tokens, seq!['-'])
        }
    } else if c == ' ' || c == '\n' {
        (tokens, Seq::empty())
    } else {
        (state.0, state.1.push(c))
    }
}

/// The state of the scanner after all of `text`.
pub open spec fn scan<N>(text: Seq<char>, number: spec_fn(Seq<char>) -> Option<N>) -> (
    Seq<TokenView<N>>,
    Seq<char>,
)
    decreases text.len(),
{
    if text.len() == 0 {
        (Seq::empty(), Seq::empty())
    } else {
        scan_char(scan(text.drop_last(), number), text.last(), number)
    }
}

/// The tokens of `text`: what the scanner has emitted at the end, and one last token for
/// the pending text, empty or not.
pub open spec fn tokenization<N>(
    text: Seq<char>,
    number: spec_fn(Seq<char>) -> Option<N>,
) -> Seq<TokenView<N>> {
    let end = scan(text, number);
    end.0.push(Token::<N>::spec_from_str(end.1, number))
}

/// Turns the pending text, if there is any, into a token, and empties it.
fn flush<N: Copy, P: Fn(&str) -> Option<N>>(
    tokens: &mut Vec<Token<N>>,
    pending: &mut String,
    parse: &P,
)
    requires
        reads_all(parse),
    ensures
        final(pending)@ == Seq::<char>::empty(),
        forall|number: spec_fn(Seq<char>) -> Option<N>| #[trigger]
            reads(parse, number) ==> token_views(final(tokens)@) == flushed(
                token_views(old(tokens)@),
                old(pending)@,
                number,
            ),
{
    if !pending.as_str().is_empty() {
        let ghost before = tokens@;
        if let Some(token) = Token::from_str(pending.as_str(), parse) {
            tokens.push(token);
            assert(token_views(tokens@) =~= token_views(before).push(token@));
        }
        *pending = String::new();
    }
}

/// Tokenizes either an expression (`(1 + 2)*3/-5`) or an assignment (`x = 5 * 10`), with
/// `parse` to tell numbers from names.
pub fn tokenize<N: Copy, P: Fn(&str) -> Option<N>>(text: String, parse: &P) -> (tokens: Vec<
    Token<N>,
>)
    requires
        reads_all(parse),
    ensures
        forall|number: spec_fn(Seq<char>) -> Option<N>| #[trigger]
            reads(parse, number) ==> token_views(tokens@) == tokenization(text@, number),
{
    let mut tokens: Vec<Token<N>> = Vec::new();
    let mut pending = String::new();
    assert(token_views(tokens@) =~= Seq::empty());
    let ghost mut scanned: int = 0;
    for c in it: text.as_str().chars()
        invariant
            reads_all(parse),
            it.seq() == text@,
            scanned == it.index(),
            forall|number: spec_fn(Seq<char>) -> Option<N>| #[trigger]
                reads(parse, number) ==> (token_views(tokens@), pending@) == scan(
                    text@.take(it.index() as int),
                    number,
                ),
    {
        let ghost before = (token_views(tokens@), pending@);
        let ghost done = text@.take(it.index() as int);
        assert(text@.take(it.index() + 1).drop_last() =~= done);
        if c == '+' || c == '*' || c == '/' || c == '%' || c == '^' || c == '=' || c == '('
            || c == ')' {
            flush(&mut tokens, &mut pending, parse);
            let ghost mid = tokens@;
            if let Some(token) = Token::<N>::from_symbol(c) {
                tokens.push(token);
                assert(token_views(tokens@) =~= token_views(mid).push(token@));
            }
        } else if c == '-' {
            flush(&mut tokens, &mut pending, parse);
            let ghost mid = tokens@;
            if tokens.len() > 0 && tokens[tokens.len() - 1].is_number() {
                if let Some(token) = Token::<N>::from_symbol(c) {
                    tokens.push(token);
                    assert(token_views(tokens@) =~= token_views(mid).push(token@));
                }
            } else {
                pending.push(c);
                assert(pending@ =~= seq!['-']);
            }
        } else if c == ' ' || c == '\n' {
            flush(&mut tokens, &mut pending, parse);
        } else {
            pending.push(c);
        }
        assert forall|number: spec_fn(Seq<char>) -> Option<N>| #[trigger]
            reads(parse, number) implies (token_views(tokens@), pending@) == scan(
            text@.take(it.index() + 1),
            number,
        ) by {
            assert(before == scan(done, number));
            assert((token_views(tokens@), pending@) == scan_char(before, c, number));
        }
        proof {
            scanned = scanned + 1;
        }
    }
    assert(text@.take(scanned) =~= text@);
    let ghost before = tokens@;
    if let Some(token) = Token::from_str(pending.as_str(), parse) {
        tokens.push(token);
        assert(token_views(tokens@) =~= token_views(before).push(token@));
    }
    tokens
}

} // verus!
