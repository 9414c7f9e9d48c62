//! What a line of input asks for.

use vstd::prelude::*;
use vstd::string::StringExecFns;
use crate::number::{reads, reads_all};
use crate::parse::{tokenization, tokenize};
use crate::token::{Token, TokenView, token_views};

verus! {

/// All possible commands that the user can input.
#[derive(Debug, PartialEq)]
pub enum Command<N> {
    Calculate(Vec<Token<N>>),
    Exit,
    Help,
}

/// The mathematical value of a [`Command`].
pub enum CommandView<N> {
    Calculate(Seq<TokenView<N>>),
    Exit,
    Help,
}

impl<N> View for Command<N> {
    type V = CommandView<N>;

    open spec fn view(&self) -> CommandView<N> {
        match *self {
            Command::Calculate(tokens) => CommandView::Calculate(token_views(tokens@)),
            Command::Exit => CommandView::Exit,
            Command::Help => CommandView::Help,
        }
    }
}

/// The word that ends the session.
pub open spec fn exit_word() -> Seq<char> {
    seq!['e', 'x', 'i', 't']
}

/// The word that asks for help.
pub open spec fn help_word() -> Seq<char> {
    seq!['h', 'e', 'l', 'p']
}

/// The command that a line stands for, where `number` reads numbers: the two words by
/// themselves are commands, and every other line is something to calculate.
pub open spec fn command_of<N>(
    line: Seq<char>,
    number: spec_fn(Seq<char>) -> Option<N>,
) -> CommandView<N> {
    if line == exit_word() {
        CommandView::Exit
    } else if line == help_word() {
        CommandView::Help
    } else {
        CommandView::Calculate(tokenization(line, number))
    }
}

impl<N: Copy> Command<N> {
    /// Reads a command from a line of input, with `parse` to read numbers.
    pub fn from<P: Fn(&str) -> Option<N>>(s: &str, parse: &P) -> (r: Command<N>)
        requires
            reads_all(parse),
        ensures
            forall|number: spec_fn(Seq<char>) -> Option<N>| #[trigger]
                reads(parse, number) ==> r@ == command_of(s@, number),
    {
        let line = s.to_owned();
        proof {
            reveal_strlit("exit");
            reveal_strlit("help");
            assert("exit"@ =~= exit_word());
            assert("help"@ =~= help_word());
        }
        if line == String::from_str("exit") {
            Command::Exit
        } else if line == String::from_str("help") {
            Command::Help
        } else {
            Command::Calculate(tokenize(line, parse))
        }
    }
}

} // verus!
