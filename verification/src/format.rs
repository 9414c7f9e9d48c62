//! Text assembly: the error formatter and the terminal highlight it relies on.

use vstd::prelude::*;
use vstd::string::StringExecFns;
use colored::Colorize;

verus! {

/// `String::push` appends one character to the string.
pub assume_specification[ String::push ](s: &mut String, ch: char)
    ensures
        final(s)@ == old(s)@.push(ch),
;

/// The escape sequence that switches the terminal to red text.
pub open spec fn red_on() -> Seq<char> {
    seq!['\u{1b}', '[', '3', '1', 'm']
}

/// The escape sequence that resets the terminal's text style.
pub open spec fn red_off() -> Seq<char> {
    seq!['\u{1b}', '[', '0', 'm']
}

/// Whether the reset sequence occurs somewhere in `text`.
pub open spec fn holds_reset(text: Seq<char>) -> bool {
    exists|i: int|
        0 <= i && i + red_off().len() <= text.len() && #[trigger] text.subrange(
            i,
            i + red_off().len(),
        ) == red_off()
}

/// What highlighting may make of `text`. Whether colour is used is decided outside this
/// library, at run time, and may change while a piece is written. So a text comes back as
/// it is, or between the two escape sequences, or, where colour was switched off in the
/// middle, followed by the reset sequence alone. Of a text in which the reset sequence
/// already occurs nothing is said.
pub open spec fn highlighted(text: Seq<char>, piece: Seq<char>) -> bool {
    !holds_reset(text) ==> {
        ||| piece == text
        ||| piece == red_on() + text + red_off()
        ||| piece == text + red_off()
    }
}

/// Calls `colored::Colorize::red` on `text` and writes the coloured string out with
/// `to_string`. Not proved: that the outcome is one of those that `highlighted` allows.
/// colored asks its global setting (process variables, terminal, manual override) whether to
/// colour, once before it writes anything and again for the prefix. Without colour it
/// writes the text alone; with colour it writes the prefix for red, the text (changed only
/// where the reset sequence occurs inside it) and the reset sequence.
#[verifier::external_body]
fn paint_red(text: &str) -> (piece: String)
    ensures
        highlighted(text@, piece@),
{
    text.red().to_string()
}

/// The views of a sequence of strings.
pub open spec fn text_views(texts: Seq<String>) -> Seq<Seq<char>> {
    Seq::new(texts.len(), |i: int| texts[i]@)
}

/// The pieces of text, with a single space between neighbours.
pub open spec fn joined(pieces: Seq<Seq<char>>) -> Seq<char>
    decreases pieces.len(),
{
    if pieces.len() == 0 {
        Seq::empty()
    } else if pieces.len() == 1 {
        pieces[0]
    } else {
        joined(pieces.drop_last()) + seq![' '] + pieces.last()
    }
}

/// `pieces` are `texts` with exactly the marked ones highlighted.
pub open spec fn pieces_of(texts: Seq<Seq<char>>, marked: Set<int>, pieces: Seq<Seq<char>>) -> bool {
    &&& pieces.len() == texts.len()
    &&& forall|i: int|
        0 <= i < texts.len() ==> if marked.contains(i) {
            highlighted(texts[i], #[trigger] pieces[i])
        } else {
            pieces[i] == texts[i]
        }
}

/// `out` is `message`, a line break, and `texts` joined by spaces with the marked ones
/// highlighted.
pub open spec fn formats(
    texts: Seq<Seq<char>>,
    marked: Set<int>,
    message: Seq<char>,
    out: Seq<char>,
) -> bool {
    exists|pieces: Seq<Seq<char>>| #[trigger]
        pieces_of(texts, marked, pieces) && out == message + seq!['\n'] + joined(pieces)
}

/// The positions that a vector of flags marks.
pub open spec fn flagged(marks: Seq<bool>) -> Set<int> {
    Set::new(|i: int| 0 <= i < marks.len() && marks[i])
}

/// Joining one more piece to a sequence of pieces.
pub proof fn lemma_joined_push(pieces: Seq<Seq<char>>, piece: Seq<char>)
    ensures
        joined(pieces.push(piece)) == if pieces.len() == 0 {
            piece
        } else {
            joined(pieces) + seq![' '] + piece
        },
{
    assert(pieces.push(piece).drop_last() =~= pieces);
}

/// Renders `message`, a line break, and `texts` joined by single spaces, highlighting each
/// text whose flag in `marks` is set. A text without a flag counts as unmarked.
pub fn format_marked(texts: &Vec<String>, marks: &Vec<bool>, message: &str) -> (out: String)
    ensures
        formats(text_views(texts@), flagged(marks@), message@, out@),
{
    let mut out = String::from_str(message);
    out.push('\n');
    let ghost mut pieces: Seq<Seq<char>> = Seq::empty();
    let mut i: usize = 0;
    while i < texts.len()
        invariant
            i <= texts.len(),
            pieces_of(text_views(texts@).take(i as int), flagged(marks@), pieces),
            out@ == message@ + seq!['\n'] + joined(pieces),
        decreases texts.len() - i,
    {
        if i > 0 {
            out.push(' ');
        }
        let ghost before = pieces;
        if i < marks.len() && marks[i] {
            let piece = paint_red(texts[i].as_str());
            out.append(piece.as_str());
            proof {
                pieces = pieces.push(piece@);
            }
        } else {
            out.append(texts[i].as_str());
            proof {
                pieces = pieces.push(texts@[i as int]@);
            }
        }
        proof {
            lemma_joined_push(before, pieces.last());
            assert(out@ =~= message@ + seq!['\n'] + joined(pieces));
        }
        i += 1;
    }
    assert(text_views(texts@).take(i as int) =~= text_views(texts@));
    out
}

/// Renders `message`, a line break, and `texts` joined by single spaces, with the text at
/// `fault_index` highlighted. An index past the end highlights nothing.
pub fn format_error(texts: &Vec<String>, fault_index: usize, message: &str) -> (out: String)
    ensures
        formats(text_views(texts@), set![fault_index as int], message@, out@),
{
    let mut marks: Vec<bool> = Vec::new();
    let mut i: usize = 0;
    while i < texts.len()
        invariant
            i <= texts.len(),
            marks.len() == i,
            forall|j: int| 0 <= j < i ==> marks[j] == (j == fault_index),
        decreases texts.len() - i,
    {
        marks.push(i == fault_index);
        i += 1;
    }
    let out = format_marked(texts, &marks, message);
    proof {
        let pieces = choose|pieces: Seq<Seq<char>>| #[trigger]
            pieces_of(text_views(texts@), flagged(marks@), pieces) && out@ == message@ + seq![
                '\n',
            ] + joined(pieces);
        assert(pieces_of(text_views(texts@), set![fault_index as int], pieces));
    }
    out
}

} // verus!
