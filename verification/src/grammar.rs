//! The grammar of programs, as functions from a text and a place in it to
//! what stands there.
//!
//! Each rule takes the text and the index at which it is tried. It gives
//! nothing where it does not match, and else what it found together with
//! the number of characters that it took. A rule never looks back, and the
//! alternatives of a choice are tried in a fixed order: the first that
//! matches is taken.

use crate::parser::{SpecComment, SpecExpr, SpecRef};
use crate::text::trim_start;
use vstd::prelude::*;

verus! {

/// The kinds of character of which the grammar takes runs.
#[derive(Debug, Clone, Copy, PartialEq, Eq, Structural)]
pub enum CharKind {
    /// A space or a tab.
    Blank,
    /// A letter of `a` to `z` or `A` to `Z`, a digit, or `_`.
    Word,
    /// A digit.
    Digit,
    /// Anything but a carriage return or a line feed.
    LineText,
}

/// Whether `c` is of `kind`.
pub open spec fn is_kind(kind: CharKind, c: char) -> bool {
    match kind {
        CharKind::Blank => c == ' ' || c == '\t',
        CharKind::Word => 'a' <= c <= 'z' || 'A' <= c <= 'Z' || '0' <= c <= '9' || c == '_',
        CharKind::Digit => '0' <= c <= '9',
        CharKind::LineText => c != '\r' && c != '\n',
    }
}

/// How many characters are left from `i`.
pub open spec fn remaining(s: Seq<char>, i: int) -> nat {
    if i <= s.len() {
        (s.len() - i) as nat
    } else {
        0
    }
}

/// The character at `i`, if the text reaches that far.
pub open spec fn at(s: Seq<char>, i: int) -> Option<char> {
    if 0 <= i < s.len() {
        Some(s[i])
    } else {
        None
    }
}

/// The length of the longest run of characters of `kind` from `i`.
pub open spec fn run(s: Seq<char>, i: int, kind: CharKind) -> nat
    decreases remaining(s, i),
{
    if 0 <= i < s.len() && is_kind(kind, s[i]) {
        1 + run(s, i + 1, kind)
    } else {
        0
    }
}

/// The length of the line end at `i`: a line feed, or a carriage return
/// and a line feed; 0 where there is neither.
pub open spec fn newline(s: Seq<char>, i: int) -> nat {
    if at(s, i) == Some('\n') {
        1
    } else if at(s, i) == Some('\r') && at(s, i + 1) == Some('\n') {
        2
    } else {
        0
    }
}

/// The length of the longest run of white space from `i`: of spaces, tabs
/// and line ends.
pub open spec fn white(s: Seq<char>, i: int) -> nat
    decreases remaining(s, i),
{
    if 0 <= i < s.len() && is_kind(CharKind::Blank, s[i]) {
        1 + white(s, i + 1)
    } else if newline(s, i) > 0 {
        newline(s, i) + white(s, i + newline(s, i))
    } else {
        0
    }
}

/// The length of the identifier at `i`: a letter or `_`, and then letters,
/// digits and `_`, as many as follow; 0 where no identifier starts.
pub open spec fn identifier(s: Seq<char>, i: int) -> nat {
    if 0 <= i < s.len() && is_kind(CharKind::Word, s[i]) && !is_kind(CharKind::Digit, s[i]) {
        run(s, i, CharKind::Word)
    } else {
        0
    }
}

/// The number that the digits write in decimal.
pub open spec fn decimal_value(digits: Seq<char>) -> nat
    decreases digits.len(),
{
    if digits.len() == 0 {
        0
    } else {
        (decimal_value(digits.drop_last()) * 10 + (digits.last() as int - 48)) as nat
    }
}

/// A reference: an identifier, which names a variable, or `#` and an
/// identifier, which names a comment.
pub open spec fn reference(s: Seq<char>, i: int) -> Option<(SpecRef, nat)> {
    if identifier(s, i) > 0 {
        let n = identifier(s, i);
        Some((SpecRef::VarRef(s.subrange(i, i + n)), n))
    } else if at(s, i) == Some('#') && identifier(s, i + 1) > 0 {
        let n = identifier(s, i + 1);
        Some((SpecRef::CommentRef(s.subrange(i + 1, i + 1 + n)), n + 1))
    } else {
        None
    }
}

/// An integer literal: a digit of 1 to 9 and all the digits that follow. A
/// numeral beyond the largest 128-bit integer is no literal.
pub open spec fn integer(s: Seq<char>, i: int) -> Option<(SpecExpr, nat)> {
    if 0 <= i < s.len() && '1' <= s[i] <= '9' {
        let n = run(s, i, CharKind::Digit);
        let value = decimal_value(s.subrange(i, i + n));
        if value <= i128::MAX {
            Some((SpecExpr::IntLiteral(value as int), n))
        } else {
            None
        }
    } else {
        None
    }
}

/// `text` without the comment markers at its start, however many.
pub open spec fn without_markers(text: Seq<char>) -> Seq<char>
    decreases text.len(),
{
    if text.len() >= 2 && text[0] == '/' && text[1] == '/' {
        without_markers(text.skip(2))
    } else {
        text
    }
}

/// Whether `text` starts with the comment marker.
pub open spec fn marked(text: Seq<char>) -> bool {
    text.len() >= 2 && text[0] == '/' && text[1] == '/'
}

/// What the comment lines that follow a line stand for. Where they start
/// with the marker once more they are a paragraph of their own: they lose
/// their markers and the white space behind them, and stand behind an empty
/// line. Else they are what they are.
pub open spec fn continuation(text: Seq<char>) -> Seq<char> {
    if marked(text) {
        seq!['\n', '\n'] + trim_start(without_markers(text))
    } else {
        text
    }
}

/// A line with the comment lines that follow it: a paragraph stands
/// behind the line with an empty line between them, anything else with a
/// space.
pub open spec fn appended(body: Seq<char>, text: Seq<char>) -> Seq<char> {
    if marked(text) {
        body + continuation(text)
    } else {
        body + seq![' '] + text
    }
}

/// The text of a comment: behind the marker `//` and blanks, the rest of
/// the line, with the comment lines that follow it [`appended`].
pub open spec fn comment_string(s: Seq<char>, i: int) -> Option<(Seq<char>, nat)>
    decreases remaining(s, i), 1nat,
{
    if at(s, i) == Some('/') && at(s, i + 1) == Some('/') {
        let blanks = run(s, i + 2, CharKind::Blank);
        let start = i + 2 + blanks;
        let n = run(s, start, CharKind::LineText);
        let body = s.subrange(start, start + n);
        match following_comment(s, start + n) {
            Some((more, m)) => Some((appended(body, more), 2 + blanks + n + m)),
            None => Some((body, 2 + blanks + n)),
        }
    } else {
        None
    }
}

/// A line end and the text of a comment that starts behind it.
pub open spec fn following_comment(s: Seq<char>, i: int) -> Option<(Seq<char>, nat)>
    decreases remaining(s, i), 0nat,
{
    let end = newline(s, i);
    if end > 0 {
        match comment_string(s, i + end) {
            Some((text, n)) => Some((text, end + n)),
            None => None,
        }
    } else {
        None
    }
}

/// A comment with a name: the marker `//`, blanks, `#` and an identifier.
/// Its body is the [`continuation`] that the comment lines below the name
/// are; what stands behind the name on its line is not part of the comment.
pub open spec fn named_comment(s: Seq<char>, i: int) -> Option<(SpecExpr, nat)> {
    if at(s, i) == Some('/') && at(s, i + 1) == Some('/') {
        let blanks = run(s, i + 2, CharKind::Blank);
        let hash = i + 2 + blanks;
        let n = identifier(s, hash + 1);
        if at(s, hash) == Some('#') && n > 0 {
            let name = s.subrange(hash + 1, hash + 1 + n);
            match following_comment(s, hash + 1 + n) {
                Some((text, m)) => Some(
                    (
                        SpecExpr::Comment(
                            SpecComment { name: Some(name), body: continuation(text) },
                        ),
                        3 + blanks + n + m,
                    ),
                ),
                None => Some(
                    (
                        SpecExpr::Comment(SpecComment { name: Some(name), body: Seq::empty() }),
                        3 + blanks + n,
                    ),
                ),
            }
        } else {
            None
        }
    } else {
        None
    }
}

/// A comment: one with a name, or else one without.
pub open spec fn comment(s: Seq<char>, i: int) -> Option<(SpecExpr, nat)> {
    if named_comment(s, i) is Some {
        named_comment(s, i)
    } else {
        match comment_string(s, i) {
            Some((body, n)) => Some((SpecExpr::Comment(SpecComment { name: None, body }), n)),
            None => None,
        }
    }
}

/// An expression: a comment, or else an assignment, or else an integer
/// literal, or else a call, or else a reference.
pub open spec fn expr(s: Seq<char>, i: int) -> Option<(SpecExpr, nat)>
    decreases remaining(s, i), 2nat,
{
    if comment(s, i) is Some {
        comment(s, i)
    } else if assignment(s, i) is Some {
        assignment(s, i)
    } else if integer(s, i) is Some {
        integer(s, i)
    } else if function_call(s, i) is Some {
        function_call(s, i)
    } else {
        match reference(s, i) {
            Some((r, n)) => Some((SpecExpr::Ref(r), n)),
            None => None,
        }
    }
}

/// An assignment: `let`, a reference, `=` and an expression, with white
/// space between each two of them.
pub open spec fn assignment(s: Seq<char>, i: int) -> Option<(SpecExpr, nat)>
    decreases remaining(s, i), 1nat,
{
    let gap = white(s, i + 3);
    if at(s, i) == Some('l') && at(s, i + 1) == Some('e') && at(s, i + 2) == Some('t') && gap > 0 {
        match reference(s, i + 3 + gap) {
            Some((target, n)) => {
                let equals = i + 3 + gap + n + white(s, i + 3 + gap + n);
                let value_at = equals + 1 + white(s, equals + 1);
                if white(s, i + 3 + gap + n) > 0 && at(s, equals) == Some('=') && white(
                    s,
                    equals + 1,
                ) > 0 {
                    match expr(s, value_at) {
                        Some((value, m)) => Some(
                            (
                                SpecExpr::Assignment { target, value: Box::new(value) },
                                (value_at + m - i) as nat,
                            ),
                        ),
                        None => None,
                    }
                } else {
                    None
                }
            },
            None => None,
        }
    } else {
        None
    }
}

/// A call: an identifier, directly behind it `(`, the arguments, and `)`.
/// White space may stand on the inner side of both parentheses.
pub open spec fn function_call(s: Seq<char>, i: int) -> Option<(SpecExpr, nat)>
    decreases remaining(s, i), 1nat,
{
    let n = identifier(s, i);
    if n > 0 && at(s, i + n) == Some('(') {
        let first = i + n + 1 + white(s, i + n + 1);
        let (args, m) = arguments(s, first);
        let close = first + m + white(s, first + m);
        if at(s, close) == Some(')') {
            Some(
                (
                    SpecExpr::FunctionCall { target: SpecRef::VarRef(s.subrange(i, i + n)), args },
                    (close + 1 - i) as nat,
                ),
            )
        } else {
            None
        }
    } else {
        None
    }
}

/// The arguments of a call: expressions with `,` between each two of them,
/// as many as there are; white space may stand on both sides of a comma.
pub open spec fn arguments(s: Seq<char>, i: int) -> (Seq<SpecExpr>, nat)
    decreases remaining(s, i), 4nat,
{
    match expr(s, i) {
        Some((first, n)) => {
            let (rest, m) = more_arguments(s, i + n);
            (seq![first] + rest, n + m)
        },
        None => (Seq::empty(), 0),
    }
}

/// The arguments behind an argument that ended at `i`.
pub open spec fn more_arguments(s: Seq<char>, i: int) -> (Seq<SpecExpr>, nat)
    decreases remaining(s, i), 3nat,
{
    let comma = i + white(s, i);
    let next = comma + 1 + white(s, comma + 1);
    if at(s, comma) == Some(',') {
        match expr(s, next) {
            Some((arg, n)) => {
                let (rest, m) = more_arguments(s, next + n);
                (seq![arg] + rest, (next + n + m - i) as nat)
            },
            None => (Seq::empty(), 0),
        }
    } else {
        (Seq::empty(), 0)
    }
}

/// The expressions of a block from `i`: expressions with white space
/// between each two of them, as many as there are.
pub open spec fn items(s: Seq<char>, i: int) -> (Seq<SpecExpr>, nat) {
    match expr(s, i) {
        Some((first, n)) => {
            let (rest, m) = more_items(s, i + n);
            (seq![first] + rest, n + m)
        },
        None => (Seq::empty(), 0),
    }
}

/// The expressions behind an expression that ended at `i`.
pub open spec fn more_items(s: Seq<char>, i: int) -> (Seq<SpecExpr>, nat)
    decreases remaining(s, i),
{
    let gap = white(s, i);
    if gap > 0 {
        match expr(s, i + gap) {
            Some((item, n)) => {
                let (rest, m) = more_items(s, i + gap + n);
                (seq![item] + rest, gap + n + m)
            },
            None => (Seq::empty(), 0),
        }
    } else {
        (Seq::empty(), 0)
    }
}

/// What was missing where a text stopped being a program.
#[derive(Debug, Clone, Copy, PartialEq, Eq, Structural)]
pub enum Expected {
    /// An expression, or the end of the text.
    Expression,
    /// White space behind an expression, or the end of the text.
    Whitespace,
}

/// Why a text is no program.
pub ghost struct SpecParseError {
    /// How many characters of the text are a program.
    pub position: nat,
    pub expected: Expected,
}

/// The program that a text is: white space, the expressions of a block,
/// and white space, up to the end of the text. The white space at both ends
/// may be missing. A text that goes on behind that is no program.
pub open spec fn program(s: Seq<char>) -> Result<Seq<SpecExpr>, SpecParseError> {
    let start = white(s, 0);
    let (block, n) = items(s, start as int);
    let stop = (start + n) as int;
    let end = stop + white(s, stop);
    if end == s.len() {
        Ok(block)
    } else {
        Err(
            SpecParseError {
                position: end as nat,
                expected: if block.len() > 0 && white(s, stop) == 0 {
                    Expected::Whitespace
                } else {
                    Expected::Expression
                },
            },
        )
    }
}

/// A numeral is at least the numeral that it starts with.
pub proof fn lemma_decimal_value_grows(s: Seq<char>, from: int, upto: int, end: int)
    requires
        0 <= from <= upto <= end <= s.len(),
        forall|k: int| from <= k < end ==> is_kind(CharKind::Digit, #[trigger] s[k]),
    ensures
        decimal_value(s.subrange(from, upto)) <= decimal_value(s.subrange(from, end)),
    decreases end - upto,
{
    if upto < end {
        lemma_decimal_value_grows(s, from, upto, end - 1);
        assert(s.subrange(from, end).drop_last() =~= s.subrange(from, end - 1));
        assert(s.subrange(from, end).last() == s[end - 1]);
    }
}

/// Every character of a run is of its kind.
pub proof fn lemma_run_at(s: Seq<char>, i: int, kind: CharKind, k: int)
    requires
        i <= k < i + run(s, i, kind),
    ensures
        0 <= k < s.len(),
        is_kind(kind, s[k]),
    decreases k - i,
{
    if k > i {
        lemma_run_at(s, i + 1, kind, k);
    }
}

} // verus!
