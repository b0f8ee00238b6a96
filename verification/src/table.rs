//! The table printer, and the cells that it can be given.
//!
//! The printer takes what stands in a cell between the escape character
//! with `[` behind it and the next `m` for a control sequence that a
//! terminal does not show. It counts the characters of such sequences that
//! have a width of their own and takes the count off the width of the line.
//! A line whose width is less than the count makes it fail, so such a line
//! is in no cell that it is given.

use crate::text::{chars_of, lines, lines_of, texts};
use prettytable::format::consts::FORMAT_CLEAN;
use prettytable::{Cell, Row, Table};
use unicode_width::{UnicodeWidthChar, UnicodeWidthStr};
use vstd::prelude::*;

verus! {

/// The columns that a string takes when it is shown, as
/// `UnicodeWidthStr::width` measures them.
pub uninterp spec fn str_width(s: Seq<char>) -> nat;

/// The columns that a character takes when it is shown alone, as
/// `UnicodeWidthChar::width` measures them; none for a control character.
pub uninterp spec fn char_width(c: char) -> Option<nat>;

/// The text in which the table printer lays out `rows` of cells, in its
/// format without borders and separators, each cell padded by one space on
/// both sides. It depends on the cells alone.
pub uninterp spec fn clean_table_text(rows: Seq<Seq<Seq<char>>>) -> Seq<char>;

/// Measures a string with `UnicodeWidthStr::width` of `unicode-width`. The
/// width depends on the characters alone and is named [`str_width`].
#[verifier::external_body]
fn width_of_str(s: &str) -> (width: usize)
    ensures
        width == str_width(s@),
{
    UnicodeWidthStr::width(s)
}

/// Measures a character with `UnicodeWidthChar::width` of `unicode-width`.
/// The width depends on the character alone and is named [`char_width`].
#[verifier::external_body]
fn width_of_char(c: char) -> (width: Option<usize>)
    ensures
        match width {
            Some(w) => char_width(c) == Some(w as nat),
            None => char_width(c) is None,
        },
{
    UnicodeWidthChar::width(c)
}

/// Where the printer is in a line: outside a control sequence, behind an
/// escape character that may start one, or inside one.
#[derive(Debug, Clone, Copy, PartialEq, Eq, Structural)]
pub enum Place {
    Outside,
    Started,
    Inside,
}

/// Where the printer is when it has taken `c` at `place`.
pub open spec fn entered(place: Place, c: char) -> Place {
    match place {
        Place::Outside => if c == '\u{1b}' {
            Place::Started
        } else {
            Place::Outside
        },
        Place::Started => if c == '[' {
            Place::Inside
        } else {
            Place::Outside
        },
        Place::Inside => Place::Inside,
    }
}

/// How many characters of `text`, read from `place`, the printer counts as
/// hidden: those of control sequences, from the `[` to the `m` that ends
/// one, that have a width of their own.
pub open spec fn hidden(text: Seq<char>, place: Place) -> nat
    decreases text.len(),
{
    if text.len() == 0 {
        0
    } else {
        let c = text[0];
        let now = entered(place, c);
        let counted: nat = if now == Place::Inside && (char_width(c) matches Some(w) && w > 0) {
            1
        } else {
            0
        };
        let next = if place == Place::Inside && c == 'm' {
            Place::Outside
        } else {
            now
        };
        counted + hidden(text.drop_first(), next)
    }
}

/// The printer can measure the line: its width is not less than what is
/// counted as hidden in it.
pub open spec fn measurable(line: Seq<char>) -> bool {
    str_width(line) >= hidden(line, Place::Outside)
}

/// The printer can take the cell: it can measure each of its lines.
pub open spec fn printable(cell: Seq<char>) -> bool {
    forall|k: int| 0 <= k < lines(cell).len() ==> measurable(#[trigger] lines(cell)[k])
}

/// Decides [`measurable`].
fn can_measure(line: &str) -> (yes: bool)
    ensures
        yes == measurable(line@),
{
    let chars = chars_of(line);
    let mut count: usize = 0;
    let mut place = Place::Outside;
    let mut i: usize = 0;
    assert(chars@.skip(0) =~= chars@);
    while i < chars.len()
        invariant
            i <= chars.len(),
            count <= i,
            hidden(chars@, Place::Outside) == count + hidden(chars@.skip(i as int), place),
        decreases chars.len() - i,
    {
        let c = chars[i];
        let now = match place {
            Place::Outside => if c == '\u{1b}' {
                Place::Started
            } else {
                Place::Outside
            },
            Place::Started => if c == '[' {
                Place::Inside
            } else {
                Place::Outside
            },
            Place::Inside => Place::Inside,
        };
        let mut wide = false;
        if now == Place::Inside {
            wide = match width_of_char(c) {
                Some(w) => w > 0,
                None => false,
            };
        }
        proof {
            assert(chars@.skip(i as int)[0] == c);
            assert(chars@.skip(i as int).drop_first() =~= chars@.skip(i + 1));
        }
        if wide {
            count += 1;
        }
        place = if place == Place::Inside && c == 'm' {
            Place::Outside
        } else {
            now
        };
        i += 1;
    }
    assert(chars@.skip(i as int) =~= Seq::<char>::empty());
    width_of_str(line) >= count
}

/// Decides [`printable`].
pub fn can_print(cell: &str) -> (yes: bool)
    ensures
        yes == printable(cell@),
{
    let found = lines_of(cell);
    let mut i: usize = 0;
    while i < found.len()
        invariant
            i <= found.len(),
            texts(found@) == lines(cell@),
            forall|k: int| 0 <= k < i ==> measurable(#[trigger] lines(cell@)[k]),
        decreases found.len() - i,
    {
        assert(lines(cell@)[i as int] == found@[i as int]@);
        if !can_measure(found[i].as_str()) {
            return false;
        }
        i += 1;
    }
    true
}

/// Lays out rows of cells with the table printer of `prettytable`: makes a
/// `Table` with `Table::new`, gives it the format `FORMAT_CLEAN` with
/// `set_format`, adds each row with `add_row` as a `Row` of one `Cell` for
/// each cell, and writes the table with `to_string`. The printer fails on a
/// cell with a line that it cannot measure, so every cell is to be
/// [`printable`]. The text depends on the cells alone and is named
/// [`clean_table_text`].
#[verifier::external_body]
pub(crate) fn render_clean_table(rows: &Vec<Vec<String>>) -> (text: String)
    requires
        forall|i: int, j: int|
            0 <= i < rows.len() && 0 <= j < rows[i].len() ==> printable(
                (#[trigger] rows[i][j])@,
            ),
    ensures
        text@ == clean_table_text(rows.deep_view()),
{
    let mut table = Table::new();
    table.set_format(*FORMAT_CLEAN);
    for row in rows {
        let mut cells: Vec<Cell> = Vec::new();
        for name in row {
            cells.push(Cell::new(name));
        }
        table.add_row(Row::new(cells));
    }
    table.to_string()
}

} // verus!
