//! What the two viewers share: the keys they know, and what they ask of the
//! text buffer and the screen.
use vstd::prelude::*;

verus! {

/// A row, a column or a distance on the screen.
pub type CoordType = isize;

/// What a key means in a viewer.
#[derive(Debug, Clone, Copy, PartialEq, Eq, Structural)]
pub enum ViewerKey {
    Quit,
    Copy,
    SelectAll,
    ToggleWrap,
    Reload,
    ScrollLines(CoordType),
    ScrollPages(CoordType),
    ScrollColumns(CoordType),
    ToTop,
    ToBottom,
}

/// One thing to do with the text buffer or the screen.
#[derive(Debug, Clone, Copy, PartialEq, Eq, Structural)]
pub enum ViewOp {
    /// Lets the buffer be written to, or not.
    SetReadOnly(bool),
    /// Reads the file into the buffer.
    ReadFile,
    /// Highlights the buffer as the file's language.
    SetLanguage,
    /// Shows line numbers, or not.
    SetMargin(bool),
    /// Wraps long lines, or not.
    SetWordWrap(bool),
    /// Appends the bytes that were read to the end.
    WriteRaw,
    /// Moves the cursor behind the last character.
    CursorToEnd,
    /// Moves the cursor to the start of a line, counted from 0.
    CursorToLine(CoordType),
    /// Puts the last line on the bottom edge.
    ScrollToTail,
    /// Scrolls down by rows.
    ScrollY(CoordType),
    /// Scrolls right by columns.
    ScrollX(CoordType),
    /// Copies the selection.
    Copy,
    /// Selects everything.
    SelectAll,
    /// Draws the screen again.
    Rerender,
}

/// What a viewer does about a key.
#[derive(Debug)]
pub enum ViewAction {
    /// Closes the viewer.
    Quit,
    /// Reads the file again.
    Reload,
    /// Does these things.
    Do(Vec<ViewOp>),
}

/// The rows below the header line: at least one.
pub open spec fn body_rows(height: int) -> int {
    if height - 1 > 1 {
        height - 1
    } else {
        1
    }
}

/// The rows below the header line, on a screen of `height` rows.
pub fn body_height(height: CoordType) -> (rows: CoordType)
    ensures
        rows == body_rows(height as int),
{
    if height > 2 {
        height - 1
    } else {
        1
    }
}

/// The rows that a page key moves by: one less than the body has, so that one
/// row stays in sight, and at least one.
pub open spec fn page_rows(body: int) -> int {
    if body - 1 > 1 {
        body - 1
    } else {
        1
    }
}

/// The rows that a page key moves by.
pub fn page_height(body: CoordType) -> (rows: CoordType)
    ensures
        rows == page_rows(body as int),
        rows >= 1,
{
    if body > 2 {
        body - 1
    } else {
        1
    }
}

/// What loads a file into a viewer for the first time.
pub fn load_ops(show_numbers: bool, wrap: bool) -> (ops: Vec<ViewOp>)
    ensures
        ops@ == seq![
            ViewOp::ReadFile,
            ViewOp::SetLanguage,
            ViewOp::SetMargin(show_numbers),
            ViewOp::SetWordWrap(wrap),
            ViewOp::SetReadOnly(true),
        ],
{
    vec![
        ViewOp::ReadFile,
        ViewOp::SetLanguage,
        ViewOp::SetMargin(show_numbers),
        ViewOp::SetWordWrap(wrap),
        ViewOp::SetReadOnly(true),
    ]
}

/// Whether the buffer is laid out again once the terminal has said how wide it
/// draws ambiguous characters: the file was measured at width one before.
pub fn reflow_on_ambiguous_width(ambiguous_width: CoordType) -> (r: bool)
    ensures
        r == (ambiguous_width == 2),
{
    ambiguous_width == 2
}

/// The header takes one row of the screen, and a page moves by one row less than
/// is left, so that a row stays in sight; there is always at least one row for
/// either.
pub proof fn rows_of_the_body_and_of_a_page(height: int, body: int)
    ensures
        height >= 2 ==> body_rows(height) == height - 1,
        height < 2 ==> body_rows(height) == 1,
        body >= 2 ==> page_rows(body) == body - 1,
        body < 2 ==> page_rows(body) == 1,
{
}

} // verus!
