//! The cell model of the screen buffer.
//!
//! A `Rune` is one cell of a row: either a displayed text cluster together
//! with its measured column width, or a `Pad` placeholder that stands for
//! the second column of a two-column cluster.  A zero-width character (a
//! combining mark) never gets a cell of its own: it is merged into the text
//! of the cell before it.

use crate::text::char_to_string;
use crate::text::push_char;
use crate::width::char_cols;
use crate::width::str_cols;
use vstd::prelude::*;

verus! {

/// Mathematical value of one cell.
pub enum RuneView {
    Text { text: Seq<char>, cols: int },
    Pad,
}

/// One cell of a screen-buffer row.
pub enum Rune {
    /// A text cluster and the display columns it was measured at.
    UStr(String, usize),
    /// The second column of the two-column cluster directly before it.
    Pad,
}

impl View for Rune {
    type V = RuneView;

    open spec fn view(&self) -> RuneView {
        match self {
            Rune::UStr(s, w) => RuneView::Text { text: s@, cols: *w as int },
            Rune::Pad => RuneView::Pad,
        }
    }
}

pub open spec fn is_pad(r: RuneView) -> bool {
    r is Pad
}

/// A cell whose cluster spans two columns.
pub open spec fn is_wide(r: RuneView) -> bool {
    match r {
        RuneView::Text { text, cols } => cols == 2,
        RuneView::Pad => false,
    }
}

pub open spec fn rune_text(r: RuneView) -> Seq<char> {
    match r {
        RuneView::Text { text, cols } => text,
        RuneView::Pad => Seq::empty(),
    }
}

pub open spec fn rune_cols(r: RuneView) -> int {
    match r {
        RuneView::Text { text, cols } => cols,
        RuneView::Pad => 0,
    }
}

/// A well-formed cell: its stored width is the measured width of its text,
/// a cluster spans one or two columns, and its text is never empty.
pub open spec fn cell_wf(r: RuneView, cjk: bool) -> bool {
    match r {
        RuneView::Text { text, cols } => {
            &&& cols == str_cols(text, cjk)
            &&& (cols == 1 || cols == 2)
            &&& text.len() >= 1
        },
        RuneView::Pad => true,
    }
}

/// The blank cell: one space, one column.
pub open spec fn blank() -> RuneView {
    RuneView::Text { text: seq![' '], cols: 1 }
}

impl Clone for Rune {
    fn clone(&self) -> (r: Rune)
        ensures
            r == *self,
    {
        match self {
            Rune::UStr(s, w) => Rune::UStr(s.clone(), *w),
            Rune::Pad => Rune::Pad,
        }
    }
}

impl Rune {
    /// A cell holding `s` at its measured width.  If the measure does not
    /// fit a machine word the stored width saturates; every string a
    /// terminal row can hold is far below that.
    pub fn from_str(s: &str, cjk: bool) -> (r: Rune)
        ensures
            str_cols(s@, cjk) <= usize::MAX ==> r@ == (RuneView::Text {
                text: s@,
                cols: str_cols(s@, cjk) as int,
            }),
            rune_text(r@) == s@,
    {
        let w = crate::width::col_width_str(s, cjk);
        Rune::UStr(s.to_owned(), w)
    }

    /// Append `s` to the cell's text and return the combination measured
    /// afresh; the cell itself keeps the width it was measured at.  On a
    /// `Pad` this does nothing and returns a `Pad`.
    pub fn push_str(&mut self, s: &str, cjk: bool) -> (r: Rune)
        ensures
            match old(self)@ {
                RuneView::Text { text, cols } => {
                    &&& final (self)@ == (RuneView::Text { text: text + s@, cols: cols })
                    &&& rune_text(r@) == text + s@
                    &&& (str_cols(text + s@, cjk) <= usize::MAX ==> r@ == (RuneView::Text {
                        text: text + s@,
                        cols: str_cols(text + s@, cjk) as int,
                    }))
                },
                RuneView::Pad => final (self)@ == RuneView::Pad && r@ == RuneView::Pad,
            },
    {
        match self {
            Rune::UStr(os, _) => {
                os.append(s);
                Rune::from_str(os.as_str(), cjk)
            },
            Rune::Pad => Rune::Pad,
        }
    }
}

/// The blank cell as a value.
pub fn blank_rune() -> (r: Rune)
    ensures
        r@ == blank(),
        cell_wf(r@, true),
        cell_wf(r@, false),
{
    let s = char_to_string(' ');
    proof {
        assert(seq![' '].drop_last() =~= Seq::<char>::empty());
        assert(seq![' '].last() == ' ');
        assert(str_cols(Seq::<char>::empty(), true) == 0);
        assert(str_cols(Seq::<char>::empty(), false) == 0);
        assert(str_cols(seq![' '], true) == char_cols(' ', true));
        assert(str_cols(seq![' '], false) == char_cols(' ', false));
    }
    Rune::UStr(s, 1)
}

} // verus!
