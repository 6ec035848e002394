//! The screen buffer: a grid of width-aware cells, one row per terminal
//! line and one cell per display column.
//!
//! The grid supports bounded in-place text placement (`put_buffer`),
//! resizing that keeps whatever fits (`refresh`), and reconstruction of
//! every line for a full redraw (`lines`).

use crate::row::blanks;
use crate::row::clip_run;
use crate::row::extend_run;
use crate::row::lemma_wf_concat;
use crate::row::merge_char;
use crate::row::wf_at;
use crate::row::lemma_blank_wf;
use crate::row::lemma_blanks_wf;
use crate::row::lemma_clip_wf;
use crate::row::lemma_resize_wf;
use crate::row::lemma_run_text_app;
use crate::row::lemma_run_wf;
use crate::row::lemma_splice_wf;
use crate::row::lemma_take_cols_bound;
use crate::row::put_run;
use crate::row::resize_row;
use crate::row::run_of;
use crate::row::run_text;
use crate::row::splice;
use crate::row::take_cols;
use crate::row::views;
use crate::row::wf_row;
use crate::row::wf_run;
use crate::rune::blank;
use crate::rune::blank_rune;
use crate::rune::is_wide;
use crate::rune::Rune;
use crate::rune::RuneView;
use crate::text::char_to_string;
use crate::text::push_char;
use crate::width::char_cols;
use crate::width::col_width_char;
use crate::width::str_cols;
use vstd::prelude::*;

verus! {

/// The screen buffer.
pub struct Matrix {
    /// Columns of the terminal.
    pub width: usize,
    /// Rows of the terminal.
    pub height: usize,
    /// Width mode used for measuring and placing text.
    pub cjk: bool,
    /// The grid: `height` rows of `width` cells each.
    pub cells: Vec<Vec<Rune>>,
}

impl Matrix {
    /// The cells of row `y`, as values.
    pub open spec fn row_view(self, y: int) -> Seq<RuneView> {
        views(self.cells@[y]@)
    }

    pub open spec fn mode(self) -> bool {
        self.cjk
    }

    /// Every row holds exactly `width` well-formed cells and there are
    /// exactly `height` rows.
    pub open spec fn wf(self) -> bool {
        &&& self.cells@.len() == self.height
        &&& forall|y: int|
            0 <= y < self.height ==> wf_row(#[trigger] self.row_view(y), self.width as int, self.cjk)
    }

    /// A buffer of blank cells with the given dimensions, measuring text
    /// in the default (non-East-Asian) width mode.
    pub fn new(width: usize, height: usize) -> (m: Matrix)
        ensures
            m.wf(),
            m.width == width,
            m.height == height,
            m.mode() == false,
            forall|y: int| 0 <= y < height ==> #[trigger] m.row_view(y) == blanks(width as int),
    {
        Self::with_mode(width, height, false)
    }

    /// A blank buffer with the given dimensions and width mode.
    pub fn with_mode(width: usize, height: usize, cjk: bool) -> (m: Matrix)
        ensures
            m.wf(),
            m.width == width,
            m.height == height,
            m.mode() == cjk,
            forall|y: int| 0 <= y < height ==> #[trigger] m.row_view(y) == blanks(width as int),
    {
        let mut cells: Vec<Vec<Rune>> = Vec::new();
        let mut y: usize = 0;
        while y < height
            invariant
                y <= height,
                cells@.len() == y,
                forall|j: int| 0 <= j < y ==> #[trigger] views(cells@[j]@) =~= blanks(width as int),
            decreases height - y,
        {
            cells.push(blank_row_vec(width));
            y = y + 1;
        }
        let m = Matrix { width, height, cjk, cells };
        proof {
            lemma_blanks_wf(width as int, cjk);
            assert(forall|j: int| 0 <= j < height ==> #[trigger] m.row_view(j) == blanks(
                width as int,
            ));
        }
        m
    }

    /// Resize the grid to `w` columns and `h` rows.  Cells inside the
    /// common region keep their contents (a wide cluster split at the new
    /// right edge is blanked); new cells are blank; rows and columns
    /// beyond the new size are dropped.
    pub fn refresh(&mut self, w: usize, h: usize)
        requires
            old(self).wf(),
        ensures
            final (self).wf(),
            final (self).width == w,
            final (self).height == h,
            final (self).mode() == old(self).mode(),
            forall|y: int|
                0 <= y < h && y < old(self).height ==> #[trigger] final (self).row_view(y)
                    == resize_row(old(self).row_view(y), w as int),
            forall|y: int|
                old(self).height <= y < h ==> #[trigger] final (self).row_view(y) == blanks(
                    w as int,
                ),
    {
        let ghost orig = *self;
        let mut grid: Vec<Vec<Rune>> = Vec::new();
        let mut y: usize = 0;
        while y < h
            invariant
                *self == orig,
                orig.wf(),
                y <= h,
                grid@.len() == y,
                forall|j: int|
                    0 <= j < y && j < orig.height ==> #[trigger] views(grid@[j]@) == resize_row(
                        orig.row_view(j),
                        w as int,
                    ),
                forall|j: int|
                    orig.height <= j < y ==> #[trigger] views(grid@[j]@) == blanks(w as int),
            decreases h - y,
        {
            if y < self.height {
                let row = self.cells[y].clone();
                proof {
                    assert(views(row@) =~= orig.row_view(y as int));
                }
                let resized = resize_row_vec(row, w, Ghost(self.cjk));
                grid.push(resized);
            } else {
                grid.push(blank_row_vec(w));
            }
            y = y + 1;
        }
        self.cells = grid;
        self.width = w;
        self.height = h;
        proof {
            assert forall|j: int| 0 <= j < h implies wf_row(
                #[trigger] self.row_view(j),
                w as int,
                self.cjk,
            ) by {
                if j < orig.height {
                    assert(wf_row(orig.row_view(j), orig.width as int, orig.cjk));
                    lemma_resize_wf(orig.row_view(j), w as int, self.cjk);
                } else {
                    lemma_blanks_wf(w as int, self.cjk);
                }
            }
        }
    }

    /// Blank the whole grid, keeping its dimensions and mode.
    pub fn clear(&mut self)
        requires
            old(self).wf(),
        ensures
            final (self).wf(),
            final (self).width == old(self).width,
            final (self).height == old(self).height,
            final (self).mode() == old(self).mode(),
            forall|y: int|
                0 <= y < final (self).height ==> #[trigger] final (self).row_view(y) == blanks(
                    final (self).width as int,
                ),
    {
        let w = self.width;
        let h = self.height;
        let mut grid: Vec<Vec<Rune>> = Vec::new();
        let mut y: usize = 0;
        while y < h
            invariant
                y <= h,
                grid@.len() == y,
                forall|j: int| 0 <= j < y ==> #[trigger] views(grid@[j]@) =~= blanks(w as int),
            decreases h - y,
        {
            grid.push(blank_row_vec(w));
            y = y + 1;
        }
        self.cells = grid;
        proof {
            lemma_blanks_wf(w as int, self.cjk);
        }
    }

    /// Place `text`, padded or truncated to exactly `width` display
    /// columns, into row `y` starting at column `x`.  The write is clipped
    /// to the buffer width; a wide cluster split at the clip edge or at
    /// either boundary of the span is blanked, never left half.  Returns
    /// the column after the write, clamped to the buffer width, and the
    /// text actually placed (what a terminal write should show).
    pub fn put_buffer(&mut self, x: usize, y: usize, width: usize, text: &str) -> (r: (
        usize,
        String,
    ))
        requires
            old(self).wf(),
            y < old(self).height,
        ensures
            final (self).wf(),
            final (self).width == old(self).width,
            final (self).height == old(self).height,
            final (self).mode() == old(self).mode(),
            forall|j: int|
                0 <= j < old(self).height && j != y ==> #[trigger] final (self).row_view(j) == old(
                    self,
                ).row_view(j),
            final (self).row_view(y as int) == splice(
                old(self).row_view(y as int),
                x as int,
                put_run(text@, x as int, width as int, old(self).width as int, old(self).mode()),
            ),
            r.1@ == run_text(
                put_run(text@, x as int, width as int, old(self).width as int, old(self).mode()),
            ),
            r.0 == if x + width <= old(self).width {
                x + width
            } else {
                old(self).width as int
            },
    {
        let ghost cjk = self.cjk;
        let avail: usize = if x < self.width {
            self.width - x
        } else {
            0
        };
        let (tr, _tc) = truncate_cols(text, width, self.cjk);
        let run0 = build_run(tr.as_str(), self.cjk);
        proof {
            lemma_run_wf(tr@, cjk);
            lemma_take_cols_bound(text@, width as int, cjk);
        }
        let run = fit_run(run0, width, avail, Ghost(self.cjk));
        let vis = row_to_text(&run);
        proof {
            let pre = run_of(take_cols(text@, width as int, cjk), cjk);
            let full = pre + blanks(width - pre.len());
            lemma_blanks_wf(width - pre.len(), cjk);
            if (width - pre.len()) > 0 {
                lemma_blank_wf(cjk);
            }
            lemma_wf_concat(pre, blanks(width - pre.len()), cjk);
            lemma_clip_wf(full, avail as int, cjk);
            assert(views(run@) == put_run(text@, x as int, width as int, self.width as int, cjk));
            assert(views(run@).len() <= avail as int);
        }
        proof {
            assert(wf_row(self.row_view(y as int), self.width as int, cjk));
            assert(self.cells@[y as int]@.len() == self.width);
            assert(run@.len() == views(run@).len());
        }
        splice_row_vec(&mut self.cells[y], x, &run);
        proof {
            let orig = old(self).row_view(y as int);
            assert(wf_row(orig, self.width as int, cjk));
            lemma_splice_wf(orig, x as int, views(run@), cjk);
            assert(self.row_view(y as int) == splice(orig, x as int, views(run@)));
            assert forall|j: int|
                0 <= j < self.height && j != y implies #[trigger] self.row_view(j) == old(
                self,
            ).row_view(j) by {}
        }
        let end = if x >= self.width {
            self.width
        } else if width >= self.width - x {
            self.width
        } else {
            x + width
        };
        (end, vis)
    }

    /// Truncate `s` to at most `w` display columns, then right-pad it with
    /// `pad` to exactly `w` columns.  A padding character that is not one
    /// column wide could never reach the width exactly; a space stands in
    /// for it then.
    pub fn fill_line(&self, s: &str, w: usize, pad: char) -> (r: String)
        ensures
            ({
                let t = take_cols(s@, w as int, self.mode());
                let p = if char_cols(pad, self.mode()) == 1 {
                    pad
                } else {
                    ' '
                };
                r@ == t + Seq::new((w - str_cols(t, self.mode())) as nat, |i: int| p)
            }),
    {
        let (t, cols) = truncate_cols(s, w, self.cjk);
        let p = if col_width_char(pad, self.cjk) == 1 {
            pad
        } else {
            ' '
        };
        let mut out = t;
        let ghost tv = out@;
        let mut i: usize = 0;
        while i < w - cols
            invariant
                i <= w - cols,
                out@ == tv + Seq::new(i as nat, |j: int| p),
            decreases w - cols - i,
        {
            push_char(&mut out, p);
            proof {
                assert(out@ =~= tv + Seq::new((i + 1) as nat, |j: int| p));
            }
            i = i + 1;
        }
        out
    }

    /// The display text of every row, for a full redraw.
    pub fn lines(&self) -> (r: Vec<String>)
        requires
            self.wf(),
        ensures
            r@.len() == self.height,
            forall|y: int| 0 <= y < self.height ==> #[trigger] r@[y]@ == run_text(self.row_view(y)),
    {
        let mut out: Vec<String> = Vec::new();
        let mut y: usize = 0;
        while y < self.height
            invariant
                self.wf(),
                y <= self.height,
                out@.len() == y,
                forall|j: int| 0 <= j < y ==> #[trigger] out@[j]@ == run_text(self.row_view(j)),
            decreases self.height - y,
        {
            let row = &self.cells[y];
            out.push(row_to_text(row));
            y = y + 1;
        }
        out
    }
}

/// A vector of `w` blank cells.
fn blank_row_vec(w: usize) -> (r: Vec<Rune>)
    ensures
        views(r@) == blanks(w as int),
{
    let mut row: Vec<Rune> = Vec::new();
    let mut i: usize = 0;
    while i < w
        invariant
            i <= w,
            row@.len() == i,
            forall|j: int| 0 <= j < i ==> #[trigger] row@[j]@ == blank(),
        decreases w - i,
    {
        row.push(blank_rune());
        i = i + 1;
    }
    proof {
        assert(views(row@) =~= blanks(w as int));
    }
    row
}

/// Resize one row to `w` cells, blanking a wide cluster cut at the edge.
fn resize_row_vec(row: Vec<Rune>, w: usize, Ghost(cjk): Ghost<bool>) -> (r: Vec<Rune>)
    ensures
        views(r@) == resize_row(views(row@), w as int),
{
    let ghost orig = views(row@);
    let mut row = row;
    if row.len() > w {
        row.truncate(w);
        proof {
            assert(views(row@) =~= orig.subrange(0, w as int));
        }
        if w > 0 {
            let wide = match &row[w - 1] {
                Rune::UStr(_, cols) => *cols == 2,
                Rune::Pad => false,
            };
            if wide {
                row[w - 1] = blank_rune();
            }
        }
        proof {
            assert(views(row@) =~= clip_run(orig, w as int));
            assert(views(row@) =~= resize_row(orig, w as int));
        }
    } else {
        while row.len() < w
            invariant
                orig.len() <= row@.len() <= w,
                views(row@) =~= orig + blanks(row@.len() - orig.len()),
            decreases w - row@.len(),
        {
            let ghost pre = views(row@);
            row.push(blank_rune());
            proof {
                assert(row@.last()@ == blank());
                assert(views(row@) =~= pre.push(blank()));
                assert(views(row@) =~= orig + blanks(row@.len() - orig.len()));
            }
        }
        proof {
            assert(clip_run(orig, w as int) == orig);
            assert(views(row@) =~= resize_row(orig, w as int));
        }
    }
    row
}

/// Law of bounded writes, at the buffer: after `put_buffer(x, y, w, text)`
/// with a text whose measure fits `w` and a span inside the buffer,
/// reading row `y`'s columns `[x, x + w)` back gives the text padded with
/// spaces to exactly `w` columns.  (`put_buffer`'s contract gives the new
/// row below; a text beginning with a zero-width character is the one
/// exception, as that character has no cluster to merge into.)
pub proof fn lemma_put_buffer_reads_back(m: Matrix, x: int, y: int, w: int, text: Seq<char>)
    requires
        m.wf(),
        0 <= y < m.height,
        0 <= x,
        x + w <= m.width,
        str_cols(text, m.mode()) <= w,
        text.len() > 0 ==> char_cols(text[0], m.mode()) > 0,
    ensures
        ({
            let row = splice(
                m.row_view(y),
                x,
                put_run(text, x, w, m.width as int, m.mode()),
            );
            run_text(row.subrange(x, x + w)) == text + Seq::new(
                (w - str_cols(text, m.mode())) as nat,
                |i: int| ' ',
            )
        }),
{
    assert(wf_row(m.row_view(y), m.width as int, m.cjk));
    crate::row::lemma_put_reads_back(m.row_view(y), x, w, m.width as int, text, m.cjk);
}

/// The longest prefix of `s` that fits in `w` columns, and its measure.
pub fn truncate_cols(s: &str, w: usize, cjk: bool) -> (r: (String, usize))
    ensures
        r.0@ == take_cols(s@, w as int, cjk),
        r.1 == str_cols(r.0@, cjk),
        r.1 <= w,
{
    let n = s.unicode_len();
    let mut out = String::new();
    let mut cols: usize = 0;
    let mut i: usize = 0;
    let mut done = false;
    proof {
        assert(s@.subrange(0, n as int) =~= s@);
        assert(Seq::<char>::empty() + take_cols(s@, w as int, cjk) =~= take_cols(s@, w as int, cjk));
    }
    while i < n && !done
        invariant
            i <= n,
            n == s@.len(),
            cols == str_cols(out@, cjk),
            cols <= w,
            !done ==> take_cols(s@, w as int, cjk) == out@ + take_cols(
                s@.subrange(i as int, n as int),
                w - cols,
                cjk,
            ),
            done ==> out@ == take_cols(s@, w as int, cjk),
        decreases n - i, (if done { 0int } else { 1int }),
    {
        let c = s.get_char(i);
        let cw = col_width_char(c, cjk);
        let ghost rest = s@.subrange(i as int, n as int);
        proof {
            assert(rest[0] == s@[i as int]);
        }
        if cw <= w - cols {
            let ghost pre = out@;
            push_char(&mut out, c);
            proof {
                assert(rest.drop_first() =~= s@.subrange(i + 1, n as int));
                assert(take_cols(rest, w - cols, cjk) == seq![c] + take_cols(
                    rest.drop_first(),
                    w - cols - cw,
                    cjk,
                ));
                assert(out@ =~= pre.push(c));
                assert(pre + (seq![c] + take_cols(rest.drop_first(), w - cols - cw, cjk)) =~= out@
                    + take_cols(rest.drop_first(), w - cols - cw, cjk));
                assert(out@.drop_last() =~= pre);
                assert(str_cols(out@, cjk) == str_cols(pre, cjk) + cw);
            }
            cols = cols + cw;
            i = i + 1;
        } else {
            done = true;
            proof {
                assert(take_cols(rest, w - cols, cjk) =~= Seq::<char>::empty());
                assert(out@ + take_cols(rest, w - cols, cjk) =~= out@);
            }
        }
    }
    proof {
        if !done {
            assert(s@.subrange(i as int, n as int).len() == 0);
            assert(take_cols(s@.subrange(i as int, n as int), w - cols, cjk) =~= Seq::<
                char,
            >::empty());
            assert(out@ + take_cols(s@.subrange(i as int, n as int), w - cols, cjk) =~= out@);
        }
    }
    (out, cols)
}

/// Convert a string into its run of cells, merging zero-width characters
/// into the cluster before them.
fn build_run(s: &str, cjk: bool) -> (r: Vec<Rune>)
    ensures
        views(r@) == run_of(s@, cjk),
{
    let n = s.unicode_len();
    let mut run: Vec<Rune> = Vec::new();
    let mut i: usize = 0;
    while i < n
        invariant
            i <= n,
            n == s@.len(),
            views(run@) == run_of(s@.subrange(0, i as int), cjk),
        decreases n - i,
    {
        let c = s.get_char(i);
        let cw = col_width_char(c, cjk);
        let ghost pre = views(run@);
        proof {
            lemma_run_wf(s@.subrange(0, i as int), cjk);
        }
        if cw == 0 {
            if run.len() > 0 {
                proof {
                    assert(wf_at(pre, cjk, pre.len() - 1));
                }
                let lastpad = match &run[run.len() - 1] {
                    Rune::Pad => true,
                    Rune::UStr(_, _) => false,
                };
                if lastpad {
                    let pad = run.pop().unwrap();
                    let cell = run.pop().unwrap();
                    match cell {
                        Rune::UStr(mut cs, cols) => {
                            push_char(&mut cs, c);
                            run.push(Rune::UStr(cs, cols));
                        },
                        Rune::Pad => {
                            run.push(Rune::Pad);
                        },
                    }
                    run.push(Rune::Pad);
                    proof {
                        assert(views(run@) =~= pre.update(
                            pre.len() - 2,
                            merge_char(pre[pre.len() - 2], c),
                        ));
                    }
                } else {
                    let cell = run.pop().unwrap();
                    match cell {
                        Rune::UStr(mut cs, cols) => {
                            push_char(&mut cs, c);
                            run.push(Rune::UStr(cs, cols));
                        },
                        Rune::Pad => {
                            run.push(Rune::Pad);
                        },
                    }
                    proof {
                        assert(views(run@) =~= pre.update(
                            pre.len() - 1,
                            merge_char(pre[pre.len() - 1], c),
                        ));
                    }
                }
            }
        } else if cw == 1 {
            run.push(Rune::UStr(char_to_string(c), 1));
            proof {
                assert(views(run@) =~= pre.push(RuneView::Text { text: seq![c], cols: 1 }));
            }
        } else {
            run.push(Rune::UStr(char_to_string(c), 2));
            run.push(Rune::Pad);
            proof {
                assert(views(run@) =~= pre.push(RuneView::Text { text: seq![c], cols: 2 }).push(
                    RuneView::Pad,
                ));
            }
        }
        proof {
            assert(s@.subrange(0, i + 1).drop_last() =~= s@.subrange(0, i as int));
            assert(s@.subrange(0, i + 1).last() == s@[i as int]);
            assert(views(run@) == extend_run(pre, c, cjk));
        }
        i = i + 1;
    }
    proof {
        assert(s@.subrange(0, n as int) =~= s@);
    }
    run
}

/// Pad the run with blanks to `width` cells, then keep only the first
/// `avail`; a wide cluster cut at the edge becomes a blank.
fn fit_run(run: Vec<Rune>, width: usize, avail: usize, Ghost(cjk): Ghost<bool>) -> (r: Vec<Rune>)
    requires
        run@.len() <= width,
        wf_run(views(run@), cjk),
    ensures
        views(r@) == clip_run(
            views(run@) + blanks(width - views(run@).len()),
            avail as int,
        ),
{
    let ghost pre = views(run@);
    let ghost full = pre + blanks(width - pre.len());
    let k = if width <= avail {
        width
    } else {
        avail
    };
    let mut run = run;
    if run.len() > k {
        run.truncate(k);
        proof {
            assert(views(run@) =~= pre.subrange(0, k as int));
            assert(full.subrange(0, k as int) =~= pre.subrange(0, k as int));
        }
        if k > 0 {
            let wide = match &run[k - 1] {
                Rune::UStr(_, cols) => *cols == 2,
                Rune::Pad => false,
            };
            if wide {
                run[k - 1] = blank_rune();
            }
        }
        proof {
            assert(views(run@) =~= clip_run(full, avail as int));
        }
    } else {
        while run.len() < k
            invariant
                pre.len() <= run@.len() <= k,
                views(run@) =~= pre + blanks(run@.len() - pre.len()),
            decreases k - run@.len(),
        {
            let ghost step = views(run@);
            run.push(blank_rune());
            proof {
                assert(run@.last()@ == blank());
                assert(views(run@) =~= step.push(blank()));
                assert(views(run@) =~= pre + blanks(run@.len() - pre.len()));
            }
        }
        proof {
            if width <= avail {
                assert(full.len() <= avail as int);
                assert(views(run@) =~= full);
            } else {
                assert(k == avail < width == full.len());
                assert(views(run@) =~= full.subrange(0, avail as int));
                if avail > 0 {
                    let last = full[avail as int - 1];
                    if avail as int - 1 < pre.len() {
                        if is_wide(last) {
                            assert(wf_at(pre, cjk, avail as int - 1));
                            assert(false);
                        }
                    } else {
                        assert(last == blank());
                        lemma_blank_wf(cjk);
                    }
                    assert(!is_wide(last));
                }
                assert(views(run@) =~= clip_run(full, avail as int));
            }
        }
    }
    run
}

/// Replace the cells of `row` at `[x, x + run.len())` by `run`, blanking
/// a wide cluster split at either edge of the span.
fn splice_row_vec(row: &mut Vec<Rune>, x: usize, run: &Vec<Rune>)
    requires
        run@.len() > 0 ==> x + run@.len() <= old(row)@.len(),
    ensures
        views(final (row)@) == splice(views(old(row)@), x as int, views(run@)),
{
    let ghost orig = views(old(row)@);
    let ghost vrun = views(run@);
    let k = run.len();
    let rl = row.len();
    if k > 0 {
        let mut i: usize = 0;
        while i < k
            invariant
                i <= k,
                vrun == views(run@),
                k == vrun.len(),
                k == run@.len(),
                x + k <= rl,
                rl == row@.len(),
                rl == orig.len(),
                forall|j: int| 0 <= j < orig.len() && !(x <= j < x + i) ==> views(row@)[j] == orig[j],
                forall|j: int| x <= j < x + i ==> views(row@)[j] == vrun[j - x],
            decreases k - i,
        {
            let ghost pr = views(row@);
            let cell = run[i].clone();
            let ghost cv = cell@;
            proof {
                assert(cell == run@[i as int]);
                assert(views(run@)[i as int] == run@[i as int]@);
                assert(cv == vrun[i as int]);
            }
            row[x + i] = cell;
            proof {
                assert(row@[x + i]@ == cv);
                assert(views(row@) =~= pr.update(x + i, cv));
            }
            i = i + 1;
        }
        if x > 0 {
            let wide = match &row[x - 1] {
                Rune::UStr(_, cols) => *cols == 2,
                Rune::Pad => false,
            };
            if wide {
                let ghost pr = views(row@);
                row[x - 1] = blank_rune();
                proof {
                    assert(views(row@) =~= pr.update(x - 1, blank()));
                }
            }
        }
        if x + k < rl {
            let pad = match &row[x + k] {
                Rune::Pad => true,
                Rune::UStr(_, _) => false,
            };
            if pad {
                let ghost pr = views(row@);
                row[x + k] = blank_rune();
                proof {
                    assert(views(row@) =~= pr.update(x + k, blank()));
                }
            }
        }
        proof {
            assert(views(row@) =~= splice(orig, x as int, vrun));
        }
    }
}

/// The display text of one row: its cluster texts concatenated.
fn row_to_text(row: &Vec<Rune>) -> (r: String)
    ensures
        r@ == run_text(views(row@)),
{
    let mut out = String::new();
    let mut i: usize = 0;
    while i < row.len()
        invariant
            i <= row@.len(),
            out@ == run_text(views(row@).subrange(0, i as int)),
        decreases row@.len() - i,
    {
        match &row[i] {
            Rune::UStr(s, _) => {
                out.append(s.as_str());
            },
            Rune::Pad => {},
        }
        proof {
            let v = views(row@);
            assert(v.subrange(0, i + 1).drop_last() =~= v.subrange(0, i as int));
            assert(v.subrange(0, i + 1).last() == v[i as int]);
        }
        i = i + 1;
    }
    proof {
        assert(views(row@).subrange(0, row@.len() as int) =~= views(row@));
    }
    out
}

} // verus!
