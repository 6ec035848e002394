//! The mathematical model of one screen-buffer row and of the text runs
//! spliced into it.
//!
//! A row is a sequence of cells, one per display column.  A two-column
//! cluster owns the following `Pad` cell; well-formedness says exactly
//! that, and every operation here preserves it, so that no operation can
//! ever leave half of a wide glyph on the screen.

use crate::rune::blank;
use crate::rune::cell_wf;
use crate::rune::is_pad;
use crate::rune::is_wide;
use crate::rune::rune_text;
use crate::rune::Rune;
use crate::rune::RuneView;
use crate::width::char_cols;
use crate::width::str_cols;
use vstd::prelude::*;

verus! {

/// The views of a sequence of cells.
pub open spec fn views(s: Seq<Rune>) -> Seq<RuneView> {
    s.map_values(|r: Rune| r@)
}

/// The text a run of cells displays: its cluster texts in order.
pub open spec fn run_text(run: Seq<RuneView>) -> Seq<char>
    decreases run.len(),
{
    if run.len() == 0 {
        Seq::empty()
    } else {
        run_text(run.drop_last()) + rune_text(run.last())
    }
}

/// `k` blank cells.
pub open spec fn blanks(k: int) -> Seq<RuneView> {
    Seq::new(if k >= 0 {
        k as nat
    } else {
        0
    }, |i: int| blank())
}

/// Appending `c` to the run: a zero-width character is merged into the
/// last cluster (or dropped if there is none), a one-column character
/// becomes one cell, a two-column character a cell plus its `Pad`.
pub open spec fn extend_run(run: Seq<RuneView>, c: char, cjk: bool) -> Seq<RuneView> {
    let w = char_cols(c, cjk);
    if w == 0 {
        if run.len() == 0 {
            run
        } else if is_pad(run.last()) {
            run.update(run.len() - 2, merge_char(run[run.len() - 2], c))
        } else {
            run.update(run.len() - 1, merge_char(run.last(), c))
        }
    } else if w == 1 {
        run.push(RuneView::Text { text: seq![c], cols: 1 })
    } else {
        run.push(RuneView::Text { text: seq![c], cols: 2 }).push(RuneView::Pad)
    }
}

pub open spec fn merge_char(r: RuneView, c: char) -> RuneView {
    match r {
        RuneView::Text { text, cols } => RuneView::Text { text: text.push(c), cols: cols },
        RuneView::Pad => RuneView::Pad,
    }
}

/// The run of cells that displays `s`.
pub open spec fn run_of(s: Seq<char>, cjk: bool) -> Seq<RuneView>
    decreases s.len(),
{
    if s.len() == 0 {
        Seq::empty()
    } else {
        extend_run(run_of(s.drop_last(), cjk), s.last(), cjk)
    }
}

/// The longest prefix of `s` that fits in `w` columns.
pub open spec fn take_cols(s: Seq<char>, w: int, cjk: bool) -> Seq<char>
    decreases s.len(),
{
    if s.len() == 0 {
        s
    } else {
        let cw = char_cols(s[0], cjk) as int;
        if cw <= w {
            seq![s[0]] + take_cols(s.drop_first(), w - cw, cjk)
        } else {
            Seq::empty()
        }
    }
}

/// The run that displays `s` padded or truncated to exactly `w` columns.
pub open spec fn full_run(s: Seq<char>, w: int, cjk: bool) -> Seq<RuneView> {
    let r = run_of(take_cols(s, w, cjk), cjk);
    r + blanks(w - r.len())
}

/// The run of cells that a bounded write places: `text` padded or
/// truncated to `width` columns, clipped to what fits between column `x`
/// and the buffer width `bufw`.
pub open spec fn put_run(text: Seq<char>, x: int, width: int, bufw: int, cjk: bool) -> Seq<
    RuneView,
> {
    let avail = if x < bufw {
        bufw - x
    } else {
        0
    };
    clip_run(full_run(text, width, cjk), avail)
}

/// The first `avail` cells of a run; a wide cluster cut from its `Pad`
/// becomes a blank, never half a glyph.
pub open spec fn clip_run(run: Seq<RuneView>, avail: int) -> Seq<RuneView> {
    if run.len() <= avail {
        run
    } else if avail <= 0 {
        Seq::empty()
    } else {
        let t = run.subrange(0, avail);
        if is_wide(t[avail - 1]) {
            t.update(avail - 1, blank())
        } else {
            t
        }
    }
}

/// Replace the cells at `[x, x + run.len())` of `row` by `run`.  A wide
/// cluster of the old row split at either boundary is blanked: losing its
/// `Pad` (at the left edge) or its owner (at the right edge) must not
/// leave half a glyph behind.  All other cells keep their value.
pub open spec fn splice(row: Seq<RuneView>, x: int, run: Seq<RuneView>) -> Seq<RuneView> {
    let k = run.len();
    if k == 0 {
        row
    } else {
        let mid = Seq::new(row.len(), |i: int| if x <= i < x + k {
            run[i - x]
        } else {
            row[i]
        });
        let left = if x > 0 && x - 1 < row.len() && is_wide(row[x - 1]) {
            mid.update(x - 1, blank())
        } else {
            mid
        };
        if x + k < row.len() && is_pad(row[x + k]) {
            left.update(x + k, blank())
        } else {
            left
        }
    }
}

/// Well-formedness of a run at one position: the cell itself is sound, a
/// `Pad` stands exactly after a wide cluster, and a wide cluster is never
/// the last cell.
pub open spec fn wf_at(run: Seq<RuneView>, cjk: bool, i: int) -> bool {
    &&& cell_wf(run[i], cjk)
    &&& (is_pad(run[i]) <==> (i > 0 && is_wide(run[i - 1])))
    &&& (is_wide(run[i]) ==> i + 1 < run.len())
}

/// A well-formed run of cells.
pub open spec fn wf_run(run: Seq<RuneView>, cjk: bool) -> bool {
    forall|i: int| 0 <= i < run.len() ==> #[trigger] wf_at(run, cjk, i)
}

/// A well-formed row: a well-formed run of exactly `w` cells.
pub open spec fn wf_row(row: Seq<RuneView>, w: int, cjk: bool) -> bool {
    &&& row.len() == w
    &&& wf_run(row, cjk)
}

/// A row resized to `w` columns: cut (mending a split wide cluster) or
/// blank-filled at the right.
pub open spec fn resize_row(row: Seq<RuneView>, w: int) -> Seq<RuneView> {
    let t = clip_run(row, w);
    t + blanks(w - t.len())
}

pub proof fn lemma_blank_wf(cjk: bool)
    ensures
        cell_wf(blank(), cjk),
        !is_wide(blank()),
        !is_pad(blank()),
        rune_text(blank()) == seq![' '],
{
    assert(seq![' '].drop_last() =~= Seq::<char>::empty());
    assert(seq![' '].last() == ' ');
    assert(str_cols(Seq::<char>::empty(), cjk) == 0);
    assert(str_cols(seq![' '], cjk) == char_cols(' ', cjk));
}

pub proof fn lemma_blanks_wf(k: int, cjk: bool)
    ensures
        wf_run(blanks(k), cjk),
        run_text(blanks(k)) == Seq::new(if k >= 0 {
            k as nat
        } else {
            0
        }, |i: int| ' '),
    decreases k,
{
    lemma_blank_wf(cjk);
    if k <= 0 {
        assert(blanks(k).len() == 0);
        assert(run_text(blanks(k)) =~= Seq::new(0, |i: int| ' '));
    } else {
        lemma_blanks_wf(k - 1, cjk);
        assert(blanks(k).drop_last() =~= blanks(k - 1));
        assert(blanks(k).last() == blank());
        assert(run_text(blanks(k)) == run_text(blanks(k - 1)) + seq![' ']);
        assert(run_text(blanks(k)) =~= Seq::new(k as nat, |i: int| ' '));
        assert forall|i: int| 0 <= i < k implies #[trigger] wf_at(blanks(k), cjk, i) by {
            assert(blanks(k)[i] == blank());
            if i > 0 {
                assert(blanks(k)[i - 1] == blank());
            }
        }
    }
}

/// Column measure distributes over concatenation.
pub proof fn lemma_str_cols_app(a: Seq<char>, b: Seq<char>, cjk: bool)
    ensures
        str_cols(a + b, cjk) == str_cols(a, cjk) + str_cols(b, cjk),
    decreases b.len(),
{
    if b.len() == 0 {
        assert(a + b =~= a);
    } else {
        lemma_str_cols_app(a, b.drop_last(), cjk);
        assert((a + b).drop_last() =~= a + b.drop_last());
        assert((a + b).last() == b.last());
    }
}

/// Column measure taken off the first character.
pub proof fn lemma_str_cols_first(s: Seq<char>, cjk: bool)
    requires
        s.len() > 0,
    ensures
        str_cols(s, cjk) == char_cols(s[0], cjk) + str_cols(s.drop_first(), cjk),
{
    assert(s =~= seq![s[0]] + s.drop_first());
    lemma_str_cols_app(seq![s[0]], s.drop_first(), cjk);
    assert(seq![s[0]].drop_last() =~= Seq::<char>::empty());
    assert(str_cols(Seq::<char>::empty(), cjk) == 0);
}

/// Displayed text distributes over concatenation of runs.
pub proof fn lemma_run_text_app(a: Seq<RuneView>, b: Seq<RuneView>)
    ensures
        run_text(a + b) == run_text(a) + run_text(b),
    decreases b.len(),
{
    if b.len() == 0 {
        assert(a + b =~= a);
        assert(run_text(a) + run_text(b) =~= run_text(a));
    } else {
        lemma_run_text_app(a, b.drop_last());
        assert((a + b).drop_last() =~= a + b.drop_last());
        assert((a + b).last() == b.last());
        assert(run_text(a) + (run_text(b.drop_last()) + rune_text(b.last())) =~= run_text(a)
            + run_text(b.drop_last()) + rune_text(b.last()));
    }
}

/// A fitting string is taken whole.
pub proof fn lemma_take_all(s: Seq<char>, w: int, cjk: bool)
    requires
        str_cols(s, cjk) <= w,
    ensures
        take_cols(s, w, cjk) == s,
    decreases s.len(),
{
    if s.len() > 0 {
        lemma_str_cols_first(s, cjk);
        let cw = char_cols(s[0], cjk) as int;
        lemma_take_all(s.drop_first(), w - cw, cjk);
        assert(take_cols(s, w, cjk) =~= s);
    }
}

/// What is taken never exceeds the budget.
pub proof fn lemma_take_cols_bound(s: Seq<char>, w: int, cjk: bool)
    requires
        w >= 0,
    ensures
        str_cols(take_cols(s, w, cjk), cjk) <= w,
    decreases s.len(),
{
    if s.len() == 0 {
        assert(str_cols(take_cols(s, w, cjk), cjk) == 0);
    } else {
        let cw = char_cols(s[0], cjk) as int;
        if cw <= w {
            lemma_take_cols_bound(s.drop_first(), w - cw, cjk);
            let t = take_cols(s, w, cjk);
            assert(t == seq![s[0]] + take_cols(s.drop_first(), w - cw, cjk));
            lemma_str_cols_app(seq![s[0]], take_cols(s.drop_first(), w - cw, cjk), cjk);
            assert(seq![s[0]].drop_last() =~= Seq::<char>::empty());
            assert(seq![s[0]].last() == s[0]);
            assert(str_cols(Seq::<char>::empty(), cjk) == 0);
            assert(str_cols(seq![s[0]], cjk) == cw);
        } else {
            assert(str_cols(Seq::<char>::empty(), cjk) == 0);
        }
    }
}

/// The run of a string is well formed.
pub proof fn lemma_run_wf(s: Seq<char>, cjk: bool)
    ensures
        wf_run(run_of(s, cjk), cjk),
        run_of(s, cjk).len() == str_cols(s, cjk),
    decreases s.len(),
{
    if s.len() > 0 {
        let p = s.drop_last();
        let c = s.last();
        let run = run_of(p, cjk);
        lemma_run_wf(p, cjk);
        let w = char_cols(c, cjk);
        let out = run_of(s, cjk);
        if w == 0 {
            if run.len() == 0 {
            } else if is_pad(run.last()) {
                let j = run.len() - 2;
                assert(wf_at(run, cjk, run.len() - 1));
                assert(is_wide(run[j]));
                assert(wf_at(run, cjk, j));
                let m = merge_char(run[j], c);
                lemma_merge_wf(run[j], c, cjk);
                assert forall|i: int| 0 <= i < out.len() implies #[trigger] wf_at(out, cjk, i) by {
                    assert(wf_at(run, cjk, i));
                    if i + 1 < run.len() {
                        assert(wf_at(run, cjk, i + 1));
                    }
                    if i > 0 {
                        assert(wf_at(run, cjk, i - 1));
                    }
                }
            } else {
                let j = run.len() - 1;
                assert(wf_at(run, cjk, j));
                lemma_merge_wf(run[j], c, cjk);
                assert forall|i: int| 0 <= i < out.len() implies #[trigger] wf_at(out, cjk, i) by {
                    assert(wf_at(run, cjk, i));
                    if i + 1 < run.len() {
                        assert(wf_at(run, cjk, i + 1));
                    }
                    if i > 0 {
                        assert(wf_at(run, cjk, i - 1));
                    }
                }
            }
        } else if w == 1 {
            assert(seq![c].drop_last() =~= Seq::<char>::empty());
            assert(str_cols(Seq::<char>::empty(), cjk) == 0);
            assert(str_cols(seq![c], cjk) == w);
            assert forall|i: int| 0 <= i < out.len() implies #[trigger] wf_at(out, cjk, i) by {
                if i < run.len() {
                    assert(wf_at(run, cjk, i));
                    if i > 0 {
                        assert(wf_at(run, cjk, i - 1));
                    }
                } else {
                    if i > 0 && i - 1 < run.len() {
                        assert(wf_at(run, cjk, i - 1));
                    }
                }
            }
        } else {
            assert(seq![c].drop_last() =~= Seq::<char>::empty());
            assert(str_cols(Seq::<char>::empty(), cjk) == 0);
            assert(str_cols(seq![c], cjk) == w);
            assert forall|i: int| 0 <= i < out.len() implies #[trigger] wf_at(out, cjk, i) by {
                if i < run.len() {
                    assert(wf_at(run, cjk, i));
                    if i > 0 {
                        assert(wf_at(run, cjk, i - 1));
                    }
                } else {
                    if i > 0 && i - 1 < run.len() {
                        assert(wf_at(run, cjk, i - 1));
                    }
                }
            }
        }
    }
}

pub proof fn lemma_merge_wf(r: RuneView, c: char, cjk: bool)
    requires
        char_cols(c, cjk) == 0,
        cell_wf(r, cjk),
    ensures
        cell_wf(merge_char(r, c), cjk),
        is_wide(merge_char(r, c)) == is_wide(r),
        is_pad(merge_char(r, c)) == is_pad(r),
        !is_pad(r) ==> rune_text(merge_char(r, c)) == rune_text(r).push(c),
{
    match r {
        RuneView::Text { text, cols } => {
            assert(text.push(c).drop_last() =~= text);
            assert(text.push(c).last() == c);
            assert(str_cols(text.push(c), cjk) == str_cols(text, cjk));
        },
        RuneView::Pad => {},
    }
}

/// The run of a string displays the string itself, as long as the string
/// does not begin with a zero-width character (which would have no cell to
/// merge into and is dropped).
pub proof fn lemma_run_text(s: Seq<char>, cjk: bool)
    requires
        s.len() > 0 ==> char_cols(s[0], cjk) > 0,
    ensures
        run_text(run_of(s, cjk)) == s,
        s.len() > 0 ==> run_of(s, cjk).len() > 0,
    decreases s.len(),
{
    if s.len() > 0 {
        let p = s.drop_last();
        let c = s.last();
        let run = run_of(p, cjk);
        if p.len() > 0 {
            assert(p[0] == s[0]);
        }
        lemma_run_text(p, cjk);
        lemma_run_wf(p, cjk);
        let w = char_cols(c, cjk);
        let out = run_of(s, cjk);
        if w == 0 {
            if run.len() == 0 {
                assert(p.len() == 0 || run_text(run).len() == run_text(run).len());
                assert(p.len() > 0 ==> run.len() > 0);
                assert(p.len() == 0);
                assert(char_cols(s[0], cjk) == 0);
                assert(false);
            } else if is_pad(run.last()) {
                let j = run.len() - 2;
                assert(wf_at(run, cjk, run.len() - 1));
                assert(is_wide(run[j]));
                assert(wf_at(run, cjk, j));
                lemma_merge_wf(run[j], c, cjk);
                assert(out =~= run.drop_last().update(j, merge_char(run[j], c)).push(run.last()));
                let inner = run.drop_last();
                let inner2 = inner.update(j, merge_char(run[j], c));
                assert(out.drop_last() =~= inner2);
                assert(out.last() == run.last());
                assert(inner2.drop_last() =~= inner.drop_last());
                assert(inner2.last() == merge_char(run[j], c));
                assert(run_text(inner2) == run_text(inner.drop_last()) + rune_text(
                    merge_char(run[j], c),
                ));
                assert(run_text(inner) == run_text(inner.drop_last()) + rune_text(inner.last()));
                assert(inner.last() == run[j]);
                assert(rune_text(merge_char(run[j], c)) =~= rune_text(run[j]).push(c));
                assert(run_text(run) == run_text(inner) + rune_text(run.last()));
                assert(rune_text(run.last()) =~= Seq::<char>::empty());
                assert(run_text(run) =~= run_text(inner));
                assert(run_text(out) == run_text(inner2) + rune_text(run.last()));
                assert(run_text(out) =~= run_text(inner2));
                assert(run_text(inner2) =~= run_text(inner.drop_last()) + rune_text(run[j]) + seq![
                    c,
                ]);
                assert(run_text(out) =~= run_text(run).push(c));
                assert(run_text(out) =~= p.push(c));
                assert(p.push(c) =~= s);
            } else {
                let j = run.len() - 1;
                assert(wf_at(run, cjk, j));
                lemma_merge_wf(run[j], c, cjk);
                assert(out =~= run.update(j, merge_char(run[j], c)));
                assert(out.drop_last() =~= run.drop_last());
                assert(out.last() == merge_char(run[j], c));
                assert(run_text(out) == run_text(run.drop_last()) + rune_text(run[j]).push(c));
                assert(run_text(run) == run_text(run.drop_last()) + rune_text(run[j]));
                assert(run_text(out) =~= run_text(run).push(c));
                assert(run_text(out) =~= s);
            }
        } else if w == 1 {
            assert(out.drop_last() =~= run);
            assert(run_text(out) == run_text(run) + seq![c]);
            assert(run_text(out) =~= s);
        } else {
            let mid = run.push(RuneView::Text { text: seq![c], cols: 2 });
            assert(out.drop_last() =~= mid);
            assert(mid.drop_last() =~= run);
            assert(run_text(out) == run_text(mid) + rune_text(RuneView::Pad));
            assert(run_text(mid) == run_text(run) + seq![c]);
            assert(run_text(out) =~= s);
        }
    }
}

/// Two well-formed runs concatenate to a well-formed run, as long as the
/// second does not begin with a `Pad`.
pub proof fn lemma_wf_concat(a: Seq<RuneView>, b: Seq<RuneView>, cjk: bool)
    requires
        wf_run(a, cjk),
        wf_run(b, cjk),
        b.len() > 0 ==> !is_pad(b[0]),
    ensures
        wf_run(a + b, cjk),
{
    let out = a + b;
    assert forall|i: int| 0 <= i < out.len() implies #[trigger] wf_at(out, cjk, i) by {
        if i < a.len() {
            assert(wf_at(a, cjk, i));
            if i > 0 {
                assert(wf_at(a, cjk, i - 1));
            }
        } else {
            assert(wf_at(b, cjk, i - a.len()));
            if i - a.len() > 0 {
                assert(wf_at(b, cjk, i - a.len() - 1));
            } else {
                if i > 0 {
                    assert(wf_at(a, cjk, i - 1));
                }
            }
        }
    }
}

/// Clipping keeps a run well formed and takes its first `min(len, avail)`
/// cells.
pub proof fn lemma_clip_wf(run: Seq<RuneView>, avail: int, cjk: bool)
    requires
        wf_run(run, cjk),
    ensures
        wf_run(clip_run(run, avail), cjk),
        clip_run(run, avail).len() == if run.len() <= avail {
            run.len() as int
        } else if avail >= 0 {
            avail
        } else {
            0
        },
{
    lemma_blank_wf(cjk);
    let out = clip_run(run, avail);
    if run.len() <= avail {
    } else if avail <= 0 {
    } else {
        let t = run.subrange(0, avail);
        assert forall|i: int| 0 <= i < out.len() implies #[trigger] wf_at(out, cjk, i) by {
            assert(wf_at(run, cjk, i));
            if i > 0 {
                assert(wf_at(run, cjk, i - 1));
            }
            if i + 1 < run.len() {
                assert(wf_at(run, cjk, i + 1));
            }
            if i == avail - 1 {
                if is_wide(run[i]) {
                    assert(out[i] == blank());
                } else {
                    assert(out[i] == run[i]);
                }
            } else {
                assert(out[i] == run[i]);
                if is_wide(out[i]) {
                    assert(wf_at(run, cjk, i));
                    assert(is_pad(run[i + 1]));
                    assert(i + 1 < avail) by {
                        if i + 1 == avail {
                            assert(i == avail - 1);
                        }
                    }
                }
            }
        }
    }
}

/// Splicing a well-formed run into a well-formed row at a fitting position
/// yields a well-formed row of the same width, and changes no cell outside
/// the run's span but the two possibly mended boundary cells.
pub proof fn lemma_splice_wf(row: Seq<RuneView>, x: int, run: Seq<RuneView>, cjk: bool)
    requires
        wf_run(row, cjk),
        wf_run(run, cjk),
        run.len() > 0 ==> 0 <= x && x + run.len() <= row.len(),
    ensures
        splice(row, x, run).len() == row.len(),
        wf_run(splice(row, x, run), cjk),
        forall|i: int|
            0 <= i < row.len() && !(x - 1 <= i <= x + run.len()) ==> #[trigger] splice(
                row,
                x,
                run,
            )[i] == row[i],
        forall|i: int| x <= i < x + run.len() ==> #[trigger] splice(row, x, run)[i] == run[i - x],
{
    lemma_blank_wf(cjk);
    let k = run.len();
    let out = splice(row, x, run);
    if k == 0 {
    } else {
        assert(wf_at(run, cjk, 0));
        assert(!is_pad(run[0]));
        assert(wf_at(run, cjk, k - 1));
        assert(!is_wide(run[k - 1]));
        if x > 0 {
            assert(wf_at(row, cjk, x - 1));
        }
        assert forall|i: int| 0 <= i < out.len() implies #[trigger] wf_at(out, cjk, i) by {
            assert(wf_at(row, cjk, i));
            if i > 0 {
                assert(wf_at(row, cjk, i - 1));
            }
            if i + 1 < row.len() {
                assert(wf_at(row, cjk, i + 1));
            }
            if x <= i < x + k {
                assert(wf_at(run, cjk, i - x));
                if i - x > 0 {
                    assert(wf_at(run, cjk, i - x - 1));
                }
                if i - x + 1 < k {
                    assert(wf_at(run, cjk, i - x + 1));
                }
            }
            if i > 0 && x <= i - 1 < x + k {
                assert(wf_at(run, cjk, i - 1 - x));
            }
            if i + 1 < row.len() && x <= i + 1 < x + k {
                assert(wf_at(run, cjk, i + 1 - x));
            }
            if i == x - 2 && x - 1 < row.len() {
                assert(wf_at(row, cjk, x - 1));
            }
        }
    }
}

/// Law of bounded writes: placing a string whose measure fits the write
/// width `w`, at a position whose span `[x, x + w)` lies inside the
/// buffer, and then reading that span back, reconstructs the string
/// padded with spaces to exactly `w` columns.  (A string beginning with a
/// zero-width character is the one exception: such a character has no
/// cluster to merge into and is dropped.)
pub proof fn lemma_put_reads_back(
    row: Seq<RuneView>,
    x: int,
    w: int,
    bufw: int,
    text: Seq<char>,
    cjk: bool,
)
    requires
        wf_row(row, bufw, cjk),
        0 <= x,
        x + w <= bufw,
        str_cols(text, cjk) <= w,
        text.len() > 0 ==> char_cols(text[0], cjk) > 0,
    ensures
        ({
            let out = splice(row, x, put_run(text, x, w, bufw, cjk));
            &&& run_text(out.subrange(x, x + w)) == text + Seq::new(
                (w - str_cols(text, cjk)) as nat,
                |i: int| ' ',
            )
            &&& run_text(put_run(text, x, w, bufw, cjk)) == text + Seq::new(
                (w - str_cols(text, cjk)) as nat,
                |i: int| ' ',
            )
        }),
{
    lemma_take_all(text, w, cjk);
    lemma_run_wf(text, cjk);
    lemma_run_text(text, cjk);
    let rtr = run_of(text, cjk);
    let full = rtr + blanks(w - rtr.len());
    assert(full.len() == w);
    let avail = bufw - x;
    assert(full.len() <= avail);
    let crun = put_run(text, x, w, bufw, cjk);
    assert(crun == full);
    lemma_blanks_wf(w - rtr.len(), cjk);
    lemma_wf_concat(rtr, blanks(w - rtr.len()), cjk);
    lemma_splice_wf(row, x, crun, cjk);
    let out = splice(row, x, crun);
    if w > 0 {
        assert(out.subrange(x, x + w) =~= crun);
    } else {
        assert(out.subrange(x, x + w) =~= crun);
    }
    lemma_run_text_app(rtr, blanks(w - rtr.len()));
    assert(run_text(crun) =~= text + Seq::new((w - str_cols(text, cjk)) as nat, |i: int| ' '));
}

/// Law of the clip boundary: a two-column glyph written at the last
/// column of a row leaves a blank there — never half a glyph — and the
/// text handed back for the terminal write is a single space.
pub proof fn lemma_wide_at_edge(row: Seq<RuneView>, bufw: int, g: char, cjk: bool)
    requires
        wf_row(row, bufw, cjk),
        bufw >= 1,
        char_cols(g, cjk) == 2,
    ensures
        ({
            let crun = put_run(seq![g], bufw - 1, 2, bufw, cjk);
            let out = splice(row, bufw - 1, crun);
            &&& out[bufw - 1] == blank()
            &&& run_text(crun) == seq![' ']
        }),
{
    lemma_blank_wf(cjk);
    let s = seq![g];
    assert(s.drop_first() =~= Seq::<char>::empty());
    assert(str_cols(Seq::<char>::empty(), cjk) == 0);
    lemma_str_cols_first(s, cjk);
    lemma_take_all(s, 2, cjk);
    assert(s.drop_last() =~= Seq::<char>::empty());
    assert(s.last() == g);
    assert(run_of(Seq::<char>::empty(), cjk) =~= Seq::<RuneView>::empty());
    let rtr = run_of(s, cjk);
    assert(rtr =~= seq![RuneView::Text { text: seq![g], cols: 2 }, RuneView::Pad]);
    let full = rtr + blanks(0);
    assert(full =~= rtr);
    let crun = put_run(s, bufw - 1, 2, bufw, cjk);
    assert(crun =~= seq![blank()]);
    lemma_run_wf(s, cjk);
    lemma_clip_wf(full, 1, cjk);
    lemma_splice_wf(row, bufw - 1, crun, cjk);
    let out = splice(row, bufw - 1, crun);
    assert(out[bufw - 1] == crun[0]);
    assert(crun.drop_last() =~= Seq::<RuneView>::empty());
    assert(run_text(Seq::<RuneView>::empty()) =~= Seq::<char>::empty());
    assert(crun.last() == blank());
    assert(run_text(crun) =~= seq![' ']);
}

/// Law of combining marks: a zero-width character directly after a
/// one-column base character shares the base character's cell, which
/// stays one column wide.
pub proof fn lemma_combining_mark_merges(b: char, m: char, cjk: bool)
    requires
        char_cols(b, cjk) == 1,
        char_cols(m, cjk) == 0,
    ensures
        run_of(seq![b, m], cjk) == seq![RuneView::Text { text: seq![b, m], cols: 1 }],
{
    let s = seq![b, m];
    assert(s.drop_last() =~= seq![b]);
    assert(s.last() == m);
    assert(seq![b].drop_last() =~= Seq::<char>::empty());
    assert(seq![b].last() == b);
    assert(run_of(Seq::<char>::empty(), cjk) =~= Seq::<RuneView>::empty());
    let one = run_of(seq![b], cjk);
    assert(one =~= seq![RuneView::Text { text: seq![b], cols: 1 }]);
    let out = run_of(s, cjk);
    assert(out =~= one.update(0, merge_char(one[0], m)));
    assert(seq![b].push(m) =~= seq![b, m]);
    assert(out =~= seq![RuneView::Text { text: seq![b, m], cols: 1 }]);
}

/// Law of growing a row: widening to `w` keeps every existing cell in
/// place and blank-fills the new columns.  (Shrinking keeps the cells
/// that fit; only a wide cluster split at the new edge is blanked, as
/// `lemma_resize_wf` states.)
pub proof fn lemma_grow_row(row: Seq<RuneView>, w: int, cjk: bool)
    requires
        wf_run(row, cjk),
        w >= row.len(),
    ensures
        resize_row(row, w).len() == w,
        forall|j: int| 0 <= j < row.len() ==> #[trigger] resize_row(row, w)[j] == row[j],
        forall|j: int| row.len() <= j < w ==> #[trigger] resize_row(row, w)[j] == blank(),
{
    lemma_resize_wf(row, w, cjk);
}


/// The measure of a repeated one-column character.
pub proof fn lemma_str_cols_repeat(k: int, p: char, cjk: bool)
    requires
        k >= 0,
    ensures
        str_cols(Seq::new(k as nat, |i: int| p), cjk) == k * char_cols(p, cjk),
    decreases k,
{
    if k == 0 {
        assert(Seq::new(0, |i: int| p).len() == 0);
    } else {
        lemma_str_cols_repeat(k - 1, p, cjk);
        let t = Seq::new(k as nat, |i: int| p);
        assert(t.drop_last() =~= Seq::new((k - 1) as nat, |i: int| p));
        assert(t.last() == p);
        assert(k * char_cols(p, cjk) == (k - 1) * char_cols(p, cjk) + char_cols(p, cjk))
            by (nonlinear_arith);
    }
}

/// Law of line filling: truncating to at most `w` columns and padding
/// with a one-column character gives a string of exactly `w` display
/// columns, which is what `fill_line` returns.
pub proof fn lemma_fill_line_width(s: Seq<char>, w: int, p: char, cjk: bool)
    requires
        w >= 0,
        char_cols(p, cjk) == 1,
    ensures
        ({
            let t = take_cols(s, w, cjk);
            str_cols(t + Seq::new((w - str_cols(t, cjk)) as nat, |i: int| p), cjk) == w
        }),
{
    lemma_take_cols_bound(s, w, cjk);
    let t = take_cols(s, w, cjk);
    let k = w - str_cols(t, cjk);
    lemma_str_cols_repeat(k, p, cjk);
    lemma_str_cols_app(t, Seq::new(k as nat, |i: int| p), cjk);
}

/// Law of resizing to the same width: nothing changes.
pub proof fn lemma_resize_same(row: Seq<RuneView>, cjk: bool)
    requires
        wf_run(row, cjk),
    ensures
        resize_row(row, row.len() as int) == row,
{
    let w = row.len() as int;
    assert(clip_run(row, w) == row);
    assert(resize_row(row, w) =~= row);
}

/// Resizing keeps a row well formed at its new width.
pub proof fn lemma_resize_wf(row: Seq<RuneView>, w: int, cjk: bool)
    requires
        wf_run(row, cjk),
        w >= 0,
    ensures
        wf_row(resize_row(row, w), w, cjk),
        forall|i: int|
            0 <= i < w && i < row.len() && !(i == w - 1 && w < row.len()) ==> #[trigger] resize_row(
                row,
                w,
            )[i] == row[i],
        forall|i: int| row.len() <= i < w ==> #[trigger] resize_row(row, w)[i] == blank(),
{
    lemma_blank_wf(cjk);
    lemma_clip_wf(row, w, cjk);
    let t = clip_run(row, w);
    let out = resize_row(row, w);
    lemma_blanks_wf(w - t.len(), cjk);
    assert forall|i: int| 0 <= i < out.len() implies #[trigger] wf_at(out, cjk, i) by {
        if i < t.len() {
            assert(wf_at(t, cjk, i));
            if is_wide(out[i]) {
                assert(i + 1 < t.len());
            }
            if i > 0 && i - 1 < t.len() {
                assert(wf_at(t, cjk, i - 1));
            }
        } else {
            assert(out[i] == blanks(w - t.len())[i - t.len()]);
            assert(out[i] == blank());
            if i > 0 {
                if i - 1 < t.len() {
                    assert(wf_at(t, cjk, i - 1));
                    if is_wide(t[i - 1]) {
                        assert(i < t.len());
                    }
                } else {
                    assert(out[i - 1] == blank());
                }
            }
        }
    }
}

} // verus!
