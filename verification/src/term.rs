//! The terminal façade: cursor, screen buffer, capability store and
//! colour state in one place.
//!
//! Opening the device, switching modes, signal handling and the worker
//! threads live outside the library; the façade receives the terminal's
//! dimensions and capability table as plain values and owns everything
//! that can be reasoned about: where text lands in the buffer, where the
//! cursor is, and what the colour stacks hold.

use crate::cursor::Cursor;
use crate::events::cap_key_event;
use crate::events::cap_key_event_exec;
use crate::events::control_key_entries;
use crate::events::default_entries_spec;
use crate::events::default_key_entries;
use crate::events::Input;
use crate::pattern::assoc_map;
use crate::pattern::entry_views;
use crate::pattern::PatternTable;
use crate::events::Event;
use crate::matrix::truncate_cols;
use crate::matrix::Matrix;
use crate::output::TermError;
use crate::paint::paint_bg;
use crate::paint::paint_fg;
use crate::row::blanks;
use crate::row::put_run;
use crate::row::resize_row;
use crate::row::splice;
use crate::row::take_cols;
use crate::terminfo::TermInfo;
use crate::width::char_cols;
use crate::width::col_width_char;
use crate::width::col_width_str;
use crate::width::str_cols;
use vstd::prelude::*;

verus! {

/// The terminal façade.
pub struct Term {
    pub cursor: Cursor,
    pub matrix: Matrix,
    pub terminfo: TermInfo,
    /// When set, printing truncates at this column instead of the
    /// buffer edge alone.
    pub xlimit: Option<usize>,
    /// Pending foreground colours, innermost last.
    pub fg: Vec<(u8, u8, u8)>,
    /// Pending background colours, innermost last.
    pub bg: Vec<(u8, u8, u8)>,
    /// The width mode text is measured under.
    pub cjk: bool,
}

impl Term {
    /// The façade's invariant: a sound buffer of at least one cell in
    /// each direction, measured under the façade's width mode, with the
    /// cursor inside it (the column may rest just past the last cell
    /// after a full-width print).
    pub open spec fn wf(self) -> bool {
        &&& self.matrix.wf()
        &&& self.matrix.mode() == self.cjk
        &&& 1 <= self.matrix.width < usize::MAX
        &&& 1 <= self.matrix.height < usize::MAX
        &&& self.cursor.x <= self.matrix.width
        &&& self.cursor.y < self.matrix.height
    }

    /// A façade over a `width` by `height` terminal described by
    /// `terminfo`, measuring text under the given width mode.  Emits the
    /// clear-screen capability so screen and buffer start out alike.
    pub fn new(width: usize, height: usize, terminfo: TermInfo, cjk: bool) -> (r: Result<
        Term,
        TermError,
    >)
        requires
            1 <= width < usize::MAX,
            1 <= height < usize::MAX,
        ensures
            r is Ok ==> ({
                let t = r.unwrap();
                &&& t.wf()
                &&& t.matrix.width == width
                &&& t.matrix.height == height
                &&& t.cjk == cjk
                &&& t.cursor.x == 0
                &&& t.cursor.y == 0
                &&& t.terminfo == terminfo
                &&& t.xlimit is None
                &&& t.fg@.len() == 0
                &&& t.bg@.len() == 0
                &&& forall|y: int|
                    0 <= y < height ==> #[trigger] t.matrix.row_view(y) == blanks(width as int)
            }),
            r is Err ==> false,
    {
        let cursor = match Cursor::new(&terminfo) {
            Ok(c) => c,
            Err(e) => {
                return Err(e);
            },
        };
        let mut term = Term {
            cursor,
            matrix: Matrix::with_mode(width, height, cjk),
            terminfo,
            xlimit: None,
            fg: Vec::new(),
            bg: Vec::new(),
            cjk,
        };
        let _ = term.cursor.clear();
        Ok(term)
    }

    /// Home the cursor, emit the clear capability, and blank the buffer.
    pub fn clear(&mut self) -> (r: Result<(), TermError>)
        requires
            old(self).wf(),
        ensures
            final (self).wf(),
            final (self).cursor.x == 0,
            final (self).cursor.y == 0,
            final (self).matrix.width == old(self).matrix.width,
            final (self).matrix.height == old(self).matrix.height,
            final (self).xlimit == old(self).xlimit,
            final (self).fg == old(self).fg,
            final (self).bg == old(self).bg,
            final (self).terminfo == old(self).terminfo,
            final (self).cjk == old(self).cjk,
            forall|y: int|
                0 <= y < final (self).matrix.height ==> #[trigger] final (self).matrix.row_view(y)
                    == blanks(final (self).matrix.width as int),
    {
        self.matrix.clear();
        self.cursor.clear()
    }

    /// Columns `c` occupies under this terminal's width mode.
    pub fn width_char(&self, c: char) -> (w: usize)
        ensures
            w == char_cols(c, self.cjk),
    {
        col_width_char(c, self.cjk)
    }

    /// Columns `s` occupies under this terminal's width mode (saturating
    /// for strings too wide for a machine word).
    pub fn width_str(&self, s: &str) -> (w: usize)
        ensures
            str_cols(s@, self.cjk) <= usize::MAX ==> w == str_cols(s@, self.cjk),
            str_cols(s@, self.cjk) > usize::MAX ==> w == usize::MAX,
    {
        col_width_str(s, self.cjk)
    }

    /// The longest prefix of `s` that fits in `limit` columns, and its
    /// measure.
    fn limit_string(&self, s: &str, limit: usize) -> (r: (String, usize))
        ensures
            r.0@ == take_cols(s@, limit as int, self.cjk),
            r.1 == str_cols(r.0@, self.cjk),
            r.1 <= limit,
    {
        truncate_cols(s, limit, self.cjk)
    }

    /// Print at the cursor: the text is measured (truncated at `xlimit`
    /// when one is set), placed into the buffer at the cursor position,
    /// painted with the innermost pending colours, written out, and the
    /// cursor advances to the column after the write.
    pub fn print(&mut self, s: &str) -> (r: Result<(), TermError>)
        requires
            old(self).wf(),
        ensures
            final (self).wf(),
            ({
                let x = old(self).cursor.x as int;
                let y = old(self).cursor.y as int;
                let bufw = old(self).matrix.width as int;
                let cjk = old(self).cjk;
                let s2 = match old(self).xlimit {
                    Some(l) => take_cols(s@, if l > x {
                        l - x
                    } else {
                        0
                    }, cjk),
                    None => s@,
                };
                let w = if str_cols(s2, cjk) <= usize::MAX {
                    str_cols(s2, cjk) as int
                } else {
                    usize::MAX as int
                };
                let crun = put_run(s2, x, w, bufw, cjk);
                &&& final (self).matrix.row_view(y) == splice(
                    old(self).matrix.row_view(y),
                    x,
                    crun,
                )
                &&& forall|j: int|
                    0 <= j < old(self).matrix.height && j != y
                        ==> final (self).matrix.row_view(j) == #[trigger] old(
                        self,
                    ).matrix.row_view(j)
                &&& final (self).matrix.width == old(self).matrix.width
                &&& final (self).matrix.height == old(self).matrix.height
                &&& final (self).cursor.y == y
                &&& final (self).cursor.x == (if x + w <= bufw {
                    x + w
                } else {
                    bufw
                })
                &&& final (self).xlimit == old(self).xlimit
                &&& final (self).fg == old(self).fg
                &&& final (self).bg == old(self).bg
                &&& final (self).terminfo == old(self).terminfo
                &&& final (self).cjk == old(self).cjk
            }),
    {
        let x = self.cursor.x;
        let y = self.cursor.y;
        let (s2, w) = match self.xlimit {
            Some(l) => {
                let budget = if l > x {
                    l - x
                } else {
                    0
                };
                self.limit_string(s, budget)
            },
            None => {
                let ww = col_width_str(s, self.cjk);
                (s.to_owned(), ww)
            },
        };
        proof {
            if self.xlimit is Some {
                crate::row::lemma_take_cols_bound(
                    s@,
                    ({
                        let l = self.xlimit.unwrap() as int;
                        if l > x {
                            l - x
                        } else {
                            0
                        }
                    }),
                    self.cjk,
                );
            }
        }
        let (end, vis) = self.matrix.put_buffer(x, y, w, s2.as_str());
        let mut painted = vis;
        if self.bg.len() > 0 {
            let (cr, cg, cb) = self.bg[self.bg.len() - 1];
            painted = paint_bg(painted.as_str(), cr, cg, cb);
        }
        if self.fg.len() > 0 {
            let (cr, cg, cb) = self.fg[self.fg.len() - 1];
            painted = paint_fg(painted.as_str(), cr, cg, cb);
        }
        let e = self.cursor.print(painted.as_str());
        let e2 = self.cursor.move_to((end, y));
        match e {
            Ok(()) => e2,
            Err(err) => Err(err),
        }
    }

    /// Print with temporary colours: the given colours are pushed on the
    /// pending stacks, the text printed under them, and the stacks
    /// restored — so nested colouring needs no global colour state.  The
    /// delegated print places the text into the buffer and advances the
    /// cursor exactly as `print` does.
    pub fn cprint(&mut self, s: &str, fg: Option<(u8, u8, u8)>, bg: Option<(u8, u8, u8)>) -> (r:
        Result<(), TermError>)
        requires
            old(self).wf(),
        ensures
            final (self).wf(),
            final (self).fg@ == old(self).fg@,
            final (self).bg@ == old(self).bg@,
            ({
                let x = old(self).cursor.x as int;
                let y = old(self).cursor.y as int;
                let bufw = old(self).matrix.width as int;
                let cjk = old(self).cjk;
                let s2 = match old(self).xlimit {
                    Some(l) => take_cols(s@, if l > x {
                        l - x
                    } else {
                        0
                    }, cjk),
                    None => s@,
                };
                let w = if str_cols(s2, cjk) <= usize::MAX {
                    str_cols(s2, cjk) as int
                } else {
                    usize::MAX as int
                };
                let crun = put_run(s2, x, w, bufw, cjk);
                &&& final (self).matrix.row_view(y) == splice(
                    old(self).matrix.row_view(y),
                    x,
                    crun,
                )
                &&& forall|j: int|
                    0 <= j < old(self).matrix.height && j != y
                        ==> final (self).matrix.row_view(j) == #[trigger] old(
                        self,
                    ).matrix.row_view(j)
                &&& final (self).matrix.width == old(self).matrix.width
                &&& final (self).matrix.height == old(self).matrix.height
                &&& final (self).cursor.y == y
                &&& final (self).cursor.x == (if x + w <= bufw {
                    x + w
                } else {
                    bufw
                })
                &&& final (self).xlimit == old(self).xlimit
                &&& final (self).terminfo == old(self).terminfo
                &&& final (self).cjk == old(self).cjk
            }),
    {
        match bg {
            Some(c) => self.bg.push(c),
            None => {},
        }
        match fg {
            Some(c) => self.fg.push(c),
            None => {},
        }
        let r = self.print(s);
        match fg {
            Some(_) => {
                let ghost pre = self.fg@;
                let _ = self.fg.pop();
                proof {
                    assert(self.fg@ =~= old(self).fg@);
                }
            },
            None => {},
        }
        match bg {
            Some(_) => {
                let ghost pre = self.bg@;
                let _ = self.bg.pop();
                proof {
                    assert(self.bg@ =~= old(self).bg@);
                }
            },
            None => {},
        }
        r
    }

    /// Move the cursor, clamped to the buffer's cells.
    pub fn move_to(&mut self, x: usize, y: usize) -> (r: Result<(), TermError>)
        requires
            old(self).wf(),
        ensures
            final (self).wf(),
            final (self).cursor.x == (if x < old(self).matrix.width {
                x as int
            } else {
                old(self).matrix.width - 1
            }),
            final (self).cursor.y == (if y < old(self).matrix.height {
                y as int
            } else {
                old(self).matrix.height - 1
            }),
            final (self).matrix == old(self).matrix,
            final (self).xlimit == old(self).xlimit,
            final (self).fg == old(self).fg,
            final (self).bg == old(self).bg,
            final (self).terminfo == old(self).terminfo,
            final (self).cjk == old(self).cjk,
            final (self).xlimit == old(self).xlimit,
            final (self).cjk == old(self).cjk,
    {
        let cx = if x < self.matrix.width {
            x
        } else {
            self.matrix.width - 1
        };
        let cy = if y < self.matrix.height {
            y
        } else {
            self.matrix.height - 1
        };
        self.cursor.move_to((cx, cy))
    }

    pub fn move_up(&mut self) -> (r: Result<(), TermError>)
        requires
            old(self).wf(),
        ensures
            final (self).wf(),
            final (self).cursor.x == old(self).cursor.x,
            final (self).cursor.y == (if old(self).cursor.y > 0 {
                old(self).cursor.y - 1
            } else {
                0
            }),
            final (self).matrix == old(self).matrix,
            final (self).xlimit == old(self).xlimit,
            final (self).fg == old(self).fg,
            final (self).bg == old(self).bg,
            final (self).terminfo == old(self).terminfo,
            final (self).cjk == old(self).cjk,
    {
        self.cursor.move_up()
    }

    pub fn move_down(&mut self) -> (r: Result<(), TermError>)
        requires
            old(self).wf(),
        ensures
            final (self).wf(),
            final (self).cursor.x == old(self).cursor.x,
            final (self).cursor.y == (if old(self).cursor.y < old(self).matrix.height - 1 {
                old(self).cursor.y + 1
            } else {
                old(self).cursor.y as int
            }),
            final (self).matrix == old(self).matrix,
            final (self).xlimit == old(self).xlimit,
            final (self).fg == old(self).fg,
            final (self).bg == old(self).bg,
            final (self).terminfo == old(self).terminfo,
            final (self).cjk == old(self).cjk,
    {
        let limit = self.matrix.height - 1;
        self.cursor.move_down(limit)
    }

    pub fn move_left(&mut self) -> (r: Result<(), TermError>)
        requires
            old(self).wf(),
        ensures
            final (self).wf(),
            final (self).cursor.y == old(self).cursor.y,
            final (self).cursor.x == (if old(self).cursor.x > 0 {
                old(self).cursor.x - 1
            } else {
                0
            }),
            final (self).matrix == old(self).matrix,
            final (self).xlimit == old(self).xlimit,
            final (self).fg == old(self).fg,
            final (self).bg == old(self).bg,
            final (self).terminfo == old(self).terminfo,
            final (self).cjk == old(self).cjk,
    {
        self.cursor.move_left()
    }

    pub fn move_right(&mut self) -> (r: Result<(), TermError>)
        requires
            old(self).wf(),
        ensures
            final (self).wf(),
            final (self).cursor.y == old(self).cursor.y,
            final (self).cursor.x == (if old(self).cursor.x < old(self).matrix.width - 1 {
                old(self).cursor.x + 1
            } else {
                old(self).cursor.x as int
            }),
            final (self).matrix == old(self).matrix,
            final (self).xlimit == old(self).xlimit,
            final (self).fg == old(self).fg,
            final (self).bg == old(self).bg,
            final (self).terminfo == old(self).terminfo,
            final (self).cjk == old(self).cjk,
    {
        let limit = self.matrix.width - 1;
        self.cursor.move_right(limit)
    }

    /// To the first column of the current row.
    pub fn move_home(&mut self) -> (r: Result<(), TermError>)
        requires
            old(self).wf(),
        ensures
            final (self).wf(),
            final (self).cursor.x == 0,
            final (self).cursor.y == old(self).cursor.y,
            final (self).matrix == old(self).matrix,
            final (self).xlimit == old(self).xlimit,
            final (self).fg == old(self).fg,
            final (self).bg == old(self).bg,
            final (self).terminfo == old(self).terminfo,
            final (self).cjk == old(self).cjk,
    {
        let y = self.cursor.y;
        self.move_to(0, y)
    }

    /// To the last cell of the current row.
    pub fn move_end(&mut self) -> (r: Result<(), TermError>)
        requires
            old(self).wf(),
        ensures
            final (self).wf(),
            final (self).cursor.x == old(self).matrix.width - 1,
            final (self).cursor.y == old(self).cursor.y,
            final (self).matrix == old(self).matrix,
            final (self).xlimit == old(self).xlimit,
            final (self).fg == old(self).fg,
            final (self).bg == old(self).bg,
            final (self).terminfo == old(self).terminfo,
            final (self).cjk == old(self).cjk,
    {
        let x = self.matrix.width - 1;
        let y = self.cursor.y;
        self.move_to(x, y)
    }

    /// To the top row, keeping the column.
    pub fn move_top(&mut self) -> (r: Result<(), TermError>)
        requires
            old(self).wf(),
        ensures
            final (self).wf(),
            final (self).cursor.y == 0,
            final (self).cursor.x == (if old(self).cursor.x < old(self).matrix.width {
                old(self).cursor.x as int
            } else {
                old(self).matrix.width - 1
            }),
            final (self).matrix == old(self).matrix,
            final (self).xlimit == old(self).xlimit,
            final (self).fg == old(self).fg,
            final (self).bg == old(self).bg,
            final (self).terminfo == old(self).terminfo,
            final (self).cjk == old(self).cjk,
    {
        let x = self.cursor.x;
        self.move_to(x, 0)
    }

    /// To the bottom row, keeping the column.
    pub fn move_bottom(&mut self) -> (r: Result<(), TermError>)
        requires
            old(self).wf(),
        ensures
            final (self).wf(),
            final (self).cursor.y == old(self).matrix.height - 1,
            final (self).cursor.x == (if old(self).cursor.x < old(self).matrix.width {
                old(self).cursor.x as int
            } else {
                old(self).matrix.width - 1
            }),
            final (self).matrix == old(self).matrix,
            final (self).xlimit == old(self).xlimit,
            final (self).fg == old(self).fg,
            final (self).bg == old(self).bg,
            final (self).terminfo == old(self).terminfo,
            final (self).cjk == old(self).cjk,
    {
        let x = self.cursor.x;
        let y = self.matrix.height - 1;
        self.move_to(x, y)
    }

    /// The terminal was resized: resize the buffer, keeping what fits,
    /// pull the cursor back inside, and return the event the application
    /// loop should see.
    pub fn resized(&mut self, w: usize, h: usize) -> (r: Event)
        requires
            old(self).wf(),
            1 <= w < usize::MAX,
            1 <= h < usize::MAX,
        ensures
            final (self).wf(),
            final (self).matrix.width == w,
            final (self).matrix.height == h,
            final (self).xlimit == old(self).xlimit,
            final (self).fg == old(self).fg,
            final (self).bg == old(self).bg,
            final (self).terminfo == old(self).terminfo,
            final (self).cjk == old(self).cjk,
            r == Event::TermSize(w, h),
            forall|y: int|
                0 <= y < h && y < old(self).matrix.height ==> #[trigger] final (self).matrix.row_view(y) == resize_row(old(self).matrix.row_view(y), w as int),
            forall|y: int|
                old(self).matrix.height <= y < h ==> #[trigger] final (self).matrix.row_view(y)
                    == blanks(w as int),
    {
        self.matrix.refresh(w, h);
        if self.cursor.x > w {
            self.cursor.x = w;
        }
        if self.cursor.y >= h {
            self.cursor.y = h - 1;
        }
        Event::TermSize(w, h)
    }
}

/// The key-table entries the capability store contributes: for every
/// capability whose name stands for a key, its control bytes mapped to
/// that key's event, in table order.
pub open spec fn derived_caps(ti: Seq<(Seq<char>, Seq<u8>)>) -> Seq<(Seq<u8>, Event)>
    decreases ti.len(),
{
    if ti.len() == 0 {
        Seq::empty()
    } else {
        derived_caps(ti.drop_last()) + (match cap_key_event(ti.last().0) {
            Some(e) => seq![(ti.last().1, e)],
            None => Seq::empty(),
        })
    }
}

/// The capability store's key-table entries, as values.
pub fn derived_key_entries(terminfo: &TermInfo) -> (r: Vec<(Vec<u8>, Event)>)
    ensures
        entry_views(r@) == derived_caps(terminfo@),
{
    let n = terminfo.entries.len();
    let mut out: Vec<(Vec<u8>, Event)> = Vec::new();
    let mut i: usize = 0;
    proof {
        assert(terminfo@.subrange(0, 0).len() == 0);
        assert(entry_views(out@) =~= derived_caps(terminfo@.subrange(0, 0)));
    }
    while i < n
        invariant
            n == terminfo.entries@.len(),
            n == terminfo@.len(),
            i <= n,
            entry_views(out@) == derived_caps(terminfo@.subrange(0, i as int)),
        decreases n - i,
    {
        let ghost pre = entry_views(out@);
        match cap_key_event_exec(terminfo.entries[i].0.as_str()) {
            Some(e) => {
                let bytes = copy_bytes(&terminfo.entries[i].1);
                proof {
                    assert(terminfo@[i as int].1 == terminfo.entries@[i as int].1@);
                }
                out.push((bytes, e));
                proof {
                    assert(entry_views(out@) =~= pre.push(
                        (terminfo@[i as int].1, cap_key_event(terminfo@[i as int].0).unwrap()),
                    ));
                }
            },
            None => {},
        }
        proof {
            let p = terminfo@.subrange(0, i + 1);
            assert(p.drop_last() =~= terminfo@.subrange(0, i as int));
            assert(p.last() == terminfo@[i as int]);
            assert(entry_views(out@) =~= derived_caps(p));
        }
        i = i + 1;
    }
    proof {
        assert(terminfo@.subrange(0, n as int) =~= terminfo@);
    }
    out
}

/// A byte string copied value for value.
fn copy_bytes(v: &Vec<u8>) -> (r: Vec<u8>)
    ensures
        r@ == v@,
{
    let n = v.len();
    let mut out: Vec<u8> = Vec::new();
    let mut i: usize = 0;
    while i < n
        invariant
            n == v@.len(),
            i <= n,
            out@ == v@.subrange(0, i as int),
        decreases n - i,
    {
        out.push(v[i]);
        proof {
            assert(out@ =~= v@.subrange(0, i + 1));
        }
        i = i + 1;
    }
    proof {
        assert(v@.subrange(0, n as int) =~= v@);
    }
    out
}

/// The full decoding table: the fixed control bytes, then the fixed
/// default sequences, then the capability-derived sequences, a later
/// source overriding an earlier one on the same byte string.
pub fn create_pattern_dict(terminfo: &TermInfo) -> (r: PatternTable)
    ensures
        ({
            let vs = entry_views(r.entries@);
            &&& r@ == assoc_map(vs)
            &&& vs.len() == 56 + derived_caps(terminfo@).len()
            &&& (forall|i: int|
                0 <= i < 32 ==> (#[trigger] vs[i]).0 == seq![i as u8] && (vs[i].1
                    matches Event::Ctrl(inp) && (inp matches Input::Chars(cs) && cs@ == seq![
                    ((i + 64) as u8) as char,
                ])))
            &&& vs.subrange(32, 56) == default_entries_spec()
            &&& vs.subrange(56, vs.len() as int) == derived_caps(terminfo@)
        }),
{
    let mut entries = control_key_entries();
    let mut defaults = default_key_entries();
    let mut derived = derived_key_entries(terminfo);
    let ghost c = entries@;
    let ghost d = defaults@;
    let ghost t = derived@;
    entries.append(&mut defaults);
    entries.append(&mut derived);
    proof {
        assert(entries@ =~= c + d + t);
        let vs = entry_views(entries@);
        assert(vs =~= entry_views(c) + entry_views(d) + entry_views(t));
        assert(vs.subrange(32, 56) =~= entry_views(d));
        assert(vs.subrange(56, vs.len() as int) =~= entry_views(t));
        assert forall|i: int|
            0 <= i < 32 implies (#[trigger] vs[i]).0 == seq![i as u8] && (vs[i].1
            matches Event::Ctrl(inp) && (inp matches Input::Chars(cs) && cs@ == seq![
            ((i + 64) as u8) as char,
        ])) by {
            assert(vs[i] == entry_views(c)[i]);
            assert(entry_views(c)[i] == (c[i].0@, c[i].1));
            assert(c[i].0@ == seq![i as u8] && (c[i].1 matches Event::Ctrl(inp) && (inp
                matches Input::Chars(cs) && cs@ == seq![((i + 64) as u8) as char])));
        }
    }
    PatternTable::from_entries(entries)
}

} // verus!
