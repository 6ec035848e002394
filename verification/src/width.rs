//! Display-column measurement of characters and strings.
//!
//! The terminal model counts columns per character: control characters take
//! no column, ordinary characters one, East-Asian wide characters two.  The
//! per-character measure comes from the `unicode_width` crate; anything that
//! crate reports as wider than two columns is counted as two, so that a cell
//! of the screen buffer never spans more than two columns.

use vstd::prelude::*;

verus! {

/// Columns that `unicode_width::UnicodeWidthChar::width` assigns to `c`,
/// with `None` (control characters) counted as zero.
pub uninterp spec fn uw_width(c: char) -> nat;

/// Columns that `unicode_width::UnicodeWidthChar::width_cjk` assigns to `c`
/// (ambiguous-width characters counted as wide), with `None` counted as zero.
pub uninterp spec fn uw_width_cjk(c: char) -> nat;

/// The library's column measure of one character.
///
/// ASCII and the control ranges are fixed here, mirroring what the width
/// tables guarantee for them; other characters take what the table gives,
/// capped at two columns.  Note the flag's sense: `cjk` *true* measures
/// with the plain table (`uw_width`, ambiguous-width characters narrow),
/// `cjk` *false* with the East-Asian table (`uw_width_cjk`, ambiguous
/// characters wide).  The measuring functions keep this orientation, so
/// one mode is applied identically everywhere.
pub open spec fn char_cols(c: char, cjk: bool) -> nat {
    if (c as u32) < 0x20 {
        0
    } else if (c as u32) < 0x7f {
        1
    } else if (c as u32) < 0xa0 {
        0
    } else {
        cap_two(if cjk {
            uw_width(c)
        } else {
            uw_width_cjk(c)
        })
    }
}

pub open spec fn cap_two(w: nat) -> nat {
    if w >= 2 {
        2
    } else {
        w
    }
}

/// The library's column measure of a string: the sum of its characters'
/// columns.
pub open spec fn str_cols(s: Seq<char>, cjk: bool) -> nat
    decreases s.len(),
{
    if s.len() == 0 {
        0
    } else {
        str_cols(s.drop_last(), cjk) + char_cols(s.last(), cjk)
    }
}

/// Relies on `unicode_width::UnicodeWidthChar::width`: `None` exactly on
/// control characters (below U+0020, and U+007F through U+009F), printable
/// ASCII is one column wide.
#[verifier::external_body]
fn measure_char(c: char) -> (w: usize)
    ensures
        w == uw_width(c),
        0x20 <= (c as u32) && (c as u32) < 0x7f ==> w == 1,
        (c as u32) < 0x20 ==> w == 0,
        0x7f <= (c as u32) && (c as u32) < 0xa0 ==> w == 0,
{
    unicode_width::UnicodeWidthChar::width(c).unwrap_or(0)
}

/// Relies on `unicode_width::UnicodeWidthChar::width_cjk`: as `width`, but
/// ambiguous-width characters count as wide; the ASCII and control ranges
/// are the same.
#[verifier::external_body]
fn measure_char_cjk(c: char) -> (w: usize)
    ensures
        w == uw_width_cjk(c),
        0x20 <= (c as u32) && (c as u32) < 0x7f ==> w == 1,
        (c as u32) < 0x20 ==> w == 0,
        0x7f <= (c as u32) && (c as u32) < 0xa0 ==> w == 0,
{
    unicode_width::UnicodeWidthChar::width_cjk(c).unwrap_or(0)
}

/// Columns `c` occupies on screen under the given width mode.
pub fn col_width_char(c: char, cjk: bool) -> (w: usize)
    ensures
        w == char_cols(c, cjk),
{
    let m = if cjk {
        measure_char(c)
    } else {
        measure_char_cjk(c)
    };
    if (c as u32) < 0x20 {
        0
    } else if (c as u32) < 0x7f {
        1
    } else if (c as u32) < 0xa0 {
        0
    } else if m >= 2 {
        2
    } else {
        m
    }
}

/// Columns `s` occupies on screen, saturating at `usize::MAX` for strings
/// too wide to measure in a machine word.
pub fn col_width_str(s: &str, cjk: bool) -> (w: usize)
    ensures
        str_cols(s@, cjk) <= usize::MAX ==> w == str_cols(s@, cjk),
        str_cols(s@, cjk) > usize::MAX ==> w == usize::MAX,
{
    let n = s.unicode_len();
    let mut w: usize = 0;
    let mut i: usize = 0;
    while i < n
        invariant
            i <= n,
            n == s@.len(),
            str_cols(s@.subrange(0, i as int), cjk) <= usize::MAX ==> w == str_cols(
                s@.subrange(0, i as int),
                cjk,
            ),
            str_cols(s@.subrange(0, i as int), cjk) > usize::MAX ==> w == usize::MAX,
        decreases n - i,
    {
        let c = s.get_char(i);
        let cw = col_width_char(c, cjk);
        proof {
            assert(s@.subrange(0, i + 1).drop_last() =~= s@.subrange(0, i as int));
            assert(s@.subrange(0, i + 1).last() == s@[i as int]);
        }
        if cw > usize::MAX - w {
            w = usize::MAX;
        } else {
            w = w + cw;
        }
        i = i + 1;
    }
    proof {
        assert(s@.subrange(0, n as int) =~= s@);
    }
    w
}

} // verus!
