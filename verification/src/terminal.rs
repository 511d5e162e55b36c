//! How many passwords fit on a line of the terminal.

use vstd::prelude::*;

verus! {

/// Width used when the terminal's width cannot be read.
pub const DEFAULT_TERMINAL_WIDTH: u16 = 80;

/// The terminal width that layout works with: the detected width held to
/// `[7, 160]`, or 80 when there is none.
pub open spec fn usable_width(detected: Option<u16>) -> int {
    match detected {
        Some(w) => if w <= 7 {
            7
        } else if w < 160 {
            w as int
        } else {
            160
        },
        None => 80,
    }
}

/// Passwords of `len` glyphs, each followed by one separator, that fit in
/// `width` columns; at least one.
pub open spec fn words_per_line(width: int, len: int) -> int {
    if width <= len {
        1
    } else if width / (len + 1) < 1 {
        1
    } else {
        width / (len + 1)
    }
}

/// Returns the terminal width, if sane, or a reasonable alternative, if not.
/// `detected` is the width that the terminal reports, if any.
pub fn get_terminal_width(detected: Option<u16>) -> (w: u16)
    ensures
        w == usable_width(detected),
        7 <= w <= 160,
{
    match detected {
        Some(w) => {
            if w <= 7 {
                7
            } else if w < 160 {
                w
            } else {
                160
            }
        },
        None => DEFAULT_TERMINAL_WIDTH,
    }
}

/// How many passwords of length `len` fit on a line of the terminal whose
/// reported width is `detected`.
pub fn get_words_per_line(detected: Option<u16>, len: u16) -> (n: u16)
    ensures
        n == words_per_line(usable_width(detected), len as int),
        1 <= n <= 160,
{
    let tw = get_terminal_width(detected);
    if tw <= len {
        return 1;
    }
    let l = len + 1;
    let q = tw / l;
    if q < 1 {
        1
    } else {
        q
    }
}

/// A sane reported width is used as it is; a missing one counts as 80
/// columns; any other is held to the nearest end of `[7, 160]`.
pub proof fn lemma_width_kept_when_sane(w: u16)
    ensures
        usable_width(None) == 80,
        7 <= usable_width(Some(w)) <= 160,
        7 <= w <= 160 ==> usable_width(Some(w)) == w,
        w < 7 ==> usable_width(Some(w)) == 7,
        w > 160 ==> usable_width(Some(w)) == 160,
{
}

/// Where the terminal is wider than a password, the words of a line, each
/// with its separator, fit in the width, and one more would not.
pub proof fn lemma_words_fill_line(width: int, len: int)
    requires
        0 <= len < width,
    ensures
        words_per_line(width, len) * (len + 1) <= width,
        width < (words_per_line(width, len) + 1) * (len + 1),
{
    let d = len + 1;
    let q = width / d;
    assert(q * d <= width < (q + 1) * d && q >= 1) by (nonlinear_arith)
        requires
            d >= 1,
            width >= d,
            q == width / d,
    ;
}

} // verus!
