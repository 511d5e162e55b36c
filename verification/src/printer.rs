//! The layout of printed passwords: one per line, or as many per line as the
//! terminal holds, the last always ending its line.

use vstd::prelude::*;
use crate::cmdline::{get_count, password_count, requested_length, Args, DEFAULT_LENGTH};
use crate::terminal::{get_words_per_line, usable_width, words_per_line};

verus! {

/// What follows a printed password.
#[derive(Clone, Copy, Debug, PartialEq, Eq, Structural)]
pub enum Separator {
    /// The next password goes on the same line.
    Space,
    /// The line ends.
    Newline,
}

/// What follows password `i` (counting from zero) of `count`: a newline in
/// one-column mode, after the last password, and after every `per_line`-th
/// password; a space otherwise.
pub open spec fn separator_after(multi_column: bool, count: int, per_line: int, i: int) -> Separator {
    if !multi_column || i >= count - 1 {
        Separator::Newline
    } else if (i + 1) % per_line == 0 {
        Separator::Newline
    } else {
        Separator::Space
    }
}

/// One call of `next_separator`: it answers with the separator for the
/// password at the printer's position, and moves one password on, keeping
/// the mode, the count and the line width.
pub open spec fn printer_step(before: Printer, after: Printer, s: Separator) -> bool {
    &&& s == separator_after(
        before.multi_column(),
        before.count(),
        before.per_line(),
        before.printed(),
    )
    &&& after.printed() == before.printed() + 1
    &&& after.multi_column() == before.multi_column()
    &&& after.count() == before.count()
    &&& after.per_line() == before.per_line()
}

/// Lays out a run of passwords: it decides, password by password, what is
/// printed after each.
pub struct Printer {
    multi_column: bool,
    count: u16,
    words_per_line: u16,
    index: u64,
    remaining_in_line: u16,
}

impl Printer {
    pub closed spec fn multi_column(&self) -> bool {
        self.multi_column
    }

    /// Passwords in the run.
    pub closed spec fn count(&self) -> int {
        self.count as int
    }

    /// Passwords on a full line.
    pub closed spec fn per_line(&self) -> int {
        self.words_per_line as int
    }

    /// Passwords laid out so far.
    pub closed spec fn printed(&self) -> int {
        self.index as int
    }

    pub closed spec fn wf(&self) -> bool {
        &&& 1 <= self.words_per_line
        &&& 1 <= self.remaining_in_line <= self.words_per_line
        &&& self.multi_column && self.index < self.count - 1 ==> self.remaining_in_line
            == self.words_per_line - (self.index as int) % (self.words_per_line as int)
    }

    /// Passwords laid out so far.
    pub fn printed_count(&self) -> (n: u64)
        ensures
            n == self.printed(),
    {
        self.index
    }

    /// Decides what follows the next password, and counts it as printed.
    pub fn next_separator(&mut self) -> (s: Separator)
        requires
            old(self).wf(),
            old(self).printed() < u64::MAX,
        ensures
            final(self).wf(),
            printer_step(*old(self), *final(self), s),
    {
        let ghost i = self.index as int;
        let ghost w = self.words_per_line as int;
        let last = if self.count >= 1 {
            self.count - 1
        } else {
            0
        };
        let is_last = self.index >= last as u64;
        let s = if !self.multi_column || is_last {
            Separator::Newline
        } else {
            proof {
                assert((i + 1) % w == if i % w == w - 1 {
                    0
                } else {
                    i % w + 1
                }) by (nonlinear_arith)
                    requires
                        w >= 1,
                        i >= 0,
                ;
            }
            self.remaining_in_line = self.remaining_in_line - 1;
            if self.remaining_in_line == 0 {
                self.remaining_in_line = self.words_per_line;
                Separator::Newline
            } else {
                Separator::Space
            }
        };
        self.index = self.index + 1;
        s
    }
}

/// This closure encapsulates all the logic involved in laying out passwords
/// on the screen: it sizes the run and the lines from the arguments and from
/// the width that the terminal reports (`detected`), if any.
pub fn make_printer(args: &Args, detected: Option<u16>) -> (p: Printer)
    ensures
        p.wf(),
        p.multi_column() == args.multi_column,
        p.count() == password_count(*args, detected),
        p.per_line() == words_per_line(usable_width(detected), requested_length(*args)),
        p.printed() == 0,
{
    let count = get_count(args, detected);
    let length = match args.length {
        Some(l) => l,
        None => DEFAULT_LENGTH,
    };
    let wpl = get_words_per_line(detected, length);
    Printer {
        multi_column: args.multi_column,
        count,
        words_per_line: wpl,
        index: 0,
        remaining_in_line: wpl,
    }
}

/// After `n` steps of a run, the printer is `n` passwords on, with the mode,
/// the count and the line width it started with.
pub proof fn lemma_run_prefix(states: Seq<Printer>, seps: Seq<Separator>, n: int)
    requires
        states.len() == seps.len() + 1,
        forall|i: int|
            0 <= i < seps.len() ==> #[trigger] printer_step(states[i], states[i + 1], seps[i]),
        0 <= n < states.len(),
    ensures
        states[n].printed() == states[0].printed() + n,
        states[n].multi_column() == states[0].multi_column(),
        states[n].count() == states[0].count(),
        states[n].per_line() == states[0].per_line(),
    decreases n,
{
    if n > 0 {
        lemma_run_prefix(states, seps, n - 1);
        let i = n - 1;
        assert(printer_step(states[i], states[i + 1], seps[i]));
        assert(i + 1 == n);
    }
}

/// The layout of a whole run: when a fresh printer answers the calls of a
/// run in turn (`states[i]` before call `i`, `seps[i]` its answer), what
/// follows password `i` is `separator_after` of `i` for the printer's mode,
/// count and line width. So the output is password 0, its separator,
/// password 1, its separator, and so on.
pub proof fn lemma_run_layout(states: Seq<Printer>, seps: Seq<Separator>)
    requires
        states.len() == seps.len() + 1,
        states[0].printed() == 0,
        forall|i: int|
            0 <= i < seps.len() ==> #[trigger] printer_step(states[i], states[i + 1], seps[i]),
    ensures
        forall|i: int|
            0 <= i < seps.len() ==> #[trigger] seps[i] == separator_after(
                states[0].multi_column(),
                states[0].count(),
                states[0].per_line(),
                i,
            ),
{
    assert forall|i: int| 0 <= i < seps.len() implies #[trigger] seps[i] == separator_after(
        states[0].multi_column(),
        states[0].count(),
        states[0].per_line(),
        i,
    ) by {
        lemma_run_prefix(states, seps, i);
        assert(printer_step(states[i], states[i + 1], seps[i]));
    }
}

/// Newlines printed after the first `n` passwords of a run.
pub open spec fn newline_count(multi_column: bool, count: int, per_line: int, n: int) -> int
    decreases n,
{
    if n <= 0 {
        0
    } else {
        newline_count(multi_column, count, per_line, n - 1) + if separator_after(
            multi_column,
            count,
            per_line,
            n - 1,
        ) == Separator::Newline {
            1int
        } else {
            0int
        }
    }
}

/// In one-column mode every password ends its line.
pub proof fn lemma_one_column_lines(count: int, per_line: int, i: int)
    ensures
        separator_after(false, count, per_line, i) == Separator::Newline,
{
}

/// The last password of a run always ends its line.
pub proof fn lemma_last_password_ends_line(multi_column: bool, count: int, per_line: int)
    ensures
        separator_after(multi_column, count, per_line, count - 1) == Separator::Newline,
{
}

/// In multi-column mode no line holds more than `per_line` passwords: any
/// `per_line` consecutive passwords of the run include one that ends a line.
pub proof fn lemma_line_holds_at_most_per_line(count: int, per_line: int, i: int)
    requires
        per_line >= 1,
        0 <= i,
        i + per_line <= count,
    ensures
        exists|j: int|
            i <= j < i + per_line && #[trigger] separator_after(true, count, per_line, j)
                == Separator::Newline,
{
    let j = i + (per_line - 1 - i % per_line);
    assert(i <= j < i + per_line && (j + 1) % per_line == 0) by (nonlinear_arith)
        requires
            per_line >= 1,
            i >= 0,
            j == i + (per_line - 1 - i % per_line),
    ;
    assert(separator_after(true, count, per_line, j) == Separator::Newline);
}

/// Before the last password of a multi-column run, a line ends after every
/// `per_line` passwords.
pub proof fn lemma_newlines_before_last(count: int, per_line: int, n: int)
    requires
        per_line >= 1,
        0 <= n <= count - 1,
    ensures
        newline_count(true, count, per_line, n) == n / per_line,
    decreases n,
{
    if n > 0 {
        lemma_newlines_before_last(count, per_line, n - 1);
        assert((n - 1) / per_line + (if n % per_line == 0 {
            1int
        } else {
            0int
        }) == n / per_line) by (nonlinear_arith)
            requires
                per_line >= 1,
                n >= 1,
        ;
    }
}

/// A multi-column run of `count` passwords fills `(count - 1) / per_line + 1`
/// lines.
pub proof fn lemma_lines_of_run(count: int, per_line: int)
    requires
        per_line >= 1,
        count >= 1,
    ensures
        newline_count(true, count, per_line, count) == (count - 1) / per_line + 1,
{
    lemma_newlines_before_last(count, per_line, count - 1);
}

/// Without a count, a multi-column run prints twenty full lines.
pub proof fn lemma_default_run_fills_twenty_lines(args: Args, detected: Option<u16>)
    requires
        args.count is None,
        args.multi_column,
    ensures
        ({
            let per_line = words_per_line(usable_width(detected), requested_length(args));
            let count = password_count(args, detected);
            count == 20 * per_line && newline_count(true, count, per_line, count) == 20
        }),
{
    let per_line = words_per_line(usable_width(detected), requested_length(args));
    let count = password_count(args, detected);
    assert(per_line >= 1);
    lemma_lines_of_run(count, per_line);
    assert((20 * per_line - 1) / per_line == 19) by (nonlinear_arith)
        requires
            per_line >= 1,
    ;
}

} // verus!
