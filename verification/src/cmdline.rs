//! The command line: what it asks for, and which requests are refused.

use vstd::prelude::*;
use crate::terminal::{get_words_per_line, usable_width, words_per_line};

verus! {

/// Largest number of passwords one run will generate.
pub const MAX_COUNT: u16 = 10000;

/// Password length when none is given.
pub const DEFAULT_LENGTH: u16 = 8;

/// Lines of passwords printed in multi-column mode when no count is given.
pub const DEFAULT_LINES: u16 = 20;

/// The options and arguments of one run, as the command line gives them.
#[derive(Debug)]
pub struct Args {
    /// `-c`: ensure one or more capital letters.
    pub ensure_capitals: bool,
    /// `-A`: ensure no capital letters.
    pub no_capitals: bool,
    /// `-n`: ensure one or more numbers.
    pub ensure_numbers: bool,
    /// `-0`: ensure no numbers.
    pub no_numbers: bool,
    /// `-y`: ensure at least one special character.
    pub ensure_symbols: bool,
    /// `-r`: omit these characters.
    pub remove: String,
    /// `-s`: accepted for compatibility; generation is always secure.
    pub secure: bool,
    /// `-B`: don't include ambiguous characters.
    pub no_ambiguous: bool,
    /// `-v`: don't use any vowels.
    pub no_vowels: bool,
    /// `--copyright`: show the copyright notice.
    pub copyright: bool,
    /// `-1`: one password per line.
    pub one_column: bool,
    /// `-C`: several passwords per line (the default).
    pub multi_column: bool,
    /// `-b`: show where to file bug reports.
    pub bugs: bool,
    /// `LENGTH`.
    pub length: Option<u16>,
    /// `COUNT`.
    pub count: Option<u16>,
}

/// Why a run is refused.
#[derive(Clone, Copy, Debug, PartialEq, Eq, Structural)]
pub enum RpassError {
    /// A flag asks for a class of characters that another flag forbids.
    ConflictingFlags,
    /// `LENGTH` lies outside `[6, 43]`.
    LengthOutOfRange,
    /// `COUNT` lies outside `[1, 10000]`.
    CountOutOfRange,
    /// Symbols are required, but every symbol is excluded.
    SymbolsExcluded,
    /// Numbers are required, but every digit is excluded.
    NumbersExcluded,
    /// Capitals are required, but every capital letter is excluded.
    CapitalsExcluded,
    /// Every glyph of the base64 alphabet is excluded.
    AllGlyphsExcluded,
    /// The operating system's random source could not key the generator;
    /// the operating system's error code, when it gave one.
    RandomSourceFailed(Option<i32>),
    /// The generator drew `REFILL_LIMIT` pools for one password without
    /// finding the glyphs it needed.
    PoolExhausted,
}

/// What a run does once its command line has been accepted.
#[derive(Debug)]
pub enum Command {
    /// Generate passwords as the arguments say.
    Generate(Args),
    /// Show where to file bug reports, and stop.
    ShowBugs,
    /// Show the copyright notice, and stop.
    ShowCopyright,
}

/// The password length that a run asks for.
pub open spec fn requested_length(args: Args) -> int {
    match args.length {
        Some(l) => l as int,
        None => DEFAULT_LENGTH as int,
    }
}

/// The count that is checked against `[1, 10000]`: one when none is given.
pub open spec fn checked_count(args: Args) -> int {
    match args.count {
        Some(c) => c as int,
        None => 1,
    }
}

/// A class of characters is both required and forbidden.
pub open spec fn conflicting_flags(args: Args) -> bool {
    (args.ensure_capitals && args.no_capitals) || (args.ensure_numbers && args.no_numbers)
}

pub open spec fn length_in_range(args: Args) -> bool {
    6 <= requested_length(args) <= 43
}

pub open spec fn count_in_range(args: Args) -> bool {
    1 <= checked_count(args) <= 10000
}

/// The arguments with the column mode settled: one column exactly when `-1`
/// was given, whatever `-C` said.
pub open spec fn settled(args: Args) -> Args {
    Args { multi_column: !args.one_column, ..args }
}

/// The refusal, if any, that a command line earns, in the order the checks
/// run; the notices of `-b` and `--copyright` come before the range checks.
pub open spec fn command_line_error(args: Args) -> Option<RpassError> {
    if conflicting_flags(args) {
        Some(RpassError::ConflictingFlags)
    } else if args.bugs || args.copyright {
        None
    } else if !length_in_range(args) {
        Some(RpassError::LengthOutOfRange)
    } else if !count_in_range(args) {
        Some(RpassError::CountOutOfRange)
    } else {
        None
    }
}

/// Arguments that `parse_command_line` hands on for generation.
pub open spec fn accepted(args: Args) -> bool {
    &&& !conflicting_flags(args)
    &&& !args.bugs
    &&& !args.copyright
    &&& length_in_range(args)
    &&& count_in_range(args)
    &&& args.multi_column == !args.one_column
}

enum Check {
    Proceed,
    ShowBugs,
    ShowCopyright,
}

fn sanity_checks(args: &mut Args) -> (r: Result<Check, RpassError>)
    ensures
        *final(args) == settled(*old(args)),
        match command_line_error(*old(args)) {
            Some(e) => r == Err::<Check, RpassError>(e),
            None => if old(args).bugs {
                r matches Ok(Check::ShowBugs)
            } else if old(args).copyright {
                r matches Ok(Check::ShowCopyright)
            } else {
                r matches Ok(Check::Proceed)
            },
        },
{
    args.multi_column = true;
    if args.one_column {
        args.multi_column = false;
    }
    if (args.ensure_capitals && args.no_capitals) || (args.ensure_numbers && args.no_numbers) {
        return Err(RpassError::ConflictingFlags);
    }
    if args.bugs {
        return Ok(Check::ShowBugs);
    }
    if args.copyright {
        return Ok(Check::ShowCopyright);
    }
    let length = match args.length {
        Some(l) => l,
        None => DEFAULT_LENGTH,
    };
    let count = match args.count {
        Some(c) => c,
        None => 1,
    };
    if length < 6 || length > 43 {
        return Err(RpassError::LengthOutOfRange);
    }
    if count < 1 || count > MAX_COUNT {
        return Err(RpassError::CountOutOfRange);
    }
    Ok(Check::Proceed)
}

/// Checks the options that the command line gave and settles the column
/// mode. A refused command line gives its error; `-b` and `--copyright` ask
/// for a notice instead of passwords.
pub fn parse_command_line(args: Args) -> (r: Result<Command, RpassError>)
    ensures
        match command_line_error(args) {
            Some(e) => r == Err::<Command, RpassError>(e),
            None => if args.bugs {
                r matches Ok(Command::ShowBugs)
            } else if args.copyright {
                r matches Ok(Command::ShowCopyright)
            } else {
                r == Ok::<Command, RpassError>(Command::Generate(settled(args)))
            },
        },
        r matches Ok(Command::Generate(a)) ==> accepted(a),
{
    let mut rv = args;
    match sanity_checks(&mut rv) {
        Err(e) => Err(e),
        Ok(Check::ShowBugs) => Ok(Command::ShowBugs),
        Ok(Check::ShowCopyright) => Ok(Command::ShowCopyright),
        Ok(Check::Proceed) => Ok(Command::Generate(rv)),
    }
}

/// The number of passwords a run prints: the given count, or else twenty
/// lines' worth in multi-column mode and a single one in one-column mode.
pub open spec fn password_count(args: Args, detected: Option<u16>) -> int {
    match args.count {
        Some(c) => c as int,
        None => if args.multi_column {
            DEFAULT_LINES * words_per_line(usable_width(detected), requested_length(args))
        } else {
            1
        },
    }
}

/// How many passwords to print; `detected` is the width that the terminal
/// reports, if any.
pub fn get_count(args: &Args, detected: Option<u16>) -> (n: u16)
    ensures
        n == password_count(*args, detected),
{
    match args.count {
        None => match args.multi_column {
            true => {
                let length = match args.length {
                    Some(l) => l,
                    None => DEFAULT_LENGTH,
                };
                get_words_per_line(detected, length) * DEFAULT_LINES
            },
            false => 1,
        },
        Some(count) => count,
    }
}

/// A count given on the command line is the number of passwords printed,
/// in one-column mode as in multi-column mode, whatever the terminal.
pub proof fn lemma_given_count_is_printed(args: Args, detected: Option<u16>, c: u16)
    requires
        args.count == Some(c),
    ensures
        password_count(args, detected) == c,
        password_count(Args { multi_column: !args.multi_column, ..args }, detected) == c,
{
}

/// Without a count, one-column mode prints a single password, and
/// multi-column mode prints a whole number of lines, at least twenty
/// passwords.
pub proof fn lemma_default_count(args: Args, detected: Option<u16>)
    requires
        args.count is None,
    ensures
        !args.multi_column ==> password_count(args, detected) == 1,
        args.multi_column ==> password_count(args, detected) >= 20 && password_count(args, detected)
            % 20 == 0,
{
    let w = words_per_line(usable_width(detected), requested_length(args));
    if args.multi_column {
        assert(w >= 1);
        assert((20 * w) % 20 == 0 && 20 * w >= 20) by (nonlinear_arith)
            requires
                w >= 1,
        ;
    }
}

/// Only the two pairs of opposite flags conflict: `-c` with `-A`, and `-n`
/// with `-0`. Any other combination of class flags is accepted when the
/// length and count are in range.
pub proof fn lemma_only_opposite_flags_conflict(a: Args)
    ensures
        command_line_error(a) == Some(RpassError::ConflictingFlags) <==> (a.ensure_capitals
            && a.no_capitals) || (a.ensure_numbers && a.no_numbers),
        command_line_error(a) is None <==> !((a.ensure_capitals && a.no_capitals) || (
        a.ensure_numbers && a.no_numbers)) && (a.bugs || a.copyright || ({
            let len: int = match a.length {
                Some(l) => l as int,
                None => 8,
            };
            let cnt: int = match a.count {
                Some(c) => c as int,
                None => 1,
            };
            6 <= len <= 43 && 1 <= cnt <= 10000
        })),
{
}

/// `-C` is a no-op: what `-C` says changes neither whether a command line
/// is refused nor the arguments it settles to.
pub proof fn lemma_multicolumn_flag_is_no_op(a: Args, multi_column: bool)
    ensures
        command_line_error(a) == command_line_error(Args { multi_column, ..a }),
        settled(a) == settled(Args { multi_column, ..a }),
{
}

/// `-1` wins: a settled command line is in one-column mode exactly when `-1`
/// was given.
pub proof fn lemma_one_column_flag_settles(a: Args)
    ensures
        settled(a).multi_column == !a.one_column,
{
}

} // verus!
