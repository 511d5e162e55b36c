use rpass::cmdline::{get_count, parse_command_line, Args, Command, RpassError};
use rpass::printer::{make_printer, Separator};
use rpass::terminal::{get_terminal_width, get_words_per_line};

fn base_args() -> Args {
    Args {
        ensure_capitals: false,
        no_capitals: false,
        ensure_numbers: false,
        no_numbers: false,
        ensure_symbols: false,
        remove: String::new(),
        secure: true,
        no_ambiguous: false,
        no_vowels: false,
        copyright: false,
        one_column: false,
        multi_column: true,
        bugs: false,
        length: None,
        count: None,
    }
}

fn generated(r: Result<Command, RpassError>) -> Args {
    match r {
        Ok(Command::Generate(a)) => a,
        other => panic!("expected arguments for generation, got {:?}", other),
    }
}

#[test]
fn defaults_are_accepted() {
    let a = generated(parse_command_line(base_args()));
    assert!(a.multi_column);
    assert_eq!(a.length, None);
    assert_eq!(a.count, None);
}

#[test]
fn one_column_overrides_multicolumn() {
    let mut args = base_args();
    args.one_column = true;
    let a = generated(parse_command_line(args));
    assert!(!a.multi_column);
}

#[test]
fn multicolumn_flag_is_settled_by_one_column() {
    let mut args = base_args();
    args.multi_column = false;
    let a = generated(parse_command_line(args));
    assert!(a.multi_column);
}

#[test]
fn conflicting_capital_flags_are_refused() {
    let mut args = base_args();
    args.ensure_capitals = true;
    args.no_capitals = true;
    assert!(matches!(parse_command_line(args), Err(RpassError::ConflictingFlags)));
}

#[test]
fn conflicting_number_flags_are_refused() {
    let mut args = base_args();
    args.ensure_numbers = true;
    args.no_numbers = true;
    args.bugs = true;
    assert!(matches!(parse_command_line(args), Err(RpassError::ConflictingFlags)));
}

#[test]
fn bugs_notice_comes_before_range_checks() {
    let mut args = base_args();
    args.bugs = true;
    args.length = Some(2);
    assert!(matches!(parse_command_line(args), Ok(Command::ShowBugs)));
}

#[test]
fn copyright_notice() {
    let mut args = base_args();
    args.copyright = true;
    args.count = Some(0);
    assert!(matches!(parse_command_line(args), Ok(Command::ShowCopyright)));
}

#[test]
fn length_range_is_six_to_forty_three() {
    for (len, ok) in [(5u16, false), (6, true), (8, true), (43, true), (44, false), (0, false)] {
        let mut args = base_args();
        args.length = Some(len);
        let r = parse_command_line(args);
        if ok {
            assert_eq!(generated(r).length, Some(len));
        } else {
            assert!(matches!(r, Err(RpassError::LengthOutOfRange)));
        }
    }
}

#[test]
fn count_range_is_one_to_ten_thousand() {
    for (count, ok) in [(0u16, false), (1, true), (1000, true), (1001, true), (10000, true), (10001, false)] {
        let mut args = base_args();
        args.count = Some(count);
        let r = parse_command_line(args);
        if ok {
            assert_eq!(generated(r).count, Some(count));
        } else {
            assert!(matches!(r, Err(RpassError::CountOutOfRange)));
        }
    }
}

#[test]
fn length_is_checked_before_count() {
    let mut args = base_args();
    args.length = Some(50);
    args.count = Some(0);
    assert!(matches!(parse_command_line(args), Err(RpassError::LengthOutOfRange)));
}

#[test]
fn secure_flag_changes_nothing() {
    let mut args = base_args();
    args.secure = false;
    let a = generated(parse_command_line(args));
    assert!(!a.secure);
    assert!(a.multi_column);
}

#[test]
fn terminal_width_is_clamped() {
    assert_eq!(get_terminal_width(None), 80);
    assert_eq!(get_terminal_width(Some(0)), 7);
    assert_eq!(get_terminal_width(Some(7)), 7);
    assert_eq!(get_terminal_width(Some(8)), 8);
    assert_eq!(get_terminal_width(Some(100)), 100);
    assert_eq!(get_terminal_width(Some(159)), 159);
    assert_eq!(get_terminal_width(Some(160)), 160);
    assert_eq!(get_terminal_width(Some(2500)), 160);
}

#[test]
fn words_per_line_counts_password_and_separator() {
    assert_eq!(get_words_per_line(Some(80), 8), 8);
    assert_eq!(get_words_per_line(None, 8), 8);
    assert_eq!(get_words_per_line(Some(81), 8), 9);
    assert_eq!(get_words_per_line(Some(100), 16), 5);
    assert_eq!(get_words_per_line(Some(160), 6), 22);
    assert_eq!(get_words_per_line(Some(10), 43), 1);
    assert_eq!(get_words_per_line(Some(43), 43), 1);
    assert_eq!(get_words_per_line(Some(44), 43), 1);
    assert_eq!(get_words_per_line(Some(5), 8), 1);
}

#[test]
fn count_defaults() {
    let mut args = base_args();
    args.count = Some(12);
    assert_eq!(get_count(&args, Some(80)), 12);
    args.count = None;
    // Twenty lines of eight passwords of eight glyphs on an 80-column terminal.
    assert_eq!(get_count(&args, Some(80)), 160);
    args.length = Some(16);
    assert_eq!(get_count(&args, Some(100)), 100);
    args.one_column = true;
    let a = generated(parse_command_line(args));
    assert_eq!(get_count(&a, Some(100)), 1);
}

fn layout(args: &Args, detected: Option<u16>, n: usize) -> String {
    let mut p = make_printer(args, detected);
    let mut out = String::new();
    for _ in 0..n {
        out.push('x');
        match p.next_separator() {
            Separator::Space => out.push(' '),
            Separator::Newline => out.push('\n'),
        }
    }
    assert_eq!(p.printed_count(), n as u64);
    out
}

#[test]
fn printer_fills_lines_then_ends_with_newline() {
    let mut args = base_args();
    args.length = Some(8);
    args.count = Some(5);
    // 20 columns hold two passwords of eight glyphs.
    assert_eq!(layout(&args, Some(20), 5), "x x\nx x\nx\n");
}

#[test]
fn printer_last_password_ends_line_early() {
    let mut args = base_args();
    args.length = Some(8);
    args.count = Some(4);
    assert_eq!(layout(&args, Some(30), 4), "x x x\nx\n");
}

#[test]
fn printer_one_column() {
    let mut args = base_args();
    args.one_column = true;
    args.count = Some(3);
    let a = generated(parse_command_line(args));
    assert_eq!(layout(&a, Some(80), 3), "x\nx\nx\n");
}

#[test]
fn default_run_prints_twenty_lines() {
    let a = generated(parse_command_line(base_args()));
    let count = get_count(&a, Some(80)) as usize;
    let out = layout(&a, Some(80), count);
    assert_eq!(out.matches('\n').count(), 20);
    assert!(out.lines().all(|l| l.split(' ').count() == 8));
}
