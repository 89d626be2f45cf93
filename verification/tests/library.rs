use red::buffer::Buffer;
use red::editor;
use red::pattern::Pattern;
use red::repl::{FileReply, FileRequest, Repl, Reply};
use red::state::{Address, CommandKind, EdError, Line, Parser};
use red::substitute::{parse_flag_number, rebuild_line, substitute_line};
use red::text::{chars_of, push_decimal, split_inclusive_newline, split_lines, trim_chars, trim_newlines_chars};
use std::io;

fn feed_all(repl: &mut Repl, input: &str) -> String {
    let mut out = String::new();
    for line in input.split_inclusive('\n') {
        let reply = repl.feed(line);
        assert!(reply.request.is_none(), "no file work expected for {:?}", line);
        out.push_str(&reply.output);
    }
    out
}

fn listed(output: &str) -> Vec<String> {
    output.lines().filter(|l| l.ends_with('$')).map(ToOwned::to_owned).collect()
}

fn text(chars: &[char]) -> String {
    chars.iter().collect()
}

#[test]
fn undo_twice_redoes_the_change() {
    let mut repl = Repl::new();
    let out = feed_all(&mut repl, "a\none\ntwo\n.\n2d\nu\nu\n1,$l\n");
    assert_eq!(listed(&out), vec!["one$"]);
}

#[test]
fn undo_brings_back_text_after_move_and_put() {
    let mut repl = Repl::new();
    let out = feed_all(&mut repl, "a\nA\nB\nC\n.\n1m$\nu\n1,$l\n2y\n0x\nu\n1,$l\n");
    assert_eq!(listed(&out), vec!["A$", "B$", "C$", "A$", "B$", "C$"]);
}

#[test]
fn clean_session_quits_at_once() {
    let mut repl = Repl::new();
    let reply = repl.feed("q\n");
    assert!(reply.finished);
    assert_eq!(reply.output, "");
}

#[test]
fn changed_session_needs_two_quits() {
    let mut repl = Repl::new();
    feed_all(&mut repl, "a\nx\n.\n");
    let first = repl.feed("q\n");
    assert!(!first.finished);
    assert_eq!(first.output, "?\n");
    let second = repl.feed("q\n");
    assert!(second.finished);
    assert_eq!(second.output, "");
}

#[test]
fn any_command_between_quits_asks_again() {
    let mut repl = Repl::new();
    feed_all(&mut repl, "a\nx\n.\n");
    assert!(!repl.feed("q\n").finished);
    assert_eq!(repl.feed("1l\n").output, "x$\n");
    assert!(!repl.feed("q\n").finished);
    assert!(repl.feed("q\n").finished);
}

#[test]
fn quit_with_an_address_is_an_error() {
    let mut repl = Repl::new();
    let reply = repl.feed("1q\n");
    assert!(!reply.finished);
    assert_eq!(reply.output, "?\n");
}

#[test]
fn edit_of_changed_text_needs_confirmation() {
    let mut repl = Repl::new();
    feed_all(&mut repl, "a\nx\n.\n");
    let first = repl.feed("e other.txt\n");
    assert_eq!(first.output, "?\n");
    assert!(first.request.is_none());
    let second = repl.feed("e other.txt\n");
    assert!(matches!(second.request, Some(FileRequest::Read(ref n)) if n == "other.txt"));
    let done = repl.resume(FileReply::Contents("new\ntext\n".to_string()));
    assert_eq!(done.output, "9\n");
    assert_eq!(feed_all(&mut repl, "1,$l\n"), "new$\ntext$\n");
    assert!(repl.feed("q\n").finished);
}

#[test]
fn write_goes_through_create_then_write_and_clears_changes() {
    let mut repl = Repl::new();
    feed_all(&mut repl, "a\nzażółć\n.\n");
    let create = repl.feed("w notes.txt\n");
    assert!(matches!(create.request, Some(FileRequest::Create(ref n)) if n == "notes.txt"));
    assert_eq!(create.output, "");
    let write = repl.resume(FileReply::Done);
    assert!(matches!(write.request, Some(FileRequest::Write(ref t)) if t == "zażółć\n"));
    let done = repl.resume(FileReply::Done);
    assert_eq!(done.output, "11\n");
    assert!(done.request.is_none());
    assert!(repl.feed("q\n").finished);
}

#[test]
fn failed_file_work_prints_an_error() {
    let mut repl = Repl::new();
    let read = repl.feed("r missing.txt\n");
    assert!(matches!(read.request, Some(FileRequest::Read(ref n)) if n == "missing.txt"));
    let failed = repl.resume(FileReply::Failed(io::Error::new(io::ErrorKind::NotFound, "missing")));
    assert_eq!(failed.output, "?\n");
    assert!(failed.request.is_none());
    assert!(repl.feed("q\n").finished);
}

#[test]
fn lines_are_ignored_while_file_work_is_pending() {
    let mut repl = Repl::new();
    let read = repl.feed("r data.txt\n");
    assert!(read.request.is_some());
    let ignored = repl.feed("a\n");
    assert_eq!(ignored.output, "");
    assert!(matches!(ignored.request, Some(FileRequest::Read(_))));
    let done = repl.resume(FileReply::Contents("one\ntwo\n".to_string()));
    assert_eq!(done.output, "8\n");
    assert_eq!(feed_all(&mut repl, "1,$n\n"), "1\tone\n2\ttwo\n");
}

#[test]
fn resume_without_pending_work_changes_nothing() {
    let mut repl = Repl::new();
    let reply: Reply = repl.resume(FileReply::Done);
    assert_eq!(reply.output, "");
    assert!(reply.request.is_none());
    assert!(!reply.finished);
}

#[test]
fn delete_then_put_after_previous_line_restores_text() {
    let mut repl = Repl::new();
    let out = feed_all(&mut repl, "a\nA\nB\nC\n.\n2,3d\n1x\n1,$l\n");
    assert_eq!(listed(&out), vec!["A$", "B$", "C$"]);
}

#[test]
fn move_keeps_every_line() {
    let mut repl = Repl::new();
    let out = feed_all(&mut repl, "a\nA\nB\nC\nD\n.\n1m$\n1,$l\n");
    assert_eq!(listed(&out), vec!["B$", "C$", "D$", "A$"]);
}

#[test]
fn failed_copy_keeps_text() {
    let mut repl = Repl::new();
    let out = feed_all(&mut repl, "a\nA\nB\nC\n.\n1,2t1\n1,$l\n");
    assert_eq!(out, "?\nA$\nB$\nC$\n");
}

#[test]
fn join_of_a_single_line_changes_nothing() {
    let mut repl = Repl::new();
    let out = feed_all(&mut repl, "a\nred\ngreen\n.\n1,1j\n1,$l\n");
    assert_eq!(listed(&out), vec!["red$", "green$"]);
}

#[test]
fn ampersand_replacement_keeps_the_line() {
    let mut repl = Repl::new();
    let out = feed_all(&mut repl, "a\nabc abc\n.\n1s/b/&/g\n1l\n");
    assert_eq!(listed(&out), vec!["abc abc$"]);
}

#[test]
fn substitution_without_match_keeps_text_and_reports() {
    let mut repl = Repl::new();
    let out = feed_all(&mut repl, "a\nfoo\nbar\n.\n1,2s/zzz/y/\n1,$l\n");
    assert_eq!(out, "?\nfoo$\nbar$\n");
}

#[test]
fn repeated_substitution_reuses_replacement_and_flag() {
    let mut repl = Repl::new();
    let out = feed_all(&mut repl, "a\na a a\na a a\n.\n1s/a/b/g\n2s\n1,$l\n");
    assert_eq!(listed(&out), vec!["b b b$", "b b b$"]);
}

#[test]
fn repeated_substitution_with_print_suffix_toggles_printing() {
    let mut repl = Repl::new();
    let out = feed_all(&mut repl, "a\nx x\nx x\nx x\n.\n1s/x/y/p\n2sp\n3sp\n");
    assert_eq!(out, "y x\ny x\n");
}

#[test]
fn repeated_substitution_without_previous_one_is_an_error() {
    let mut repl = Repl::new();
    let out = feed_all(&mut repl, "a\nx\n.\ns\n1l\n");
    assert_eq!(out, "?\nx$\n");
}

#[test]
fn unknown_command_and_halting_address() {
    let mut repl = Repl::new();
    assert_eq!(repl.feed("z\n").output, "?\n");
    let reply = repl.feed("99999999999999999999999l\n");
    assert!(reply.halted);
    let after = repl.feed("q\n");
    assert!(after.halted);
    assert!(!after.finished);
}

#[test]
fn input_mode_keeps_line_endings_and_dot_ends_it() {
    let mut repl = Repl::new();
    let out = feed_all(&mut repl, "a\n .\n\tx\n.\n1,$l\n");
    assert_eq!(out, " .$\n\\tx$\n");
}

#[test]
fn parser_reports_each_error_kind() {
    let mut parser = Parser::new();
    assert!(matches!(parser.parse("z"), Err(EdError::UnknownCommand)));
    assert!(matches!(parser.parse("wfile"), Err(EdError::SuffixUnsuported)));
    assert!(matches!(parser.parse("1s foo bar"), Err(EdError::InvalidInput)));
    let ok = parser.parse("2,3t0").unwrap();
    assert_eq!(ok.address, Address::Range(Line::Absolute(2, 0), Line::Absolute(3, 0)));
    assert!(matches!(ok.kind, CommandKind::Transfer(Address::Single(Line::Absolute(0, 0)))));
}

#[test]
fn error_messages() {
    assert_eq!(EdError::UnknownCommand.message(), "Unknown Command");
    assert_eq!(EdError::SuffixUnsuported.message(), "Suffix Unsuported");
    assert_eq!(EdError::InvalidRange.message(), "Invalid Range");
    assert_eq!(EdError::InvalidFilename.message(), "Invalid Filename");
    assert_eq!(EdError::InvalidAddress.message(), "Invalid Address");
    assert_eq!(EdError::RegexNotFound.message(), "Regex Not Found");
    assert_eq!(EdError::RegexInvalid.message(), "Regex Invalid");
    assert_eq!(EdError::NoData.message(), "No Data");
    assert_eq!(EdError::EndOfInput.message(), "End Of Input");
    assert_eq!(EdError::InvalidInput.message(), "Invalid Input");
    assert_eq!(EdError::UnexpectedState.message(), "Unexpected State");
    let io = EdError::IoError(io::Error::new(io::ErrorKind::Other, "disk on fire"));
    assert_eq!(io.message(), "disk on fire");
    match Pattern::new("(unclosed") {
        Err(e) => {
            assert!(matches!(e, EdError::RegexError(_)));
            assert!(!e.message().is_empty());
        }
        Ok(_) => panic!("an unclosed group compiles"),
    }
}

#[test]
fn substitute_line_uses_the_regex_matches() {
    let pat = Pattern::new("o+").unwrap();
    let parts = vec!["0".to_string()];
    assert_eq!(substitute_line(&pat, "foo boo", &parts, 0, true), ("f0 b0".to_string(), true));
    assert_eq!(substitute_line(&pat, "foo boo", &parts, 2, false), ("foo b0".to_string(), true));
    assert_eq!(substitute_line(&pat, "foo boo", &parts, 3, false), ("foo boo".to_string(), false));
    let groups = Pattern::new("(a)(b)?").unwrap();
    let swap = vec!["[\\2\\1&\\&]".to_string()];
    assert_eq!(substitute_line(&groups, "xa", &swap, 0, false), ("x[aa&]".to_string(), true));
}

#[test]
fn rebuild_line_from_pieces_and_matches() {
    let pieces = vec!["a".to_string(), "b".to_string(), "c".to_string()];
    let caps = vec![vec![Some("-".to_string())], vec![Some("-".to_string())]];
    let parts = vec!["+".to_string()];
    assert_eq!(rebuild_line("a-b-c", &pieces, &caps, &parts, 2, false), ("a-b+c".to_string(), true));
    assert_eq!(rebuild_line("a-b-c", &pieces, &caps, &parts, 0, true), ("a+b+c".to_string(), true));
    assert_eq!(rebuild_line("a-b-c", &pieces, &caps, &parts, 3, false), ("a-b-c".to_string(), false));
    assert_eq!(rebuild_line("a-b-c", &pieces, &caps, &parts, -4, false), ("a+b-c".to_string(), true));
    let ends = vec!["x\\".to_string()];
    assert_eq!(rebuild_line("a-b-c", &pieces, &caps, &ends, 1, false), ("ax\\b-c".to_string(), true));
}

#[test]
fn flag_numbers() {
    assert_eq!(parse_flag_number("12"), 12);
    assert_eq!(parse_flag_number("007"), 7);
    assert_eq!(parse_flag_number("de"), 0);
    assert_eq!(parse_flag_number(""), 0);
    assert_eq!(parse_flag_number("2147483647"), 2147483647);
    assert_eq!(parse_flag_number("2147483648"), 0);
    assert_eq!(parse_flag_number("99999999999"), 0);
}

#[test]
fn text_helpers() {
    assert_eq!(text(&trim_chars(&chars_of(" \ta b \n"))), "a b");
    let lines: Vec<String> = split_lines(&chars_of("a\r\nb\n\nc")).iter().map(|l| text(l)).collect();
    assert_eq!(lines, vec!["a", "b", "", "c"]);
    let pieces: Vec<String> =
        split_inclusive_newline(&chars_of("a\nb\n\nc")).iter().map(|l| text(l)).collect();
    assert_eq!(pieces, vec!["a\n", "b\n", "\n", "c"]);
    assert!(split_inclusive_newline(&chars_of("")).is_empty());
    assert_eq!(text(&trim_newlines_chars(&chars_of("ab\n\n"))), "ab");
    let mut digits = vec!['#'];
    push_decimal(1234, &mut digits);
    assert_eq!(text(&digits), "#1234");
}

#[test]
fn buffer_append_and_lines() {
    let mut buffer = Buffer::new();
    buffer.append("one\n");
    buffer.append("two\n");
    assert_eq!(buffer.len(), 2);
    assert_eq!(buffer.current_line(), 2);
    assert!(buffer.set_range(&Address::Range(Line::First(0), Line::Last(0))).is_ok());
    let shown = buffer.get_lines().unwrap().numbered().render();
    assert_eq!(shown, "1\tone\n2\ttwo\n");
    assert_eq!(buffer.get_lines_for_save(&Address::Absent).unwrap(), "one\ntwo\n");
}

#[test]
fn first_buffer_form() {
    let mut buffer = editor::Buffer::new();
    buffer.append(" a ");
    buffer.append("b");
    buffer.set_range(&editor::Address::Range(editor::Line::First, editor::Line::Last));
    assert_eq!(buffer.get_lines().unwrap().well_defined().render(), "a$\nb$\n");
    assert_eq!(buffer.get_lines_for_save(&editor::Address::Absent).unwrap(), " a b");
    buffer.set_range(&editor::Address::Single(editor::Line::Absolute(1)));
    assert!(buffer.delete().is_ok());
    buffer.set_range(&editor::Address::Single(editor::Line::Offset(-5)));
    assert!(buffer.get_lines().is_err());
}

#[test]
fn written_text_reads_back_without_line_endings() {
    let mut repl = Repl::new();
    feed_all(&mut repl, "a\nx\ny\n.\n");
    let create = repl.feed("w f.txt\n");
    assert!(matches!(create.request, Some(FileRequest::Create(_))));
    let write = repl.resume(FileReply::Done);
    let written = match write.request {
        Some(FileRequest::Write(t)) => t,
        _ => panic!("expected the text to write"),
    };
    assert_eq!(written, "x\ny\n");
    assert_eq!(repl.resume(FileReply::Done).output, "4\n");
    let read = repl.feed("e f.txt\n");
    assert!(matches!(read.request, Some(FileRequest::Read(ref n)) if n == "f.txt"));
    assert_eq!(repl.resume(FileReply::Contents(written)).output, "4\n");
    assert_eq!(feed_all(&mut repl, "1,$l\n"), "x$\ny$\n");
    let again = repl.feed("w\n");
    assert!(matches!(again.request, Some(FileRequest::Create(ref n)) if n == "f.txt"));
    let text = match repl.resume(FileReply::Done).request {
        Some(FileRequest::Write(t)) => t,
        _ => panic!("expected the text to write"),
    };
    assert_eq!(text, "xy");
}

#[test]
fn suffixes_are_print_commands() {
    let mut parser = Parser::new();
    let c = parser.parse("1dp").unwrap();
    assert!(matches!(c.suffix, Some(CommandKind::PrintList)));
    let c = parser.parse("1d \n").unwrap();
    assert!(c.suffix.is_none());
    assert!(matches!(parser.parse("1dz"), Err(EdError::UnknownCommand)));
    let c = parser.parse("s/a/b\\\n").unwrap();
    assert!(matches!(c.kind, CommandKind::NoOp));
    let c = parser.parse("c/n\n").unwrap();
    assert!(matches!(c.kind, CommandKind::Substitution { repeated: false, .. }));
    assert!(matches!(c.suffix, Some(CommandKind::NumberedList)));
}

#[test]
fn outside_errors_convert_into_editor_errors() {
    let e: EdError = io::Error::new(io::ErrorKind::PermissionDenied, "denied").into();
    assert!(matches!(e, EdError::IoError(_)));
    assert_eq!(e.message(), "denied");
    let r = regex::Regex::new("[").unwrap_err();
    assert!(matches!(EdError::from(r), EdError::RegexError(_)));
}

#[test]
fn undo_after_text_input_restores_text_before_it() {
    let mut repl = Repl::new();
    let out = feed_all(&mut repl, "a\none\n.\na\ntwo\nthree\n.\nu\n1,$l\n1c\nONE\n.\nu\n1,$l\n");
    assert_eq!(listed(&out), vec!["one$", "one$"]);
}

#[test]
fn join_keeps_the_current_line() {
    let mut repl = Repl::new();
    let out = feed_all(&mut repl, "a\nA\nB\nC\n.\n2l\n1,2j\np\n1,$l\n");
    assert_eq!(out, "B$\nC\nAB$\nC$\n");
}

#[test]
fn join_after_the_last_line_leaves_current_line_past_the_end() {
    let mut repl = Repl::new();
    let out = feed_all(&mut repl, "a\nA\nB\nC\n.\n1,2j\np\n");
    assert_eq!(out, "?\n");
}
