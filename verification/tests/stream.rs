use eat::cli::{short_help, ColorMode, LineRange, PagingMode};
use eat::plan::End;
use eat::stream::{
    apply_line_range, collect_inputs, finish_start, input_failure, join_lines, line_mark, line_numbers, number_width, pager_args, plan_input, render_body, resolve_pager,
    run_uses_color, start_run, wants_pager, write_header, write_highlighted_line, write_listing, write_plain, EatInput, GutterMark, InputEvent, InputPlan,
    PagerStep, Progress, RunStart, Span, Treatment,
};

fn strings(v: &[&str]) -> Vec<String> {
    v.iter().map(|s| s.to_string()).collect()
}

fn pager(eat: Option<&str>, pager: Option<&str>, path: Option<&str>, found: &[bool]) -> String {
    match resolve_pager(eat, pager, path, &found.to_vec()) {
        PagerStep::Found(p) => format!("found {p}"),
        PagerStep::Look(p) => format!("look {p}"),
        PagerStep::NotFound => "none".to_string(),
    }
}

#[test]
fn the_pager_is_named_or_found() {
    assert_eq!(pager(Some("a"), Some("b"), Some("/x"), &[]), "found a");
    assert_eq!(pager(Some(""), Some("b"), None, &[]), "found b");
    assert_eq!(pager(None, Some(""), None, &[]), "none");
    let path = Some("/bin:/usr/bin/::x");
    assert_eq!(pager(None, None, path, &[]), "look /bin/less");
    assert_eq!(pager(None, None, path, &[false]), "look /usr/bin/less");
    assert_eq!(pager(None, None, path, &[false, false]), "look less");
    assert_eq!(pager(None, None, path, &[false, true]), "found /usr/bin/less");
    assert_eq!(pager(None, None, path, &[false, false, false]), "look x/less");
    assert_eq!(pager(None, None, path, &[false, false, false, false]), "none");
    for dir in ["/bin", "/usr/bin/", "", "x", "/"] {
        let want = std::path::Path::new(dir).join("less");
        assert_eq!(pager(None, None, Some(dir), &[true]), format!("found {}", want.display()));
    }
    assert_eq!(pager_args(Some("less"), true), strings(&["-R", "-F"]));
    assert_eq!(pager_args(Some("less"), false), strings(&["-R", "-F", "-S"]));
    assert_eq!(pager_args(Some("most"), false), strings(&[]));
    assert_eq!(pager_args(None, false), strings(&[]));
}

fn spans(v: &[(usize, u32)]) -> Vec<Span> {
    v.iter().map(|&(start, kind)| Span { start, kind }).collect()
}

#[test]
fn a_line_is_written_in_its_colors() {
    let colors = ["", "\x1b[31m"];
    let s = spans(&[(0, 1), (2, 0), (3, 9), (5, 1), (100, 0)]);
    let mut out = b">".to_vec();
    render_body(&s, &colors, b"abcdefg", true, &mut out);
    assert_eq!(out, b">\x1b[31mab\x1b[mcde\x1b[31mfg\x1b[m");
    let mut out = Vec::new();
    render_body(&s, &colors, b"abcdefg", false, &mut out);
    assert_eq!(out, b"abcdefg");
    let mut out = Vec::new();
    render_body(&[], &colors, b"abc", true, &mut out);
    render_body(&spans(&[(0, 1)]), &colors, b"abc", true, &mut out);
    assert!(out.is_empty());
    // A stretch may end within a character.
    write_highlighted_line(b"1 | ", &spans(&[(0, 1), (1, 0), (2, 0)]), &colors, "\u{e9}".as_bytes(), true, &mut out);
    assert_eq!(out, b"1 | \x1b[31m\xc3\x1b[m\xa9\n");
    assert_eq!(line_mark(true, GutterMark::Diff(3)), GutterMark::Conflict);
    assert_eq!(line_mark(false, GutterMark::Diff(3)), GutterMark::Diff(3));
    assert_eq!(line_mark(false, GutterMark::Unmarked), GutterMark::Unmarked);
}

#[test]
fn a_listing_is_written_like_a_file() {
    let mut head = String::new();
    write_header(Some("x"), true, &mut head);
    write_header(None, true, &mut head);
    write_header(Some("y"), false, &mut head);
    assert_eq!(head, "\x1b[1m--- x ---\x1b[m\n--- y ---\n");
    let mut out = Vec::new();
    write_listing(&strings(&["a", "\u{e9}"]), &vec![b"1 ".to_vec(), b"2 ".to_vec()], Some("d"), false, &mut out);
    assert_eq!(out, "--- d ---\n1 a\n2 \u{e9}\n".as_bytes());
    let mut out = Vec::new();
    write_listing(&strings(&["a", "b"]), &vec![], None, true, &mut out);
    assert_eq!(out, b"a\nb\n");
    assert_eq!((number_width(0), number_width(9), number_width(10), number_width(12345)), (1, 1, 2, 5));
    assert_eq!(number_width(usize::MAX), usize::MAX.to_string().len());
    assert_eq!(join_lines(&strings(&["a", "", "\u{e9}"])), "a\n\n\u{e9}\n".as_bytes());
}

#[test]
fn a_range_selects_lines_and_keeps_their_numbers() {
    let all: Vec<String> = (1..=10).map(|n| n.to_string()).collect();
    let pick = |start: Option<usize>, end: Option<usize>| {
        let (rows, first) = apply_line_range(&all, Some(&LineRange { start, end }));
        (rows.join(","), first)
    };
    assert_eq!(pick(Some(3), Some(5)), ("3,4,5".to_string(), 3));
    assert_eq!(pick(Some(9), None), ("9,10".to_string(), 9));
    assert_eq!(pick(None, Some(2)), ("1,2".to_string(), 1));
    assert_eq!(pick(None, None), ("1,2,3,4,5,6,7,8,9,10".to_string(), 1));
    assert_eq!(pick(Some(5), Some(3)), ("".to_string(), 5));
    // There is no line 0.
    assert_eq!(pick(Some(0), Some(2)), ("1,2".to_string(), 1));
    assert_eq!(pick(Some(99), Some(100)), ("".to_string(), 99));
    assert_eq!(pick(Some(10), Some(usize::MAX)), ("10".to_string(), 10));
    let (rows, first) = apply_line_range(&all, None);
    assert_eq!((rows.len(), first), (10, 1));
}

#[test]
fn a_run_reads_its_inputs() {
    let show = |v: Vec<EatInput>| v.iter().map(|i| match i {
        EatInput::File(p) => p.clone(),
        EatInput::Stdin => "<stdin>".to_string(),
    }).collect::<Vec<_>>().join(" ");
    assert_eq!(show(collect_inputs(&vec![])), "<stdin>");
    assert_eq!(show(collect_inputs(&strings(&["a", "-", "b", "-"]))), "a <stdin> b <stdin>");
    assert!(matches!(start_run("eat", &vec![], None, false, true), RunStart::ShortHelp));
    assert!(matches!(start_run("eat", &vec![], Some("rust"), true, true), RunStart::ShortHelp));
    assert!(matches!(start_run("eat", &vec![], Some("x y"), false, true), RunStart::UnknownLanguage(s) if s == "eat: unknown language 'x y'"));
    assert!(matches!(start_run("eat", &vec![], None, false, false), RunStart::Read(v) if v.len() == 1));
    assert_eq!(input_failure("eat", &EatInput::Stdin, "no"), "eat: stdin: no");
    assert_eq!(input_failure("eat", &EatInput::File("f".to_string()), "no"), "eat: f: no");
}

#[test]
fn plain_output_is_never_paged() {
    for mode in [PagingMode::Auto, PagingMode::Always, PagingMode::Never] {
        assert!(!wants_pager(true, mode, true));
    }
    assert!(wants_pager(false, PagingMode::Auto, true));
    assert!(!wants_pager(false, PagingMode::Auto, false));
    assert!(wants_pager(false, PagingMode::Always, false));
    assert!(!wants_pager(false, PagingMode::Never, true));
}

#[test]
fn paging_counts_as_a_terminal_for_color() {
    assert!(run_uses_color(ColorMode::Auto, true, false, None, Some(b"1")));
    assert!(!run_uses_color(ColorMode::Never, true, true, Some(b"1"), None));
    assert!(!run_uses_color(ColorMode::Auto, false, true, None, Some(b"1")));
    assert!(run_uses_color(ColorMode::Always, false, false, None, None));
}

#[test]
fn an_input_is_planned() {
    let f = EatInput::File("f".to_string());
    let plan = |input: &EatInput, is_dir: bool, plain: bool| plan_input(input, is_dir, plain, true, true, true, 2);
    let full = InputPlan { treatment: Treatment::Highlighted, header: true, numbers: true, color: true };
    assert_eq!(plan(&f, false, false), full);
    assert_eq!(plan(&f, true, false), InputPlan { treatment: Treatment::Listing, ..full });
    let none = InputPlan { treatment: Treatment::PlainLines, header: false, numbers: false, color: false };
    assert_eq!(plan(&f, false, true), none);
    assert_eq!(plan(&f, true, true), InputPlan { treatment: Treatment::Listing, ..none });
    assert_eq!(plan(&EatInput::Stdin, false, false), InputPlan { header: false, ..full });
    assert_eq!(plan(&EatInput::Stdin, false, true), none);
    assert!(!plan_input(&EatInput::Stdin, false, false, false, true, true, 1).numbers);
    assert!(!plan_input(&f, false, false, true, true, true, 1).header);
    assert!(!plan_input(&f, false, false, true, true, false, 2).header);
}

#[test]
fn a_run_keeps_its_errors() {
    let mut p = Progress::new();
    p.note(InputEvent::Written, true);
    assert!(p.goes_on(0, 1) && !p.goes_on(1, 1));
    assert_eq!(p.end(), End::Ended);
    p.note(InputEvent::BrokenPipe, false);
    assert!(!p.goes_on(0, 1));
    assert_eq!(p.end(), End::Ended);
    let mut p = Progress::new();
    p.note(InputEvent::Unreadable, false);
    assert!(p.goes_on(0, 1));
    assert_eq!(p.end(), End::Failed);
    let mut p = Progress::new();
    p.note(InputEvent::WriteFailed, false);
    assert_eq!((p.goes_on(0, 1), p.end()), (true, End::Failed));
    p.note(InputEvent::WriteFailed, true);
    assert_eq!((p.goes_on(0, 1), p.end()), (false, End::Failed));
}

#[test]
fn plain_output_is_what_was_read() {
    let plain = |bytes: &[u8], start: Option<usize>, end: Option<usize>| {
        let mut out = Vec::new();
        write_plain(bytes, Some(&LineRange { start, end }), &mut out);
        out
    };
    for bytes in [&b""[..], b"\n", b"a", b"a\n", b"a\r\nb\r\n\xff", b"\n\na\n\n"] {
        let mut out = b">".to_vec();
        write_plain(bytes, None, &mut out);
        assert_eq!(&out[1..], bytes);
        assert_eq!(plain(bytes, None, None), bytes);
    }
    let bytes = b"one\r\ntwo\nthree";
    assert_eq!(plain(bytes, Some(1), Some(1)), b"one\r\n");
    assert_eq!(plain(bytes, Some(2), None), b"two\nthree");
    assert_eq!(plain(bytes, Some(3), Some(9)), b"three");
    assert_eq!(plain(bytes, Some(4), None), b"");
    assert_eq!(plain(b"a\n", Some(2), None), b"");
}

/// What stands before a line, as the gutter writes it.
fn prefix(line_no: usize, mark: GutterMark, use_color: bool) -> Vec<u8> {
    let sign = if mark == GutterMark::Conflict { '!' } else { '|' };
    if use_color { format!("\x1b[2m{line_no}\x1b[m {sign} ").into_bytes() } else { format!("{line_no} {sign} ").into_bytes() }
}

/// Lines inside a merge conflict get the conflict mark even when the diff has
/// nothing to say about them; the line after it is back to the diff's own mark.
#[test]
fn the_gutter_marks_every_line_of_a_conflict() {
    let lines = ["a", "<<<<<<< HEAD", "ours", "=======", "theirs", ">>>>>>> b", "c"];
    let in_conflict = [false, true, true, true, true, true, false];
    let mut out = Vec::new();
    for (i, line) in lines.iter().enumerate() {
        let mark = line_mark(in_conflict[i], GutterMark::Unmarked);
        let whole = spans(&[(0, 0), (line.len(), 0)]);
        write_highlighted_line(&prefix(i + 1, mark, false), &whole, &[], line.as_bytes(), false, &mut out);
    }
    let text = String::from_utf8(out).unwrap();
    let prefixes: Vec<&str> = text.lines().map(|l| &l[..4]).collect();
    assert_eq!(prefixes, ["1 | ", "2 ! ", "3 ! ", "4 ! ", "5 ! ", "6 ! ", "7 | "]);
    let bodies: Vec<&str> = text.lines().map(|l| &l[4..]).collect();
    assert_eq!(bodies, lines);
}

/// A slice that starts mid-file keeps the file's line numbers, so a `---` at
/// the top of the slice is not mistaken for frontmatter on line 1.
#[test]
fn a_line_range_keeps_the_file_line_numbers() {
    let all = strings(&["1", "2", "3", "4", "5", "---", "title: x", "---"]);
    let (lines, first_line) = apply_line_range(&all, Some(&LineRange { start: Some(6), end: None }));
    assert_eq!(lines, ["---", "title: x", "---"]);
    let colors = ["", "\x1b[94m"];
    let mut out = Vec::new();
    for (i, line) in lines.iter().enumerate() {
        let line_no = first_line + i;
        // A fence is frontmatter on line 1 alone.
        let kind = if line_no == 1 { 1 } else { 0 };
        let whole = spans(&[(0, kind), (line.len(), 0)]);
        write_highlighted_line(&prefix(line_no, GutterMark::Unmarked, true), &whole, &colors, line.as_bytes(), true, &mut out);
    }
    let text = String::from_utf8(out).unwrap();
    assert!(text.contains("6\x1b[m"), "numbering starts at the slice's file line: {text:?}");
    assert!(!text.contains("\x1b[94m---"), "a mid-file --- is not frontmatter: {text:?}");
}

#[test]
fn lines_are_numbered_from_the_first_one_shown() {
    let all = strings(&["a", "b", "c", "d", "e"]);
    let numbers = |start, end| {
        let (lines, first) = apply_line_range(&all, Some(&LineRange { start, end }));
        line_numbers(first, lines.len())
    };
    assert_eq!(numbers(Some(2), Some(4)), [2, 3, 4]);
    assert_eq!(numbers(None, Some(2)), [1, 2]);
    assert_eq!(numbers(Some(5), None), [5]);
    assert!(numbers(Some(9), None).is_empty());
    assert_eq!(line_numbers(usize::MAX - 1, 2), [usize::MAX - 1, usize::MAX]);
    assert!(line_numbers(usize::MAX, 0).is_empty());
}

#[test]
fn a_run_that_reads_nothing_ends_at_once() {
    let start = start_run("eat", &strings(&["f"]), Some("nope"), false, false);
    let last = finish_start(&start, "eat", false).unwrap();
    assert_eq!((last.out.as_str(), last.err.as_str(), last.end), ("", "eat: unknown language 'nope'\n", End::Refused));
    let start = start_run("eat", &vec![], None, false, true);
    let last = finish_start(&start, "edit", true).unwrap();
    assert_eq!((last.out.as_str(), last.err.as_str(), last.end), ("", short_help("edit", true).as_str(), End::Ended));
    let start = start_run("eat", &strings(&["f"]), None, false, true);
    assert!(finish_start(&start, "eat", false).is_none());
}
